use nltt::protocol::PupaFrame;
use nltt::registry::State;
use nltt::session::{GameSession, SessionPhase, handle_admin_frame};
use nltt::store::MessageStore;
use nltt::textgen::generate_random_text;
use nltt::winlog::WinLogStore;

const PEER_A: u128 = 1;
const PEER_B: u128 = 2;
const PEER_C: u128 = 3;
const MSG: u128 = 0x10;

#[test]
fn authorize_then_content_broadcast() {
    let mut registry = State::new();
    let mut store = MessageStore::new();
    let mut winlog = WinLogStore::new();

    let mut s1 = GameSession::new();
    assert!(s1.on_first_frame(&PupaFrame::Authorize { signature: PEER_A }, 101, &mut registry));
    let mut s2 = GameSession::new();
    assert!(s2.on_first_frame(&PupaFrame::Authorize { signature: PEER_B }, 102, &mut registry));

    let eff = s1.on_frame(
        PupaFrame::Content { msg_id: MSG, body: vec![0xde, 0xad] },
        &mut store,
        &mut registry,
        &mut winlog,
        5000,
    );
    // Only the other online peer's mailbox is targeted.
    assert_eq!(eff.targets, vec![102]);
    assert_eq!(eff.frame, Some(PupaFrame::Content { msg_id: MSG, body: vec![0xde, 0xad] }));
    assert!(store.contains(MSG));

    let winners = registry.get_sorted_winners();
    let p1 = winners.iter().find(|p| p.signature == PEER_A).unwrap();
    let p2 = winners.iter().find(|p| p.signature == PEER_B).unwrap();
    assert_eq!(p1.messages_sent, 1);
    assert_eq!(p1.messages_received, 0);
    assert_eq!(p2.messages_received, 1);
    assert_eq!(p2.messages_sent, 0);
}

#[test]
fn flash_wins_and_late_flash_is_dropped() {
    let mut registry = State::new();
    let mut store = MessageStore::new();
    let mut winlog = WinLogStore::new();

    let mut s1 = GameSession::new();
    s1.on_first_frame(&PupaFrame::Authorize { signature: PEER_A }, 101, &mut registry);
    let mut s2 = GameSession::new();
    s2.on_first_frame(&PupaFrame::Authorize { signature: PEER_B }, 102, &mut registry);
    let mut s3 = GameSession::new();
    s3.on_first_frame(&PupaFrame::Authorize { signature: PEER_C }, 103, &mut registry);

    s1.on_frame(
        PupaFrame::Content { msg_id: MSG, body: vec![0xde, 0xad] },
        &mut store,
        &mut registry,
        &mut winlog,
        5000,
    );

    // PEER_B flashes first: the Win goes toward PEER_A's mailbox.
    let eff = s2.on_frame(
        PupaFrame::Flash { msg_id: MSG },
        &mut store,
        &mut registry,
        &mut winlog,
        5001,
    );
    assert_eq!(eff.frame, Some(PupaFrame::Win { msg_id: MSG, body: vec![0xde, 0xad] }));
    assert_eq!(eff.targets, vec![101]);
    assert!(!store.contains(MSG));
    let all = winlog.get_all();
    assert_eq!(all, vec![(PEER_B, 5001, MSG)]);

    // PEER_C's late flash changes nothing and delivers nothing.
    let late = s3.on_frame(
        PupaFrame::Flash { msg_id: MSG },
        &mut store,
        &mut registry,
        &mut winlog,
        5002,
    );
    assert_eq!(late.frame, None);
    assert!(late.targets.is_empty());
    assert_eq!(winlog.len(), 1);

    let winners = registry.get_sorted_winners();
    assert_eq!(winners.iter().find(|p| p.signature == PEER_B).unwrap().wins, 1);
    assert_eq!(winners.iter().find(|p| p.signature == PEER_C).unwrap().wins, 0);
}

#[test]
fn exactly_one_of_two_racing_flashes_wins() {
    let mut registry = State::new();
    let mut store = MessageStore::new();
    let mut winlog = WinLogStore::new();

    let mut s1 = GameSession::new();
    s1.on_first_frame(&PupaFrame::Authorize { signature: PEER_A }, 101, &mut registry);
    let mut s2 = GameSession::new();
    s2.on_first_frame(&PupaFrame::Authorize { signature: PEER_B }, 102, &mut registry);
    let mut s3 = GameSession::new();
    s3.on_first_frame(&PupaFrame::Authorize { signature: PEER_C }, 103, &mut registry);

    s1.on_frame(
        PupaFrame::Content { msg_id: MSG, body: vec![1] },
        &mut store,
        &mut registry,
        &mut winlog,
        0,
    );

    // Whatever order the lock linearizes, only the first flash lands.
    let e2 = s2.on_frame(PupaFrame::Flash { msg_id: MSG }, &mut store, &mut registry, &mut winlog, 1);
    let e3 = s3.on_frame(PupaFrame::Flash { msg_id: MSG }, &mut store, &mut registry, &mut winlog, 2);
    let wins_delivered = e2.targets.len() + e3.targets.len();
    assert_eq!(wins_delivered, 1);
    let winners = registry.get_sorted_winners();
    let w2 = winners.iter().find(|p| p.signature == PEER_B).unwrap().wins;
    let w3 = winners.iter().find(|p| p.signature == PEER_C).unwrap().wins;
    assert_eq!(w2 + w3, 1);
    assert_eq!(w2, 1);
}

#[test]
fn unauthorized_first_frame_closes_without_registry_mutation() {
    let mut registry = State::new();
    let mut session = GameSession::new();
    let accepted = session.on_first_frame(
        &PupaFrame::Content { msg_id: MSG, body: vec![1] },
        101,
        &mut registry,
    );
    assert!(!accepted);
    assert!(matches!(session.phase, SessionPhase::Closed));
    assert!(registry.get_sorted_winners().is_empty());
}

#[test]
fn reconnect_preserves_counters() {
    let mut registry = State::new();
    let mut store = MessageStore::new();
    let mut winlog = WinLogStore::new();

    let mut s1 = GameSession::new();
    s1.on_first_frame(&PupaFrame::Authorize { signature: PEER_A }, 101, &mut registry);
    let mut s2 = GameSession::new();
    s2.on_first_frame(&PupaFrame::Authorize { signature: PEER_B }, 102, &mut registry);

    s1.on_frame(PupaFrame::Content { msg_id: MSG, body: vec![1] }, &mut store, &mut registry, &mut winlog, 0);
    s2.on_frame(PupaFrame::Flash { msg_id: MSG }, &mut store, &mut registry, &mut winlog, 1);

    // PEER_B disconnects, then reconnects with the same identity.
    s2.on_disconnect(&mut registry);
    let offline = registry.get_sorted_winners();
    let p2 = offline.iter().find(|p| p.signature == PEER_B).unwrap();
    assert!(!p2.online);
    assert_eq!(p2.wins, 1);

    let mut s2b = GameSession::new();
    s2b.on_first_frame(&PupaFrame::Authorize { signature: PEER_B }, 202, &mut registry);
    let winners = registry.get_sorted_winners();
    let p2 = winners.iter().find(|p| p.signature == PEER_B).unwrap();
    assert!(p2.online);
    assert_eq!(p2.wins, 1);
    assert_eq!(p2.messages_received, 1);
    assert_eq!(p2.messages_sent, 0);
}

#[test]
fn repeated_authorize_mid_session_is_ignored() {
    let mut registry = State::new();
    let mut store = MessageStore::new();
    let mut winlog = WinLogStore::new();

    let mut s1 = GameSession::new();
    s1.on_first_frame(&PupaFrame::Authorize { signature: PEER_A }, 101, &mut registry);
    let eff = s1.on_frame(
        PupaFrame::Authorize { signature: PEER_B },
        &mut store,
        &mut registry,
        &mut winlog,
        0,
    );
    assert_eq!(eff.frame, None);
    assert!(eff.targets.is_empty());
    assert_eq!(registry.get_sorted_winners().len(), 1);
}

#[test]
fn admin_show_winners_sorted_by_online_then_wins() {
    let mut registry = State::new();
    let mut store = MessageStore::new();
    let mut winlog = WinLogStore::new();

    let mut s1 = GameSession::new();
    s1.on_first_frame(&PupaFrame::Authorize { signature: PEER_A }, 101, &mut registry);
    let mut s2 = GameSession::new();
    s2.on_first_frame(&PupaFrame::Authorize { signature: PEER_B }, 102, &mut registry);
    let mut s3 = GameSession::new();
    s3.on_first_frame(&PupaFrame::Authorize { signature: PEER_C }, 103, &mut registry);

    s1.on_frame(PupaFrame::Content { msg_id: MSG, body: vec![1] }, &mut store, &mut registry, &mut winlog, 7);
    s2.on_frame(PupaFrame::Flash { msg_id: MSG }, &mut store, &mut registry, &mut winlog, 8);
    s3.on_disconnect(&mut registry);

    let rows = handle_admin_frame(&PupaFrame::ShowWinners, &registry, &winlog);
    assert_eq!(rows.len(), 3);
    // Offline peers first, then ascending wins.
    match &rows[0] {
        PupaFrame::WinnerRecord { signature, online, .. } => {
            assert_eq!(*signature, PEER_C);
            assert!(!*online);
        }
        other => panic!("expected a WinnerRecord, got {:?}", other),
    }
    match (&rows[1], &rows[2]) {
        (
            PupaFrame::WinnerRecord { wins: w1, .. },
            PupaFrame::WinnerRecord { signature, wins: w2, .. },
        ) => {
            assert!(w1 <= w2);
            assert_eq!(*signature, PEER_B);
            assert_eq!(*w2, 1);
        }
        other => panic!("expected WinnerRecords, got {:?}", other),
    }

    let log_rows = handle_admin_frame(&PupaFrame::ShowWinnersLog, &registry, &winlog);
    assert_eq!(log_rows.len(), 1);
    assert_eq!(
        log_rows[0],
        PupaFrame::WinLogRecord { signature: PEER_B, timestamp: 8, msg_id: MSG }
    );

    // Any other variant yields nothing.
    let none = handle_admin_frame(&PupaFrame::ShowWinners, &State::new(), &WinLogStore::new());
    assert!(none.is_empty());
    let ignored = handle_admin_frame(&PupaFrame::NonAuthorized, &registry, &winlog);
    assert!(ignored.is_empty());
}

#[test]
fn generated_text_is_alphanumeric_and_bounded() {
    for _ in 0..50 {
        let body = generate_random_text();
        assert!(body.len() >= 30 && body.len() < 100);
        for b in body {
            assert!(b.is_ascii_alphanumeric());
        }
    }
}
