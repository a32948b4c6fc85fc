//! The per-connection session logic.
//!
//! A game session starts awaiting authorization: the first decoded frame
//! must be `Authorize`, which attaches the peer to the registry; anything
//! else closes the connection without touching the registry. An active
//! session then reacts to each inbound frame: `Content` is pooled and
//! fanned out to every other online peer, `Flash` races to extract the
//! cited message — the first one wins, credits the flasher, logs the win,
//! and routes a `Win` frame toward the original sender — and every other
//! variant is ignored. An admin session is stateless: each query frame
//! yields the frames of one snapshot.
//!
//! Everything a session decides is returned as plain values (frames and
//! mailbox handles); performing the sends is the caller's business.

use vstd::prelude::*;
use crate::protocol::{PupaFrame, FrameModel, Uid};
use crate::store::{MessageStore, Pending, contains_key_model, key_index, keys_distinct,
    lemma_extract_unique};
use crate::registry::{State, Peer, attach_model, detach_model, credit_model, broadcast_model,
    broadcast_targets, channel_of, sorted_by_rank, sigs_distinct, sig_index, sat_inc,
    contains_sig};
use crate::winlog::{WinLogStore, WinEntry, append_model};

verus! {

/// The phase of a game session: authorize first, then exchange, until
/// the connection goes away.
pub enum SessionPhase {
    AwaitingAuth,
    Active { signature: Uid },
    Closed,
}

impl SessionPhase {
    pub open spec fn is_active(self) -> bool {
        self matches SessionPhase::Active { .. }
    }

    /// The identity bound to an active session.
    pub open spec fn active_sig(self) -> Uid {
        match self {
            SessionPhase::Active { signature } => signature,
            _ => 0,
        }
    }
}

/// What a session step asks its caller to send: one frame, to each of
/// the listed mailboxes.
pub struct Effects {
    pub frame: Option<PupaFrame>,
    pub targets: Vec<u64>,
}

/// What one successful or failed flash does to the shared state, and the
/// mailboxes the resulting `Win` goes to: the pending entry is extracted,
/// the flasher is credited, the win is logged, and the `Win` is routed to
/// the original sender's mailbox if one is attached. A flash for an
/// absent id changes nothing.
pub open spec fn flash_model(
    store: Seq<Pending>,
    registry: Seq<Peer>,
    winlog: Seq<WinEntry>,
    flasher: Uid,
    msg_id: Uid,
    now: u64,
) -> (Seq<Pending>, Seq<Peer>, Seq<WinEntry>, Seq<u64>) {
    if contains_key_model(store, msg_id) {
        let e = store[key_index(store, msg_id)];
        (
            MessageStore::extract_model(store, msg_id),
            credit_model(registry, flasher),
            append_model(winlog, WinEntry { signature: flasher, timestamp: now, msg_id }),
            match channel_of(registry, e.1) {
                Some(c) => seq![c],
                None => Seq::empty(),
            },
        )
    } else {
        (store, registry, winlog, Seq::empty())
    }
}

/// A game session.
pub struct GameSession {
    pub phase: SessionPhase,
}

/// Copy a byte vector.
fn clone_bytes(v: &Vec<u8>) -> (r: Vec<u8>)
    ensures
        r@ == v@,
{
    let mut r: Vec<u8> = Vec::new();
    let mut i: usize = 0;
    while i < v.len()
        invariant
            i <= v@.len(),
            r@ == v@.take(i as int),
        decreases v@.len() - i,
    {
        r.push(v[i]);
        i = i + 1;
        assert(r@ =~= v@.take(i as int));
    }
    assert(r@ =~= v@);
    r
}

impl GameSession {
    pub fn new() -> (s: Self)
        ensures
            s.phase == SessionPhase::AwaitingAuth,
    {
        GameSession { phase: SessionPhase::AwaitingAuth }
    }

    /// Decide the first decoded frame of the connection. Only `Authorize`
    /// opens the session: the peer is attached to the registry with the
    /// given mailbox, keeping any counters an earlier record of the same
    /// identity holds. Any other first frame closes the session with no
    /// registry mutation.
    pub fn on_first_frame(&mut self, frame: &PupaFrame, channel: u64, registry: &mut State)
        -> (accepted: bool)
        requires
            old(self).phase == SessionPhase::AwaitingAuth,
            old(registry).wf(),
        ensures
            final(registry).wf(),
            match frame@ {
                FrameModel::Authorize { signature } => accepted
                    && final(self).phase == (SessionPhase::Active { signature })
                    && final(registry)@ == attach_model(old(registry)@, Peer {
                        signature,
                        online: true,
                        messages_received: 0,
                        messages_sent: 0,
                        wins: 0,
                        channel: Some(channel),
                    }),
                _ => !accepted
                    && final(self).phase == SessionPhase::Closed
                    && final(registry)@ == old(registry)@,
            },
    {
        match frame {
            PupaFrame::Authorize { signature } => {
                registry.add_peer(Peer {
                    signature: *signature,
                    online: true,
                    messages_received: 0,
                    messages_sent: 0,
                    wins: 0,
                    channel: Some(channel),
                });
                self.phase = SessionPhase::Active { signature: *signature };
                true
            }
            _ => {
                self.phase = SessionPhase::Closed;
                false
            }
        }
    }

    /// React to one inbound frame of an active session.
    ///
    /// `Content` records the message in the pool under this session's
    /// identity, accounts a broadcast, and asks the caller to fan the
    /// frame out to every other online peer. `Flash` attempts the
    /// extraction race: on success the flasher is credited, the win is
    /// logged at `now_secs`, and a `Win` frame is routed toward the
    /// original sender's mailbox; a late flash changes nothing. Every
    /// other variant is ignored.
    pub fn on_frame(
        &mut self,
        frame: PupaFrame,
        store: &mut MessageStore,
        registry: &mut State,
        winlog: &mut WinLogStore,
        now_secs: u64,
    ) -> (eff: Effects)
        requires
            old(self).phase.is_active(),
            old(store).wf(),
            old(registry).wf(),
            old(winlog).wf(),
        ensures
            final(self).phase == old(self).phase,
            final(store).wf(),
            final(registry).wf(),
            final(winlog).wf(),
            ({
                let sig = old(self).phase.active_sig();
                match frame@ {
                    FrameModel::Content { msg_id, body } => {
                        &&& final(store)@ == MessageStore::insert_model(old(store)@, msg_id, sig, body)
                        &&& final(registry)@ == broadcast_model(old(registry)@, sig)
                        &&& final(winlog)@ == old(winlog)@
                        &&& match eff.frame {
                            Some(f) => f@ == FrameModel::Content { msg_id, body },
                            None => false,
                        }
                        &&& eff.targets@ == broadcast_targets(old(registry)@, sig)
                    },
                    FrameModel::Flash { msg_id } => {
                        let r = flash_model(old(store)@, old(registry)@, old(winlog)@, sig, msg_id, now_secs);
                        &&& final(store)@ == r.0
                        &&& final(registry)@ == r.1
                        &&& final(winlog)@ == r.2
                        &&& eff.targets@ == r.3
                        &&& if contains_key_model(old(store)@, msg_id) {
                            match eff.frame {
                                Some(f) => f@ == (FrameModel::Win {
                                    msg_id,
                                    body: old(store)@[key_index(old(store)@, msg_id)].2,
                                }),
                                None => false,
                            }
                        } else {
                            eff.frame is None
                        }
                    },
                    _ => {
                        &&& final(store)@ == old(store)@
                        &&& final(registry)@ == old(registry)@
                        &&& final(winlog)@ == old(winlog)@
                        &&& eff.frame is None
                        &&& eff.targets@.len() == 0
                    },
                }
            }),
    {
        let ghost sig_g = old(self).phase.active_sig();
        let sig = match &self.phase {
            SessionPhase::Active { signature } => *signature,
            _ => 0,
        };
        assert(sig == sig_g);
        match frame {
            PupaFrame::Content { msg_id, body } => {
                let stored = clone_bytes(&body);
                store.insert(msg_id, sig, stored);
                let targets = registry.broadcast(sig);
                Effects { frame: Some(PupaFrame::Content { msg_id, body }), targets }
            }
            PupaFrame::Flash { msg_id } => {
                match store.extract(msg_id) {
                    Some((mid, orig_sender, body)) => {
                        let mut targets: Vec<u64> = Vec::new();
                        match registry.get_channel(orig_sender) {
                            Some(c) => {
                                targets.push(c);
                                assert(targets@ =~= seq![c]);
                            }
                            None => {}
                        }
                        registry.update_winners(sig);
                        winlog.insert(mid, sig, now_secs);
                        Effects { frame: Some(PupaFrame::Win { msg_id: mid, body }), targets }
                    }
                    None => Effects { frame: None, targets: Vec::new() },
                }
            }
            _ => Effects { frame: None, targets: Vec::new() },
        }
    }

    /// The connection went away: detach the peer, keeping its record and
    /// counters, and close the session.
    pub fn on_disconnect(&mut self, registry: &mut State)
        requires
            old(self).phase.is_active(),
            old(registry).wf(),
        ensures
            final(self).phase == SessionPhase::Closed,
            final(registry).wf(),
            final(registry)@ == detach_model(old(registry)@, old(self).phase.active_sig()),
    {
        let sig = match &self.phase {
            SessionPhase::Active { signature } => *signature,
            _ => 0,
        };
        registry.disable_peer(sig);
        self.phase = SessionPhase::Closed;
    }
}

// ---------------------------------------------------------------------------
// The admin session.
// ---------------------------------------------------------------------------

/// The leaderboard row a peer record yields.
pub open spec fn winner_record_model(p: Peer) -> FrameModel {
    FrameModel::WinnerRecord {
        signature: p.signature,
        online: p.online,
        wins: p.wins,
        messages_received: p.messages_received,
        messages_sent: p.messages_sent,
    }
}

/// The win-log row a win entry yields.
pub open spec fn winlog_record_model(e: WinEntry) -> FrameModel {
    FrameModel::WinLogRecord {
        signature: e.signature,
        timestamp: e.timestamp as u128,
        msg_id: e.msg_id,
    }
}

/// The frames are exactly the leaderboard rows of the given peers.
pub open spec fn winner_frames_match(fs: Seq<PupaFrame>, ss: Seq<Peer>) -> bool {
    fs.len() == ss.len() && forall|i: int| 0 <= i < fs.len() ==> fs[i]@ == winner_record_model(#[trigger] ss[i])
}

/// One leaderboard row per peer, in the given order.
pub fn winners_to_frames(peers: &Vec<Peer>) -> (r: Vec<PupaFrame>)
    ensures
        winner_frames_match(r@, peers@),
{
    let mut r: Vec<PupaFrame> = Vec::new();
    let mut i: usize = 0;
    while i < peers.len()
        invariant
            i <= peers@.len(),
            r@.len() == i,
            forall|j: int| 0 <= j < i ==> r@[j]@ == winner_record_model(#[trigger] peers@[j]),
        decreases peers@.len() - i,
    {
        let p = peers[i];
        r.push(PupaFrame::WinnerRecord {
            signature: p.signature,
            online: p.online,
            wins: p.wins,
            messages_received: p.messages_received,
            messages_sent: p.messages_sent,
        });
        i = i + 1;
    }
    r
}

/// React to one admin query frame: `ShowWinners` yields one leaderboard
/// row per peer, ordered by the online flag and then wins, both
/// ascending; `ShowWinnersLog` yields one row per win-log entry in
/// insertion order; anything else yields nothing.
pub fn handle_admin_frame(frame: &PupaFrame, registry: &State, winlog: &WinLogStore)
    -> (r: Vec<PupaFrame>)
    ensures
        frame@ is ShowWinners ==> exists|ss: Seq<Peer>|
            sorted_by_rank(ss) && ss.to_multiset() == registry@.to_multiset()
                && winner_frames_match(r@, ss),
        frame@ is ShowWinnersLog ==> r@.len() == winlog@.len()
            && forall|i: int| 0 <= i < r@.len() ==> r@[i]@ == winlog_record_model(#[trigger] winlog@[i]),
        !(frame@ is ShowWinners) && !(frame@ is ShowWinnersLog) ==> r@.len() == 0,
{
    match frame {
        PupaFrame::ShowWinners => {
            let winners = registry.get_sorted_winners();
            let r = winners_to_frames(&winners);
            proof {
                let ss = winners@;
                assert(sorted_by_rank(ss) && ss.to_multiset() == registry@.to_multiset()
                    && winner_frames_match(r@, ss));
            }
            r
        }
        PupaFrame::ShowWinnersLog => {
            let records = winlog.get_all();
            let mut r: Vec<PupaFrame> = Vec::new();
            let mut i: usize = 0;
            while i < records.len()
                invariant
                    i <= records@.len(),
                    r@.len() == i,
                    records@.len() == winlog@.len(),
                    forall|j: int| 0 <= j < records@.len() ==> records@[j]
                        == (winlog@[j].signature, winlog@[j].timestamp, winlog@[j].msg_id),
                    forall|j: int| 0 <= j < i ==> r@[j]@ == winlog_record_model(#[trigger] winlog@[j]),
                decreases records@.len() - i,
            {
                let (signature, timestamp, msg_id) = records[i];
                r.push(PupaFrame::WinLogRecord {
                    signature,
                    timestamp: timestamp as u128,
                    msg_id,
                });
                i = i + 1;
            }
            r
        }
        _ => Vec::new(),
    }
}

// ---------------------------------------------------------------------------
// Laws of the race.
// ---------------------------------------------------------------------------

/// Flash-first-wins: with a pending message in the pool, of two flashes
/// for its id processed one after the other — their order is whatever
/// the store's lock linearized — only the first changes anything: it
/// alone is credited, exactly one `Win` is routed toward the original
/// sender (to its mailbox when one is attached), and the second flash
/// finds nothing, credits nobody, and delivers nothing.
pub proof fn lemma_flash_first_wins(
    store: Seq<Pending>,
    registry: Seq<Peer>,
    winlog: Seq<WinEntry>,
    msg_id: Uid,
    b_sig: Uid,
    c_sig: Uid,
    now_b: u64,
    now_c: u64,
)
    requires
        keys_distinct(store),
        sigs_distinct(registry),
        contains_key_model(store, msg_id),
    ensures
        ({
            let first = flash_model(store, registry, winlog, b_sig, msg_id, now_b);
            let second = flash_model(first.0, first.1, first.2, c_sig, msg_id, now_c);
            let sender = store[key_index(store, msg_id)].1;
            // The first flash wins: it is credited and one Win is routed
            // toward the original sender.
            &&& contains_sig(registry, b_sig)
                ==> first.1[sig_index(registry, b_sig)].wins
                    == sat_inc(registry[sig_index(registry, b_sig)].wins)
            &&& first.3 == match channel_of(registry, sender) {
                Some(c) => seq![c],
                None => Seq::<u64>::empty(),
            }
            &&& channel_of(registry, sender) is Some ==> first.3.len() == 1
            // The second flash loses: nothing changes and nothing is sent.
            &&& second.0 == first.0
            &&& second.1 == first.1
            &&& second.2 == first.2
            &&& second.3 == Seq::<u64>::empty()
        }),
{
    lemma_extract_unique(store, msg_id);
    let first = flash_model(store, registry, winlog, b_sig, msg_id, now_b);
    assert(!contains_key_model(first.0, msg_id));
    if contains_sig(registry, b_sig) {
        let i = sig_index(registry, b_sig);
        assert(0 <= i < registry.len() && registry[i].signature == b_sig);
    }
}

} // verus!
