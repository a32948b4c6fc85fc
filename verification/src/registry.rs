//! The peer registry: one record per identity ever authorized, with its
//! online flag, lifetime counters, and the handle of the mailbox the
//! currently-attached session drains. Records are never destroyed, so the
//! counters survive reconnections.

use vstd::prelude::*;
use vstd::pervasive::VecAdditionalExecFns;
use crate::protocol::Uid;

verus! {

broadcast use vstd::seq_lib::group_to_multiset_ensures;

/// One peer's record. `channel` is the handle of the bounded outbound
/// mailbox of the attached session, or absent while the peer is offline.
#[derive(Clone, Copy, PartialEq, Eq, Debug)]
pub struct Peer {
    pub signature: Uid,
    pub online: bool,
    pub messages_received: u32,
    pub messages_sent: u32,
    pub wins: u32,
    pub channel: Option<u64>,
}

/// A peer record is well formed when it is online exactly if a mailbox
/// is attached.
pub open spec fn peer_wf(p: Peer) -> bool {
    p.online <==> p.channel is Some
}

pub open spec fn contains_sig(s: Seq<Peer>, sig: Uid) -> bool {
    exists|i: int| 0 <= i < s.len() && s[i].signature == sig
}

/// The index of the record with the given identity (meaningful when the
/// identities are distinct and the identity is present).
pub open spec fn sig_index(s: Seq<Peer>, sig: Uid) -> int {
    choose|i: int| 0 <= i < s.len() && s[i].signature == sig
}

pub open spec fn sigs_distinct(s: Seq<Peer>) -> bool {
    forall|i: int, j: int| 0 <= i < j < s.len() ==> s[i].signature != s[j].signature
}

/// Increment that sticks at the counter's ceiling instead of wrapping.
pub open spec fn sat_inc(x: u32) -> u32 {
    if x < u32::MAX { (x + 1) as u32 } else { x }
}

/// With distinct identities, any index holding `sig` is the index.
pub proof fn lemma_sig_index_unique(s: Seq<Peer>, sig: Uid, i: int)
    requires
        sigs_distinct(s),
        0 <= i < s.len(),
        s[i].signature == sig,
    ensures
        sig_index(s, sig) == i,
{
    assert(contains_sig(s, sig));
    let j = sig_index(s, sig);
    assert(0 <= j < s.len() && s[j].signature == sig);
    if i < j {
        assert(s[i].signature != s[j].signature);
    } else if j < i {
        assert(s[j].signature != s[i].signature);
    }
}

// ---------------------------------------------------------------------------
// The transitions, as mathematical functions.
// ---------------------------------------------------------------------------

/// Attaching: an existing record turns online with the new mailbox and
/// keeps every counter; an unknown identity gets a fresh record.
pub open spec fn attach_model(s: Seq<Peer>, peer: Peer) -> Seq<Peer> {
    if contains_sig(s, peer.signature) {
        let i = sig_index(s, peer.signature);
        s.update(i, Peer {
            signature: s[i].signature,
            online: true,
            messages_received: s[i].messages_received,
            messages_sent: s[i].messages_sent,
            wins: s[i].wins,
            channel: peer.channel,
        })
    } else {
        s.push(peer)
    }
}

/// Detaching: the record turns offline and loses its mailbox; counters
/// stay. An unknown identity changes nothing.
pub open spec fn detach_model(s: Seq<Peer>, sig: Uid) -> Seq<Peer> {
    if contains_sig(s, sig) {
        let i = sig_index(s, sig);
        s.update(i, Peer {
            signature: s[i].signature,
            online: false,
            messages_received: s[i].messages_received,
            messages_sent: s[i].messages_sent,
            wins: s[i].wins,
            channel: None,
        })
    } else {
        s
    }
}

/// Crediting a win: the record's win counter goes up by one.
pub open spec fn credit_model(s: Seq<Peer>, sig: Uid) -> Seq<Peer> {
    if contains_sig(s, sig) {
        let i = sig_index(s, sig);
        s.update(i, Peer {
            signature: s[i].signature,
            online: s[i].online,
            messages_received: s[i].messages_received,
            messages_sent: s[i].messages_sent,
            wins: sat_inc(s[i].wins),
            channel: s[i].channel,
        })
    } else {
        s
    }
}

/// What a broadcast does to one record: the sender's sent counter goes
/// up; every other online record's received counter goes up.
pub open spec fn bcast_peer(p: Peer, sender: Uid) -> Peer {
    if p.signature == sender {
        Peer {
            signature: p.signature,
            online: p.online,
            messages_received: p.messages_received,
            messages_sent: sat_inc(p.messages_sent),
            wins: p.wins,
            channel: p.channel,
        }
    } else if p.online {
        Peer {
            signature: p.signature,
            online: p.online,
            messages_received: sat_inc(p.messages_received),
            messages_sent: p.messages_sent,
            wins: p.wins,
            channel: p.channel,
        }
    } else {
        p
    }
}

pub open spec fn broadcast_model(s: Seq<Peer>, sender: Uid) -> Seq<Peer> {
    Seq::new(s.len(), |i: int| bcast_peer(s[i], sender))
}

/// The mailboxes a broadcast enqueues to: every online peer other than
/// the sender, in registry order.
pub open spec fn broadcast_targets(s: Seq<Peer>, sender: Uid) -> Seq<u64>
    decreases s.len(),
{
    if s.len() == 0 {
        Seq::empty()
    } else {
        broadcast_targets(s.drop_last(), sender) + ({
            let p = s.last();
            if p.online && p.signature != sender {
                match p.channel {
                    Some(c) => seq![c],
                    None => Seq::empty(),
                }
            } else {
                Seq::empty()
            }
        })
    }
}

/// The mailbox of the given identity, when it is online.
pub open spec fn channel_of(s: Seq<Peer>, sig: Uid) -> Option<u64> {
    if contains_sig(s, sig) {
        s[sig_index(s, sig)].channel
    } else {
        None
    }
}

/// The leaderboard order: offline before online, fewer wins first.
pub open spec fn peer_le(a: Peer, b: Peer) -> bool {
    (!a.online && b.online) || (a.online == b.online && a.wins <= b.wins)
}

pub open spec fn sorted_by_rank(s: Seq<Peer>) -> bool {
    forall|i: int, j: int| 0 <= i < j < s.len() ==> peer_le(s[i], s[j])
}

// ---------------------------------------------------------------------------
// The registry.
// ---------------------------------------------------------------------------

/// The shared registry of every peer ever authorized.
pub struct State {
    peers: Vec<Peer>,
}

impl View for State {
    type V = Seq<Peer>;

    closed spec fn view(&self) -> Seq<Peer> {
        self.peers@
    }
}

impl State {
    /// The registry's invariant: one record per identity, each record
    /// online exactly if it has a mailbox.
    pub open spec fn wf(&self) -> bool {
        sigs_distinct(self@) && forall|i: int| 0 <= i < self@.len() ==> peer_wf(#[trigger] self@[i])
    }

    pub fn new() -> (s: Self)
        ensures
            s@ == Seq::<Peer>::empty(),
            s.wf(),
    {
        State { peers: Vec::new() }
    }

    /// The index of the record with the given identity, if any.
    fn find(&self, sig: Uid) -> (r: Option<usize>)
        ensures
            match r {
                Some(i) => i < self@.len() && self@[i as int].signature == sig,
                None => !contains_sig(self@, sig),
            },
    {
        let mut i: usize = 0;
        while i < self.peers.len()
            invariant
                i <= self@.len(),
                forall|j: int| 0 <= j < i ==> self@[j].signature != sig,
            decreases self@.len() - i,
        {
            if self.peers[i].signature == sig {
                return Some(i);
            }
            i = i + 1;
        }
        None
    }

    /// Attach a peer: revive its record with the new mailbox, keeping all
    /// counters, or create a fresh record for a new identity.
    pub fn add_peer(&mut self, peer: Peer)
        requires
            old(self).wf(),
            peer.online,
            peer.channel is Some,
        ensures
            final(self).wf(),
            final(self)@ == attach_model(old(self)@, peer),
    {
        let ghost s0 = self@;
        match self.find(peer.signature) {
            Some(i) => {
                let p = self.peers[i];
                self.peers.set(i, Peer {
                    signature: p.signature,
                    online: true,
                    messages_received: p.messages_received,
                    messages_sent: p.messages_sent,
                    wins: p.wins,
                    channel: peer.channel,
                });
                proof {
                    lemma_sig_index_unique(s0, peer.signature, i as int);
                    assert forall|a: int, b: int| 0 <= a < b < self@.len()
                        implies self@[a].signature != self@[b].signature by {
                        assert(self@[a].signature == s0[a].signature);
                        assert(self@[b].signature == s0[b].signature);
                    }
                }
            }
            None => {
                self.peers.push(peer);
            }
        }
    }

    /// Detach a peer: mark it offline and drop its mailbox; counters stay.
    pub fn disable_peer(&mut self, signature: Uid)
        requires
            old(self).wf(),
        ensures
            final(self).wf(),
            final(self)@ == detach_model(old(self)@, signature),
    {
        let ghost s0 = self@;
        match self.find(signature) {
            Some(i) => {
                let p = self.peers[i];
                self.peers.set(i, Peer {
                    signature: p.signature,
                    online: false,
                    messages_received: p.messages_received,
                    messages_sent: p.messages_sent,
                    wins: p.wins,
                    channel: None,
                });
                proof {
                    lemma_sig_index_unique(s0, signature, i as int);
                    assert forall|a: int, b: int| 0 <= a < b < self@.len()
                        implies self@[a].signature != self@[b].signature by {
                        assert(self@[a].signature == s0[a].signature);
                        assert(self@[b].signature == s0[b].signature);
                    }
                }
            }
            None => {}
        }
    }

    /// Credit a win to the given identity.
    pub fn update_winners(&mut self, signature: Uid)
        requires
            old(self).wf(),
        ensures
            final(self).wf(),
            final(self)@ == credit_model(old(self)@, signature),
    {
        let ghost s0 = self@;
        match self.find(signature) {
            Some(i) => {
                let p = self.peers[i];
                let w = if p.wins < u32::MAX { p.wins + 1 } else { p.wins };
                self.peers.set(i, Peer {
                    signature: p.signature,
                    online: p.online,
                    messages_received: p.messages_received,
                    messages_sent: p.messages_sent,
                    wins: w,
                    channel: p.channel,
                });
                proof {
                    lemma_sig_index_unique(s0, signature, i as int);
                    assert forall|a: int, b: int| 0 <= a < b < self@.len()
                        implies self@[a].signature != self@[b].signature by {
                        assert(self@[a].signature == s0[a].signature);
                        assert(self@[b].signature == s0[b].signature);
                    }
                }
            }
            None => {}
        }
    }

    /// The mailbox of the given identity, if it is attached.
    pub fn get_channel(&self, signature: Uid) -> (r: Option<u64>)
        requires
            self.wf(),
        ensures
            r == channel_of(self@, signature),
    {
        match self.find(signature) {
            Some(i) => {
                proof {
                    lemma_sig_index_unique(self@, signature, i as int);
                }
                self.peers[i].channel
            }
            None => None,
        }
    }

    /// Account a broadcast from the given sender: bump the sender's sent
    /// counter and every other online peer's received counter, and hand
    /// back the mailboxes the frame goes to, in registry order.
    pub fn broadcast(&mut self, sender_signature: Uid) -> (targets: Vec<u64>)
        requires
            old(self).wf(),
        ensures
            final(self).wf(),
            final(self)@ == broadcast_model(old(self)@, sender_signature),
            targets@ == broadcast_targets(old(self)@, sender_signature),
    {
        let ghost s0 = self@;
        let mut targets: Vec<u64> = Vec::new();
        let mut i: usize = 0;
        let n = self.peers.len();
        while i < n
            invariant
                i <= n,
                n == s0.len(),
                self@.len() == s0.len(),
                forall|j: int| 0 <= j < i ==> self@[j] == bcast_peer(s0[j], sender_signature),
                forall|j: int| i <= j < s0.len() ==> self@[j] == s0[j],
                targets@ == broadcast_targets(s0.take(i as int), sender_signature),
            decreases n - i,
        {
            let p = self.peers[i];
            if p.signature == sender_signature {
                let c = if p.messages_sent < u32::MAX { p.messages_sent + 1 } else { p.messages_sent };
                self.peers.set(i, Peer {
                    signature: p.signature,
                    online: p.online,
                    messages_received: p.messages_received,
                    messages_sent: c,
                    wins: p.wins,
                    channel: p.channel,
                });
            } else if p.online {
                let c = if p.messages_received < u32::MAX { p.messages_received + 1 } else { p.messages_received };
                self.peers.set(i, Peer {
                    signature: p.signature,
                    online: p.online,
                    messages_received: c,
                    messages_sent: p.messages_sent,
                    wins: p.wins,
                    channel: p.channel,
                });
                match p.channel {
                    Some(ch) => targets.push(ch),
                    None => {}
                }
            }
            proof {
                assert(s0.take(i + 1).drop_last() =~= s0.take(i as int));
                assert(s0.take(i + 1).last() == s0[i as int]);
            }
            i = i + 1;
        }
        proof {
            assert(s0.take(s0.len() as int) =~= s0);
            assert(self@ =~= broadcast_model(s0, sender_signature));
            assert forall|a: int, b: int| 0 <= a < b < self@.len()
                implies self@[a].signature != self@[b].signature by {
                assert(self@[a].signature == s0[a].signature);
                assert(self@[b].signature == s0[b].signature);
            }
        }
        targets
    }

    /// The leaderboard: every record, ordered by the online flag and then
    /// by wins, both ascending.
    pub fn get_sorted_winners(&self) -> (r: Vec<Peer>)
        ensures
            sorted_by_rank(r@),
            r@.to_multiset() == self@.to_multiset(),
    {
        let mut work: Vec<Peer> = Vec::new();
        let mut i: usize = 0;
        while i < self.peers.len()
            invariant
                i <= self@.len(),
                work@ == self@.take(i as int),
            decreases self@.len() - i,
        {
            work.push(self.peers[i]);
            i = i + 1;
            assert(work@ =~= self@.take(i as int));
        }
        assert(work@ =~= self@);
        let mut r: Vec<Peer> = Vec::new();
        while work.len() > 0
            invariant
                r@.to_multiset().add(work@.to_multiset()) == self@.to_multiset(),
                sorted_by_rank(r@),
                forall|a: int, b: int| 0 <= a < r@.len() && 0 <= b < work@.len()
                    ==> peer_le(#[trigger] r@[a], #[trigger] work@[b]),
            decreases work@.len(),
        {
            let mut m: usize = 0;
            let mut j: usize = 1;
            while j < work.len()
                invariant
                    m < j <= work@.len(),
                    work@.len() > 0,
                    forall|t: int| 0 <= t < j ==> peer_le(work@[m as int], #[trigger] work@[t]),
                decreases work@.len() - j,
            {
                let le = {
                    let a = work[m];
                    let b = work[j];
                    if a.online == b.online { a.wins <= b.wins } else { !a.online }
                };
                if !le {
                    m = j;
                }
                j = j + 1;
            }
            let x = work[m];
            r.push(x);
            work.remove(m);
            proof {
                assert(r@.to_multiset().add(work@.to_multiset()) =~= self@.to_multiset());
            }
        }
        r
    }
}

// ---------------------------------------------------------------------------
// Laws of the registry.
// ---------------------------------------------------------------------------

/// Counter preservation across reconnect: detaching an identity and then
/// attaching it again leaves its wins and both message counters exactly
/// where they were, with the new mailbox attached.
pub proof fn lemma_reconnect_preserves_counters(s: Seq<Peer>, sig: Uid, p2: Peer)
    requires
        sigs_distinct(s),
        contains_sig(s, sig),
        p2.signature == sig,
    ensures
        ({
            let i = sig_index(s, sig);
            let s2 = attach_model(detach_model(s, sig), p2);
            &&& s2.len() == s.len()
            &&& s2[i].signature == sig
            &&& s2[i].wins == s[i].wins
            &&& s2[i].messages_sent == s[i].messages_sent
            &&& s2[i].messages_received == s[i].messages_received
            &&& s2[i].online
            &&& s2[i].channel == p2.channel
        }),
{
    let i = sig_index(s, sig);
    assert(0 <= i < s.len() && s[i].signature == sig);
    let s1 = detach_model(s, sig);
    assert(s1[i].signature == sig);
    assert forall|a: int, b: int| 0 <= a < b < s1.len()
        implies s1[a].signature != s1[b].signature by {
        assert(s1[a].signature == s[a].signature);
        assert(s1[b].signature == s[b].signature);
    }
    lemma_sig_index_unique(s1, sig, i);
    assert(contains_sig(s1, sig));
}

} // verus!
