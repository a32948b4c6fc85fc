//! The bounded log of wins: a FIFO of at most 100 records, each holding
//! the winning identity, a unix-seconds timestamp, and the message id
//! that was won.

use vstd::prelude::*;
use crate::protocol::Uid;

verus! {

/// The capacity of the win log.
pub const WINLOG_CAP: usize = 100;

/// One win: who flashed first, when, and which message.
#[derive(Clone, Copy, PartialEq, Eq, Debug)]
pub struct WinEntry {
    pub signature: Uid,
    pub timestamp: u64,
    pub msg_id: Uid,
}

/// The bounded FIFO of win records.
pub struct WinLogStore {
    records: Vec<WinEntry>,
}

impl View for WinLogStore {
    type V = Seq<WinEntry>;

    closed spec fn view(&self) -> Seq<WinEntry> {
        self.records@
    }
}

/// What one append does to the log: at capacity the oldest record is
/// evicted, then the new record goes to the tail.
pub open spec fn append_model(s: Seq<WinEntry>, e: WinEntry) -> Seq<WinEntry> {
    (if s.len() == WINLOG_CAP { s.drop_first() } else { s }).push(e)
}

impl WinLogStore {
    /// The log's invariant: it never exceeds its capacity.
    pub open spec fn wf(&self) -> bool {
        self@.len() <= WINLOG_CAP
    }

    pub fn new() -> (s: Self)
        ensures
            s@ == Seq::<WinEntry>::empty(),
            s.wf(),
    {
        WinLogStore { records: Vec::new() }
    }

    pub fn len(&self) -> (n: usize)
        ensures
            n as nat == self@.len(),
    {
        self.records.len()
    }

    /// Record a win at the given unix-seconds timestamp, evicting the
    /// oldest record when the log is full.
    pub fn insert(&mut self, msg_id: Uid, signature: Uid, timestamp: u64)
        requires
            old(self).wf(),
        ensures
            final(self).wf(),
            final(self)@ == append_model(old(self)@, WinEntry { signature, timestamp, msg_id }),
    {
        if self.records.len() == WINLOG_CAP {
            self.records.remove(0);
        }
        self.records.push(WinEntry { signature, timestamp, msg_id });
        proof {
            let s0 = old(self)@;
            let e = WinEntry { signature, timestamp, msg_id };
            if s0.len() == WINLOG_CAP {
                assert(s0.remove(0) =~= s0.drop_first());
            }
        }
    }

    /// The whole log, oldest first, as (identity, timestamp, message id).
    pub fn get_all(&self) -> (r: Vec<(Uid, u64, Uid)>)
        ensures
            r@.len() == self@.len(),
            forall|i: int| 0 <= i < r@.len() ==> r@[i]
                == (self@[i].signature, self@[i].timestamp, self@[i].msg_id),
    {
        let mut r: Vec<(Uid, u64, Uid)> = Vec::new();
        let mut i: usize = 0;
        while i < self.records.len()
            invariant
                i <= self@.len(),
                r@.len() == i,
                forall|j: int| 0 <= j < i ==> r@[j]
                    == (self@[j].signature, self@[j].timestamp, self@[j].msg_id),
            decreases self@.len() - i,
        {
            let e = self.records[i];
            r.push((e.signature, e.timestamp, e.msg_id));
            i = i + 1;
        }
        r
    }
}

// ---------------------------------------------------------------------------
// Laws of the log.
// ---------------------------------------------------------------------------

/// The log reached by appending each record of `recs` in turn to an
/// empty log.
pub open spec fn winlog_fill_model(recs: Seq<WinEntry>) -> Seq<WinEntry>
    decreases recs.len(),
{
    if recs.len() == 0 {
        Seq::empty()
    } else {
        append_model(winlog_fill_model(recs.drop_last()), recs.last())
    }
}

/// WinLog bound: after N appends to an empty log, the log holds exactly
/// the last min(N, 100) records, in append order.
pub proof fn lemma_winlog_bound(recs: Seq<WinEntry>)
    ensures
        winlog_fill_model(recs) == recs.subrange(
            if recs.len() <= WINLOG_CAP { 0int } else { recs.len() - WINLOG_CAP },
            recs.len() as int,
        ),
        winlog_fill_model(recs).len()
            == if recs.len() <= WINLOG_CAP { recs.len() } else { WINLOG_CAP as nat },
    decreases recs.len(),
{
    let n = recs.len() as int;
    let cap = WINLOG_CAP as int;
    if n == 0 {
        assert(winlog_fill_model(recs) =~= recs.subrange(0, 0));
    } else {
        let pre = recs.drop_last();
        lemma_winlog_bound(pre);
        let off_pre: int = if n - 1 <= cap { 0int } else { n - 1 - cap };
        let fp = winlog_fill_model(pre);
        assert(fp == recs.subrange(off_pre, n - 1)) by {
            assert(pre.subrange(off_pre, n - 1) =~= recs.subrange(off_pre, n - 1));
        }
        let s1 = if fp.len() == WINLOG_CAP { fp.drop_first() } else { fp };
        let off1: int = if fp.len() == WINLOG_CAP { off_pre + 1 } else { off_pre };
        assert(s1 =~= recs.subrange(off1, n - 1));
        assert(winlog_fill_model(recs) == s1.push(recs.last()));
        assert(s1.push(recs.last()) =~= recs.subrange(off1, n));
        if n <= cap {
            assert(off1 == 0);
        } else {
            assert(off1 == n - cap);
        }
    }
}

} // verus!
