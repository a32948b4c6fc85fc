//! The bounded pool of pending messages: an insertion-ordered map from
//! message id to the sender that emitted it and the message body, capped
//! at 500 entries with strictly FIFO eviction.
//!
//! The map itself is `linked_hash_map::LinkedHashMap`; the library sees it
//! through `lhm_entries`, the sequence of `(msg_id, sender, body)` entries
//! in insertion order (oldest first), and a small set of trusted wrappers
//! whose contracts say what the crate's own source shows.

use vstd::prelude::*;
use crate::protocol::Uid;

verus! {

/// One pending entry of the model: message id, sender identity, body.
pub type Pending = (Uid, Uid, Seq<u8>);

/// Whether some entry of `s` carries the key `k`.
pub open spec fn contains_key_model(s: Seq<Pending>, k: Uid) -> bool {
    exists|i: int| 0 <= i < s.len() && s[i].0 == k
}

/// The index of the entry carrying key `k` (meaningful when the keys are
/// distinct and `k` is present).
pub open spec fn key_index(s: Seq<Pending>, k: Uid) -> int {
    choose|i: int| 0 <= i < s.len() && s[i].0 == k
}

/// No two entries of `s` carry the same key.
pub open spec fn keys_distinct(s: Seq<Pending>) -> bool {
    forall|i: int, j: int| 0 <= i < j < s.len() ==> s[i].0 != s[j].0
}

// ---------------------------------------------------------------------------
// Trusted view of the outside map.
// ---------------------------------------------------------------------------

#[verifier::external_type_specification]
#[verifier::external_body]
#[verifier::reject_recursive_types(K)]
#[verifier::reject_recursive_types(V)]
#[verifier::reject_recursive_types(S)]
pub struct ExLinkedHashMap<K, V, S>(linked_hash_map::LinkedHashMap<K, V, S>);

/// The entries of the map in insertion order, oldest first: message id,
/// sender, body.
pub uninterp spec fn lhm_entries(m: linked_hash_map::LinkedHashMap<Uid, (Uid, Vec<u8>)>) -> Seq<Pending>;

/// Relies on `linked_hash_map::LinkedHashMap::new`: creates an empty map.
#[verifier::external_body]
fn lhm_new() -> (m: linked_hash_map::LinkedHashMap<Uid, (Uid, Vec<u8>)>)
    ensures
        lhm_entries(m) == Seq::<Pending>::empty(),
{
    linked_hash_map::LinkedHashMap::new()
}

/// Relies on `linked_hash_map::LinkedHashMap::len`: the number of entries.
#[verifier::external_body]
fn lhm_len(m: &linked_hash_map::LinkedHashMap<Uid, (Uid, Vec<u8>)>) -> (n: usize)
    ensures
        n as nat == lhm_entries(*m).len(),
{
    m.len()
}

/// Relies on `linked_hash_map::LinkedHashMap::contains_key`.
#[verifier::external_body]
fn lhm_contains(m: &linked_hash_map::LinkedHashMap<Uid, (Uid, Vec<u8>)>, k: Uid) -> (r: bool)
    ensures
        r == contains_key_model(lhm_entries(*m), k),
{
    m.contains_key(&k)
}

/// Relies on `linked_hash_map::LinkedHashMap::insert`: an existing key has
/// its value replaced and its entry moved to the newest position, a fresh
/// key is appended at the newest position; the old value, if any, is
/// returned.
#[verifier::external_body]
fn lhm_insert(
    m: &mut linked_hash_map::LinkedHashMap<Uid, (Uid, Vec<u8>)>,
    k: Uid,
    sender: Uid,
    body: Vec<u8>,
) -> (r: Option<(Uid, Vec<u8>)>)
    ensures
        r is Some <==> contains_key_model(lhm_entries(*old(m)), k),
        keys_distinct(lhm_entries(*old(m))) ==> lhm_entries(*final(m)) == ({
            let s = lhm_entries(*old(m));
            if contains_key_model(s, k) {
                s.remove(key_index(s, k)).push((k, sender, body@))
            } else {
                s.push((k, sender, body@))
            }
        }),
{
    m.insert(k, (sender, body))
}

/// Relies on `linked_hash_map::LinkedHashMap::pop_front`: removes and
/// returns the oldest entry, leaving the rest in order.
#[verifier::external_body]
fn lhm_pop_front(
    m: &mut linked_hash_map::LinkedHashMap<Uid, (Uid, Vec<u8>)>,
) -> (r: Option<(Uid, (Uid, Vec<u8>))>)
    ensures
        lhm_entries(*old(m)).len() == 0 ==> r is None
            && lhm_entries(*final(m)) == lhm_entries(*old(m)),
        lhm_entries(*old(m)).len() > 0 ==> ({
            let s = lhm_entries(*old(m));
            &&& match r {
                Some((k, sv)) => k == s[0].0 && sv.0 == s[0].1 && sv.1@ == s[0].2,
                None => false,
            }
            &&& lhm_entries(*final(m)) == s.drop_first()
        }),
{
    m.pop_front()
}

/// Relies on `linked_hash_map::LinkedHashMap::remove`: removes the entry
/// with the given key, if any, leaving the others in order.
#[verifier::external_body]
fn lhm_remove(
    m: &mut linked_hash_map::LinkedHashMap<Uid, (Uid, Vec<u8>)>,
    k: Uid,
) -> (r: Option<(Uid, Vec<u8>)>)
    ensures
        r is Some <==> contains_key_model(lhm_entries(*old(m)), k),
        !contains_key_model(lhm_entries(*old(m)), k) ==>
            lhm_entries(*final(m)) == lhm_entries(*old(m)),
        keys_distinct(lhm_entries(*old(m))) && contains_key_model(lhm_entries(*old(m)), k) ==> ({
            let s = lhm_entries(*old(m));
            let i = key_index(s, k);
            &&& match r {
                Some(sv) => sv.0 == s[i].1 && sv.1@ == s[i].2,
                None => false,
            }
            &&& lhm_entries(*final(m)) == s.remove(i)
        }),
{
    m.remove(&k)
}

// ---------------------------------------------------------------------------
// Facts about the model.
// ---------------------------------------------------------------------------

/// Removing the entry of key `k` removes the only one: the key is gone,
/// the remaining keys stay distinct.
pub proof fn lemma_remove_key(s: Seq<Pending>, k: Uid)
    requires
        keys_distinct(s),
        contains_key_model(s, k),
    ensures
        !contains_key_model(s.remove(key_index(s, k)), k),
        keys_distinct(s.remove(key_index(s, k))),
        s.remove(key_index(s, k)).len() == s.len() - 1,
{
    let i = key_index(s, k);
    assert(0 <= i < s.len() && s[i].0 == k);
    let r = s.remove(i);
    assert forall|j: int| 0 <= j < r.len() implies r[j].0 != k by {
        if j < i {
            assert(r[j] == s[j]);
        } else {
            assert(r[j] == s[j + 1]);
        }
    }
    assert forall|a: int, b: int| 0 <= a < b < r.len() implies r[a].0 != r[b].0 by {
        let a0 = if a < i { a } else { a + 1 };
        let b0 = if b < i { b } else { b + 1 };
        assert(r[a] == s[a0]);
        assert(r[b] == s[b0]);
    }
}

/// Appending an entry whose key is fresh keeps the keys distinct.
pub proof fn lemma_push_distinct(s: Seq<Pending>, e: Pending)
    requires
        keys_distinct(s),
        !contains_key_model(s, e.0),
    ensures
        keys_distinct(s.push(e)),
{
    let r = s.push(e);
    assert forall|a: int, b: int| 0 <= a < b < r.len() implies r[a].0 != r[b].0 by {
        if b == s.len() {
            assert(r[a] == s[a]);
        } else {
            assert(r[a] == s[a]);
            assert(r[b] == s[b]);
        }
    }
}

/// Dropping the oldest entry keeps the keys distinct.
pub proof fn lemma_drop_first_distinct(s: Seq<Pending>)
    requires
        keys_distinct(s),
        s.len() > 0,
    ensures
        keys_distinct(s.drop_first()),
{
    let r = s.drop_first();
    assert forall|a: int, b: int| 0 <= a < b < r.len() implies r[a].0 != r[b].0 by {
        assert(r[a] == s[a + 1]);
        assert(r[b] == s[b + 1]);
    }
}

// ---------------------------------------------------------------------------
// The store.
// ---------------------------------------------------------------------------

/// The capacity of the pending-message pool.
pub const STORE_CAP: usize = 500;

/// The bounded, insertion-ordered pool of pending messages.
pub struct MessageStore {
    messages: linked_hash_map::LinkedHashMap<Uid, (Uid, Vec<u8>)>,
}

impl View for MessageStore {
    type V = Seq<Pending>;

    closed spec fn view(&self) -> Seq<Pending> {
        lhm_entries(self.messages)
    }
}

impl MessageStore {
    /// The store's invariant: distinct message ids, at most 500 entries.
    pub open spec fn wf(&self) -> bool {
        keys_distinct(self@) && self@.len() <= STORE_CAP
    }

    /// What one insert does to the pool: at capacity the oldest entry is
    /// evicted first; a colliding message id is overwritten and moves to
    /// the newest position.
    pub open spec fn insert_model(s: Seq<Pending>, msg_id: Uid, sender: Uid, body: Seq<u8>) -> Seq<Pending> {
        let s1 = if s.len() == STORE_CAP { s.drop_first() } else { s };
        if contains_key_model(s1, msg_id) {
            s1.remove(key_index(s1, msg_id)).push((msg_id, sender, body))
        } else {
            s1.push((msg_id, sender, body))
        }
    }

    /// What one extract does to the pool: the entry with the given id is
    /// removed, if present.
    pub open spec fn extract_model(s: Seq<Pending>, msg_id: Uid) -> Seq<Pending> {
        if contains_key_model(s, msg_id) {
            s.remove(key_index(s, msg_id))
        } else {
            s
        }
    }

    pub fn new() -> (s: Self)
        ensures
            s@ == Seq::<Pending>::empty(),
            s.wf(),
    {
        MessageStore { messages: lhm_new() }
    }

    pub fn len(&self) -> (n: usize)
        ensures
            n as nat == self@.len(),
    {
        lhm_len(&self.messages)
    }

    pub fn contains(&self, msg_id: Uid) -> (r: bool)
        ensures
            r == contains_key_model(self@, msg_id),
    {
        lhm_contains(&self.messages, msg_id)
    }

    /// Record a pending message, evicting the oldest entry when the pool
    /// is full and overwriting a colliding message id.
    pub fn insert(&mut self, msg_id: Uid, sender: Uid, body: Vec<u8>)
        requires
            old(self).wf(),
        ensures
            final(self).wf(),
            final(self)@ == Self::insert_model(old(self)@, msg_id, sender, body@),
    {
        let ghost s0 = self@;
        if lhm_len(&self.messages) == STORE_CAP {
            let _ = lhm_pop_front(&mut self.messages);
            proof {
                lemma_drop_first_distinct(s0);
            }
        }
        let ghost s1 = self@;
        let _ = lhm_insert(&mut self.messages, msg_id, sender, body);
        proof {
            if contains_key_model(s1, msg_id) {
                lemma_remove_key(s1, msg_id);
                lemma_push_distinct(s1.remove(key_index(s1, msg_id)), (msg_id, sender, body@));
            } else {
                lemma_push_distinct(s1, (msg_id, sender, body@));
            }
        }
    }

    /// Remove and return the pending message with the given id: the id,
    /// the identity that sent it, and its body. Absent ids are reported
    /// as such and change nothing.
    pub fn extract(&mut self, msg_id: Uid) -> (r: Option<(Uid, Uid, Vec<u8>)>)
        requires
            old(self).wf(),
        ensures
            final(self).wf(),
            final(self)@ == Self::extract_model(old(self)@, msg_id),
            contains_key_model(old(self)@, msg_id) ==> match r {
                Some((mid, sender, body)) => {
                    let e = old(self)@[key_index(old(self)@, msg_id)];
                    mid == msg_id && sender == e.1 && body@ == e.2
                },
                None => false,
            },
            !contains_key_model(old(self)@, msg_id) ==> r is None,
    {
        let ghost s0 = self@;
        let r = lhm_remove(&mut self.messages, msg_id);
        proof {
            if contains_key_model(s0, msg_id) {
                lemma_remove_key(s0, msg_id);
            }
        }
        match r {
            Some((sender, body)) => Some((msg_id, sender, body)),
            None => None,
        }
    }
}

// ---------------------------------------------------------------------------
// Laws of the store.
// ---------------------------------------------------------------------------

/// The pool reached by inserting each entry of `kvs` in turn into an
/// empty store.
pub open spec fn fill_model(kvs: Seq<Pending>) -> Seq<Pending>
    decreases kvs.len(),
{
    if kvs.len() == 0 {
        Seq::empty()
    } else {
        MessageStore::insert_model(fill_model(kvs.drop_last()), kvs.last().0, kvs.last().1, kvs.last().2)
    }
}

/// A prefix of a run of distinct keys has distinct keys.
proof fn lemma_drop_last_distinct(kvs: Seq<Pending>)
    requires
        keys_distinct(kvs),
        kvs.len() > 0,
    ensures
        keys_distinct(kvs.drop_last()),
{
    let r = kvs.drop_last();
    assert forall|a: int, b: int| 0 <= a < b < r.len() implies r[a].0 != r[b].0 by {
        assert(r[a] == kvs[a]);
        assert(r[b] == kvs[b]);
    }
}

/// MessageStore bound: after inserting N entries with distinct keys into
/// an empty store, the pool holds exactly the last min(N, 500) of them,
/// in insertion order.
pub proof fn lemma_store_bound(kvs: Seq<Pending>)
    requires
        keys_distinct(kvs),
    ensures
        fill_model(kvs) == kvs.subrange(
            if kvs.len() <= STORE_CAP { 0int } else { kvs.len() - STORE_CAP },
            kvs.len() as int,
        ),
        fill_model(kvs).len() == if kvs.len() <= STORE_CAP { kvs.len() } else { STORE_CAP as nat },
    decreases kvs.len(),
{
    let n = kvs.len() as int;
    let cap = STORE_CAP as int;
    if n == 0 {
        assert(fill_model(kvs) =~= kvs.subrange(0, 0));
    } else {
        let pre = kvs.drop_last();
        lemma_drop_last_distinct(kvs);
        lemma_store_bound(pre);
        let off_pre: int = if n - 1 <= cap { 0int } else { n - 1 - cap };
        let fp = fill_model(pre);
        assert(fp == kvs.subrange(off_pre, n - 1)) by {
            assert(pre.subrange(off_pre, n - 1) =~= kvs.subrange(off_pre, n - 1));
        }
        let last = kvs.last();
        // The fresh key is not among the retained ones.
        let s1 = if fp.len() == STORE_CAP { fp.drop_first() } else { fp };
        let off1: int = if fp.len() == STORE_CAP { off_pre + 1 } else { off_pre };
        assert(s1 =~= kvs.subrange(off1, n - 1));
        assert(!contains_key_model(s1, last.0)) by {
            if contains_key_model(s1, last.0) {
                let i = choose|i: int| 0 <= i < s1.len() && s1[i].0 == last.0;
                assert(s1[i] == kvs[off1 + i]);
                assert(kvs[off1 + i].0 == kvs[n - 1].0);
            }
        }
        assert(fill_model(kvs) == s1.push(last));
        assert(s1.push(last) =~= kvs.subrange(off1, n));
        if n <= cap {
            assert(off1 == 0);
        } else {
            assert(off1 == n - cap);
        }
    }
}

/// MessageStore extract uniqueness: once an extract returns a key, the
/// key is gone, and a second extract of the same key returns absent and
/// changes nothing.
pub proof fn lemma_extract_unique(s: Seq<Pending>, k: Uid)
    requires
        keys_distinct(s),
        contains_key_model(s, k),
    ensures
        !contains_key_model(MessageStore::extract_model(s, k), k),
        MessageStore::extract_model(MessageStore::extract_model(s, k), k)
            == MessageStore::extract_model(s, k),
{
    lemma_remove_key(s, k);
}

} // verus!
