//! Lazily pruned priority queues over `(key, id)` entries.
//!
//! Both pool indices are queues of this kind: the deadline queue keyed by
//! effective deadline (smallest first) and the load-shedding queue keyed by
//! byte size (largest first). Entries are kept sorted by strictly ascending
//! `(key, id)`, so the smallest entry is at the front, the largest at the
//! back, and ids break ties deterministically. An entry whose id has left
//! the store is stale; stale entries are discarded lazily on observation,
//! or in bulk when the queue grows past its bound.

use vstd::prelude::*;

use crate::message::Message;
use crate::store::store_contains_id;
use crate::store::store_find;

verus! {

/// Strict lexicographic order on `(key, id)` entries.
pub open spec fn entry_lt(a: (u64, u64), b: (u64, u64)) -> bool {
    a.0 < b.0 || (a.0 == b.0 && a.1 < b.1)
}

/// Whether the entries are strictly ascending in `(key, id)` order.
pub open spec fn entries_sorted(s: Seq<(u64, u64)>) -> bool {
    forall|i: int, j: int| 0 <= i < j < s.len() ==> entry_lt(s[i], s[j])
}

/// Whether no two entries carry the same id.
pub open spec fn entry_ids_distinct(s: Seq<(u64, u64)>) -> bool {
    forall|i: int, j: int| 0 <= i < j < s.len() ==> s[i].1 != s[j].1
}

/// Whether some entry carries the given id.
pub open spec fn entries_contain_id(s: Seq<(u64, u64)>, id: u64) -> bool {
    exists|k: int| 0 <= k < s.len() && s[k].1 == id
}

/// The entries with a new one put at its sorted position.
pub open spec fn insert_entry(s: Seq<(u64, u64)>, e: (u64, u64)) -> Seq<(u64, u64)>
    decreases s.len(),
{
    if s.len() == 0 {
        seq![e]
    } else if entry_lt(e, s[0]) {
        seq![e] + s
    } else {
        seq![s[0]] + insert_entry(s.drop_first(), e)
    }
}

/// The entries whose id still resolves in the given store, in order.
pub open spec fn live_entries(s: Seq<(u64, u64)>, store: Seq<(u64, Message)>) -> Seq<(u64, u64)>
    decreases s.len(),
{
    if s.len() == 0 {
        s
    } else if store_contains_id(store, s.last().1) {
        live_entries(s.drop_last(), store).push(s.last())
    } else {
        live_entries(s.drop_last(), store)
    }
}

/// What `insert_entry` does at the position the exec search finds: all
/// earlier entries are smaller, the found one (if any) is greater, and the
/// new entry lands exactly between them.
pub proof fn lemma_insert_entry_at(s: Seq<(u64, u64)>, e: (u64, u64), i: int)
    requires
        entries_sorted(s),
        0 <= i <= s.len(),
        forall|k: int| 0 <= k < i ==> entry_lt(s[k], e),
        i == s.len() || entry_lt(e, s[i]),
    ensures
        insert_entry(s, e) == s.take(i) + seq![e] + s.skip(i),
    decreases s.len(),
{
    if s.len() == 0 {
        assert(insert_entry(s, e) =~= s.take(i) + seq![e] + s.skip(i));
    } else if i == 0 {
        assert(entry_lt(e, s[0]));
        assert(insert_entry(s, e) =~= s.take(0) + seq![e] + s.skip(0));
    } else {
        let s1 = s.drop_first();
        assert(entries_sorted(s1)) by {
            assert(forall|p: int, q: int|
                0 <= p < q < s1.len() ==> s1[p] == s[p + 1] && s1[q] == s[q + 1]);
        }
        assert(forall|k: int| 0 <= k < i - 1 ==> s1[k] == s[k + 1] && entry_lt(s1[k], e));
        assert(i - 1 == s1.len() || entry_lt(e, s1[i - 1]));
        lemma_insert_entry_at(s1, e, i - 1);
        assert(!entry_lt(e, s[0]));
        assert(insert_entry(s, e) =~= s.take(i) + seq![e] + s.skip(i));
    }
}

/// What inserting at the sorted position preserves: length, sortedness for
/// a fresh entry, membership, and distinct ids for a fresh id.
pub proof fn lemma_insert_entry_facts(s: Seq<(u64, u64)>, e: (u64, u64))
    requires
        entries_sorted(s),
        !s.contains(e),
    ensures
        insert_entry(s, e).len() == s.len() + 1,
        entries_sorted(insert_entry(s, e)),
        forall|x: (u64, u64)| #[trigger]
            insert_entry(s, e).contains(x) == (s.contains(x) || x == e),
        entry_ids_distinct(s) && !entries_contain_id(s, e.1) ==> entry_ids_distinct(
            insert_entry(s, e),
        ),
        entry_ids_distinct(s) && !entries_contain_id(s, e.1) ==> forall|x: u64| #[trigger]
            entries_contain_id(insert_entry(s, e), x) == (entries_contain_id(s, x) || x == e.1),
    decreases s.len(),
{
    let i = first_not_smaller(s, e);
    lemma_first_not_smaller(s, e);
    lemma_insert_entry_at(s, e, i);
    let t = s.take(i) + seq![e] + s.skip(i);
    assert(forall|k: int| 0 <= k < i ==> t[k] == s[k]);
    assert(t[i] == e);
    assert(forall|k: int| i < k < t.len() ==> t[k] == s[k - 1]);
    assert forall|p: int, q: int| 0 <= p < q < t.len() implies entry_lt(t[p], t[q]) by {
        if q == i {
            assert(t[p] == s[p]);
            assert(entry_lt(s[p], e));
        } else if p == i {
            assert(t[q] == s[q - 1]);
            assert(entry_lt(e, s[i]));
            if q - 1 > i {
                assert(entry_lt(s[i], s[q - 1]));
            }
        } else if p < i && q > i {
            assert(t[p] == s[p] && t[q] == s[q - 1]);
            assert(entry_lt(s[p], e));
            assert(entry_lt(e, s[i]));
            if q - 1 > i {
                assert(entry_lt(s[i], s[q - 1]));
            }
        } else if p < i && q < i {
            assert(t[p] == s[p] && t[q] == s[q]);
        } else {
            assert(t[p] == s[p - 1] && t[q] == s[q - 1]);
        }
    }
    assert forall|x: (u64, u64)| #[trigger] t.contains(x) == (s.contains(x) || x == e) by {
        if t.contains(x) {
            let k = choose|k: int| 0 <= k < t.len() && t[k] == x;
            if k < i {
                assert(s[k] == x);
            } else if k > i {
                assert(s[k - 1] == x);
            }
        }
        if s.contains(x) {
            let k = choose|k: int| 0 <= k < s.len() && s[k] == x;
            if k < i {
                assert(t[k] == x);
            } else {
                assert(t[k + 1] == x);
            }
        }
        if x == e {
            assert(t[i] == x);
        }
    }
    if entry_ids_distinct(s) && !entries_contain_id(s, e.1) {
        assert forall|p: int, q: int| 0 <= p < q < t.len() implies t[p].1 != t[q].1 by {
            if p == i {
                assert(t[q] == s[q - 1]);
            } else if q == i {
                assert(t[p] == s[p]);
            } else {
                let p1: int = if p < i { p } else { p - 1 };
                let q1: int = if q < i { q } else { q - 1 };
                assert(t[p] == s[p1] && t[q] == s[q1]);
            }
        }
        assert forall|x: u64| #[trigger]
            entries_contain_id(t, x) == (entries_contain_id(s, x) || x == e.1) by {
            if entries_contain_id(t, x) {
                let k = choose|k: int| 0 <= k < t.len() && t[k].1 == x;
                if k < i {
                    assert(s[k].1 == x);
                } else if k > i {
                    assert(s[k - 1].1 == x);
                }
            }
            if entries_contain_id(s, x) {
                let k = choose|k: int| 0 <= k < s.len() && s[k].1 == x;
                if k < i {
                    assert(t[k].1 == x);
                } else {
                    assert(t[k + 1].1 == x);
                }
            }
            if x == e.1 {
                assert(t[i].1 == x);
            }
        }
    }
}

/// The first position whose entry is not smaller than `e` in a sorted
/// sequence; everything before it is smaller, everything at or after it is
/// greater when `e` itself is absent.
pub open spec fn first_not_smaller(s: Seq<(u64, u64)>, e: (u64, u64)) -> int
    decreases s.len(),
{
    if s.len() == 0 || !entry_lt(s[0], e) {
        0
    } else {
        1 + first_not_smaller(s.drop_first(), e)
    }
}

/// Bounds and boundary facts about `first_not_smaller` in a sorted
/// sequence that does not contain `e`.
pub proof fn lemma_first_not_smaller(s: Seq<(u64, u64)>, e: (u64, u64))
    requires
        entries_sorted(s),
        !s.contains(e),
    ensures
        0 <= first_not_smaller(s, e) <= s.len(),
        forall|k: int| 0 <= k < first_not_smaller(s, e) ==> entry_lt(s[k], e),
        first_not_smaller(s, e) == s.len() || entry_lt(e, s[first_not_smaller(s, e)]),
    decreases s.len(),
{
    if s.len() == 0 {
    } else if !entry_lt(s[0], e) {
        assert(s[0] != e) by {
            if s[0] == e {
                assert(s.contains(e));
            }
        }
        assert(entry_lt(e, s[0]));
    } else {
        let s1 = s.drop_first();
        assert(entries_sorted(s1)) by {
            assert(forall|p: int, q: int|
                0 <= p < q < s1.len() ==> s1[p] == s[p + 1] && s1[q] == s[q + 1]);
        }
        assert(!s1.contains(e)) by {
            if s1.contains(e) {
                let k = choose|k: int| 0 <= k < s1.len() && s1[k] == e;
                assert(s[k + 1] == e);
            }
        }
        lemma_first_not_smaller(s1, e);
        let j = first_not_smaller(s, e);
        assert(forall|k: int| 1 <= k < j ==> s[k] == s1[k - 1]);
    }
}

/// What lazy pruning preserves: the live entries are no more numerous,
/// still sorted with distinct ids, and are exactly the entries whose id
/// resolves in the store.
pub proof fn lemma_live_entries_facts(s: Seq<(u64, u64)>, store: Seq<(u64, Message)>)
    requires
        entries_sorted(s),
        entry_ids_distinct(s),
    ensures
        live_entries(s, store).len() <= s.len(),
        entries_sorted(live_entries(s, store)),
        entry_ids_distinct(live_entries(s, store)),
        forall|x: (u64, u64)| #[trigger]
            live_entries(s, store).contains(x) == (s.contains(x) && store_contains_id(
                store,
                x.1,
            )),
        forall|x: u64| #[trigger]
            entries_contain_id(live_entries(s, store), x) == (entries_contain_id(s, x)
                && store_contains_id(store, x)),
    decreases s.len(),
{
    if s.len() == 0 {
    } else {
        let s1 = s.drop_last();
        assert(entries_sorted(s1) && entry_ids_distinct(s1)) by {
            assert(forall|p: int, q: int|
                0 <= p < q < s1.len() ==> s1[p] == s[p] && s1[q] == s[q]);
        }
        lemma_live_entries_facts(s1, store);
        let t1 = live_entries(s1, store);
        assert(forall|x: (u64, u64)| s1.contains(x) ==> s.contains(x)) by {
            assert(forall|k: int| 0 <= k < s1.len() ==> s1[k] == s[k]);
        }
        assert forall|x: (u64, u64)| s.contains(x) implies x == s.last() || s1.contains(x) by {
            let k = choose|k: int| 0 <= k < s.len() && s[k] == x;
            if k < s.len() - 1 {
                assert(s1[k] == x);
            }
        }
        if store_contains_id(store, s.last().1) {
            let t = t1.push(s.last());
            assert(t == live_entries(s, store));
            assert forall|p: int, q: int| 0 <= p < q < t.len() implies entry_lt(t[p], t[q]) by {
                if q == t.len() - 1 {
                    assert(t1.contains(t1[p]));
                    let k = choose|k: int| 0 <= k < s1.len() && s1[k] == t1[p];
                    assert(s[k] == t1[p]);
                    assert(entry_lt(s[k], s.last()));
                }
            }
            assert forall|p: int, q: int| 0 <= p < q < t.len() implies t[p].1 != t[q].1 by {
                if q == t.len() - 1 {
                    assert(t1.contains(t1[p]));
                    let k = choose|k: int| 0 <= k < s1.len() && s1[k] == t1[p];
                    assert(s[k] == t1[p]);
                    assert(s[k].1 != s.last().1);
                }
            }
            assert forall|x: (u64, u64)| #[trigger]
                t.contains(x) == (s.contains(x) && store_contains_id(store, x.1)) by {
                if t.contains(x) {
                    let k = choose|k: int| 0 <= k < t.len() && t[k] == x;
                    if k < t.len() - 1 {
                        assert(t1.contains(x));
                    } else {
                        assert(x == s.last());
                        assert(s.contains(s.last()));
                    }
                }
                if s.contains(x) && store_contains_id(store, x.1) {
                    if x == s.last() {
                        assert(t[t.len() - 1] == x);
                    } else {
                        assert(s1.contains(x));
                        assert(t1.contains(x));
                        let k = choose|k: int| 0 <= k < t1.len() && t1[k] == x;
                        assert(t[k] == x);
                    }
                }
            }
            assert forall|x: u64| #[trigger]
                entries_contain_id(t, x) == (entries_contain_id(s, x) && store_contains_id(
                    store,
                    x,
                )) by {
                if entries_contain_id(t, x) {
                    let k = choose|k: int| 0 <= k < t.len() && t[k].1 == x;
                    assert(t.contains(t[k]));
                }
                if entries_contain_id(s, x) && store_contains_id(store, x) {
                    let k = choose|k: int| 0 <= k < s.len() && s[k].1 == x;
                    assert(s.contains(s[k]));
                    assert(t.contains(s[k]));
                    let k2 = choose|k2: int| 0 <= k2 < t.len() && t[k2] == s[k];
                    assert(t[k2].1 == x);
                }
            }
        } else {
            let t = t1;
            assert forall|x: (u64, u64)| #[trigger]
                t.contains(x) == (s.contains(x) && store_contains_id(store, x.1)) by {
                if s.contains(x) && store_contains_id(store, x.1) {
                    assert(x != s.last());
                    assert(s1.contains(x));
                }
            }
            assert forall|x: u64| #[trigger]
                entries_contain_id(t, x) == (entries_contain_id(s, x) && store_contains_id(
                    store,
                    x,
                )) by {
                if entries_contain_id(t, x) {
                    let k = choose|k: int| 0 <= k < t.len() && t[k].1 == x;
                    assert(t.contains(t[k]));
                }
                if entries_contain_id(s, x) && store_contains_id(store, x) {
                    let k = choose|k: int| 0 <= k < s.len() && s[k].1 == x;
                    assert(s.contains(s[k]));
                    assert(t.contains(s[k]));
                    let k2 = choose|k2: int| 0 <= k2 < t.len() && t[k2] == s[k];
                    assert(t[k2].1 == x);
                }
            }
        }
    }
}

/// A priority queue of `(key, id)` entries, sorted ascending, with lazy
/// deletion: entries are never removed when their message leaves the pool,
/// only when they are observed or when the queue is pruned in bulk.
#[derive(Debug)]
pub struct PriorityQueue {
    entries: Vec<(u64, u64)>,
}

impl View for PriorityQueue {
    type V = Seq<(u64, u64)>;

    closed spec fn view(&self) -> Seq<(u64, u64)> {
        self.entries@
    }
}

impl PriorityQueue {
    /// An empty queue.
    pub fn new() -> (r: Self)
        ensures
            r@ == Seq::<(u64, u64)>::empty(),
    {
        let entries: Vec<(u64, u64)> = Vec::new();
        proof {
            assert(entries@ =~= Seq::<(u64, u64)>::empty());
        }
        PriorityQueue { entries }
    }

    /// The number of entries, stale ones included.
    pub fn len(&self) -> (r: usize)
        ensures
            r == self@.len(),
    {
        self.entries.len()
    }

    /// The smallest entry, if any.
    pub fn first(&self) -> (r: Option<(u64, u64)>)
        ensures
            self@.len() == 0 ==> r is None,
            self@.len() > 0 ==> r == Some(self@[0]),
    {
        if self.entries.len() == 0 {
            None
        } else {
            Some(self.entries[0])
        }
    }

    /// Removes and returns the smallest entry.
    pub fn pop_first(&mut self) -> (r: (u64, u64))
        requires
            old(self)@.len() > 0,
        ensures
            r == old(self)@[0],
            final(self)@ == old(self)@.drop_first(),
    {
        let r = self.entries.remove(0);
        proof {
            assert(self.entries@ =~= old(self)@.drop_first());
        }
        r
    }

    /// Removes and returns the largest entry, if any.
    pub fn pop_last(&mut self) -> (r: Option<(u64, u64)>)
        ensures
            old(self)@.len() == 0 ==> r is None && final(self)@ == old(self)@,
            old(self)@.len() > 0 ==> r == Some(old(self)@.last()) && final(self)@ == old(
                self,
            )@.drop_last(),
    {
        let r = self.entries.pop();
        proof {
            if old(self)@.len() > 0 {
                assert(self.entries@ =~= old(self)@.drop_last());
            }
        }
        r
    }

    /// Puts a fresh entry at its sorted position.
    pub fn push(&mut self, key: u64, id: u64)
        requires
            entries_sorted(old(self)@),
            !old(self)@.contains((key, id)),
        ensures
            final(self)@ == insert_entry(old(self)@, (key, id)),
    {
        let e = (key, id);
        let ghost s = self.entries@;
        let mut i: usize = 0;
        while i < self.entries.len()
            invariant
                e == (key, id),
                self.entries@ == s,
                i <= s.len(),
                forall|k: int| 0 <= k < i ==> entry_lt(s[k], e),
            ensures
                self.entries@ == s,
                i <= s.len(),
                forall|k: int| 0 <= k < i ==> entry_lt(s[k], e),
                i == s.len() || !entry_lt(s[i as int], e),
            decreases s.len() - i,
        {
            let cur = self.entries[i];
            if !(cur.0 < key || (cur.0 == key && cur.1 < id)) {
                assert(!entry_lt(s[i as int], e));
                break;
            }
            i = i + 1;
        }
        proof {
            if i < s.len() {
                if s[i as int] == e {
                    assert(s.contains(e));
                }
                assert(entry_lt(e, s[i as int]));
            }
            lemma_insert_entry_at(s, e, i as int);
        }
        self.entries.insert(i, e);
        proof {
            assert(self.entries@ =~= s.take(i as int) + seq![e] + s.skip(i as int));
        }
    }

    /// Discards every stale entry: keeps exactly the entries whose id
    /// still resolves in the given store, in order.
    pub fn retain_live(&mut self, store: &Vec<(u64, Message)>)
        ensures
            final(self)@ == live_entries(old(self)@, store@),
    {
        let ghost s = self.entries@;
        let mut kept: Vec<(u64, u64)> = Vec::new();
        let mut i: usize = 0;
        while i < self.entries.len()
            invariant
                self.entries@ == s,
                i <= s.len(),
                kept@ == live_entries(s.take(i as int), store@),
            decreases s.len() - i,
        {
            let e = self.entries[i];
            let ghost prefix = s.take(i as int);
            proof {
                assert(s.take(i + 1 as int).drop_last() =~= prefix);
                assert(s.take(i + 1 as int).last() == e);
            }
            match store_find(store, e.1) {
                Some(_) => {
                    kept.push(e);
                },
                None => {},
            }
            i = i + 1;
        }
        proof {
            assert(s.take(s.len() as int) =~= s);
        }
        self.entries = kept;
    }

    /// Whether two queues hold the same entries in the same order.
    pub fn same_entries(&self, other: &Self) -> (r: bool)
        ensures
            r == (self@ == other@),
    {
        if self.entries.len() != other.entries.len() {
            proof {
                assert(self@.len() != other@.len());
            }
            return false;
        }
        let mut i: usize = 0;
        while i < self.entries.len()
            invariant
                i <= self@.len(),
                self@.len() == other@.len(),
                forall|k: int| 0 <= k < i ==> self@[k] == other@[k],
            decreases self@.len() - i,
        {
            let a = self.entries[i];
            let b = other.entries[i];
            if a.0 != b.0 || a.1 != b.1 {
                return false;
            }
            i = i + 1;
        }
        proof {
            assert(self@ =~= other@);
        }
        true
    }
}

impl Clone for PriorityQueue {
    /// An independent queue holding the same entries.
    fn clone(&self) -> (r: Self)
        ensures
            r@ == self@,
    {
        let mut entries: Vec<(u64, u64)> = Vec::new();
        let mut i: usize = 0;
        while i < self.entries.len()
            invariant
                i <= self.entries@.len(),
                entries@ == self.entries@.take(i as int),
            decreases self.entries@.len() - i,
        {
            entries.push(self.entries[i]);
            proof {
                assert(entries@ =~= self.entries@.take(i + 1 as int));
            }
            i = i + 1;
        }
        proof {
            assert(self.entries@.take(self.entries@.len() as int) =~= self.entries@);
        }
        PriorityQueue { entries }
    }
}

} // verus!
