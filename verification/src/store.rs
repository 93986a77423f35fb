//! The primary message store: entries `(raw id, message)` kept sorted by
//! strictly ascending id.
//!
//! The store is the ground truth of the pool: a message is in the pool if
//! and only if its id resolves here. Keeping entries sorted by id makes the
//! representation canonical, so two pools built by the same operation
//! sequence hold byte-identical stores.

use vstd::prelude::*;

use crate::message::Message;

verus! {

/// Whether the entries' ids are strictly ascending (hence unique).
pub open spec fn ids_sorted(s: Seq<(u64, Message)>) -> bool {
    forall|i: int, j: int| 0 <= i < j < s.len() ==> s[i].0 < s[j].0
}

/// Whether some entry carries the given id.
pub open spec fn store_contains_id(s: Seq<(u64, Message)>, id: u64) -> bool {
    exists|k: int| 0 <= k < s.len() && s[k].0 == id
}

/// The message stored under the given id (meaningful only when present).
pub open spec fn store_lookup(s: Seq<(u64, Message)>, id: u64) -> Message {
    s[choose|k: int| 0 <= k < s.len() && s[k].0 == id].1
}

/// The store with a new entry put at its sorted position.
pub open spec fn store_insert(s: Seq<(u64, Message)>, id: u64, m: Message) -> Seq<(u64, Message)>
    decreases s.len(),
{
    if s.len() == 0 {
        seq![(id, m)]
    } else if id < s[0].0 {
        seq![(id, m)] + s
    } else {
        seq![s[0]] + store_insert(s.drop_first(), id, m)
    }
}

/// The store with the entry of the given id removed (the first such entry;
/// with sorted ids there is at most one).
pub open spec fn store_remove(s: Seq<(u64, Message)>, id: u64) -> Seq<(u64, Message)>
    decreases s.len(),
{
    if s.len() == 0 {
        s
    } else if s[0].0 == id {
        s.drop_first()
    } else {
        seq![s[0]] + store_remove(s.drop_first(), id)
    }
}

/// Inserting an id greater than every present id appends at the end.
pub proof fn lemma_store_insert_greatest(s: Seq<(u64, Message)>, id: u64, m: Message)
    requires
        forall|k: int| 0 <= k < s.len() ==> s[k].0 < id,
    ensures
        store_insert(s, id, m) == s.push((id, m)),
    decreases s.len(),
{
    if s.len() == 0 {
        assert(store_insert(s, id, m) =~= s.push((id, m)));
    } else {
        lemma_store_insert_greatest(s.drop_first(), id, m);
        assert(store_insert(s, id, m) =~= s.push((id, m)));
    }
}

/// What `store_insert` does, entry by entry: the result is one longer,
/// keeps ids sorted when the new id is fresh, contains exactly the old ids
/// plus the new one, and looks up to the old messages plus the new one.
pub proof fn lemma_store_insert_facts(s: Seq<(u64, Message)>, id: u64, m: Message)
    requires
        ids_sorted(s),
        !store_contains_id(s, id),
    ensures
        store_insert(s, id, m).len() == s.len() + 1,
        ids_sorted(store_insert(s, id, m)),
        forall|x: u64| #[trigger]
            store_contains_id(store_insert(s, id, m), x) == (store_contains_id(s, x) || x == id),
        store_lookup(store_insert(s, id, m), id) == m,
        forall|x: u64|
            store_contains_id(s, x) ==> #[trigger] store_lookup(store_insert(s, id, m), x)
                == store_lookup(s, x),
    decreases s.len(),
{
    let t = store_insert(s, id, m);
    if s.len() == 0 {
        assert forall|x: u64| #[trigger]
            store_contains_id(t, x) == (store_contains_id(s, x) || x == id) by {
            if store_contains_id(t, x) {
                let k = choose|k: int| 0 <= k < t.len() && t[k].0 == x;
                assert(k == 0);
            }
            if x == id {
                assert(t[0].0 == x);
            }
        }
        lemma_lookup_unique(t, id, 0, m);
    } else if id < s[0].0 {
        assert(t =~= seq![(id, m)] + s);
        assert forall|i: int, j: int| 0 <= i < j < t.len() implies t[i].0 < t[j].0 by {
            if i > 0 {
                assert(s[i - 1].0 < s[j - 1].0);
            } else {
                assert(t[j].0 == s[j - 1].0);
                if j - 1 > 0 {
                    assert(s[0].0 < s[j - 1].0);
                }
            }
        }
        assert forall|x: u64| #[trigger]
            store_contains_id(t, x) == (store_contains_id(s, x) || x == id) by {
            if store_contains_id(t, x) {
                let k = choose|k: int| 0 <= k < t.len() && t[k].0 == x;
                if k > 0 {
                    assert(s[k - 1].0 == x);
                }
            }
            if store_contains_id(s, x) {
                let k = choose|k: int| 0 <= k < s.len() && s[k].0 == x;
                assert(t[k + 1].0 == x);
            }
            if x == id {
                assert(t[0].0 == x);
            }
        }
        lemma_lookup_unique(t, id, 0, m);
        assert forall|x: u64| store_contains_id(s, x) implies #[trigger] store_lookup(t, x)
            == store_lookup(s, x) by {
            let k = choose|k: int| 0 <= k < s.len() && s[k].0 == x;
            lemma_lookup_unique(s, x, k, s[k].1);
            lemma_lookup_unique(t, x, k + 1, s[k].1);
        }
    } else {
        let s1 = s.drop_first();
        assert(ids_sorted(s1)) by {
            assert(forall|i: int, j: int|
                0 <= i < j < s1.len() ==> s1[i].0 == s[i + 1].0 && s1[j].0 == s[j + 1].0);
        }
        assert(!store_contains_id(s1, id)) by {
            if store_contains_id(s1, id) {
                let k = choose|k: int| 0 <= k < s1.len() && s1[k].0 == id;
                assert(s[k + 1].0 == id);
            }
        }
        assert(id != s[0].0);
        lemma_store_insert_facts(s1, id, m);
        let t1 = store_insert(s1, id, m);
        assert(t =~= seq![s[0]] + t1);
        // Every id in t1 is either an id of s1 (all greater than s[0].0 is
        // false in general, but each is some s[k].0 with k >= 1) or the new
        // id, which is greater than s[0].0 here.
        assert forall|i: int, j: int| 0 <= i < j < t.len() implies t[i].0 < t[j].0 by {
            if i > 0 {
                assert(t1[i - 1].0 < t1[j - 1].0);
            } else {
                assert(t[j] == t1[j - 1]);
                assert(store_contains_id(t1, t1[j - 1].0));
                if store_contains_id(s1, t1[j - 1].0) {
                    let k = choose|k: int| 0 <= k < s1.len() && s1[k].0 == t1[j - 1].0;
                    assert(s[0].0 < s[k + 1].0);
                } else {
                    assert(t1[j - 1].0 == id);
                }
            }
        }
        assert forall|x: u64| #[trigger]
            store_contains_id(t, x) == (store_contains_id(s, x) || x == id) by {
            if store_contains_id(t, x) {
                let k = choose|k: int| 0 <= k < t.len() && t[k].0 == x;
                if k == 0 {
                    assert(s[0].0 == x);
                } else {
                    assert(store_contains_id(t1, t[k].0)) by {
                        assert(t1[k - 1].0 == t[k].0);
                    }
                    if store_contains_id(s1, x) {
                        let k2 = choose|k2: int| 0 <= k2 < s1.len() && s1[k2].0 == x;
                        assert(s[k2 + 1].0 == x);
                    }
                }
            }
            if store_contains_id(s, x) {
                let k = choose|k: int| 0 <= k < s.len() && s[k].0 == x;
                if k == 0 {
                    assert(t[0].0 == x);
                } else {
                    assert(s1[k - 1].0 == x);
                    assert(store_contains_id(t1, x));
                    let k3 = choose|k3: int| 0 <= k3 < t1.len() && t1[k3].0 == x;
                    assert(t[k3 + 1].0 == x);
                }
            }
            if x == id {
                assert(store_contains_id(t1, x));
                let k3 = choose|k3: int| 0 <= k3 < t1.len() && t1[k3].0 == x;
                assert(t[k3 + 1].0 == x);
            }
        }
        assert(ids_sorted(t));
        assert(store_contains_id(t1, id));
        let ki = choose|k: int| 0 <= k < t1.len() && t1[k].0 == id;
        lemma_lookup_unique(t, id, ki + 1, t1[ki].1);
        assert(store_lookup(t1, id) == m);
        lemma_lookup_unique(t1, id, ki, t1[ki].1);
        assert forall|x: u64| store_contains_id(s, x) implies #[trigger] store_lookup(t, x)
            == store_lookup(s, x) by {
            let k = choose|k: int| 0 <= k < s.len() && s[k].0 == x;
            lemma_lookup_unique(s, x, k, s[k].1);
            if k == 0 {
                lemma_lookup_unique(t, x, 0, s[0].1);
            } else {
                assert(s1[k - 1].0 == x);
                lemma_lookup_unique(s1, x, k - 1, s1[k - 1].1);
                assert(store_lookup(t1, x) == s[k].1);
                assert(store_contains_id(t1, x));
                let k3 = choose|k3: int| 0 <= k3 < t1.len() && t1[k3].0 == x;
                lemma_lookup_unique(t1, x, k3, t1[k3].1);
                lemma_lookup_unique(t, x, k3 + 1, t1[k3].1);
            }
        }
    }
}

/// With sorted (hence unique) ids, any entry that carries the id settles
/// the lookup's value.
pub proof fn lemma_lookup_unique(s: Seq<(u64, Message)>, id: u64, k: int, m: Message)
    requires
        ids_sorted(s),
        0 <= k < s.len(),
        s[k].0 == id,
        s[k].1 == m,
    ensures
        store_contains_id(s, id),
        store_lookup(s, id) == m,
{
    let k2 = choose|k2: int| 0 <= k2 < s.len() && s[k2].0 == id;
    if k2 < k {
        assert(s[k2].0 < s[k].0);
    } else if k < k2 {
        assert(s[k].0 < s[k2].0);
    }
}

/// What `store_remove` does when the id is present at position `k`: it
/// deletes exactly that entry.
pub proof fn lemma_store_remove_at(s: Seq<(u64, Message)>, id: u64, k: int)
    requires
        ids_sorted(s),
        0 <= k < s.len(),
        s[k].0 == id,
    ensures
        store_remove(s, id) == s.take(k) + s.skip(k + 1),
    decreases s.len(),
{
    if s[0].0 == id {
        if k > 0 {
            assert(s[0].0 < s[k].0);
        }
        assert(store_remove(s, id) =~= s.take(0) + s.skip(1));
    } else {
        let s1 = s.drop_first();
        assert(ids_sorted(s1)) by {
            assert(forall|i: int, j: int|
                0 <= i < j < s1.len() ==> s1[i].0 == s[i + 1].0 && s1[j].0 == s[j + 1].0);
        }
        assert(k > 0);
        assert(s1[k - 1].0 == id);
        lemma_store_remove_at(s1, id, k - 1);
        assert(store_remove(s, id) =~= s.take(k) + s.skip(k + 1));
    }
}

/// What `store_remove` does, entry by entry, when the id is present: the
/// result is one shorter, still sorted, contains exactly the other ids, and
/// looks them up unchanged.
pub proof fn lemma_store_remove_facts(s: Seq<(u64, Message)>, id: u64)
    requires
        ids_sorted(s),
        store_contains_id(s, id),
    ensures
        store_remove(s, id).len() == s.len() - 1,
        ids_sorted(store_remove(s, id)),
        forall|x: u64| #[trigger]
            store_contains_id(store_remove(s, id), x) == (store_contains_id(s, x) && x != id),
        forall|x: u64|
            store_contains_id(s, x) && x != id ==> #[trigger] store_lookup(store_remove(s, id), x)
                == store_lookup(s, x),
{
    let k = choose|k: int| 0 <= k < s.len() && s[k].0 == id;
    lemma_store_remove_at(s, id, k);
    let t = store_remove(s, id);
    assert(t.len() == s.len() - 1);
    assert(forall|i: int| 0 <= i < k ==> t[i] == s[i]);
    assert(forall|i: int| k <= i < t.len() ==> t[i] == s[i + 1]);
    assert forall|x: u64| #[trigger]
        store_contains_id(t, x) == (store_contains_id(s, x) && x != id) by {
        if store_contains_id(t, x) {
            let i = choose|i: int| 0 <= i < t.len() && t[i].0 == x;
            if i < k {
                assert(s[i].0 == x);
                if x == id {
                    assert(s[i].0 < s[k].0);
                }
            } else {
                assert(s[i + 1].0 == x);
                if x == id {
                    assert(s[k].0 < s[i + 1].0);
                }
            }
        }
        if store_contains_id(s, x) && x != id {
            let i = choose|i: int| 0 <= i < s.len() && s[i].0 == x;
            if i < k {
                assert(t[i].0 == x);
            } else if i > k {
                assert(t[i - 1].0 == x);
            }
        }
    }
    assert forall|x: u64| store_contains_id(s, x) && x != id implies #[trigger] store_lookup(t, x)
        == store_lookup(s, x) by {
        let i = choose|i: int| 0 <= i < s.len() && s[i].0 == x;
        lemma_lookup_unique(s, x, i, s[i].1);
        if i < k {
            lemma_lookup_unique(t, x, i, s[i].1);
        } else {
            assert(i > k);
            lemma_lookup_unique(t, x, i - 1, s[i].1);
        }
    }
}

/// Finds the position of the entry with the given id, if present.
pub fn store_find(s: &Vec<(u64, Message)>, id: u64) -> (r: Option<usize>)
    ensures
        match r {
            Some(i) => i < s@.len() && s@[i as int].0 == id,
            None => !store_contains_id(s@, id),
        },
{
    let mut i: usize = 0;
    while i < s.len()
        invariant
            i <= s@.len(),
            forall|k: int| 0 <= k < i ==> s@[k].0 != id,
        decreases s@.len() - i,
    {
        if s[i].0 == id {
            return Some(i);
        }
        i = i + 1;
    }
    None
}

/// What `store_insert` does at the position the exec search finds: all
/// earlier ids are smaller, the found one (if any) is greater, and the new
/// entry lands exactly between them.
pub proof fn lemma_store_insert_at(s: Seq<(u64, Message)>, id: u64, m: Message, i: int)
    requires
        ids_sorted(s),
        0 <= i <= s.len(),
        forall|k: int| 0 <= k < i ==> s[k].0 < id,
        i == s.len() || id < s[i].0,
    ensures
        store_insert(s, id, m) == s.take(i) + seq![(id, m)] + s.skip(i),
    decreases s.len(),
{
    if s.len() == 0 {
        assert(store_insert(s, id, m) =~= s.take(i) + seq![(id, m)] + s.skip(i));
    } else if i == 0 {
        assert(id < s[0].0);
        assert(store_insert(s, id, m) =~= s.take(0) + seq![(id, m)] + s.skip(0));
    } else {
        let s1 = s.drop_first();
        assert(ids_sorted(s1)) by {
            assert(forall|p: int, q: int|
                0 <= p < q < s1.len() ==> s1[p] == s[p + 1] && s1[q] == s[q + 1]);
        }
        assert(forall|k: int| 0 <= k < i - 1 ==> s1[k] == s[k + 1] && s1[k].0 < id);
        assert(i - 1 == s1.len() || id < s1[i - 1].0);
        lemma_store_insert_at(s1, id, m, i - 1);
        assert(!(id < s[0].0));
        assert(store_insert(s, id, m) =~= s.take(i) + seq![(id, m)] + s.skip(i));
    }
}

} // verus!
