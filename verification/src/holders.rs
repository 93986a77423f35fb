//! The token holder list: accounts with balances, kept with unique
//! accounts, queried as pages of a descending-by-balance listing.
//!
//! An account is identified by its serialized bytes. Upserting replaces
//! the balance of a present account and appends an absent one; the
//! listing sorts by balance, largest first, stably — accounts with equal
//! balances keep their relative order — and is paginated by an offset and
//! a limit.

use vstd::prelude::*;

verus! {

/// An account identifier: its serialized bytes.
#[derive(Debug)]
pub struct AccountKey {
    pub bytes: Vec<u8>,
}

impl View for AccountKey {
    type V = Seq<u8>;

    open spec fn view(&self) -> Seq<u8> {
        self.bytes@
    }
}

impl PartialEq for AccountKey {
    /// Two account keys are equal when their bytes are.
    fn eq(&self, other: &AccountKey) -> (r: bool) {
        let r = self.bytes == other.bytes;
        proof {
            if r {
                assert(self.bytes@ =~= other.bytes@);
            }
        }
        r
    }
}

impl vstd::std_specs::cmp::PartialEqSpecImpl for AccountKey {
    open spec fn obeys_eq_spec() -> bool {
        true
    }

    open spec fn eq_spec(&self, other: &AccountKey) -> bool {
        self@ == other@
    }
}

impl Eq for AccountKey {

}

impl AccountKey {
    /// Wraps the serialized account bytes.
    pub fn new(bytes: Vec<u8>) -> (r: AccountKey)
        ensures
            r@ == bytes@,
    {
        AccountKey { bytes }
    }

    /// An independent copy holding the same bytes.
    pub fn duplicate(&self) -> (r: AccountKey)
        ensures
            r@ == self@,
    {
        let mut bytes: Vec<u8> = Vec::new();
        let mut i: usize = 0;
        while i < self.bytes.len()
            invariant
                i <= self.bytes@.len(),
                bytes@ == self.bytes@.take(i as int),
            decreases self.bytes@.len() - i,
        {
            bytes.push(self.bytes[i]);
            proof {
                assert(bytes@ =~= self.bytes@.take(i + 1 as int));
            }
            i = i + 1;
        }
        proof {
            assert(self.bytes@.take(self.bytes@.len() as int) =~= self.bytes@);
        }
        AccountKey { bytes }
    }
}

/// One holder entry of a listing page: the account and its balance.
#[derive(Debug)]
pub struct HolderData {
    pub account: AccountKey,
    pub amount: u64,
}

impl View for HolderData {
    type V = (Seq<u8>, u64);

    open spec fn view(&self) -> (Seq<u8>, u64) {
        (self.account@, self.amount)
    }
}

/// The listing's metadata: how many holders there are in total.
#[derive(Clone, Copy, Debug, PartialEq, Eq, Structural)]
pub struct HolderListMetadata {
    pub total: u64,
}

/// One page of the holder listing, with its metadata.
#[derive(Debug)]
pub struct HolderListResp {
    pub metadata: HolderListMetadata,
    pub data: Vec<HolderData>,
}

/// One upsert: the account and its new balance.
#[derive(Debug)]
pub struct UpsertHolderInput {
    pub account: AccountKey,
    pub amount: u64,
}

impl View for UpsertHolderInput {
    type V = (Seq<u8>, u64);

    open spec fn view(&self) -> (Seq<u8>, u64) {
        (self.account@, self.amount)
    }
}

/// Whether no two entries name the same account.
pub open spec fn accounts_distinct(s: Seq<(Seq<u8>, u64)>) -> bool {
    forall|i: int, j: int| 0 <= i < j < s.len() ==> s[i].0 != s[j].0
}

/// The list after one upsert: the first entry with the account gets the
/// new balance, an absent account is appended at the end.
pub open spec fn upsert_one(s: Seq<(Seq<u8>, u64)>, key: Seq<u8>, amount: u64) -> Seq<
    (Seq<u8>, u64),
>
    decreases s.len(),
{
    if s.len() == 0 {
        seq![(key, amount)]
    } else if s[0].0 == key {
        seq![(key, amount)] + s.drop_first()
    } else {
        seq![s[0]] + upsert_one(s.drop_first(), key, amount)
    }
}

/// The list after a whole batch of upserts, applied left to right.
pub open spec fn upsert_all(s: Seq<(Seq<u8>, u64)>, input: Seq<(Seq<u8>, u64)>) -> Seq<
    (Seq<u8>, u64),
>
    decreases input.len(),
{
    if input.len() == 0 {
        s
    } else {
        upsert_all(upsert_one(s, input[0].0, input[0].1), input.drop_first())
    }
}

/// Whether balances are non-increasing along the sequence.
pub open spec fn sorted_desc(s: Seq<(Seq<u8>, u64)>) -> bool {
    forall|i: int, j: int| 0 <= i < j < s.len() ==> s[i].1 >= s[j].1
}

/// A stable descending insertion: the new entry goes after every entry
/// with a balance at least as large.
pub open spec fn insert_sorted_desc(s: Seq<(Seq<u8>, u64)>, e: (Seq<u8>, u64)) -> Seq<
    (Seq<u8>, u64),
>
    decreases s.len(),
{
    if s.len() == 0 {
        seq![e]
    } else if s[0].1 >= e.1 {
        seq![s[0]] + insert_sorted_desc(s.drop_first(), e)
    } else {
        seq![e] + s
    }
}

/// The stable descending sort of the list: insertion of each entry in
/// turn, so entries with equal balances keep their stored order.
pub open spec fn sort_desc(s: Seq<(Seq<u8>, u64)>) -> Seq<(Seq<u8>, u64)>
    decreases s.len(),
{
    if s.len() == 0 {
        s
    } else {
        insert_sorted_desc(sort_desc(s.drop_last()), s.last())
    }
}

/// One page of a listing: at most `limit` entries starting at `offset`.
pub open spec fn page_of(s: Seq<(Seq<u8>, u64)>, offset: int, limit: int) -> Seq<(Seq<u8>, u64)> {
    if offset >= s.len() {
        Seq::empty()
    } else if limit >= s.len() - offset {
        s.skip(offset)
    } else {
        s.skip(offset).take(limit)
    }
}

/// The reading of a holder vector: its entries as (bytes, balance) pairs.
pub open spec fn holders_view(s: Seq<HolderData>) -> Seq<(Seq<u8>, u64)> {
    s.map_values(|d: HolderData| d@)
}

/// What the descending insertion does at the position the exec search
/// finds, and that it keeps the sequence sorted.
pub proof fn lemma_insert_sorted_desc_at(s: Seq<(Seq<u8>, u64)>, e: (Seq<u8>, u64), j: int)
    requires
        sorted_desc(s),
        0 <= j <= s.len(),
        forall|k: int| 0 <= k < j ==> s[k].1 >= e.1,
        j == s.len() || s[j].1 < e.1,
    ensures
        insert_sorted_desc(s, e) == s.take(j) + seq![e] + s.skip(j),
        sorted_desc(insert_sorted_desc(s, e)),
    decreases s.len(),
{
    if s.len() == 0 {
        assert(insert_sorted_desc(s, e) =~= s.take(j) + seq![e] + s.skip(j));
    } else if j == 0 {
        assert(insert_sorted_desc(s, e) =~= s.take(0) + seq![e] + s.skip(0));
    } else {
        let s1 = s.drop_first();
        assert(sorted_desc(s1)) by {
            assert(forall|p: int, q: int|
                0 <= p < q < s1.len() ==> s1[p] == s[p + 1] && s1[q] == s[q + 1]);
        }
        assert(forall|k: int| 0 <= k < j - 1 ==> s1[k] == s[k + 1] && s1[k].1 >= e.1);
        assert(j - 1 == s1.len() || s1[j - 1].1 < e.1);
        lemma_insert_sorted_desc_at(s1, e, j - 1);
        assert(s[0].1 >= e.1);
        assert(insert_sorted_desc(s, e) =~= s.take(j) + seq![e] + s.skip(j));
    }
    let t = s.take(j) + seq![e] + s.skip(j);
    assert forall|p: int, q: int| 0 <= p < q < t.len() implies t[p].1 >= t[q].1 by {
        if p < j && q == j {
            assert(t[p] == s[p]);
        } else if p == j && q > j {
            assert(t[q] == s[q - 1]);
            if q - 1 > j {
                assert(s[j].1 >= s[q - 1].1);
            }
        } else if p < j && q > j {
            assert(t[p] == s[p] && t[q] == s[q - 1]);
            if q - 1 > j {
                assert(s[j].1 >= s[q - 1].1);
            }
        } else if q < j {
            assert(t[p] == s[p] && t[q] == s[q]);
        } else if p > j {
            assert(t[p] == s[p - 1] && t[q] == s[q - 1]);
        }
    }
}

/// What one upsert does when the account is present at position `j`.
pub proof fn lemma_upsert_one_at(s: Seq<(Seq<u8>, u64)>, key: Seq<u8>, amount: u64, j: int)
    requires
        0 <= j < s.len(),
        s[j].0 == key,
        forall|k: int| 0 <= k < j ==> s[k].0 != key,
    ensures
        upsert_one(s, key, amount) == s.take(j) + seq![(key, amount)] + s.skip(j + 1),
    decreases s.len(),
{
    if s[0].0 == key {
        assert(j == 0);
        assert(upsert_one(s, key, amount) =~= s.take(0) + seq![(key, amount)] + s.skip(1));
    } else {
        let s1 = s.drop_first();
        assert(j > 0);
        assert(s1[j - 1].0 == key);
        assert(forall|k: int| 0 <= k < j - 1 ==> s1[k] == s[k + 1] && s1[k].0 != key);
        lemma_upsert_one_at(s1, key, amount, j - 1);
        assert(upsert_one(s, key, amount) =~= s.take(j) + seq![(key, amount)] + s.skip(j + 1));
    }
}

/// What one upsert does when the account is absent: it appends.
pub proof fn lemma_upsert_one_missing(s: Seq<(Seq<u8>, u64)>, key: Seq<u8>, amount: u64)
    requires
        forall|k: int| 0 <= k < s.len() ==> s[k].0 != key,
    ensures
        upsert_one(s, key, amount) == s.push((key, amount)),
    decreases s.len(),
{
    if s.len() == 0 {
        assert(upsert_one(s, key, amount) =~= s.push((key, amount)));
    } else {
        assert(forall|k: int|
            0 <= k < s.drop_first().len() ==> s.drop_first()[k] == s[k + 1]
                && s.drop_first()[k].0 != key);
        lemma_upsert_one_missing(s.drop_first(), key, amount);
        assert(upsert_one(s, key, amount) =~= s.push((key, amount)));
    }
}

/// A batch of upserts folds from the left: doing one more upsert after a
/// batch is the same as upserting the batch extended by it.
pub proof fn lemma_upsert_all_snoc(
    s: Seq<(Seq<u8>, u64)>,
    input: Seq<(Seq<u8>, u64)>,
    e: (Seq<u8>, u64),
)
    ensures
        upsert_all(s, input.push(e)) == upsert_one(upsert_all(s, input), e.0, e.1),
    decreases input.len(),
{
    reveal_with_fuel(upsert_all, 2);
    if input.len() == 0 {
        assert(input.push(e).drop_first() =~= input);
        assert(input.push(e)[0] == e);
        assert(upsert_all(s, input.push(e)) == upsert_all(upsert_one(s, e.0, e.1), input));
    } else {
        assert(input.push(e)[0] == input[0]);
        assert(input.push(e).drop_first() =~= input.drop_first().push(e));
        lemma_upsert_all_snoc(upsert_one(s, input[0].0, input[0].1), input.drop_first(), e);
    }
}

/// The holder list: accounts with balances, each account at most once.
#[derive(Debug)]
pub struct HolderList {
    entries: Vec<(AccountKey, u64)>,
}

impl View for HolderList {
    type V = Seq<(Seq<u8>, u64)>;

    closed spec fn view(&self) -> Seq<(Seq<u8>, u64)> {
        self.entries@.map_values(|e: (AccountKey, u64)| (e.0@, e.1))
    }
}

impl HolderList {
    /// The list's invariant: accounts are unique.
    pub open spec fn well_formed(&self) -> bool {
        accounts_distinct(self@)
    }

    /// An empty holder list.
    pub fn new() -> (r: HolderList)
        ensures
            r@ == Seq::<(Seq<u8>, u64)>::empty(),
            r.well_formed(),
    {
        let entries: Vec<(AccountKey, u64)> = Vec::new();
        proof {
            assert(entries@.map_values(|e: (AccountKey, u64)| (e.0@, e.1)) =~= Seq::<
                (Seq<u8>, u64),
            >::empty());
        }
        HolderList { entries }
    }

    /// The number of holders.
    pub fn len(&self) -> (r: usize)
        ensures
            r == self@.len(),
    {
        self.entries.len()
    }

    /// Sets the balance of one account: replaces a present account's
    /// balance, appends an absent account.
    pub fn upsert(&mut self, account: AccountKey, amount: u64)
        requires
            old(self).well_formed(),
        ensures
            final(self).well_formed(),
            final(self)@ == upsert_one(old(self)@, account@, amount),
    {
        let ghost s = self@;
        let mut i: usize = 0;
        while i < self.entries.len()
            invariant
                self@ == s,
                self.entries@.map_values(|e: (AccountKey, u64)| (e.0@, e.1)) == s,
                i <= s.len(),
                forall|k: int| 0 <= k < i ==> s[k].0 != account@,
            ensures
                self@ == s,
                self.entries@.map_values(|e: (AccountKey, u64)| (e.0@, e.1)) == s,
                i <= s.len(),
                forall|k: int| 0 <= k < i ==> s[k].0 != account@,
                i == s.len() || s[i as int].0 == account@,
            decreases s.len() - i,
        {
            let hit = self.entries[i].0 == account;
            proof {
                assert(s[i as int] == (self.entries@[i as int].0@, self.entries@[i as int].1));
            }
            if hit {
                break ;
            }
            i = i + 1;
        }
        if i < self.entries.len() {
            let entry = self.entries.remove(i);
            self.entries.insert(i, (entry.0, amount));
            proof {
                lemma_upsert_one_at(s, account@, amount, i as int);
                assert(self.entries@ =~= old(self).entries@.update(
                    i as int,
                    (old(self).entries@[i as int].0, amount),
                ));
                assert(self@ =~= upsert_one(s, account@, amount));
                assert(forall|p: int|
                    0 <= p < self@.len() && p != i ==> self@[p] == s[p]);
                assert(self@[i as int].0 == s[i as int].0);
            }
        } else {
            self.entries.push((account, amount));
            proof {
                lemma_upsert_one_missing(s, account@, amount);
                assert(self@ =~= upsert_one(s, account@, amount));
            }
        }
    }

    /// A borrow of the entry at the given position, for walking the list.
    pub fn entry_at(&self, i: usize) -> (r: (&AccountKey, u64))
        requires
            i < self@.len(),
        ensures
            (r.0@, r.1) == self@[i as int],
    {
        let entry = &self.entries[i];
        (&entry.0, entry.1)
    }
}

/// Records a batch of balances: upserts each input entry in turn.
pub fn upsert_holders(list: &mut HolderList, input: Vec<UpsertHolderInput>)
    requires
        old(list).well_formed(),
    ensures
        final(list).well_formed(),
        final(list)@ == upsert_all(old(list)@, input@.map_values(|u: UpsertHolderInput| u@)),
{
    let ghost input_view = input@.map_values(|u: UpsertHolderInput| u@);
    let mut input = input;
    let mut i: usize = 0;
    proof {
        assert(upsert_all(old(list)@, input_view.take(0)) =~= old(list)@) by {
            assert(input_view.take(0) =~= Seq::<(Seq<u8>, u64)>::empty());
        }
    }
    while i < input.len()
        invariant
            list.well_formed(),
            input@.map_values(|u: UpsertHolderInput| u@) == input_view,
            i <= input_view.len(),
            list@ == upsert_all(old(list)@, input_view.take(i as int)),
        decreases input_view.len() - i,
    {
        let amount = input[i].amount;
        let ghost before = list@;
        let account = input[i].account.duplicate();
        list.upsert(account, amount);
        proof {
            assert(input_view.take(i + 1 as int) =~= input_view.take(i as int).push(
                input_view[i as int],
            ));
            lemma_upsert_all_snoc(old(list)@, input_view.take(i as int), input_view[i as int]);
            assert(input_view[i as int] == (input@[i as int].account@, input@[i as int].amount));
        }
        i = i + 1;
    }
    proof {
        assert(input_view.take(input_view.len() as int) =~= input_view);
    }
}

/// The number of holders in the list.
pub fn count_holders(list: &HolderList) -> (r: u64)
    ensures
        r == list@.len(),
{
    list.len() as u64
}

/// One page of the holder listing: the holders sorted by balance,
/// largest first and stably (equal balances keep their stored order),
/// then cut to `limit` entries starting at `offset`; the metadata counts
/// all holders.
pub fn get_holders(list: &HolderList, offset: u32, limit: u32) -> (r: HolderListResp)
    ensures
        r.metadata.total == list@.len(),
        holders_view(r.data@) == page_of(sort_desc(list@), offset as int, limit as int),
{
    let total = count_holders(list);

    // Stable insertion sort, by descending balance.
    let mut sorted: Vec<HolderData> = Vec::new();
    let mut i: usize = 0;
    proof {
        assert(holders_view(sorted@) =~= sort_desc(list@.take(0))) by {
            assert(list@.take(0) =~= Seq::<(Seq<u8>, u64)>::empty());
        }
        assert(sorted_desc(holders_view(sorted@)));
    }
    while i < list.len()
        invariant
            i <= list@.len(),
            holders_view(sorted@) == sort_desc(list@.take(i as int)),
            sorted_desc(holders_view(sorted@)),
            sorted@.len() == i,
        decreases list@.len() - i,
    {
        let (account, amount) = list.entry_at(i);
        let ghost sv = holders_view(sorted@);
        let mut j: usize = 0;
        while j < sorted.len()
            invariant
                holders_view(sorted@) == sv,
                sorted@.len() == sv.len(),
                j <= sv.len(),
                forall|k: int| 0 <= k < j ==> sv[k].1 >= amount,
            ensures
                holders_view(sorted@) == sv,
                sorted@.len() == sv.len(),
                j <= sv.len(),
                forall|k: int| 0 <= k < j ==> sv[k].1 >= amount,
                j == sv.len() || sv[j as int].1 < amount,
            decreases sv.len() - j,
        {
            let cur = sorted[j].amount;
            proof {
                assert(sv[j as int] == sorted@[j as int]@);
            }
            if cur < amount {
                break ;
            }
            j = j + 1;
        }
        let entry = HolderData { account: account.duplicate(), amount };
        proof {
            lemma_insert_sorted_desc_at(sv, entry@, j as int);
        }
        sorted.insert(j, entry);
        proof {
            assert(holders_view(sorted@) =~= sv.take(j as int) + seq![entry@] + sv.skip(j as int));
            assert(list@.take(i + 1 as int).drop_last() =~= list@.take(i as int));
            assert(list@.take(i + 1 as int).last() == list@[i as int]);
            assert(entry@ == list@[i as int]);
        }
        i = i + 1;
    }
    proof {
        assert(list@.take(list@.len() as int) =~= list@);
    }

    // Paginate the sorted listing.
    let ghost full = sort_desc(list@);
    let mut data: Vec<HolderData> = Vec::new();
    let offset_usize = offset as usize;
    let slen = sorted.len();
    if offset_usize < slen {
        let remaining = slen - offset_usize;
        let limit_usize = limit as usize;
        let take_n = if limit_usize < remaining {
            limit_usize
        } else {
            remaining
        };
        let mut k: usize = 0;
        while k < take_n
            invariant
                holders_view(sorted@) == full,
                sorted@.len() == full.len(),
                sorted@.len() == slen,
                offset_usize + take_n <= slen,
                data@.len() == k,
                k <= take_n,
                forall|q: int| 0 <= q < k ==> (#[trigger] data@[q])@ == full[offset_usize + q],
            decreases take_n - k,
        {
            let src = &sorted[offset_usize + k];
            let copied = HolderData { account: src.account.duplicate(), amount: src.amount };
            proof {
                assert(full[offset_usize + k as int] == sorted@[offset_usize + k as int]@);
            }
            data.push(copied);
            k = k + 1;
        }
        proof {
            assert(holders_view(data@) =~= page_of(full, offset as int, limit as int));
        }
    } else {
        proof {
            assert(holders_view(data@) =~= page_of(full, offset as int, limit as int));
        }
    }

    HolderListResp { metadata: HolderListMetadata { total }, data }
}

} // verus!
