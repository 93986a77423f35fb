use message_pool::holders::AccountKey;
use message_pool::holders::HolderList;
use message_pool::holders::UpsertHolderInput;
use message_pool::holders::count_holders;
use message_pool::holders::get_holders;
use message_pool::holders::upsert_holders;

fn key(byte: u8) -> AccountKey {
    AccountKey::new(vec![byte, byte, byte])
}

fn input(byte: u8, amount: u64) -> UpsertHolderInput {
    UpsertHolderInput { account: key(byte), amount }
}

#[test]
fn upsert_inserts_and_replaces() {
    let mut list = HolderList::new();
    upsert_holders(&mut list, vec![input(1, 100), input(2, 200)]);
    assert_eq!(count_holders(&list), 2);

    // Upserting a present account replaces its balance in place.
    upsert_holders(&mut list, vec![input(1, 150)]);
    assert_eq!(count_holders(&list), 2);

    let resp = get_holders(&list, 0, 10);
    assert_eq!(resp.metadata.total, 2);
    assert_eq!(resp.data.len(), 2);
    assert_eq!(resp.data[0].amount, 200);
    assert_eq!(resp.data[0].account, key(2));
    assert_eq!(resp.data[1].amount, 150);
    assert_eq!(resp.data[1].account, key(1));
}

#[test]
fn listing_is_sorted_descending_and_stable() {
    let mut list = HolderList::new();
    upsert_holders(
        &mut list,
        vec![input(1, 10), input(2, 300), input(3, 50), input(4, 300), input(5, 50)],
    );

    let resp = get_holders(&list, 0, 10);
    let amounts: Vec<u64> = resp.data.iter().map(|d| d.amount).collect();
    assert_eq!(amounts, vec![300, 300, 50, 50, 10]);

    // Equal balances keep their stored (insertion) order.
    assert_eq!(resp.data[0].account, key(2));
    assert_eq!(resp.data[1].account, key(4));
    assert_eq!(resp.data[2].account, key(3));
    assert_eq!(resp.data[3].account, key(5));
}

#[test]
fn pagination_cuts_offset_and_limit() {
    let mut list = HolderList::new();
    upsert_holders(
        &mut list,
        vec![input(1, 5), input(2, 4), input(3, 3), input(4, 2), input(5, 1)],
    );

    let page = get_holders(&list, 1, 2);
    assert_eq!(page.metadata.total, 5);
    assert_eq!(page.data.len(), 2);
    assert_eq!(page.data[0].amount, 4);
    assert_eq!(page.data[1].amount, 3);

    let tail = get_holders(&list, 4, 10);
    assert_eq!(tail.data.len(), 1);
    assert_eq!(tail.data[0].amount, 1);

    let beyond = get_holders(&list, 9, 3);
    assert_eq!(beyond.metadata.total, 5);
    assert!(beyond.data.is_empty());

    let none = get_holders(&list, 0, 0);
    assert!(none.data.is_empty());
}

#[test]
fn count_holders_counts_distinct_accounts() {
    let mut list = HolderList::new();
    assert_eq!(count_holders(&list), 0);
    upsert_holders(&mut list, vec![input(7, 1), input(7, 2), input(8, 3)]);
    assert_eq!(count_holders(&list), 2);
}

#[test]
fn account_keys_compare_by_bytes() {
    assert_eq!(key(1), key(1));
    assert!(key(1) != key(2));
    let k = key(9);
    let copy = k.duplicate();
    assert_eq!(k, copy);
}
