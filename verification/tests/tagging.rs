use credit_card_billsplit::totals::{grand_total, tag_total};
use credit_card_billsplit::transaction::{Tag, Transaction};

fn tx(amount: i64) -> Transaction {
    Transaction::new(
        "05 JUN".to_string(),
        "SHOP".to_string(),
        amount,
        String::new(),
        None,
    )
}

#[test]
fn toggle_sets_and_clears_the_same_tag() {
    let mut t = tx(385);
    t.toggle_tag(Tag::Personal);
    assert_eq!(t.tag, Some(Tag::Personal));
    t.toggle_tag(Tag::Personal);
    assert_eq!(t.tag, None);
}

#[test]
fn toggle_replaces_the_other_tag() {
    let mut t = tx(385);
    t.toggle_tag(Tag::Personal);
    t.toggle_tag(Tag::Joint);
    assert_eq!(t.tag, Some(Tag::Joint));
    t.toggle_tag(Tag::Personal);
    assert_eq!(t.tag, Some(Tag::Personal));
}

#[test]
fn toggle_leaves_the_rest_of_the_record_alone() {
    let mut t = tx(-1200);
    t.toggle_tag(Tag::Joint);
    assert_eq!(t.date, "05 JUN");
    assert_eq!(t.description, "SHOP");
    assert_eq!(t.amount, -1200);
    assert_eq!(t.card, "");
}

#[test]
fn grand_total_sums_all_amounts() {
    let mut ts = vec![tx(385), tx(-1200), tx(1000)];
    assert_eq!(grand_total(&ts), 185);
    ts[0].toggle_tag(Tag::Personal);
    ts[1].toggle_tag(Tag::Joint);
    assert_eq!(grand_total(&ts), 185);
}

#[test]
fn tag_totals_are_restricted_sums() {
    let mut ts = vec![tx(385), tx(-1200), tx(1000)];
    ts[0].toggle_tag(Tag::Personal);
    ts[1].toggle_tag(Tag::Joint);
    assert_eq!(tag_total(&ts, Tag::Personal), 385);
    assert_eq!(tag_total(&ts, Tag::Joint), -1200);
}

#[test]
fn untagged_transactions_count_toward_the_grand_total_only() {
    let ts = vec![tx(385), tx(-1200)];
    assert_eq!(grand_total(&ts), -815);
    assert_eq!(tag_total(&ts, Tag::Personal), 0);
    assert_eq!(tag_total(&ts, Tag::Joint), 0);
}

#[test]
fn empty_sequence_has_zero_totals() {
    let ts: Vec<Transaction> = Vec::new();
    assert_eq!(grand_total(&ts), 0);
    assert_eq!(tag_total(&ts, Tag::Personal), 0);
}
