use credit_card_billsplit::amount::{parse_amount, AmountError};
use credit_card_billsplit::classify::{classify_line, match_card_header, match_transaction, LineKind};
use credit_card_billsplit::extract::CreditCardBillReader;

fn lines(ls: &[&str]) -> Vec<String> {
    ls.iter().map(|l| l.to_string()).collect()
}

#[test]
fn scenario_citi_statement() {
    let reader = CreditCardBillReader::default();
    let ts = reader
        .read_lines(&lines(&[
            "CITI PREMIERMILES CARD 4444 5555 6666 5136 - J DOE",
            "05 JUN TAOBAO.COM Singapore SG 3.85",
            "07 JUN REFUND MERCHANT (12.00)",
        ]))
        .unwrap();
    assert_eq!(ts.len(), 2);
    assert_eq!(ts[0].date, "05 JUN");
    assert_eq!(ts[0].description, "TAOBAO.COM Singapore SG");
    assert_eq!(ts[0].amount, 385);
    assert_eq!(ts[0].card, "4444 5555 6666 5136");
    assert_eq!(ts[0].tag, None);
    assert_eq!(ts[1].date, "07 JUN");
    assert_eq!(ts[1].description, "REFUND MERCHANT");
    assert_eq!(ts[1].amount, -1200);
    assert_eq!(ts[1].card, "4444 5555 6666 5136");
    assert_eq!(ts[1].tag, None);
}

#[test]
fn card_header_capture_ignores_masked_prefix() {
    let r = match_card_header("XX** **** CARD 1234 5678 9012 3456 - A HOLDER");
    assert_eq!(r.as_deref(), Some("1234 5678 9012 3456"));
}

#[test]
fn card_header_keyword_is_case_insensitive() {
    let r = match_card_header("my card 1111 2222 3333 4444 - owner");
    assert_eq!(r.as_deref(), Some("1111 2222 3333 4444"));
}

#[test]
fn card_header_group_must_be_digits() {
    assert_eq!(match_card_header("CITI CARD 4*** **** **** 5136 - T HOLDER"), None);
}

#[test]
fn card_header_rightmost_occurrence_wins() {
    let line = " CARD 1111 1111 1111 1111 -  CARD 2222 2222 2222 2222 - end";
    assert_eq!(match_card_header(line).as_deref(), Some("2222 2222 2222 2222"));
}

#[test]
fn card_header_has_precedence_over_transaction() {
    let line = "05 JUN CARD 1111 2222 3333 4444 - 3.85";
    match classify_line(line) {
        LineKind::CardHeader(g) => assert_eq!(g, "1111 2222 3333 4444"),
        _ => panic!("expected a card header"),
    }
}

#[test]
fn transaction_plain_amount() {
    let (date, desc, amt) = match_transaction("05 JUN TAOBAO.COM Singapore SG 3.85").unwrap();
    assert_eq!(date, "05 JUN");
    assert_eq!(desc, "TAOBAO.COM Singapore SG");
    assert_eq!(amt, "3.85");
}

#[test]
fn transaction_parenthesized_amount() {
    let (date, desc, amt) = match_transaction("07 JUN REFUND MERCHANT (12.00)").unwrap();
    assert_eq!(date, "07 JUN");
    assert_eq!(desc, "REFUND MERCHANT");
    assert_eq!(amt, "(12.00)");
}

#[test]
fn transaction_start_is_leftmost_full_match() {
    let (date, desc, amt) = match_transaction("123 JUN X 1.00").unwrap();
    assert_eq!(date, "23 JUN");
    assert_eq!(desc, "X");
    assert_eq!(amt, "1.00");
}

#[test]
fn transaction_description_is_greedy() {
    let (date, desc, amt) = match_transaction("05 JUN PAID 1.00 THEN 2.50").unwrap();
    assert_eq!(date, "05 JUN");
    assert_eq!(desc, "PAID 1.00 THEN");
    assert_eq!(amt, "2.50");
}

#[test]
fn transaction_trailing_text_after_amount() {
    let (_, desc, amt) = match_transaction("05 JUN SHOP 3.85 x").unwrap();
    assert_eq!(desc, "SHOP");
    assert_eq!(amt, "3.85");
}

#[test]
fn transaction_amount_keeps_two_fraction_digits() {
    let (_, desc, amt) = match_transaction("05 JUN SHOP 3.853").unwrap();
    assert_eq!(desc, "SHOP");
    assert_eq!(amt, "3.85");
}

#[test]
fn transaction_description_may_be_empty() {
    let (date, desc, amt) = match_transaction("05 JUN  3.85").unwrap();
    assert_eq!(date, "05 JUN");
    assert_eq!(desc, "");
    assert_eq!(amt, "3.85");
}

#[test]
fn footer_matches_neither_pattern() {
    match classify_line("Page 1 of 3") {
        LineKind::Unmatched => {}
        _ => panic!("expected no match"),
    }
}

#[test]
fn unmatched_line_changes_nothing() {
    let reader = CreditCardBillReader::default();
    let ts = reader
        .read_lines(&lines(&[
            "SOME CARD 1111 2222 3333 4444 - OWNER",
            "Page 1 of 3",
            "05 JUN SHOP 1.00",
        ]))
        .unwrap();
    assert_eq!(ts.len(), 1);
    assert_eq!(ts[0].card, "1111 2222 3333 4444");
}

#[test]
fn transaction_before_any_header_has_empty_card() {
    let reader = CreditCardBillReader::default();
    let ts = reader
        .read_lines(&lines(&[
            "05 JUN EARLY SHOP 1.00",
            "SOME CARD 1111 2222 3333 4444 - OWNER",
            "06 JUN LATER SHOP 2.00",
        ]))
        .unwrap();
    assert_eq!(ts.len(), 2);
    assert_eq!(ts[0].card, "");
    assert_eq!(ts[1].card, "1111 2222 3333 4444");
}

#[test]
fn card_context_persists_across_pages() {
    let reader = CreditCardBillReader::default();
    let pages = vec![
        Some(lines(&["SOME CARD 1111 2222 3333 4444 - OWNER"])),
        Some(lines(&["05 JUN SHOP 1.00"])),
    ];
    let ts = reader.read_pages(&pages).unwrap();
    assert_eq!(ts.len(), 1);
    assert_eq!(ts[0].card, "1111 2222 3333 4444");
}

#[test]
fn unreadable_page_is_skipped() {
    let reader = CreditCardBillReader::default();
    let pages = vec![
        Some(lines(&["SOME CARD 1111 2222 3333 4444 - OWNER"])),
        None,
        Some(lines(&["05 JUN SHOP 1.00"])),
    ];
    let ts = reader.read_pages(&pages).unwrap();
    assert_eq!(ts.len(), 1);
    assert_eq!(ts[0].card, "1111 2222 3333 4444");
    assert_eq!(ts[0].amount, 100);
}

#[test]
fn empty_statement_yields_no_transactions() {
    let reader = CreditCardBillReader::default();
    let ts = reader.read_lines(&Vec::new()).unwrap();
    assert!(ts.is_empty());
}

#[test]
fn malformed_amount_is_a_hard_error() {
    let reader = CreditCardBillReader::default();
    let r = reader.read_lines(&lines(&["05 JUN BAD (3.85"]));
    assert_eq!(r.err(), Some(AmountError::NotDecimal));
}

#[test]
fn oversized_amount_is_a_hard_error() {
    let reader = CreditCardBillReader::default();
    let r = reader.read_lines(&lines(&["05 JUN BIG 99999999999999999999.00"]));
    assert_eq!(r.err(), Some(AmountError::Overflow));
}

#[test]
fn parse_amount_plain() {
    assert_eq!(parse_amount("3.85"), Ok(385));
    assert_eq!(parse_amount("0.00"), Ok(0));
    assert_eq!(parse_amount("123.45"), Ok(12345));
}

#[test]
fn parse_amount_parenthesized() {
    assert_eq!(parse_amount("(12.00)"), Ok(-1200));
    assert_eq!(parse_amount("(0.85)"), Ok(-85));
    assert_eq!(parse_amount("(0.00)"), Ok(0));
}

#[test]
fn parse_amount_empty_digit_run() {
    assert_eq!(parse_amount(".85"), Ok(85));
    assert_eq!(parse_amount("(.85)"), Ok(-85));
}

#[test]
fn parse_amount_rejects_non_decimals() {
    assert_eq!(parse_amount(""), Err(AmountError::NotDecimal));
    assert_eq!(parse_amount("abc"), Err(AmountError::NotDecimal));
    assert_eq!(parse_amount("3.8"), Err(AmountError::NotDecimal));
    assert_eq!(parse_amount("3.85)"), Err(AmountError::NotDecimal));
    assert_eq!(parse_amount("(3.85"), Err(AmountError::NotDecimal));
    assert_eq!(parse_amount("3,85"), Err(AmountError::NotDecimal));
}

#[test]
fn parse_amount_rejects_oversized_values() {
    assert_eq!(parse_amount("99999999999999999999.00"), Err(AmountError::Overflow));
    assert_eq!(parse_amount("(99999999999999999999.00)"), Err(AmountError::Overflow));
}
