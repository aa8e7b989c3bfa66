//! Classification of a single statement line.
//!
//! Two mutually exclusive patterns are tried, card-header first. A card-header
//! line has the shape `<anything> CARD <digit group> - <anything>` with the
//! keyword matched case-insensitively, where the digit group is four blocks of
//! four digits separated by single spaces; its capture is the digit group. A
//! transaction line has the shape `<2-digit day> <3-letter month>
//! <description> <amount>`, where the amount is a decimal with two fractional
//! digits, optionally parenthesized; its captures are the date token, the
//! description, and the amount lexeme. The surrounding "anything" is greedy:
//! of several possible matches the card header takes the rightmost keyword
//! position, and a transaction takes the leftmost start and the longest
//! description.

use crate::chars::{digit, is_digit, is_letter, letter};
use vstd::prelude::*;
use vstd::string::*;

verus! {

// ---------------------------------------------------------------------------
// The card-header pattern.
// ---------------------------------------------------------------------------
/// Position `k` of a card digit group holds a space after every block of
/// four digits, and a digit everywhere else.
pub open spec fn group_char_ok(g: Seq<char>, k: int) -> bool {
    if k % 5 == 4 {
        g[k] == ' '
    } else {
        is_digit(g[k])
    }
}

/// Four blocks of four digits separated by single spaces: 19 characters.
pub open spec fn is_digit_group(g: Seq<char>) -> bool {
    &&& g.len() == 19
    &&& forall|k: int| 0 <= k < 19 ==> #[trigger] group_char_ok(g, k)
}

/// The card-header pattern matches at position `i`: a space, the keyword
/// `CARD` in either case, a space, a digit group, then ` - `.
pub open spec fn card_match_at(s: Seq<char>, i: int) -> bool {
    &&& 0 <= i
    &&& i + 28 <= s.len()
    &&& s[i] == ' '
    &&& (s[i + 1] == 'C' || s[i + 1] == 'c')
    &&& (s[i + 2] == 'A' || s[i + 2] == 'a')
    &&& (s[i + 3] == 'R' || s[i + 3] == 'r')
    &&& (s[i + 4] == 'D' || s[i + 4] == 'd')
    &&& s[i + 5] == ' '
    &&& is_digit_group(s.subrange(i + 6, i + 25))
    &&& s[i + 25] == ' '
    &&& s[i + 26] == '-'
    &&& s[i + 27] == ' '
}

/// Some position of the line matches the card-header pattern.
pub open spec fn card_matches(s: Seq<char>) -> bool {
    exists|i: int| card_match_at(s, i)
}

/// The rightmost matching position at or below `i`, if any.
pub open spec fn card_scan(s: Seq<char>, i: int) -> Option<int>
    decreases i + 1,
{
    if i < 0 {
        None
    } else if card_match_at(s, i) {
        Some(i)
    } else {
        card_scan(s, i - 1)
    }
}

/// The capture of the card-header pattern: the digit group of the rightmost
/// match. The greedy "anything" before the keyword makes the last occurrence
/// supply the capture when the pattern occurs more than once.
pub open spec fn card_capture(s: Seq<char>) -> Option<Seq<char>> {
    match card_scan(s, s.len() - 28) {
        Some(i) => Some(s.subrange(i + 6, i + 25)),
        None => None,
    }
}

proof fn lemma_card_scan_props(s: Seq<char>, i: int)
    ensures
        match card_scan(s, i) {
            Some(m) => {
                &&& card_match_at(s, m)
                &&& m <= i
                &&& forall|j: int| m < j <= i ==> !card_match_at(s, j)
            },
            None => forall|j: int| j <= i ==> !card_match_at(s, j),
        },
    decreases i + 1,
{
    if i < 0 {
    } else if card_match_at(s, i) {
    } else {
        lemma_card_scan_props(s, i - 1);
    }
}

/// The extracted card identifier is exactly the digit-and-space group of a
/// position where the grammar matches, whatever surrounds it; and a capture
/// exists exactly when some position matches.
pub proof fn lemma_card_capture_characterises(s: Seq<char>)
    ensures
        card_capture(s) is Some <==> card_matches(s),
        match card_capture(s) {
            Some(g) => {
                &&& is_digit_group(g)
                &&& exists|i: int| card_match_at(s, i) && g == s.subrange(i + 6, i + 25)
            },
            None => !card_matches(s),
        },
{
    lemma_card_scan_props(s, s.len() - 28);
    match card_scan(s, s.len() - 28) {
        Some(m) => {
            assert(card_match_at(s, m));
        },
        None => {
            assert forall|i: int| !card_match_at(s, i) by {
                if card_match_at(s, i) {
                    assert(i <= s.len() - 28);
                }
            }
        },
    }
}

/// Any line of the shape `<prefix> CARD <digit group> - <suffix>` matches the
/// card-header grammar, whatever the prefix — masking characters included —
/// and whatever the suffix.
pub proof fn lemma_card_header_line(pre: Seq<char>, g: Seq<char>, suf: Seq<char>)
    requires
        is_digit_group(g),
    ensures
        card_matches(pre + seq![' ', 'C', 'A', 'R', 'D', ' '] + g + seq![' ', '-', ' '] + suf),
{
    let line = pre + seq![' ', 'C', 'A', 'R', 'D', ' '] + g + seq![' ', '-', ' '] + suf;
    let i = pre.len() as int;
    assert(line.subrange(i + 6, i + 25) =~= g);
    assert(card_match_at(line, i));
}

// ---------------------------------------------------------------------------
// The transaction pattern.
// ---------------------------------------------------------------------------
/// The date prefix at `p`: two digits, a space, three letters, a space.
pub open spec fn tx_prefix_at(s: Seq<char>, p: int) -> bool {
    &&& 0 <= p
    &&& p + 7 <= s.len()
    &&& is_digit(s[p])
    &&& is_digit(s[p + 1])
    &&& s[p + 2] == ' '
    &&& is_letter(s[p + 3])
    &&& is_letter(s[p + 4])
    &&& is_letter(s[p + 5])
    &&& s[p + 6] == ' '
}

/// Where the maximal run of digits starting at `i` ends (exclusive).
pub open spec fn digit_run_end(s: Seq<char>, i: int) -> int
    decreases s.len() - i,
{
    if i < 0 || i >= s.len() {
        i
    } else if is_digit(s[i]) {
        digit_run_end(s, i + 1)
    } else {
        i
    }
}

/// An amount lexeme starts at `a`: an optional `(`, a run of digits, a
/// decimal point, exactly two digits. A `)` may follow; each parenthesis is
/// optional independently of the other.
pub open spec fn amount_at(s: Seq<char>, a: int) -> bool {
    let b = if 0 <= a < s.len() && s[a] == '(' {
        a + 1
    } else {
        a
    };
    let d = digit_run_end(s, b);
    &&& 0 <= a <= s.len()
    &&& d + 3 <= s.len()
    &&& s[d] == '.'
    &&& is_digit(s[d + 1])
    &&& is_digit(s[d + 2])
}

/// Where the amount lexeme starting at `a` ends (exclusive): after the two
/// fraction digits, taking in a closing parenthesis if one follows.
pub open spec fn amount_end(s: Seq<char>, a: int) -> int {
    let b = if 0 <= a < s.len() && s[a] == '(' {
        a + 1
    } else {
        a
    };
    let d = digit_run_end(s, b);
    if d + 3 < s.len() && s[d + 3] == ')' {
        d + 4
    } else {
        d + 3
    }
}

/// A full transaction match: date prefix at `p`, description from `p + 7` to
/// `q`, a space at `q`, and an amount lexeme at `q + 1`.
pub open spec fn tx_match_at(s: Seq<char>, p: int, q: int) -> bool {
    &&& tx_prefix_at(s, p)
    &&& p + 7 <= q < s.len()
    &&& s[q] == ' '
    &&& amount_at(s, q + 1)
}

/// A full transaction match starts at `p`.
pub open spec fn tx_match_from(s: Seq<char>, p: int) -> bool {
    exists|q: int| tx_match_at(s, p, q)
}

/// Some position of the line starts a transaction match.
pub open spec fn tx_matches(s: Seq<char>) -> bool {
    exists|p: int| tx_match_from(s, p)
}

/// The leftmost start of a full match at or after `p`, if any.
pub open spec fn tx_scan_start(s: Seq<char>, p: int) -> Option<int>
    decreases s.len() - p,
{
    if p < 0 || p > s.len() {
        None
    } else if tx_match_from(s, p) {
        Some(p)
    } else if p == s.len() {
        None
    } else {
        tx_scan_start(s, p + 1)
    }
}

/// The rightmost description end at or below `q` for a match starting at `p`:
/// the greedy description takes the last position where a space is followed
/// by an amount lexeme.
pub open spec fn tx_scan_q(s: Seq<char>, p: int, q: int) -> Option<int>
    decreases q + 1,
{
    if q < p + 7 || q < 0 {
        None
    } else if q < s.len() && s[q] == ' ' && amount_at(s, q + 1) {
        Some(q)
    } else {
        tx_scan_q(s, p, q - 1)
    }
}

/// The three captures of the transaction pattern: date token, description,
/// amount lexeme.
pub open spec fn tx_captures(s: Seq<char>) -> Option<(Seq<char>, Seq<char>, Seq<char>)> {
    match tx_scan_start(s, 0) {
        None => None,
        Some(p) => match tx_scan_q(s, p, s.len() - 1) {
            None => None,
            Some(q) => Some(
                (
                    s.subrange(p, p + 6),
                    s.subrange(p + 7, q),
                    s.subrange(q + 1, amount_end(s, q + 1)),
                ),
            ),
        },
    }
}

proof fn lemma_tx_scan_start_props(s: Seq<char>, p: int)
    requires
        0 <= p,
    ensures
        match tx_scan_start(s, p) {
            Some(m) => {
                &&& p <= m
                &&& tx_match_from(s, m)
                &&& forall|j: int| p <= j < m ==> !tx_match_from(s, j)
            },
            None => forall|j: int| p <= j ==> !tx_match_from(s, j),
        },
    decreases s.len() - p,
{
    if p > s.len() {
        assert forall|j: int| p <= j implies !tx_match_from(s, j) by {
            if tx_match_from(s, j) {
                let q = choose|q: int| tx_match_at(s, j, q);
                assert(0 <= j && j + 7 <= s.len());
            }
        }
    } else if tx_match_from(s, p) {
    } else if p == s.len() {
        assert forall|j: int| p <= j implies !tx_match_from(s, j) by {
            if tx_match_from(s, j) {
                let q = choose|q: int| tx_match_at(s, j, q);
                assert(j + 7 <= s.len());
            }
        }
    } else {
        lemma_tx_scan_start_props(s, p + 1);
    }
}

proof fn lemma_tx_scan_q_props(s: Seq<char>, p: int, q: int)
    requires
        0 <= p,
    ensures
        match tx_scan_q(s, p, q) {
            Some(m) => {
                &&& p + 7 <= m <= q
                &&& m < s.len()
                &&& s[m] == ' '
                &&& amount_at(s, m + 1)
                &&& forall|j: int|
                    m < j <= q ==> !(j < s.len() && s[j] == ' ' && amount_at(s, j + 1))
            },
            None => forall|j: int|
                p + 7 <= j <= q ==> !(j < s.len() && s[j] == ' ' && amount_at(s, j + 1)),
        },
    decreases q + 1,
{
    if q < p + 7 || q < 0 {
    } else if q < s.len() && s[q] == ' ' && amount_at(s, q + 1) {
    } else {
        lemma_tx_scan_q_props(s, p, q - 1);
    }
}

/// The transaction captures exist exactly when some position of the line
/// starts a full transaction match.
pub proof fn lemma_tx_captures_characterises(s: Seq<char>)
    ensures
        tx_captures(s) is Some <==> tx_matches(s),
{
    lemma_tx_scan_start_props(s, 0);
    match tx_scan_start(s, 0) {
        Some(p) => {
            lemma_tx_scan_q_props(s, p, s.len() - 1);
            match tx_scan_q(s, p, s.len() - 1) {
                Some(_) => {
                    assert(tx_match_from(s, p));
                    assert(tx_matches(s));
                },
                None => {
                    let q = choose|q: int| tx_match_at(s, p, q);
                    assert(q < s.len() && s[q] == ' ' && amount_at(s, q + 1));
                    assert(false);
                },
            }
        },
        None => {
            if tx_matches(s) {
                let p = choose|p: int| tx_match_from(s, p);
                let q = choose|q: int| tx_match_at(s, p, q);
                assert(0 <= p);
                assert(false);
            }
        },
    }
}

// ---------------------------------------------------------------------------
// Executable matchers.
// ---------------------------------------------------------------------------
/// Whether the card-header pattern matches at position `i`.
#[verifier::loop_isolation(false)]
fn check_card_at(s: &str, n: usize, i: usize) -> (b: bool)
    requires
        n == s@.len(),
        i + 28 <= n,
    ensures
        b == card_match_at(s@, i as int),
{
    if s.get_char(i) != ' ' {
        return false;
    }
    let c = s.get_char(i + 1);
    if !(c == 'C' || c == 'c') {
        return false;
    }
    let c = s.get_char(i + 2);
    if !(c == 'A' || c == 'a') {
        return false;
    }
    let c = s.get_char(i + 3);
    if !(c == 'R' || c == 'r') {
        return false;
    }
    let c = s.get_char(i + 4);
    if !(c == 'D' || c == 'd') {
        return false;
    }
    if s.get_char(i + 5) != ' ' {
        return false;
    }
    let ghost g = s@.subrange(i + 6, i + 25);
    let mut k: usize = 0;
    while k < 19
        invariant
            0 <= k <= 19,
            forall|m: int| 0 <= m < k ==> #[trigger] group_char_ok(g, m),
        decreases 19 - k,
    {
        let c = s.get_char(i + 6 + k);
        proof {
            assert(g[k as int] == s@[i + 6 + k]);
        }
        if k % 5 == 4 {
            if c != ' ' {
                assert(!group_char_ok(g, k as int));
                return false;
            }
        } else {
            if !digit(c) {
                assert(!group_char_ok(g, k as int));
                return false;
            }
        }
        k += 1;
    }
    assert(is_digit_group(g));
    if s.get_char(i + 25) != ' ' {
        return false;
    }
    if s.get_char(i + 26) != '-' {
        return false;
    }
    if s.get_char(i + 27) != ' ' {
        return false;
    }
    true
}

/// Applies the card-header pattern to the line and hands back the captured
/// digit group of the rightmost match, if the pattern matches at all.
#[verifier::loop_isolation(false)]
pub fn match_card_header(s: &str) -> (r: Option<String>)
    ensures
        match r {
            Some(g) => card_capture(s@) == Some(g@),
            None => card_capture(s@) is None,
        },
{
    let n = s.unicode_len();
    if n < 28 {
        return None;
    }
    let mut i: usize = n - 28;
    loop
        invariant
            i <= n - 28,
            card_scan(s@, (n - 28) as int) == card_scan(s@, i as int),
        decreases i + 1,
    {
        if check_card_at(s, n, i) {
            proof {
                assert(card_scan(s@, i as int) == Some(i as int));
            }
            let cap = s.substring_char(i + 6, i + 25);
            return Some(cap.to_owned());
        }
        if i == 0 {
            proof {
                assert(card_scan(s@, 0) is None);
            }
            return None;
        }
        proof {
            assert(card_scan(s@, i as int) == card_scan(s@, i - 1));
        }
        i -= 1;
    }
}

/// Whether the date prefix of the transaction pattern sits at position `p`.
fn check_tx_prefix(s: &str, n: usize, p: usize) -> (b: bool)
    requires
        n == s@.len(),
        p + 7 <= n,
    ensures
        b == tx_prefix_at(s@, p as int),
{
    digit(s.get_char(p)) && digit(s.get_char(p + 1)) && s.get_char(p + 2) == ' ' && letter(
        s.get_char(p + 3),
    ) && letter(s.get_char(p + 4)) && letter(s.get_char(p + 5)) && s.get_char(p + 6) == ' '
}

/// Where the maximal digit run starting at `from` ends.
#[verifier::loop_isolation(false)]
fn digit_run(s: &str, n: usize, from: usize) -> (e: usize)
    requires
        n == s@.len(),
        from <= n,
    ensures
        e as int == digit_run_end(s@, from as int),
        from <= e <= n,
{
    let mut d = from;
    while d < n && digit(s.get_char(d))
        invariant
            from <= d <= n,
            digit_run_end(s@, from as int) == digit_run_end(s@, d as int),
        decreases n - d,
    {
        d += 1;
    }
    d
}

/// Whether an amount lexeme starts at `a`; hands back its end if so.
fn check_amount_at(s: &str, n: usize, a: usize) -> (r: Option<usize>)
    requires
        n == s@.len(),
        a <= n,
    ensures
        match r {
            Some(e) => {
                &&& amount_at(s@, a as int)
                &&& e as int == amount_end(s@, a as int)
                &&& a < e <= n
            },
            None => !amount_at(s@, a as int),
        },
{
    let b = if a < n && s.get_char(a) == '(' {
        a + 1
    } else {
        a
    };
    let d = digit_run(s, n, b);
    if n - d < 3 {
        return None;
    }
    if s.get_char(d) != '.' {
        return None;
    }
    if !digit(s.get_char(d + 1)) || !digit(s.get_char(d + 2)) {
        return None;
    }
    let e = if d + 3 < n && s.get_char(d + 3) == ')' {
        d + 4
    } else {
        d + 3
    };
    Some(e)
}

/// Scans for the greedy description end: the rightmost `q` where a space is
/// followed by an amount lexeme. Hands back `q` and the lexeme's end.
#[verifier::loop_isolation(false)]
fn scan_desc_end(s: &str, n: usize, p: usize) -> (r: Option<(usize, usize)>)
    requires
        n == s@.len(),
        p + 7 <= n,
    ensures
        match r {
            Some(qe) => {
                &&& tx_scan_q(s@, p as int, (n - 1) as int) == Some(qe.0 as int)
                &&& p + 7 <= qe.0 < n
                &&& s@[qe.0 as int] == ' '
                &&& amount_at(s@, qe.0 + 1)
                &&& qe.1 as int == amount_end(s@, qe.0 + 1)
                &&& qe.0 < qe.1 <= n
            },
            None => tx_scan_q(s@, p as int, (n - 1) as int) is None,
        },
{
    let mut q: usize = n - 1;
    loop
        invariant
            q <= n - 1,
            tx_scan_q(s@, p as int, (n - 1) as int) == tx_scan_q(s@, p as int, q as int),
        decreases q + 1,
    {
        if q < p + 7 {
            return None;
        }
        if s.get_char(q) == ' ' {
            if let Some(e) = check_amount_at(s, n, q + 1) {
                proof {
                    assert(tx_scan_q(s@, p as int, q as int) == Some(q as int));
                }
                return Some((q, e));
            }
        }
        proof {
            assert(tx_scan_q(s@, p as int, q as int) == tx_scan_q(s@, p as int, q - 1));
        }
        q -= 1;
    }
}

/// Applies the transaction pattern to the line: the leftmost position where a
/// full match starts, with the greedy description. Hands back the date token,
/// the description and the amount lexeme.
#[verifier::loop_isolation(false)]
pub fn match_transaction(s: &str) -> (r: Option<(String, String, String)>)
    ensures
        match r {
            Some(t) => tx_captures(s@) == Some((t.0@, t.1@, t.2@)),
            None => tx_captures(s@) is None,
        },
{
    let n = s.unicode_len();
    let mut p: usize = 0;
    loop
        invariant
            p <= n,
            tx_scan_start(s@, 0) == tx_scan_start(s@, p as int),
        decreases n - p,
    {
        let has_prefix = n - p >= 7 && check_tx_prefix(s, n, p);
        if has_prefix {
            match scan_desc_end(s, n, p) {
                Some((q, e)) => {
                    proof {
                        assert(tx_match_at(s@, p as int, q as int));
                        assert(tx_match_from(s@, p as int));
                        assert(tx_scan_start(s@, p as int) == Some(p as int));
                    }
                    let date = s.substring_char(p, p + 6);
                    let desc = s.substring_char(p + 7, q);
                    let amt = s.substring_char(q + 1, e);
                    return Some((date.to_owned(), desc.to_owned(), amt.to_owned()));
                },
                None => {
                    proof {
                        lemma_tx_scan_q_props(s@, p as int, (n - 1) as int);
                        assert(!tx_match_from(s@, p as int)) by {
                            if tx_match_from(s@, p as int) {
                                let q = choose|q: int| tx_match_at(s@, p as int, q);
                                assert(q < s@.len() && s@[q] == ' ' && amount_at(s@, q + 1));
                            }
                        }
                    }
                },
            }
        } else {
            proof {
                assert(!tx_match_from(s@, p as int)) by {
                    if tx_match_from(s@, p as int) {
                        let q = choose|q: int| tx_match_at(s@, p as int, q);
                        assert(tx_prefix_at(s@, p as int));
                    }
                }
            }
        }
        if p == n {
            return None;
        }
        proof {
            assert(tx_scan_start(s@, p as int) == tx_scan_start(s@, p + 1));
        }
        p += 1;
    }
}

// ---------------------------------------------------------------------------
// Line classification.
// ---------------------------------------------------------------------------
/// What a statement line is: the two patterns are mutually exclusive, with
/// card-header precedence, and a line matching neither is left alone.
pub enum LineKind {
    /// A card-header line; the field is the captured digit group.
    CardHeader(String),
    /// A transaction line: date token, description, amount lexeme.
    TransactionLine(String, String, String),
    /// A line matching neither pattern.
    Unmatched,
}

/// Classifies one line. The card-header pattern has absolute precedence: the
/// transaction pattern is only tried on lines with no card header.
pub fn classify_line(s: &str) -> (k: LineKind)
    ensures
        match k {
            LineKind::CardHeader(g) => card_capture(s@) == Some(g@),
            LineKind::TransactionLine(d, m, a) => card_capture(s@) is None && tx_captures(s@)
                == Some((d@, m@, a@)),
            LineKind::Unmatched => card_capture(s@) is None && tx_captures(s@) is None,
        },
{
    match match_card_header(s) {
        Some(g) => LineKind::CardHeader(g),
        None => match match_transaction(s) {
            Some(t) => LineKind::TransactionLine(t.0, t.1, t.2),
            None => LineKind::Unmatched,
        },
    }
}

} // verus!
