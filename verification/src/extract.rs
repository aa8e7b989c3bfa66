//! The statement extraction engine.
//!
//! A stateful fold over the ordered text lines of a statement: a card-header
//! line installs a new card context, a transaction line emits a record
//! carrying the context in force, and any other line is ignored. The context
//! starts empty and persists across page boundaries; a page whose text could
//! not be obtained contributes no lines and is skipped. A transaction line
//! whose captured amount lexeme fails to parse aborts the run with the parse
//! error rather than fabricating a zero amount.

use crate::amount::{amount_result, parse_amount, AmountError};
use crate::classify::{card_capture, classify_line, tx_captures, LineKind};
use crate::transaction::{lemma_models_push, models, Transaction, TransactionModel};
use vstd::prelude::*;

verus! {

/// The character sequences of a sequence of lines.
pub open spec fn lines_view(ls: Seq<String>) -> Seq<Seq<char>> {
    ls.map_values(|l: String| l@)
}

pub proof fn lemma_lines_view_push(ls: Seq<String>, l: String)
    ensures
        lines_view(ls.push(l)) =~= lines_view(ls).push(l@),
{
    assert forall|i: int| 0 <= i < ls.len() + 1 implies lines_view(ls.push(l))[i] == lines_view(
        ls,
    ).push(l@)[i] by {
        if i < ls.len() {
            assert(ls.push(l)[i] == ls[i]);
        }
    }
}

/// The card context after one line: a card-header line installs its captured
/// digit group, any other line leaves the context alone.
pub open spec fn card_step(card: Seq<char>, line: Seq<char>) -> Seq<char> {
    match card_capture(line) {
        Some(g) => g,
        None => card,
    }
}

/// What one line contributes under the context `card`: nothing for a
/// card-header or unmatched line, a transaction model for a transaction line
/// whose amount parses, and the parse error otherwise.
pub open spec fn line_outcome(card: Seq<char>, line: Seq<char>) -> Result<
    Option<TransactionModel>,
    AmountError,
> {
    if card_capture(line) is Some {
        Ok(None)
    } else {
        match tx_captures(line) {
            None => Ok(None),
            Some(caps) => match amount_result(caps.2) {
                Ok(v) => Ok(
                    Some(
                        TransactionModel {
                            date: caps.0,
                            description: caps.1,
                            amount: v,
                            card: card,
                            tag: None,
                        },
                    ),
                ),
                Err(e) => Err(e),
            },
        }
    }
}

/// The extraction fold over a line sequence from a given card context: the
/// emitted records in document order, or the first amount-parse error.
pub open spec fn extract_from(lines: Seq<Seq<char>>, card: Seq<char>) -> Result<
    Seq<TransactionModel>,
    AmountError,
>
    decreases lines.len(),
{
    if lines.len() == 0 {
        Ok(Seq::empty())
    } else {
        match line_outcome(card, lines[0]) {
            Err(e) => Err(e),
            Ok(opt) => match extract_from(lines.drop_first(), card_step(card, lines[0])) {
                Err(e) => Err(e),
                Ok(rest) => Ok(
                    match opt {
                        Some(m) => seq![m] + rest,
                        None => rest,
                    },
                ),
            },
        }
    }
}

/// The card context in force after a whole line sequence.
pub open spec fn card_after(lines: Seq<Seq<char>>, card: Seq<char>) -> Seq<char>
    decreases lines.len(),
{
    if lines.len() == 0 {
        card
    } else {
        card_after(lines.drop_first(), card_step(card, lines[0]))
    }
}

/// The text lines one page contributes: none when its text could not be
/// obtained.
pub open spec fn page_lines(p: Option<Vec<String>>) -> Seq<Seq<char>> {
    match p {
        Some(v) => lines_view(v@),
        None => Seq::empty(),
    }
}

/// All lines of the readable pages, in document order.
pub open spec fn pages_lines(ps: Seq<Option<Vec<String>>>) -> Seq<Seq<char>>
    decreases ps.len(),
{
    if ps.len() == 0 {
        Seq::empty()
    } else {
        page_lines(ps[0]) + pages_lines(ps.drop_first())
    }
}

proof fn lemma_pages_lines_append(a: Seq<Option<Vec<String>>>, b: Seq<Option<Vec<String>>>)
    ensures
        pages_lines(a + b) == pages_lines(a) + pages_lines(b),
    decreases a.len(),
{
    if a.len() == 0 {
        assert(a + b =~= b);
        assert(pages_lines(a) + pages_lines(b) =~= pages_lines(b));
    } else {
        assert((a + b).drop_first() =~= a.drop_first() + b);
        assert((a + b)[0] == a[0]);
        lemma_pages_lines_append(a.drop_first(), b);
        assert(page_lines(a[0]) + (pages_lines(a.drop_first()) + pages_lines(b)) =~= (page_lines(
            a[0],
        ) + pages_lines(a.drop_first())) + pages_lines(b));
    }
}

proof fn lemma_pages_lines_take_step(ps: Seq<Option<Vec<String>>>, j: int)
    requires
        0 <= j < ps.len(),
    ensures
        pages_lines(ps.take(j + 1)) == pages_lines(ps.take(j)) + page_lines(ps[j]),
{
    let single = seq![ps[j]];
    assert(ps.take(j + 1) =~= ps.take(j) + single);
    lemma_pages_lines_append(ps.take(j), single);
    assert(single.len() == 1);
    assert(single[0] == ps[j]);
    assert(single.drop_first() =~= Seq::<Option<Vec<String>>>::empty());
    assert(pages_lines(single.drop_first()) =~= Seq::<Seq<char>>::empty());
    assert(pages_lines(single) =~= page_lines(ps[j]));
}

/// The reader that turns statement text into transaction records. The two
/// line patterns it applies are fixed; the value itself carries no state.
pub struct CreditCardBillReader {}

impl CreditCardBillReader {
    /// A reader applying the statement line grammar of this library.
    pub fn default() -> (r: CreditCardBillReader) {
        CreditCardBillReader {}
    }

    /// Runs the extraction fold over a flat sequence of text lines, starting
    /// from an empty card context.
    #[verifier::loop_isolation(false)]
    pub fn read_lines(&self, lines: &Vec<String>) -> (r: Result<Vec<Transaction>, AmountError>)
        ensures
            match r {
                Ok(ts) => extract_from(lines_view(lines@), Seq::<char>::empty()) == Ok::<
                    _,
                    AmountError,
                >(models(ts@)),
                Err(e) => extract_from(lines_view(lines@), Seq::<char>::empty()) == Err::<
                    Seq<TransactionModel>,
                    _,
                >(e),
            },
    {
        let ghost all = lines_view(lines@);
        let mut card = String::new();
        let mut out: Vec<Transaction> = Vec::new();
        let mut i: usize = 0;
        proof {
            assert(all.skip(0) =~= all);
            assert(models(out@) =~= Seq::<TransactionModel>::empty());
            if extract_from(all, Seq::<char>::empty()) is Ok {
                let rest = extract_from(all, Seq::<char>::empty())->Ok_0;
                assert(models(out@) + rest =~= rest);
            }
        }
        while i < lines.len()
            invariant
                i <= lines.len(),
                match extract_from(all.skip(i as int), card@) {
                    Ok(rest) => extract_from(all, Seq::<char>::empty()) == Ok::<_, AmountError>(
                        models(out@) + rest,
                    ),
                    Err(e) => extract_from(all, Seq::<char>::empty()) == Err::<
                        Seq<TransactionModel>,
                        _,
                    >(e),
                },
            decreases lines.len() - i,
        {
            let ghost card0 = card@;
            let ghost out0 = out@;
            let ghost rem = all.skip(i as int);
            let ghost nxt = all.skip(i + 1);
            let ghost lview = all[i as int];
            proof {
                assert(rem.len() == all.len() - i);
                assert(rem[0] == lview);
                assert(rem.drop_first() =~= nxt);
            }
            let line = &lines[i];
            proof {
                assert(line@ == lview);
            }
            match classify_line(line.as_str()) {
                LineKind::CardHeader(g) => {
                    proof {
                        assert(line_outcome(card0, lview) == Ok::<
                            Option<TransactionModel>,
                            AmountError,
                        >(None));
                        assert(card_step(card0, lview) == g@);
                        assert(extract_from(rem, card0) == (match extract_from(nxt, g@) {
                            Ok(rest) => Ok::<Seq<TransactionModel>, AmountError>(rest),
                            Err(e) => Err::<Seq<TransactionModel>, AmountError>(e),
                        }));
                    }
                    card = g;
                },
                LineKind::TransactionLine(d, m, a) => {
                    let parsed = parse_amount(a.as_str());
                    let ghost model = TransactionModel {
                        date: d@,
                        description: m@,
                        amount: match amount_result(a@) {
                            Ok(v) => v,
                            Err(_) => 0,
                        },
                        card: card0,
                        tag: None,
                    };
                    match parsed {
                        Ok(v) => {
                            proof {
                                assert(card_step(card0, lview) == card0);
                                assert(line_outcome(card0, lview) == Ok::<
                                    Option<TransactionModel>,
                                    AmountError,
                                >(Some(model)));
                                assert(extract_from(rem, card0) == (match extract_from(
                                    nxt,
                                    card0,
                                ) {
                                    Ok(rest) => Ok::<Seq<TransactionModel>, AmountError>(
                                        seq![model] + rest,
                                    ),
                                    Err(e) => Err::<Seq<TransactionModel>, AmountError>(e),
                                }));
                            }
                            let t = Transaction {
                                date: d,
                                description: m,
                                amount: v,
                                card: card.clone(),
                                tag: None,
                            };
                            proof {
                                assert(t@ == model);
                            }
                            out.push(t);
                            proof {
                                lemma_models_push(out0, t);
                                assert(out@ == out0.push(t));
                                if extract_from(nxt, card0) is Ok {
                                    let rest = extract_from(nxt, card0)->Ok_0;
                                    assert(models(out0) + (seq![model] + rest) =~= models(out@)
                                        + rest);
                                }
                            }
                        },
                        Err(e) => {
                            proof {
                                assert(line_outcome(card0, lview) == Err::<
                                    Option<TransactionModel>,
                                    AmountError,
                                >(e));
                                assert(extract_from(rem, card0) == Err::<
                                    Seq<TransactionModel>,
                                    AmountError,
                                >(e));
                            }
                            return Err(e);
                        },
                    }
                },
                LineKind::Unmatched => {
                    proof {
                        assert(line_outcome(card0, lview) == Ok::<
                            Option<TransactionModel>,
                            AmountError,
                        >(None));
                        assert(card_step(card0, lview) == card0);
                        assert(extract_from(rem, card0) == (match extract_from(nxt, card0) {
                            Ok(rest) => Ok::<Seq<TransactionModel>, AmountError>(rest),
                            Err(e) => Err::<Seq<TransactionModel>, AmountError>(e),
                        }));
                    }
                },
            }
            i += 1;
        }
        proof {
            assert(all.skip(lines@.len() as int) =~= Seq::<Seq<char>>::empty());
            assert(extract_from(all.skip(lines@.len() as int), card@) == Ok::<
                Seq<TransactionModel>,
                AmountError,
            >(Seq::empty()));
            if extract_from(all, Seq::<char>::empty()) is Ok {
                let rest = extract_from(all.skip(lines@.len() as int), card@)->Ok_0;
                assert(models(out@) + rest =~= models(out@));
            }
        }
        Ok(out)
    }

    /// Extracts the transactions of a whole statement: the pages' lines are
    /// processed in document order, the card context persisting across page
    /// boundaries; an unreadable page (`None`) is skipped and the run
    /// continues with the remaining pages.
    #[verifier::loop_isolation(false)]
    pub fn read_pages(&self, pages: &Vec<Option<Vec<String>>>) -> (r: Result<
        Vec<Transaction>,
        AmountError,
    >)
        ensures
            match r {
                Ok(ts) => extract_from(pages_lines(pages@), Seq::<char>::empty()) == Ok::<
                    _,
                    AmountError,
                >(models(ts@)),
                Err(e) => extract_from(pages_lines(pages@), Seq::<char>::empty()) == Err::<
                    Seq<TransactionModel>,
                    _,
                >(e),
            },
    {
        let mut flat: Vec<String> = Vec::new();
        let mut j: usize = 0;
        proof {
            assert(lines_view(flat@) =~= pages_lines(pages@.take(0)));
        }
        while j < pages.len()
            invariant
                j <= pages.len(),
                lines_view(flat@) == pages_lines(pages@.take(j as int)),
            decreases pages.len() - j,
        {
            proof {
                lemma_pages_lines_take_step(pages@, j as int);
            }
            match &pages[j] {
                Some(pl) => {
                    let ghost flat0 = lines_view(flat@);
                    let mut k: usize = 0;
                    proof {
                        assert(flat0 + lines_view(pl@).take(0) =~= flat0);
                    }
                    while k < pl.len()
                        invariant
                            k <= pl.len(),
                            lines_view(flat@) == flat0 + lines_view(pl@).take(k as int),
                        decreases pl.len() - k,
                    {
                        let ghost fprev = flat@;
                        let s = pl[k].clone();
                        proof {
                            assert(s@ == pl@[k as int]@);
                        }
                        flat.push(s);
                        proof {
                            assert(flat@ == fprev.push(s));
                            lemma_lines_view_push(fprev, s);
                            assert(lines_view(pl@).take(k + 1) =~= lines_view(pl@).take(
                                k as int,
                            ).push(pl@[k as int]@));
                            assert(lines_view(flat@) =~= flat0 + lines_view(pl@).take(k + 1));
                        }
                        k += 1;
                    }
                    proof {
                        assert(lines_view(pl@).take(pl@.len() as int) =~= lines_view(pl@));
                        assert(page_lines(pages@[j as int]) == lines_view(pl@));
                    }
                },
                None => {
                    proof {
                        assert(lines_view(flat@) =~= pages_lines(pages@.take(j as int))
                            + page_lines(pages@[j as int]));
                    }
                },
            }
            j += 1;
        }
        proof {
            assert(pages@.take(pages@.len() as int) =~= pages@);
        }
        self.read_lines(&flat)
    }
}

// ---------------------------------------------------------------------------
// Laws of the fold.
// ---------------------------------------------------------------------------
/// A line that matches neither pattern produces no transaction and leaves
/// the card context unchanged.
pub proof fn lemma_unmatched_ignored(card: Seq<char>, l: Seq<char>)
    requires
        card_capture(l) is None,
        tx_captures(l) is None,
    ensures
        card_step(card, l) == card,
        line_outcome(card, l) == Ok::<Option<TransactionModel>, AmountError>(None),
{
}

/// A run over lines none of which is a card header leaves the card context
/// where it started.
pub proof fn lemma_card_context_stable(lines: Seq<Seq<char>>, card: Seq<char>)
    requires
        forall|j: int| 0 <= j < lines.len() ==> card_capture(#[trigger] lines[j]) is None,
    ensures
        card_after(lines, card) == card,
    decreases lines.len(),
{
    if lines.len() > 0 {
        assert(card_capture(lines[0]) is None);
        assert forall|j: int| 0 <= j < lines.drop_first().len() implies card_capture(
            #[trigger] lines.drop_first()[j],
        ) is None by {
            assert(lines.drop_first()[j] == lines[j + 1]);
        }
        lemma_card_context_stable(lines.drop_first(), card_step(card, lines[0]));
    }
}

/// A line under the transaction pattern, not under the card-header pattern.
pub open spec fn is_tx_line(l: Seq<char>) -> bool {
    card_capture(l) is None && tx_captures(l) is Some
}

/// How many records a line sequence emits when every amount parses: one per
/// transaction line.
pub open spec fn emitted_count(lines: Seq<Seq<char>>) -> int
    decreases lines.len(),
{
    if lines.len() == 0 {
        0
    } else {
        (if is_tx_line(lines[0]) {
            1int
        } else {
            0int
        }) + emitted_count(lines.drop_first())
    }
}

/// A transaction line before any card-header line yields a record with an
/// empty card identifier.
pub proof fn lemma_no_header_means_empty_card(
    lines: Seq<Seq<char>>,
    j: int,
    ts: Seq<TransactionModel>,
)
    requires
        extract_from(lines, Seq::<char>::empty()) == Ok::<Seq<TransactionModel>, AmountError>(ts),
        0 <= j < lines.len(),
        is_tx_line(lines[j]),
        forall|i: int| 0 <= i < j ==> card_capture(#[trigger] lines[i]) is None,
    ensures
        0 <= emitted_count(lines.take(j)) < ts.len(),
        ts[emitted_count(lines.take(j))].card == Seq::<char>::empty(),
{
    lemma_card_context_carries(lines, Seq::<char>::empty(), j, ts);
    assert forall|i: int| 0 <= i < lines.take(j).len() implies card_capture(
        #[trigger] lines.take(j)[i],
    ) is None by {
        assert(lines.take(j)[i] == lines[i]);
    }
    lemma_card_context_stable(lines.take(j), Seq::<char>::empty());
}

/// Card context carries forward: in a successful run, the record emitted for
/// transaction line `j` carries the card context in force after the lines
/// before `j` — the capture of the most recent card-header line, or the
/// starting context when none preceded — along with that line's own date,
/// description and parsed amount, and no tag.
pub proof fn lemma_card_context_carries(
    lines: Seq<Seq<char>>,
    card0: Seq<char>,
    j: int,
    ts: Seq<TransactionModel>,
)
    requires
        extract_from(lines, card0) == Ok::<Seq<TransactionModel>, AmountError>(ts),
        0 <= j < lines.len(),
        is_tx_line(lines[j]),
    ensures
        match tx_captures(lines[j]) {
            Some(caps) => {
                let k = emitted_count(lines.take(j));
                &&& 0 <= k < ts.len()
                &&& ts[k].date == caps.0
                &&& ts[k].description == caps.1
                &&& amount_result(caps.2) == Ok::<int, AmountError>(ts[k].amount)
                &&& ts[k].card == card_after(lines.take(j), card0)
                &&& ts[k].tag is None
            },
            None => false,
        },
    decreases j,
{
    let head = lines[0];
    let tail = lines.drop_first();
    let card1 = card_step(card0, head);
    if j == 0 {
        assert(lines.take(0) =~= Seq::<Seq<char>>::empty());
        match line_outcome(card0, head) {
            Ok(opt) => {
                match extract_from(tail, card1) {
                    Ok(rest) => {
                        let m = opt->Some_0;
                        assert(opt is Some);
                        assert(ts == seq![m] + rest);
                        assert(ts[0] == m);
                    },
                    Err(_) => {
                        assert(false);
                    },
                }
            },
            Err(_) => {
                assert(false);
            },
        }
    } else {
        match line_outcome(card0, head) {
            Ok(opt) => {
                match extract_from(tail, card1) {
                    Ok(rest) => {
                        assert(tail[j - 1] == lines[j]);
                        lemma_card_context_carries(tail, card1, j - 1, rest);
                        assert(lines.take(j).drop_first() =~= tail.take(j - 1));
                        assert(lines.take(j)[0] == head);
                        assert(emitted_count(lines.take(j)) == (if is_tx_line(head) {
                            1int
                        } else {
                            0int
                        }) + emitted_count(tail.take(j - 1)));
                        assert(card_after(lines.take(j), card0) == card_after(
                            tail.take(j - 1),
                            card1,
                        ));
                        let k1 = emitted_count(tail.take(j - 1));
                        match opt {
                            Some(m) => {
                                assert(ts == seq![m] + rest);
                                assert(is_tx_line(head));
                                assert(ts[k1 + 1] == rest[k1]);
                            },
                            None => {
                                assert(ts == rest);
                                assert(!is_tx_line(head)) by {
                                    if is_tx_line(head) {
                                        assert(line_outcome(card0, head) is Err
                                            || line_outcome(card0, head)->Ok_0 is Some);
                                    }
                                }
                            },
                        }
                    },
                    Err(_) => {
                        assert(false);
                    },
                }
            },
            Err(_) => {
                assert(false);
            },
        }
    }
}

} // verus!
