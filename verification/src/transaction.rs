//! Transaction records and their exclusive category tag.

use vstd::prelude::*;

verus! {

/// An exclusive category label attached to a transaction for split
/// accounting. A record carries at most one.
#[derive(Clone, Copy, Debug, PartialEq, Eq, Structural)]
pub enum Tag {
    Personal,
    Joint,
}

/// One purchase or credit line item extracted from a statement.
pub struct Transaction {
    /// The date token as it appears on the statement, stored verbatim.
    pub date: String,
    /// The merchant or free-text description.
    pub description: String,
    /// Signed amount in cents: positive for a charge, negative for a credit
    /// or refund. The sign comes solely from whether the source lexeme was
    /// parenthesized.
    pub amount: i64,
    /// The card identifier active when the line was read; empty when no
    /// card-header line had been seen yet.
    pub card: String,
    /// At most one category label; `None` means untagged.
    pub tag: Option<Tag>,
}

/// The mathematical view of a transaction record.
pub struct TransactionModel {
    pub date: Seq<char>,
    pub description: Seq<char>,
    pub amount: int,
    pub card: Seq<char>,
    pub tag: Option<Tag>,
}

impl View for Transaction {
    type V = TransactionModel;

    open spec fn view(&self) -> TransactionModel {
        TransactionModel {
            date: self.date@,
            description: self.description@,
            amount: self.amount as int,
            card: self.card@,
            tag: self.tag,
        }
    }
}

/// The views of a sequence of records.
pub open spec fn models(ts: Seq<Transaction>) -> Seq<TransactionModel> {
    ts.map_values(|t: Transaction| t@)
}

pub proof fn lemma_models_push(ts: Seq<Transaction>, t: Transaction)
    ensures
        models(ts.push(t)) =~= models(ts).push(t@),
{
    assert forall|i: int| 0 <= i < ts.len() + 1 implies models(ts.push(t))[i] == models(ts).push(
        t@,
    )[i] by {
        if i < ts.len() {
            assert(ts.push(t)[i] == ts[i]);
        }
    }
}

impl Transaction {
    /// Builds a record from its parts.
    pub fn new(
        date: String,
        description: String,
        amount: i64,
        card: String,
        tag: Option<Tag>,
    ) -> (t: Transaction)
        ensures
            t@ == (TransactionModel {
                date: date@,
                description: description@,
                amount: amount as int,
                card: card@,
                tag,
            }),
    {
        Transaction { date, description, amount, card, tag }
    }

    /// What toggling the label `t` does to a tag state: exactly `t` is
    /// removed; any other state — untagged, or the other label — is replaced
    /// by `t` alone.
    pub open spec fn toggled(tag: Option<Tag>, t: Tag) -> Option<Tag> {
        if tag == Some(t) {
            None
        } else {
            Some(t)
        }
    }

    /// Toggles the category label `t`: a record already carrying exactly `t`
    /// becomes untagged; otherwise the tag state is cleared and `t` becomes
    /// the one label. The rest of the record is untouched, and the record
    /// never carries two labels.
    pub fn toggle_tag(&mut self, t: Tag)
        ensures
            final(self)@ == (TransactionModel {
                tag: Self::toggled(old(self)@.tag, t),
                ..old(self)@
            }),
    {
        let same = match self.tag {
            Some(cur) => cur == t,
            None => false,
        };
        if same {
            self.tag = None;
        } else {
            self.tag = Some(t);
        }
    }
}

/// Toggling the same label twice returns a record to its prior tag state,
/// provided the prior state did not carry the other label. (From the other
/// label, the first toggle replaces it, so the pair of toggles ends
/// untagged instead of restoring it.)
pub proof fn lemma_toggle_twice(tag: Option<Tag>, t: Tag)
    requires
        tag is None || tag == Some(t),
    ensures
        Transaction::toggled(Transaction::toggled(tag, t), t) == tag,
{
}

/// Applying a label a record does not carry yields exactly that label — the
/// latest one, never two.
pub proof fn lemma_toggle_exclusive(tag: Option<Tag>, t: Tag)
    requires
        tag != Some(t),
    ensures
        Transaction::toggled(tag, t) == Some(t),
{
}

} // verus!
