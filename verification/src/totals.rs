//! Aggregation over extracted transactions: the grand total and the per-tag
//! subtotals. Cent amounts are 64-bit; totals are computed in 128 bits, which
//! no sequence of 64-bit amounts can overflow.

use crate::transaction::{models, Tag, Transaction, TransactionModel};
use vstd::prelude::*;

verus! {

/// The sum of all amounts of a sequence of records.
pub open spec fn sum_amounts(ms: Seq<TransactionModel>) -> int
    decreases ms.len(),
{
    if ms.len() == 0 {
        0
    } else {
        sum_amounts(ms.drop_last()) + ms.last().amount
    }
}

/// What one record contributes to the subtotal of `t`: its amount when it
/// carries exactly that label, nothing otherwise.
pub open spec fn tag_amount(m: TransactionModel, t: Tag) -> int {
    if m.tag == Some(t) {
        m.amount
    } else {
        0
    }
}

/// The sum of the amounts of the records carrying the label `t`.
pub open spec fn sum_tagged(ms: Seq<TransactionModel>, t: Tag) -> int
    decreases ms.len(),
{
    if ms.len() == 0 {
        0
    } else {
        sum_tagged(ms.drop_last(), t) + tag_amount(ms.last(), t)
    }
}

/// The grand total: the sum of every record's amount, tagged or not.
#[verifier::loop_isolation(false)]
pub fn grand_total(ts: &Vec<Transaction>) -> (r: i128)
    ensures
        r as int == sum_amounts(models(ts@)),
{
    let ghost ms = models(ts@);
    let mut total: i128 = 0;
    let mut i: usize = 0;
    proof {
        assert(ms.subrange(0, 0) =~= Seq::<TransactionModel>::empty());
    }
    while i < ts.len()
        invariant
            i <= ts.len(),
            total as int == sum_amounts(ms.subrange(0, i as int)),
            -(i as int) * 0x8000_0000_0000_0000 <= total as int <= (i as int)
                * 0x8000_0000_0000_0000,
        decreases ts.len() - i,
    {
        let a = ts[i].amount;
        proof {
            assert(ms.subrange(0, i + 1).drop_last() =~= ms.subrange(0, i as int));
            assert(ms.subrange(0, i + 1).last() == ms[i as int]);
            assert(ms[i as int].amount == ts@[i as int].amount as int);
        }
        total = total + (a as i128);
        i += 1;
    }
    proof {
        assert(ms.subrange(0, ts@.len() as int) =~= ms);
    }
    total
}

/// The subtotal of the label `t`: the sum restricted to the records carrying
/// it. Untagged records and records carrying the other label contribute
/// nothing.
#[verifier::loop_isolation(false)]
pub fn tag_total(ts: &Vec<Transaction>, t: Tag) -> (r: i128)
    ensures
        r as int == sum_tagged(models(ts@), t),
{
    let ghost ms = models(ts@);
    let mut total: i128 = 0;
    let mut i: usize = 0;
    proof {
        assert(ms.subrange(0, 0) =~= Seq::<TransactionModel>::empty());
    }
    while i < ts.len()
        invariant
            i <= ts.len(),
            total as int == sum_tagged(ms.subrange(0, i as int), t),
            -(i as int) * 0x8000_0000_0000_0000 <= total as int <= (i as int)
                * 0x8000_0000_0000_0000,
        decreases ts.len() - i,
    {
        proof {
            assert(ms.subrange(0, i + 1).drop_last() =~= ms.subrange(0, i as int));
            assert(ms.subrange(0, i + 1).last() == ms[i as int]);
            assert(ms[i as int].amount == ts@[i as int].amount as int);
            assert(ms[i as int].tag == ts@[i as int].tag);
        }
        let counted = match ts[i].tag {
            Some(u) => u == t,
            None => false,
        };
        if counted {
            let a = ts[i].amount;
            total = total + (a as i128);
        }
        i += 1;
    }
    proof {
        assert(ms.subrange(0, ts@.len() as int) =~= ms);
    }
    total
}

/// What one record contributes to the untagged remainder.
pub open spec fn untagged_amount(m: TransactionModel) -> int {
    if m.tag is None {
        m.amount
    } else {
        0
    }
}

/// The sum of the amounts of the untagged records.
pub open spec fn sum_untagged(ms: Seq<TransactionModel>) -> int
    decreases ms.len(),
{
    if ms.len() == 0 {
        0
    } else {
        sum_untagged(ms.drop_last()) + untagged_amount(ms.last())
    }
}

/// Tag exclusivity partitions the grand total: every record counts in
/// exactly one of the two subtotals or the untagged remainder.
pub proof fn lemma_totals_partition(ms: Seq<TransactionModel>)
    ensures
        sum_amounts(ms) == sum_tagged(ms, Tag::Personal) + sum_tagged(ms, Tag::Joint)
            + sum_untagged(ms),
    decreases ms.len(),
{
    if ms.len() > 0 {
        lemma_totals_partition(ms.drop_last());
        let m = ms.last();
        match m.tag {
            None => {
                assert(tag_amount(m, Tag::Personal) == 0);
                assert(tag_amount(m, Tag::Joint) == 0);
                assert(untagged_amount(m) == m.amount);
            },
            Some(t) => {
                assert(untagged_amount(m) == 0);
                match t {
                    Tag::Personal => {
                        assert(tag_amount(m, Tag::Personal) == m.amount);
                        assert(tag_amount(m, Tag::Joint) == 0);
                    },
                    Tag::Joint => {
                        assert(tag_amount(m, Tag::Personal) == 0);
                        assert(tag_amount(m, Tag::Joint) == m.amount);
                    },
                }
            },
        }
    }
}

/// The grand total is blind to tagging: two record sequences with the same
/// amounts in the same order have the same grand total, whatever their tags.
pub proof fn lemma_grand_total_ignores_tags(a: Seq<TransactionModel>, b: Seq<TransactionModel>)
    requires
        a.len() == b.len(),
        forall|i: int| 0 <= i < a.len() ==> a[i].amount == b[i].amount,
    ensures
        sum_amounts(a) == sum_amounts(b),
    decreases a.len(),
{
    if a.len() > 0 {
        assert forall|i: int| 0 <= i < a.drop_last().len() implies a.drop_last()[i].amount
            == b.drop_last()[i].amount by {
            assert(a.drop_last()[i] == a[i]);
            assert(b.drop_last()[i] == b[i]);
        }
        lemma_grand_total_ignores_tags(a.drop_last(), b.drop_last());
        assert(a.last().amount == b.last().amount);
    }
}

} // verus!
