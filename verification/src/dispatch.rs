//! The broadcast dispatcher's accounting.
//!
//! One dispatch fans a message out to a set of recipients; each delivery
//! resolves independently to success or failure. The tally below turns the
//! collected outcomes into a report and is order-independent: however the
//! concurrent deliveries complete, the same outcomes give the same report.
//! An empty recipient set means no deliveries and a report of zero sent,
//! zero errors.

use vstd::multiset::Multiset;
use vstd::prelude::*;

verus! {

/// The aggregate of one dispatch: how many deliveries succeeded and how many
/// failed. No per-recipient detail survives; failure causes are collapsed.
#[derive(Debug, PartialEq, Eq, Clone, Copy)]
pub struct DeliveryReport {
    pub sent: usize,
    pub errors: usize,
}

/// How many outcomes report success.
pub open spec fn successes(outcomes: Seq<bool>) -> nat
    decreases outcomes.len(),
{
    if outcomes.len() == 0 {
        0
    } else {
        successes(outcomes.drop_last()) + if outcomes.last() {
            1nat
        } else {
            0nat
        }
    }
}

pub proof fn lemma_successes_bounded(outcomes: Seq<bool>)
    ensures
        successes(outcomes) <= outcomes.len(),
    decreases outcomes.len(),
{
    if outcomes.len() > 0 {
        lemma_successes_bounded(outcomes.drop_last());
    }
}

/// Aggregates per-recipient delivery outcomes into a report: `sent` counts
/// the successes, `errors` the rest, and together they account for every
/// outcome. An empty outcome list gives zero sent and zero errors.
pub fn dispatch_report(outcomes: &Vec<bool>) -> (r: DeliveryReport)
    ensures
        r.sent == successes(outcomes@),
        r.errors == outcomes@.len() - successes(outcomes@),
        r.sent + r.errors == outcomes@.len(),
{
    let n = outcomes.len();
    let mut sent: usize = 0;
    let mut i: usize = 0;
    while i < n
        invariant
            n == outcomes@.len(),
            0 <= i <= n,
            sent == successes(outcomes@.take(i as int)),
            sent <= i,
        decreases n - i,
    {
        proof {
            assert(outcomes@.take(i as int + 1).drop_last() =~= outcomes@.take(i as int));
            assert(outcomes@.take(i as int + 1).last() == outcomes@[i as int]);
        }
        if outcomes[i] {
            sent = sent + 1;
        }
        i = i + 1;
    }
    proof {
        assert(outcomes@.take(n as int) =~= outcomes@);
        lemma_successes_bounded(outcomes@);
    }
    DeliveryReport { sent, errors: n - sent }
}

/// The count of successes is a function of the multiset of outcomes alone:
/// deliveries may complete in any order, the report is the same.
pub proof fn lemma_report_order_independent(a: Seq<bool>, b: Seq<bool>)
    requires
        a.to_multiset() == b.to_multiset(),
    ensures
        successes(a) == successes(b),
{
    lemma_successes_counts_true(a);
    lemma_successes_counts_true(b);
}

/// The number of successes in a sequence of outcomes is the multiset count
/// of `true` in it.
pub proof fn lemma_successes_counts_true(outcomes: Seq<bool>)
    ensures
        successes(outcomes) == outcomes.to_multiset().count(true),
    decreases outcomes.len(),
{
    broadcast use vstd::seq_lib::group_to_multiset_ensures;

    if outcomes.len() == 0 {
        assert(outcomes.to_multiset() =~= Multiset::<bool>::empty());
    } else {
        lemma_successes_counts_true(outcomes.drop_last());
        assert(outcomes =~= outcomes.drop_last().push(outcomes.last()));
        assert(outcomes.drop_last().push(outcomes.last()).to_multiset()
            =~= outcomes.drop_last().to_multiset().insert(outcomes.last()));
    }
}

} // verus!
