//! The progress of a run, in thousandths of the bytes of the dump, and the time that is
//! left by that measure. Both are for the eye only: nothing that is written depends on them.

use vstd::arithmetic::div_mod::{lemma_div_is_ordered, lemma_div_multiples_vanish};
use vstd::prelude::*;

verus! {

/// The thousandths of `total` that `processed` makes, rounded down. Nothing of nothing is
/// none.
pub open spec fn promille_of(processed: nat, total: nat) -> nat {
    if total == 0 {
        0
    } else {
        processed * 1000 / total
    }
}

/// The time that is left when `elapsed` has gone by and `promille` thousandths are done, if
/// the rest goes as fast as what is done: `elapsed` times what is left, by what is done.
/// None where nothing is done yet, and none where all is done.
pub open spec fn remaining_of(elapsed: nat, promille: nat) -> nat {
    if promille == 0 || promille >= 1000 {
        0
    } else {
        (elapsed * (1000 - promille) / (promille as int)) as nat
    }
}

/// `n`, or the largest `u64` where `n` is larger.
pub open spec fn capped(n: nat) -> u64 {
    if n > u64::MAX {
        u64::MAX
    } else {
        n as u64
    }
}

/// The thousandths of `total` bytes that `processed` bytes make.
pub fn promille(processed: u64, total: u64) -> (p: u64)
    ensures
        p == capped(promille_of(processed as nat, total as nat)),
{
    if total == 0 {
        return 0;
    }
    let scaled: u128 = processed as u128 * 1000;
    let quotient: u128 = scaled / (total as u128);
    if quotient > u64::MAX as u128 {
        u64::MAX
    } else {
        quotient as u64
    }
}

/// Whether progress is to be reported: whether `current` thousandths are more than the
/// `last_reported`.
pub fn advances(current: u64, last_reported: u64) -> (report: bool)
    ensures
        report == (current > last_reported),
{
    current > last_reported
}

/// The milliseconds that are left when `elapsed_millis` have gone by and `promille`
/// thousandths are done.
pub fn remaining_millis(elapsed_millis: u64, promille: u64) -> (left: u64)
    ensures
        left == capped(remaining_of(elapsed_millis as nat, promille as nat)),
{
    if promille == 0 || promille >= 1000 {
        return 0;
    }
    let undone: u128 = (1000 - promille) as u128;
    assert(elapsed_millis as u128 * undone <= 0xffff_ffff_ffff_ffff * 1000) by (nonlinear_arith)
        requires
            elapsed_millis <= 0xffff_ffff_ffff_ffff,
            undone <= 1000,
    ;
    let scaled: u128 = elapsed_millis as u128 * undone;
    let quotient: u128 = scaled / (promille as u128);
    if quotient > u64::MAX as u128 {
        u64::MAX
    } else {
        quotient as u64
    }
}

/// Progress never goes back: more bytes make no fewer thousandths. And the thousandths of a
/// part of the dump are at most a thousand.
pub proof fn lemma_promille_grows(earlier: nat, later: nat, total: nat)
    requires
        earlier <= later,
    ensures
        promille_of(earlier, total) <= promille_of(later, total),
        later <= total ==> promille_of(later, total) <= 1000,
{
    if total > 0 {
        lemma_div_is_ordered((earlier * 1000) as int, (later * 1000) as int, total as int);
        if later <= total {
            lemma_div_is_ordered((later * 1000) as int, (total * 1000) as int, total as int);
            lemma_div_multiples_vanish(1000, total as int);
            assert(total * 1000 == 1000 * total) by (nonlinear_arith);
        }
    }
}

} // verus!
