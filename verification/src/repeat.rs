//! The mathematical model: what it means to repeat a sequence, and what a
//! back-reference appends to a sequence.

use vstd::prelude::*;
use vstd::arithmetic::div_mod::lemma_fundamental_div_mod_converse;

verus! {

/// `n` copies of `unit`, one after the other.
pub open spec fn repeated<T>(unit: Seq<T>, n: nat) -> Seq<T>
    decreases n,
{
    if n == 0 {
        Seq::empty()
    } else {
        repeated(unit, (n - 1) as nat) + unit
    }
}

/// The last `k` elements of `s`.
pub open spec fn tail<T>(s: Seq<T>, k: nat) -> Seq<T> {
    s.subrange(s.len() - k, s.len() as int)
}

/// `n` copies of `unit` hold `unit.len() * n` elements.
pub proof fn lemma_repeated_len<T>(unit: Seq<T>, n: nat)
    ensures
        repeated(unit, n).len() == unit.len() * n,
    decreases n,
{
    if n > 0 {
        lemma_repeated_len(unit, (n - 1) as nat);
        assert(unit.len() * (n - 1) + unit.len() == unit.len() * n) by (nonlinear_arith);
    }
}

/// Repeating the empty sequence, or repeating zero times, gives the empty
/// sequence.
pub proof fn lemma_repeated_nothing<T>(unit: Seq<T>, n: nat)
    requires
        n == 0 || unit.len() == 0,
    ensures
        repeated(unit, n) =~= Seq::<T>::empty(),
    decreases n,
{
    if n > 0 {
        lemma_repeated_nothing(unit, (n - 1) as nat);
    }
}

/// `a + b` copies are `a` copies followed by `b` copies.
pub proof fn lemma_repeated_add<T>(unit: Seq<T>, a: nat, b: nat)
    ensures
        repeated(unit, a + b) =~= repeated(unit, a) + repeated(unit, b),
    decreases b,
{
    if b > 0 {
        lemma_repeated_add(unit, a, (b - 1) as nat);
        assert(repeated(unit, a + b) == repeated(unit, (a + b - 1) as nat) + unit);
        assert((a + b - 1) as nat == a + (b - 1) as nat);
    }
}

/// The first `b` copies of `a >= b` copies are `b` copies.
pub proof fn lemma_repeated_prefix<T>(unit: Seq<T>, a: nat, b: nat)
    requires
        b <= a,
    ensures
        unit.len() * b <= repeated(unit, a).len(),
        repeated(unit, a).subrange(0, (unit.len() * b) as int) =~= repeated(unit, b),
{
    lemma_repeated_add(unit, b, (a - b) as nat);
    lemma_repeated_len(unit, b);
    lemma_repeated_len(unit, a);
    assert(b + (a - b) as nat == a);
}

/// Element `i` of a repetition is element `i % unit.len()` of the unit.
pub proof fn lemma_repeated_index<T>(unit: Seq<T>, n: nat, i: int)
    requires
        0 <= i < unit.len() * n,
    ensures
        unit.len() > 0,
        repeated(unit, n).len() == unit.len() * n,
        repeated(unit, n)[i] == unit[i % (unit.len() as int)],
    decreases n,
{
    let len = unit.len() as int;
    assert(len > 0 && n > 0) by (nonlinear_arith)
        requires
            0 <= i < len * n,
            len >= 0,
    ;
    lemma_repeated_len(unit, n);
    lemma_repeated_len(unit, (n - 1) as nat);
    assert(len * (n - 1) + len == len * n) by (nonlinear_arith);
    if i < len * (n - 1) {
        lemma_repeated_index(unit, (n - 1) as nat, i);
    } else {
        let r = i - len * (n - 1);
        assert(repeated(unit, n)[i] == unit[r]);
        lemma_fundamental_div_mod_converse(i, len, n - 1, r);
    }
}

} // verus!
