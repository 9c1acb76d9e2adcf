//! Back-references: appending elements that repeat what stands a fixed
//! distance behind the end of a sequence.

use vstd::prelude::*;
use vstd::arithmetic::div_mod::{
    lemma_fundamental_div_mod, lemma_fundamental_div_mod_converse, lemma_mod_pos_bound,
    lemma_small_mod,
};
use crate::repeat::{lemma_repeated_index, lemma_repeated_len, repeated, tail};

verus! {

/// `s` followed by `count` new elements, each of them equal to the element
/// that stands `distance` places before it at the moment it is appended.
pub open spec fn back_reference<T>(s: Seq<T>, distance: nat, count: nat) -> Seq<T>
    decreases count,
{
    if count == 0 {
        s
    } else {
        let before = back_reference(s, distance, (count - 1) as nat);
        before.push(before[before.len() - distance])
    }
}

/// A back-reference appends exactly `count` elements.
pub proof fn lemma_back_reference_len<T>(s: Seq<T>, distance: nat, count: nat)
    ensures
        back_reference(s, distance, count).len() == s.len() + count,
    decreases count,
{
    if count > 0 {
        lemma_back_reference_len(s, distance, (count - 1) as nat);
    }
}

/// A back-reference only appends: a shorter one is a prefix of a longer one,
/// and the sequence that both began with is a prefix of both.
pub proof fn lemma_back_reference_prefix<T>(s: Seq<T>, distance: nat, count: nat, k: nat)
    requires
        k <= count,
    ensures
        back_reference(s, distance, count).len() == s.len() + count,
        back_reference(s, distance, count).subrange(0, (s.len() + k) as int) =~= back_reference(
            s,
            distance,
            k,
        ),
    decreases count,
{
    lemma_back_reference_len(s, distance, count);
    lemma_back_reference_len(s, distance, k);
    if k < count {
        lemma_back_reference_prefix(s, distance, (count - 1) as nat, k);
    }
}

/// Every appended element equals the element `distance` places before it.
pub proof fn lemma_back_reference_periodic<T>(s: Seq<T>, distance: nat, count: nat, i: int)
    requires
        0 < distance <= s.len(),
        s.len() <= i < s.len() + count,
    ensures
        back_reference(s, distance, count).len() == s.len() + count,
        back_reference(s, distance, count)[i] == back_reference(s, distance, count)[i - distance],
    decreases count,
{
    lemma_back_reference_len(s, distance, count);
    lemma_back_reference_len(s, distance, (count - 1) as nat);
    if i < s.len() + count - 1 {
        lemma_back_reference_periodic(s, distance, (count - 1) as nat, i);
    }
}

/// The three properties above determine the result: a sequence that starts
/// with `s`, holds `count` more elements and repeats itself at `distance` in
/// all of them is the back-reference.
pub proof fn lemma_back_reference_unique<T>(s: Seq<T>, distance: nat, count: nat, r: Seq<T>)
    requires
        0 < distance <= s.len(),
        r.len() == s.len() + count,
        r.subrange(0, s.len() as int) =~= s,
        forall|i: int| s.len() <= i < r.len() ==> #[trigger] r[i] == r[i - distance],
    ensures
        r =~= back_reference(s, distance, count),
    decreases count,
{
    if count == 0 {
    } else {
        let shorter = r.drop_last();
        assert(shorter.subrange(0, s.len() as int) =~= r.subrange(0, s.len() as int));
        assert forall|i: int| s.len() <= i < shorter.len() implies #[trigger] shorter[i]
            == shorter[i - distance] by {
            assert(r[i] == r[i - distance]);
        }
        lemma_back_reference_unique(s, distance, (count - 1) as nat, shorter);
        assert(r.last() == r[r.len() - 1 - distance]);
        assert(r =~= shorter.push(shorter[shorter.len() - distance]));
    }
}

/// A back-reference that reaches no further than its own distance is one
/// copy of `count` elements, taken from `distance` before the end.
pub proof fn lemma_back_reference_single_copy<T>(s: Seq<T>, distance: nat, count: nat)
    requires
        count <= distance <= s.len(),
    ensures
        back_reference(s, distance, count) =~= s + s.subrange(
            s.len() - distance,
            s.len() - distance + count,
        ),
{
    if count == 0 {
        assert(s + s.subrange(s.len() - distance, s.len() - distance + count) =~= s);
    } else {
        let r = s + s.subrange(s.len() - distance, s.len() - distance + count);
        assert(r.subrange(0, s.len() as int) =~= s);
        lemma_back_reference_unique(s, distance, count, r);
    }
}

/// A back-reference repeats the last `distance` elements of `s`: as many
/// whole copies as fit into `count`, then the start of one more.
pub proof fn lemma_back_reference_repeats<T>(s: Seq<T>, distance: nat, count: nat)
    requires
        0 < distance <= s.len(),
    ensures
        back_reference(s, distance, count) =~= s + repeated(tail(s, distance), count / distance)
            + tail(s, distance).subrange(0, (count % distance) as int),
{
    let d = distance as int;
    let unit = tail(s, distance);
    let whole = count / distance;
    let rest = count % distance;
    let copies = repeated(unit, whole);
    let part = unit.subrange(0, rest as int);
    let r = s + copies + part;
    lemma_fundamental_div_mod(count as int, d);
    lemma_mod_pos_bound(count as int, d);
    lemma_repeated_len(unit, whole);
    assert(unit.len() == d);
    assert(r.len() == s.len() + count);
    assert(r.subrange(0, s.len() as int) =~= s);
    // The appended element at offset `j` is element `j % distance` of the unit.
    assert forall|j: int| 0 <= j < count implies #[trigger] r[s.len() + j] == unit[j % d] by {
        if j < d * whole {
            lemma_repeated_index(unit, whole, j);
        } else {
            assert(whole * d == d * whole) by (nonlinear_arith);
            lemma_fundamental_div_mod_converse(j, d, whole as int, j - d * whole);
        }
    }
    assert forall|i: int| s.len() <= i < r.len() implies #[trigger] r[i] == r[i - distance] by {
        let j = i - s.len();
        assert(r[s.len() + j] == unit[j % d]);
        if j >= d {
            assert(r[s.len() + (j - d)] == unit[(j - d) % d]);
            lemma_fundamental_div_mod(j, d);
            lemma_mod_pos_bound(j, d);
            assert((j / d - 1) * d == d * (j / d) - d) by (nonlinear_arith);
            lemma_fundamental_div_mod_converse(j - d, d, j / d - 1, j % d);
        } else {
            lemma_small_mod(j as nat, distance);
            assert(r[i - d] == s[i - d]);
            assert(unit[j] == s[s.len() - d + j]);
        }
    }
    lemma_back_reference_unique(s, distance, count, r);
}

} // verus!
