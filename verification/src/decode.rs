//! Expanding a back-reference at the end of a vector.

use vstd::prelude::*;
use vstd::arithmetic::div_mod::{lemma_fundamental_div_mod, lemma_mod_pos_bound};
use crate::backref::{
    back_reference, lemma_back_reference_periodic, lemma_back_reference_prefix,
    lemma_back_reference_repeats, lemma_back_reference_single_copy,
};
use crate::repeat::{lemma_repeated_len, tail};
use crate::view::AsFixedCapacityVec;

verus! {

/// Appends `count` elements to `buffer`, each of them equal to the element
/// that stands `distance` places before it.
///
/// Where the new elements reach no further than `distance`, they are one
/// block copied from the vector. Where they reach further, they repeat the
/// last `distance` elements: the whole copies are written by doubling, and
/// one more block adds the rest.
pub fn decode_back_reference<T: Copy>(buffer: &mut Vec<T>, distance: usize, count: usize)
    requires
        0 < distance <= old(buffer)@.len(),
        old(buffer)@.len() + count <= usize::MAX,
    ensures
        final(buffer)@ == back_reference(old(buffer)@, distance as nat, count as nat),
        final(buffer)@.len() == old(buffer)@.len() + count,
        final(buffer)@.subrange(0, old(buffer)@.len() as int) == old(buffer)@,
        forall|i: int|
            old(buffer)@.len() <= i < final(buffer)@.len() ==> #[trigger] final(buffer)@[i]
                == final(buffer)@[i - distance],
{
    let ghost before = buffer@;
    let ghost decoded = back_reference(before, distance as nat, count as nat);
    proof {
        lemma_back_reference_prefix(before, distance as nat, count as nat, 0);
        assert forall|i: int| before.len() <= i < decoded.len() implies #[trigger] decoded[i]
            == decoded[i - distance] by {
            lemma_back_reference_periodic(before, distance as nat, count as nat, i);
        }
    }
    let len = buffer.len();
    let from = len - distance;
    let mut append = buffer.with_fixed_capacity(count);
    if count <= distance {
        append.extend_from_within(from, from + count);
        proof {
            lemma_back_reference_single_copy(before, distance as nat, count as nat);
        }
    } else {
        let full_repeats = count / distance;
        let rest = count % distance;
        proof {
            lemma_fundamental_div_mod(count as int, distance as int);
            lemma_mod_pos_bound(count as int, distance as int);
        }
        append.repeat_tail(distance, full_repeats);
        proof {
            lemma_repeated_len(tail(before, distance as nat), full_repeats as nat);
        }
        append.extend_from_within(from, from + rest);
        proof {
            assert(before.subrange(from as int, from + rest) =~= tail(
                before,
                distance as nat,
            ).subrange(0, rest as int));
            lemma_back_reference_repeats(before, distance as nat, count as nat);
        }
    }
    assert(append.buffer@ == decoded);
}

} // verus!
