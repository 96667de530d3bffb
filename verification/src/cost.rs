//! The cost table: what a node's capability mask adds to the price of a step.

use vstd::prelude::*;

verus! {

/// What one entry of the table adds for a node with `mask`: its weight where
/// the entry's bit pattern and the mask share a set bit, nothing otherwise.
pub open spec fn weight_for(mask: usize, bit: usize, weight: isize) -> int {
    if mask & bit != 0 {
        weight as int
    } else {
        0
    }
}

/// The sum of `weight_for` over the entries of `costs` whose key is in `bits`.
pub open spec fn bonus_over(mask: usize, costs: Map<usize, isize>, bits: Set<usize>) -> int
    decreases bits.len(),
    when bits.finite()
{
    if bits.is_empty() {
        0
    } else {
        let bit = bits.choose();
        weight_for(mask, bit, costs[bit]) + bonus_over(mask, costs, bits.remove(bit))
    }
}

/// The signed sum of the weights of all entries of `costs` that match `mask`.
pub open spec fn mask_bonus(mask: usize, costs: Map<usize, isize>) -> int {
    bonus_over(mask, costs, costs.dom())
}

/// The sum of `weight_for` over a list of entries.
pub open spec fn bonus_of_entries(mask: usize, entries: Seq<(&usize, &isize)>) -> int
    decreases entries.len(),
{
    if entries.len() == 0 {
        0
    } else {
        bonus_of_entries(mask, entries.drop_last()) + weight_for(
            mask,
            *entries.last().0,
            *entries.last().1,
        )
    }
}

/// Any member of `bits` can be split off the sum, not only the chosen one.
pub proof fn lemma_bonus_split(mask: usize, costs: Map<usize, isize>, bits: Set<usize>, bit: usize)
    requires
        bits.finite(),
        bits.contains(bit),
    ensures
        bonus_over(mask, costs, bits) == weight_for(mask, bit, costs[bit]) + bonus_over(
            mask,
            costs,
            bits.remove(bit),
        ),
    decreases bits.len(),
{
    let chosen = bits.choose();
    if chosen != bit {
        lemma_bonus_split(mask, costs, bits.remove(chosen), bit);
        lemma_bonus_split(mask, costs, bits.remove(bit), chosen);
        assert(bits.remove(chosen).remove(bit) =~= bits.remove(bit).remove(chosen));
    }
}

/// A list of entries that names each key of `bits` once, with the weight that
/// `costs` holds for it, sums to the bonus over `bits`.
pub proof fn lemma_entries_sum(
    mask: usize,
    costs: Map<usize, isize>,
    bits: Set<usize>,
    entries: Seq<(&usize, &isize)>,
)
    requires
        bits.finite(),
        forall|i: int| 0 <= i < entries.len() ==> bits.contains(*(#[trigger] entries[i]).0),
        forall|i: int|
            0 <= i < entries.len() ==> costs[*(#[trigger] entries[i]).0] == *entries[i].1,
        forall|i: int, j: int|
            0 <= i < j < entries.len() ==> *(#[trigger] entries[i]).0 != *(#[trigger] entries[j]).0,
        forall|bit: usize|
            bits.contains(bit) ==> exists|i: int|
                0 <= i < entries.len() && *(#[trigger] entries[i]).0 == bit,
    ensures
        bonus_of_entries(mask, entries) == bonus_over(mask, costs, bits),
    decreases entries.len(),
{
    if entries.len() == 0 {
        assert(bits.is_empty()) by {
            if !bits.is_empty() {
                let bit = bits.choose();
                assert(bits.contains(bit));
            }
        }
    } else {
        let last = entries.last();
        let rest = entries.drop_last();
        let bit = *last.0;
        assert(entries[entries.len() - 1] == last);
        lemma_bonus_split(mask, costs, bits, bit);
        assert forall|other: usize| bits.remove(bit).contains(other) implies exists|i: int|
            0 <= i < rest.len() && *(#[trigger] rest[i]).0 == other by {
            let i = choose|i: int| 0 <= i < entries.len() && *(#[trigger] entries[i]).0 == other;
            assert(rest[i] == entries[i]);
        }
        assert forall|i: int| 0 <= i < rest.len() implies bits.remove(bit).contains(
            *(#[trigger] rest[i]).0,
        ) by {
            assert(rest[i] == entries[i]);
        }
        lemma_entries_sum(mask, costs, bits.remove(bit), rest);
    }
}

} // verus!
