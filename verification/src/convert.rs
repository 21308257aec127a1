//! Index arithmetic between the three domains in which a payload is addressed:
//! bytes, field elements and polynomials.
//!
//! Going one domain down (bytes to elements, elements to polynomials) is floor
//! division by the size of a unit; going one domain up is multiplication by it.
//! A half-open range goes down by its first and its last index, so that a unit
//! which the range only touches at its edge still belongs to the result.

use std::ops::Range;
use vstd::arithmetic::div_mod::{
    lemma_div_denominator, lemma_div_is_ordered, lemma_div_pos_is_pos, lemma_fundamental_div_mod,
    lemma_fundamental_div_mod_converse, lemma_mod_bound,
};
use vstd::arithmetic::mul::{lemma_mul_inequality, lemma_mul_is_commutative};
use vstd::prelude::*;

verus! {

/// The unit of size `denominator` that holds `index`.
pub open spec fn spec_index_coarsen(index: int, denominator: int) -> int {
    index / denominator
}

/// The first index of the unit `index`, where a unit holds `multiplier` indices.
pub open spec fn spec_index_refine(index: int, multiplier: int) -> int {
    index * multiplier
}

/// The units that a non-empty range touches: from the unit of its first index
/// up to and with the unit of its last index.
pub open spec fn spec_range_coarsen(range: Range<int>, denominator: int) -> Range<int> {
    Range {
        start: spec_index_coarsen(range.start, denominator),
        end: spec_index_coarsen(range.end - 1, denominator) + 1,
    }
}

/// The indices that the units of `range` span.
pub open spec fn spec_range_refine(range: Range<int>, multiplier: int) -> Range<int> {
    Range {
        start: spec_index_refine(range.start, multiplier),
        end: spec_index_refine(range.end, multiplier),
    }
}

/// A machine range read as a range of mathematical integers.
pub open spec fn int_range(range: Range<usize>) -> Range<int> {
    Range { start: range.start as int, end: range.end as int }
}

/// How many indices a range holds; none when its end does not lie after its start.
pub open spec fn spec_range_len(range: Range<int>) -> int {
    if range.start < range.end {
        range.end - range.start
    } else {
        0
    }
}

/// The unit of size `denominator` that holds `index`.
pub fn index_coarsen(index: usize, denominator: usize) -> (coarse: usize)
    requires
        denominator > 0,
    ensures
        coarse == spec_index_coarsen(index as int, denominator as int),
{
    index / denominator
}

/// The first index of the unit `index`, where a unit holds `multiplier` indices.
pub fn index_refine(index: usize, multiplier: usize) -> (fine: usize)
    requires
        index * multiplier <= usize::MAX,
    ensures
        fine == spec_index_refine(index as int, multiplier as int),
{
    index * multiplier
}

/// The units of size `denominator` that a non-empty range touches.
pub fn range_coarsen(range: &Range<usize>, denominator: usize) -> (coarse: Range<usize>)
    requires
        range.start < range.end,
        denominator > 0,
    ensures
        int_range(coarse) == spec_range_coarsen(int_range(*range), denominator as int),
        coarse.start < coarse.end,
{
    proof {
        lemma_div_is_ordered(range.start as int, range.end - 1, denominator as int);
        lemma_div_is_ordered(range.end - 1, usize::MAX - 1, denominator as int);
        lemma_div_is_ordered(usize::MAX - 1, usize::MAX - 1, 1);
        vstd::arithmetic::div_mod::lemma_div_is_ordered_by_denominator(
            usize::MAX - 1,
            1,
            denominator as int,
        );
    }
    Range {
        start: index_coarsen(range.start, denominator),
        end: index_coarsen(range.end - 1, denominator) + 1,
    }
}

/// The indices that the units of a non-empty range span, where a unit holds
/// `multiplier` indices.
pub fn range_refine(range: &Range<usize>, multiplier: usize) -> (fine: Range<usize>)
    requires
        range.start < range.end,
        range.end * multiplier <= usize::MAX,
    ensures
        int_range(fine) == spec_range_refine(int_range(*range), multiplier as int),
{
    proof {
        lemma_mul_inequality(range.start as int, range.end as int, multiplier as int);
    }
    Range {
        start: index_refine(range.start, multiplier),
        end: index_refine(range.end, multiplier),
    }
}

/// Going down and up again lands on the first index of the unit that holds
/// `index`: at or before `index`, and less than one unit before it.
pub proof fn law_coarsen_refine_bounds(index: int, size: int)
    requires
        0 <= index,
        0 < size,
    ensures
        0 <= spec_index_coarsen(index, size),
        spec_index_refine(spec_index_coarsen(index, size), size) <= index,
        index < spec_index_refine(spec_index_coarsen(index, size) + 1, size),
{
    lemma_fundamental_div_mod(index, size);
    lemma_mod_bound(index, size);
    lemma_div_pos_is_pos(index, size);
    lemma_mul_is_commutative(size, index / size);
    assert((index / size + 1) * size == (index / size) * size + size) by (nonlinear_arith);
}

/// Going up and down again is the identity.
pub proof fn law_refine_coarsen(index: int, size: int)
    requires
        0 <= index,
        0 < size,
    ensures
        spec_index_coarsen(spec_index_refine(index, size), size) == index,
{
    lemma_fundamental_div_mod_converse(index * size, size, index, 0);
}

/// Coarsening by one size and by another is coarsening by their product: the
/// polynomial of a byte is the polynomial of the byte's element.
pub proof fn law_coarsen_twice(index: int, first: int, second: int)
    requires
        0 <= index,
        0 < first,
        0 < second,
    ensures
        spec_index_coarsen(spec_index_coarsen(index, first), second) == spec_index_coarsen(
            index,
            second * first,
        ),
{
    lemma_div_denominator(index, first, second);
    lemma_mul_is_commutative(first, second);
}

/// The coarsened range holds exactly the units of the indices of the range:
/// the unit of each index of the range lies in it, and its first and last
/// units are those of the range's first and last index.
pub proof fn law_range_coarsen_covers(range: Range<int>, size: int, index: int)
    requires
        0 <= range.start <= index < range.end,
        0 < size,
    ensures
        spec_range_coarsen(range, size).start <= spec_index_coarsen(index, size)
            < spec_range_coarsen(range, size).end,
        spec_range_coarsen(range, size).start == spec_index_coarsen(range.start, size),
        spec_range_coarsen(range, size).end - 1 == spec_index_coarsen(range.end - 1, size),
{
    lemma_div_is_ordered(range.start, index, size);
    lemma_div_is_ordered(index, range.end - 1, size);
}

/// Refining a coarsened range gives a range of whole units around the range
/// itself: it starts at or before it and ends at or after it.
pub proof fn law_range_refine_encloses(range: Range<int>, size: int)
    requires
        0 <= range.start < range.end,
        0 < size,
    ensures
        spec_range_refine(spec_range_coarsen(range, size), size).start <= range.start,
        range.end <= spec_range_refine(spec_range_coarsen(range, size), size).end,
{
    law_coarsen_refine_bounds(range.start, size);
    law_coarsen_refine_bounds(range.end - 1, size);
}

/// Coarsening a range in two steps is coarsening it by the product of the
/// sizes.
pub proof fn law_range_coarsen_twice(range: Range<int>, first: int, second: int)
    requires
        0 <= range.start < range.end,
        0 < first,
        0 < second,
    ensures
        spec_range_coarsen(spec_range_coarsen(range, first), second) == spec_range_coarsen(
            range,
            second * first,
        ),
{
    law_coarsen_twice(range.start, first, second);
    law_coarsen_twice(range.end - 1, first, second);
}

} // verus!
