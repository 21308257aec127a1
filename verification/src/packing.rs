//! Packing payload bytes into field elements.
//!
//! The bytes are cut into chunks of as many bytes as an element can take; the
//! last chunk holds what is left and may be shorter. Each chunk becomes one
//! element.

use crate::primitives::Primitives;
use vstd::arithmetic::div_mod::{
    lemma_div_is_ordered, lemma_fundamental_div_mod, lemma_fundamental_div_mod_converse,
    lemma_mod_bound,
};
use vstd::arithmetic::mul::{lemma_mul_inequality, lemma_mul_is_commutative};
use vstd::prelude::*;
use vstd::slice::slice_subrange;

verus! {

/// How many elements `bytes_len` bytes make: the length divided by the
/// capacity of an element, rounded up.
pub open spec fn spec_elems_len(bytes_len: int, capacity: int) -> int {
    (bytes_len + capacity - 1) / capacity
}

/// The bytes of the element `index`.
pub open spec fn spec_chunk(bytes: Seq<u8>, index: int, capacity: int) -> Seq<u8> {
    bytes.subrange(
        index * capacity,
        if (index + 1) * capacity <= bytes.len() {
            (index + 1) * capacity
        } else {
            bytes.len() as int
        },
    )
}

/// The elements that pack `bytes`.
pub open spec fn spec_bytes_to_field<P: Primitives>(bytes: Seq<u8>) -> Seq<P::Elem> {
    Seq::new(
        spec_elems_len(bytes.len() as int, P::spec_elem_byte_capacity() as int) as nat,
        |index: int|
            P::spec_elem_from_bytes(spec_chunk(bytes, index, P::spec_elem_byte_capacity() as int)),
    )
}

/// The number of elements is the least that has room for all the bytes.
pub proof fn lemma_elems_len_bounds(bytes_len: int, capacity: int)
    requires
        0 <= bytes_len,
        0 < capacity,
    ensures
        0 <= spec_elems_len(bytes_len, capacity),
        bytes_len <= spec_elems_len(bytes_len, capacity) * capacity < bytes_len + capacity,
        bytes_len == 0 <==> spec_elems_len(bytes_len, capacity) == 0,
{
    let n = bytes_len + capacity - 1;
    lemma_fundamental_div_mod(n, capacity);
    lemma_mod_bound(n, capacity);
    lemma_mul_is_commutative(capacity, n / capacity);
    lemma_div_is_ordered(0, n, capacity);
    if bytes_len == 0 {
        vstd::arithmetic::div_mod::lemma_basic_div(n, capacity);
    } else {
        lemma_div_is_ordered(capacity, n, capacity);
        vstd::arithmetic::div_mod::lemma_div_by_self(capacity);
    }
}

/// `count` is the number of elements of `bytes_len` bytes when `count`
/// elements have room for them and `count - 1` have not.
pub proof fn lemma_elems_len_is(bytes_len: int, capacity: int, count: int)
    requires
        0 <= bytes_len,
        0 < capacity,
        0 <= count,
        bytes_len <= count * capacity < bytes_len + capacity,
    ensures
        spec_elems_len(bytes_len, capacity) == count,
{
    let n = bytes_len + capacity - 1;
    lemma_fundamental_div_mod_converse(n, capacity, count, n - count * capacity);
}

/// Every chunk holds at least one byte and at most `capacity` bytes, and all
/// chunks but the last are full.
pub proof fn lemma_chunk_len(bytes: Seq<u8>, index: int, capacity: int)
    requires
        0 < capacity,
        0 <= index < spec_elems_len(bytes.len() as int, capacity),
    ensures
        0 <= index * capacity < bytes.len(),
        0 < spec_chunk(bytes, index, capacity).len() <= capacity,
        index + 1 < spec_elems_len(bytes.len() as int, capacity) ==> spec_chunk(
            bytes,
            index,
            capacity,
        ).len() == capacity,
{
    let count = spec_elems_len(bytes.len() as int, capacity);
    lemma_elems_len_bounds(bytes.len() as int, capacity);
    assert(index * capacity <= (count - 1) * capacity) by (nonlinear_arith)
        requires
            index <= count - 1,
            0 < capacity,
    ;
    assert((count - 1) * capacity == count * capacity - capacity) by (nonlinear_arith);
    assert((index + 1) * capacity == index * capacity + capacity) by (nonlinear_arith);
    assert(0 <= index * capacity) by (nonlinear_arith)
        requires
            0 <= index,
            0 < capacity,
    ;
    if index + 1 < count {
        assert((index + 1) * capacity <= (count - 1) * capacity) by (nonlinear_arith)
            requires
                index + 1 <= count - 1,
                0 < capacity,
        ;
    }
}

/// Packs `bytes` into field elements.
pub fn bytes_to_field<P: Primitives>(bytes: &[u8]) -> (elems: Vec<P::Elem>)
    requires
        P::spec_elem_byte_capacity() >= 1,
    ensures
        elems@ == spec_bytes_to_field::<P>(bytes@),
{
    let capacity: usize = P::elem_byte_capacity();
    let len: usize = bytes.len();
    let mut elems: Vec<P::Elem> = Vec::new();
    let mut start: usize = 0;
    proof {
        lemma_elems_len_bounds(len as int, capacity as int);
        assert(0 * capacity == 0);
    }
    while start < len
        invariant
            capacity == P::spec_elem_byte_capacity(),
            capacity >= 1,
            len == bytes@.len(),
            start <= len,
            start < len ==> start == elems@.len() * capacity,
            start == len ==> elems@.len() == spec_elems_len(len as int, capacity as int),
            forall|index: int|
                0 <= index < elems@.len() ==> #[trigger] elems@[index]
                    == P::spec_elem_from_bytes(spec_chunk(bytes@, index, capacity as int)),
        decreases len - start,
    {
        let ghost index = elems@.len() as int;
        let end: usize = if len - start > capacity {
            start + capacity
        } else {
            len
        };
        proof {
            assert((index + 1) * capacity == index * capacity + capacity) by (nonlinear_arith);
            assert(bytes@.subrange(start as int, end as int) == spec_chunk(
                bytes@,
                index,
                capacity as int,
            ));
            if end == len {
                lemma_elems_len_is(len as int, capacity as int, index + 1);
            }
        }
        let elem = P::elem_from_bytes(slice_subrange(bytes, start, end));
        elems.push(elem);
        start = end;
    }
    assert(elems@ =~= spec_bytes_to_field::<P>(bytes@));
    elems
}

/// Packing a window of the bytes gives a window of the elements, where the
/// window starts at the first byte of an element and ends with the last byte
/// of an element or with the bytes.
pub proof fn lemma_bytes_to_field_window<P: Primitives>(
    bytes: Seq<u8>,
    first_elem: int,
    end: int,
)
    requires
        P::spec_elem_byte_capacity() >= 1,
        0 <= first_elem,
        first_elem * P::spec_elem_byte_capacity() <= end <= bytes.len(),
        end % (P::spec_elem_byte_capacity() as int) == 0 || end == bytes.len(),
    ensures
        first_elem <= spec_elems_len(end, P::spec_elem_byte_capacity() as int) <= spec_elems_len(
            bytes.len() as int,
            P::spec_elem_byte_capacity() as int,
        ),
        spec_bytes_to_field::<P>(
            bytes.subrange(first_elem * P::spec_elem_byte_capacity(), end),
        ) == spec_bytes_to_field::<P>(bytes).subrange(
            first_elem,
            spec_elems_len(end, P::spec_elem_byte_capacity() as int),
        ),
{
    let capacity = P::spec_elem_byte_capacity() as int;
    let start = first_elem * capacity;
    let window = bytes.subrange(start, end);
    let last_elem = spec_elems_len(end, capacity);
    let count = spec_elems_len(window.len() as int, capacity);
    lemma_elems_len_bounds(end, capacity);
    lemma_elems_len_bounds(bytes.len() as int, capacity);
    lemma_elems_len_bounds(window.len() as int, capacity);
    assert((last_elem - first_elem) * capacity == last_elem * capacity - first_elem * capacity)
        by (nonlinear_arith);
    if last_elem < first_elem {
        lemma_mul_inequality(last_elem + 1, first_elem, capacity);
        assert((last_elem + 1) * capacity == last_elem * capacity + capacity)
            by (nonlinear_arith);
    }
    lemma_elems_len_is(window.len() as int, capacity, last_elem - first_elem);
    lemma_div_is_ordered(end + capacity - 1, bytes.len() + capacity - 1, capacity);
    let left = spec_bytes_to_field::<P>(window);
    let right = spec_bytes_to_field::<P>(bytes).subrange(first_elem, last_elem);
    assert(left.len() == right.len());
    assert forall|index: int| 0 <= index < left.len() implies left[index] == right[index] by {
        lemma_chunk_len(window, index, capacity);
        lemma_chunk_len(bytes, first_elem + index, capacity);
        assert((first_elem + index) * capacity == start + index * capacity) by (nonlinear_arith)
            requires
                start == first_elem * capacity,
        ;
        assert((first_elem + index + 1) * capacity == start + (index + 1) * capacity)
            by (nonlinear_arith)
            requires
                start == first_elem * capacity,
        ;
        assert((index + 1) * capacity == index * capacity + capacity) by (nonlinear_arith);
        if end != bytes.len() {
            // The window ends with a whole element, so each of its chunks is full.
            lemma_fundamental_div_mod(end, capacity);
            lemma_mul_is_commutative(capacity, end / capacity);
            lemma_elems_len_is(end, capacity, end / capacity);
            assert((index + 1) * capacity <= count * capacity) by (nonlinear_arith)
                requires
                    index + 1 <= count,
                    0 < capacity,
            ;
        }
        assert(spec_chunk(window, index, capacity) =~= spec_chunk(
            bytes,
            first_elem + index,
            capacity,
        ));
    }
    assert(left =~= right);
}

/// Packing loses nothing: two chunks of one length that pack into one element
/// are one chunk.
pub open spec fn spec_packing_lossless<P: Primitives>() -> bool {
    forall|one: Seq<u8>, other: Seq<u8>|
        #![trigger P::spec_elem_from_bytes(one), P::spec_elem_from_bytes(other)]
        0 < one.len() == other.len() <= P::spec_elem_byte_capacity() && P::spec_elem_from_bytes(
            one,
        ) == P::spec_elem_from_bytes(other) ==> one == other
}

/// Where packing loses nothing, byte strings of one length that pack into the
/// same elements are one byte string.
pub proof fn lemma_bytes_to_field_lossless<P: Primitives>(one: Seq<u8>, other: Seq<u8>)
    requires
        P::spec_elem_byte_capacity() >= 1,
        spec_packing_lossless::<P>(),
        one.len() == other.len(),
        spec_bytes_to_field::<P>(one) == spec_bytes_to_field::<P>(other),
    ensures
        one == other,
{
    let capacity = P::spec_elem_byte_capacity() as int;
    let count = spec_elems_len(one.len() as int, capacity);
    lemma_elems_len_bounds(one.len() as int, capacity);
    assert forall|at: int| 0 <= at < one.len() implies one[at] == other[at] by {
        let index = at / capacity;
        lemma_fundamental_div_mod(at, capacity);
        lemma_mod_bound(at, capacity);
        lemma_mul_is_commutative(capacity, index);
        lemma_div_is_ordered(0, at, capacity);
        assert((index + 1) * capacity == index * capacity + capacity) by (nonlinear_arith);
        if count <= index {
            lemma_mul_inequality(count, index, capacity);
        }
        lemma_chunk_len(one, index, capacity);
        lemma_chunk_len(other, index, capacity);
        let chunk = spec_chunk(one, index, capacity);
        let other_chunk = spec_chunk(other, index, capacity);
        assert(spec_bytes_to_field::<P>(one)[index] == P::spec_elem_from_bytes(chunk));
        assert(spec_bytes_to_field::<P>(other)[index] == P::spec_elem_from_bytes(other_chunk));
        assert(chunk == other_chunk);
        assert(chunk[at - index * capacity] == one[at]);
        assert(other_chunk[at - index * capacity] == other[at]);
    }
    assert(one =~= other);
}

} // verus!
