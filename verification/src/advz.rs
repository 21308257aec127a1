//! The scheme instance: its fixed parameters, and the index conversions that
//! depend on them.

use crate::convert::{
    index_coarsen, index_refine, int_range, law_coarsen_refine_bounds, law_coarsen_twice,
    law_refine_coarsen, range_coarsen, range_refine, spec_index_coarsen, spec_index_refine,
    spec_range_coarsen, spec_range_len, spec_range_refine,
};
use crate::packing::{
    lemma_bytes_to_field_window, lemma_elems_len_bounds, lemma_elems_len_is, spec_bytes_to_field,
    spec_elems_len,
};
use crate::primitives::Primitives;
use std::ops::Range;
use vstd::arithmetic::div_mod::{lemma_div_is_ordered, lemma_fundamental_div_mod_converse};
use vstd::arithmetic::mul::lemma_mul_inequality;
use vstd::prelude::*;

verus! {

/// A dispersal scheme over the primitives `P`: every polynomial holds
/// `payload_chunk_size` field elements, but for the last one of a payload,
/// which may hold fewer.
pub struct Advz<P: Primitives> {
    payload_chunk_size: usize,
    primitives: P,
}

/// A range whose end is brought down to `len` where it lies beyond.
pub open spec fn spec_range_clamp(range: Range<int>, len: int) -> Range<int> {
    Range { start: range.start, end: if range.end <= len { range.end } else { len } }
}

impl<P: Primitives> Advz<P> {
    /// How many field elements a polynomial holds.
    pub closed spec fn spec_payload_chunk_size(&self) -> nat {
        self.payload_chunk_size as nat
    }

    /// The primitives that this instance works with.
    pub closed spec fn spec_primitives(&self) -> P {
        self.primitives
    }

    /// How many payload bytes a polynomial holds.
    pub open spec fn spec_poly_byte_len(&self) -> nat {
        self.spec_payload_chunk_size() * P::spec_elem_byte_capacity()
    }

    /// What holds of every instance: a polynomial holds at least one element,
    /// an element at least one byte, the byte length of a polynomial is a
    /// machine integer, and the evaluation domain has a point for each element
    /// of a polynomial.
    #[verifier::type_invariant]
    pub open spec fn wf(&self) -> bool {
        &&& self.spec_payload_chunk_size() >= 1
        &&& P::spec_elem_byte_capacity() >= 1
        &&& self.spec_poly_byte_len() <= usize::MAX
        &&& self.spec_payload_chunk_size() <= self.spec_primitives().spec_domain().len()
    }

    /// The elements that the bytes of a non-empty range lie in.
    pub open spec fn spec_range_elem(&self, range: Range<usize>) -> Range<int> {
        spec_range_coarsen(int_range(range), P::spec_elem_byte_capacity() as int)
    }

    /// The polynomials that the bytes of a non-empty range lie in.
    pub open spec fn spec_range_poly(&self, range: Range<usize>) -> Range<int> {
        spec_range_coarsen(int_range(range), self.spec_poly_byte_len() as int)
    }

    /// The polynomial that the first byte of a range lies in.
    pub open spec fn spec_poly_index(&self, range: Range<usize>) -> int {
        self.spec_range_poly(range).start
    }

    /// How many elements of its polynomial lie before the first element that a
    /// range touches.
    pub open spec fn spec_offset_elem(&self, range: Range<usize>) -> int {
        self.spec_range_elem(range).start - self.spec_poly_index(range)
            * self.spec_payload_chunk_size()
    }

    /// The bytes of the elements that a range touches, as far as a payload of
    /// `payload_len` bytes has them.
    pub open spec fn spec_range_elem_byte(&self, range: Range<usize>, payload_len: int) -> Range<
        int,
    > {
        spec_range_clamp(
            spec_range_refine(self.spec_range_elem(range), P::spec_elem_byte_capacity() as int),
            payload_len,
        )
    }

    /// The bytes of the polynomial `poly` of a payload.
    pub open spec fn spec_poly_bytes(&self, payload: Seq<u8>, poly: int) -> Seq<u8> {
        payload.subrange(
            poly * self.spec_poly_byte_len(),
            if (poly + 1) * self.spec_poly_byte_len() <= payload.len() {
                (poly + 1) * self.spec_poly_byte_len()
            } else {
                payload.len() as int
            },
        )
    }

    /// The elements of the polynomial `poly` of a payload: at most
    /// `payload_chunk_size`, fewer where the payload ends before.
    pub open spec fn spec_poly_elems(&self, payload: Seq<u8>, poly: int) -> Seq<P::Elem> {
        spec_bytes_to_field::<P>(self.spec_poly_bytes(payload, poly))
    }

    /// Where a non-empty range lies: its polynomial starts at or before it,
    /// the boundary bytes enclose it, and the two ways to its polynomials, by
    /// way of the elements or directly, agree.
    pub proof fn lemma_locate(&self, range: Range<usize>, payload_len: int)
        requires
            self.wf(),
            range.start < range.end <= payload_len,
        ensures
            spec_range_coarsen(self.spec_range_elem(range), self.spec_payload_chunk_size() as int)
                == self.spec_range_poly(range),
            0 <= self.spec_poly_index(range),
            self.spec_poly_index(range) * self.spec_poly_byte_len() <= range.start,
            spec_index_coarsen(
                self.spec_poly_index(range) * self.spec_poly_byte_len(),
                P::spec_elem_byte_capacity() as int,
            ) == self.spec_poly_index(range) * self.spec_payload_chunk_size(),
            0 <= self.spec_offset_elem(range),
            self.spec_range_elem(range).start < self.spec_range_elem(range).end,
            self.spec_range_poly(range).start < self.spec_range_poly(range).end,
            0 <= self.spec_range_elem_byte(range, payload_len).start <= range.start,
            self.spec_range_elem_byte(range, payload_len).start == self.spec_range_elem(
                range,
            ).start * P::spec_elem_byte_capacity(),
            range.end <= self.spec_range_elem_byte(range, payload_len).end <= payload_len,
    {
        let c = P::spec_elem_byte_capacity() as int;
        let k = self.spec_payload_chunk_size() as int;
        let l = self.spec_poly_byte_len() as int;
        let s = range.start as int;
        let e = range.end as int;
        let p = self.spec_poly_index(range);
        assert(l >= 1) by (nonlinear_arith)
            requires
                l == k * c,
                k >= 1,
                c >= 1,
        ;
        law_coarsen_twice(s, c, k);
        law_coarsen_twice(e - 1, c, k);
        law_coarsen_refine_bounds(s, l);
        law_coarsen_refine_bounds(s, c);
        law_coarsen_refine_bounds(e - 1, c);
        law_coarsen_refine_bounds(s / c, k);
        assert(p * l == (p * k) * c) by (nonlinear_arith)
            requires
                l == k * c,
        ;
        assert(0 <= p * k) by (nonlinear_arith)
            requires
                0 <= p,
                0 <= k,
        ;
        law_refine_coarsen(p * k, c);
        lemma_div_is_ordered(s, e - 1, c);
        lemma_div_is_ordered(s, e - 1, l);
    }

    /// A range inside one polynomial touches elements of that polynomial only.
    pub proof fn lemma_locate_in_poly(&self, range: Range<usize>, payload_len: int)
        requires
            self.wf(),
            range.start < range.end <= payload_len,
            spec_range_len(self.spec_range_poly(range)) == 1,
        ensures
            self.spec_offset_elem(range) + spec_range_len(self.spec_range_elem(range))
                <= self.spec_payload_chunk_size(),
            self.spec_range_elem(range).end <= (self.spec_poly_index(range) + 1)
                * self.spec_payload_chunk_size(),
            range.end <= (self.spec_poly_index(range) + 1) * self.spec_poly_byte_len(),
    {
        let c = P::spec_elem_byte_capacity() as int;
        let k = self.spec_payload_chunk_size() as int;
        let l = self.spec_poly_byte_len() as int;
        let e = range.end as int;
        let p = self.spec_poly_index(range);
        self.lemma_locate(range, payload_len);
        assert(l >= 1) by (nonlinear_arith)
            requires
                l == k * c,
                k >= 1,
                c >= 1,
        ;
        law_coarsen_twice(e - 1, c, k);
        law_coarsen_refine_bounds(e - 1, l);
        law_coarsen_refine_bounds((e - 1) / c, k);
        law_coarsen_refine_bounds(e - 1, c);
        assert((p + 1) * k == p * k + k) by (nonlinear_arith);
    }

    /// The elements that a range inside one polynomial touches, packed from
    /// their own bytes alone, are the elements of the polynomial from the
    /// offset of the range on.
    pub proof fn lemma_touched_elems(&self, payload: Seq<u8>, range: Range<usize>)
        requires
            self.wf(),
            range.start < range.end <= payload.len(),
            spec_range_len(self.spec_range_poly(range)) == 1,
        ensures
            self.spec_offset_elem(range) + spec_range_len(self.spec_range_elem(range))
                <= self.spec_poly_elems(payload, self.spec_poly_index(range)).len()
                <= self.spec_payload_chunk_size(),
            spec_bytes_to_field::<P>(
                payload.subrange(
                    self.spec_range_elem_byte(range, payload.len() as int).start,
                    self.spec_range_elem_byte(range, payload.len() as int).end,
                ),
            ) == self.spec_poly_elems(payload, self.spec_poly_index(range)).subrange(
                self.spec_offset_elem(range),
                self.spec_offset_elem(range) + spec_range_len(self.spec_range_elem(range)),
            ),
    {
        let c = P::spec_elem_byte_capacity() as int;
        let k = self.spec_payload_chunk_size() as int;
        let l = self.spec_poly_byte_len() as int;
        let n = payload.len() as int;
        let e = range.end as int;
        let p = self.spec_poly_index(range);
        let elems = self.spec_range_elem(range);
        let bytes = self.spec_range_elem_byte(range, n);
        let all = spec_bytes_to_field::<P>(payload);
        self.lemma_locate(range, n);
        self.lemma_locate_in_poly(range, n);
        assert(p * l == (p * k) * c && (p + 1) * l == ((p + 1) * k) * c && (p + 1) * k == p * k + k
            && 0 <= p * k) by (nonlinear_arith)
            requires
                l == k * c,
                0 <= p,
                0 <= k,
        ;
        // The polynomial is a window of all elements of the payload.
        let poly_end = if (p + 1) * l <= n {
            (p + 1) * l
        } else {
            n
        };
        if poly_end != n {
            lemma_fundamental_div_mod_converse(
                poly_end,
                c,
                (p + 1) * k,
                0,
            );
            lemma_elems_len_is(poly_end, c, (p + 1) * k);
        }
        lemma_bytes_to_field_window::<P>(payload, p * k, poly_end);
        // So are the touched elements.
        law_coarsen_refine_bounds(e - 1, c);
        assert(elems.end * c == (elems.end - 1) * c + c) by (nonlinear_arith);
        if bytes.end != n {
            lemma_fundamental_div_mod_converse(
                bytes.end,
                c,
                elems.end,
                0,
            );
        }
        lemma_elems_len_is(bytes.end, c, elems.end);
        lemma_bytes_to_field_window::<P>(payload, elems.start, bytes.end);
        // The window of the touched elements lies in that of the polynomial,
        // which holds no more elements than a polynomial can.
        let poly_elems_end = spec_elems_len(poly_end, c);
        lemma_elems_len_bounds(poly_end, c);
        lemma_mul_inequality(elems.end, (p + 1) * k, c);
        if poly_elems_end < elems.end {
            lemma_mul_inequality(poly_elems_end + 1, elems.end, c);
            assert((poly_elems_end + 1) * c == poly_elems_end * c + c) by (nonlinear_arith);
        }
        if (p + 1) * k < poly_elems_end {
            lemma_mul_inequality((p + 1) * k + 1, poly_elems_end, c);
            assert(((p + 1) * k + 1) * c == ((p + 1) * k) * c + c) by (nonlinear_arith);
        }
        lemma_elems_len_bounds(n, c);
        assert(all.subrange(elems.start, elems.end) =~= all.subrange(
            p * k,
            poly_elems_end,
        ).subrange(elems.start - p * k, elems.end - p * k));
    }

    /// An instance with polynomials of `payload_chunk_size` elements, or
    /// nothing where that size and the primitives cannot go together: a size
    /// of zero, elements without room for a byte, polynomials longer in bytes
    /// than the machine can count, or an evaluation domain with too few points.
    pub fn new(payload_chunk_size: usize, primitives: P) -> (advz: Option<Self>)
        ensures
            advz is Some <==> {
                &&& payload_chunk_size >= 1
                &&& P::spec_elem_byte_capacity() >= 1
                &&& payload_chunk_size * P::spec_elem_byte_capacity() <= usize::MAX
                &&& payload_chunk_size <= primitives.spec_domain().len()
            },
            advz matches Some(a) ==> {
                &&& a.wf()
                &&& a.spec_payload_chunk_size() == payload_chunk_size
                &&& a.spec_primitives() == primitives
            },
    {
        let capacity: usize = P::elem_byte_capacity();
        if payload_chunk_size == 0 || capacity == 0 {
            return None;
        }
        if payload_chunk_size.checked_mul(capacity).is_none() {
            return None;
        }
        if primitives.domain_size() < payload_chunk_size {
            return None;
        }
        Some(Advz { payload_chunk_size, primitives })
    }

    /// How many field elements a polynomial holds.
    pub fn payload_chunk_size(&self) -> (size: usize)
        ensures
            size == self.spec_payload_chunk_size(),
            self.wf(),
    {
        proof {
            use_type_invariant(self);
        }
        self.payload_chunk_size
    }

    /// The primitives that this instance works with.
    pub fn primitives(&self) -> (primitives: &P)
        ensures
            *primitives == self.spec_primitives(),
    {
        &self.primitives
    }

    /// How many payload bytes a polynomial holds.
    pub fn poly_byte_len(&self) -> (len: usize)
        ensures
            len == self.spec_poly_byte_len(),
            len >= 1,
    {
        proof {
            use_type_invariant(self);
            assert(self.spec_payload_chunk_size() * P::spec_elem_byte_capacity() >= 1)
                by (nonlinear_arith)
                requires
                    self.spec_payload_chunk_size() >= 1,
                    P::spec_elem_byte_capacity() >= 1,
            ;
        }
        self.payload_chunk_size * P::elem_byte_capacity()
    }

    /// The element that holds the byte `index`.
    pub fn index_byte_to_elem(&self, index: usize) -> (elem: usize)
        ensures
            elem == spec_index_coarsen(index as int, P::spec_elem_byte_capacity() as int),
    {
        proof {
            use_type_invariant(self);
        }
        index_coarsen(index, P::elem_byte_capacity())
    }

    /// The first byte of the polynomial `index`.
    pub fn index_poly_to_byte(&self, index: usize) -> (byte: usize)
        requires
            index * self.spec_poly_byte_len() <= usize::MAX,
        ensures
            byte == spec_index_refine(index as int, self.spec_poly_byte_len() as int),
    {
        index_refine(index, self.poly_byte_len())
    }

    /// The elements that a non-empty range of bytes touches.
    pub fn range_byte_to_elem(&self, range: &Range<usize>) -> (elems: Range<usize>)
        requires
            range.start < range.end,
        ensures
            int_range(elems) == spec_range_coarsen(
                int_range(*range),
                P::spec_elem_byte_capacity() as int,
            ),
            elems.start < elems.end,
    {
        proof {
            use_type_invariant(self);
        }
        range_coarsen(range, P::elem_byte_capacity())
    }

    /// The bytes of a non-empty range of whole elements.
    pub fn range_elem_to_byte(&self, range: &Range<usize>) -> (bytes: Range<usize>)
        requires
            range.start < range.end,
            range.end * P::spec_elem_byte_capacity() <= usize::MAX,
        ensures
            int_range(bytes) == spec_range_refine(
                int_range(*range),
                P::spec_elem_byte_capacity() as int,
            ),
    {
        range_refine(range, P::elem_byte_capacity())
    }

    /// The bytes of a non-empty range of whole elements in a payload of `len`
    /// bytes: the last element of a payload may be cut short.
    pub fn range_elem_to_byte_clamped(&self, range: &Range<usize>, len: usize) -> (bytes: Range<
        usize,
    >)
        requires
            range.start < range.end,
            range.start * P::spec_elem_byte_capacity() <= usize::MAX,
        ensures
            int_range(bytes) == spec_range_clamp(
                spec_range_refine(int_range(*range), P::spec_elem_byte_capacity() as int),
                len as int,
            ),
    {
        let capacity: usize = P::elem_byte_capacity();
        let end: usize = match range.end.checked_mul(capacity) {
            Some(end) => if end <= len {
                end
            } else {
                len
            },
            None => len,
        };
        Range { start: index_refine(range.start, capacity), end }
    }

    /// The polynomials that a non-empty range of elements touches.
    pub fn range_elem_to_poly(&self, range: &Range<usize>) -> (polys: Range<usize>)
        requires
            range.start < range.end,
        ensures
            int_range(polys) == spec_range_coarsen(
                int_range(*range),
                self.spec_payload_chunk_size() as int,
            ),
            polys.start < polys.end,
    {
        proof {
            use_type_invariant(self);
        }
        range_coarsen(range, self.payload_chunk_size)
    }

    /// The polynomials that a non-empty range of bytes touches.
    pub fn range_byte_to_poly(&self, range: &Range<usize>) -> (polys: Range<usize>)
        requires
            range.start < range.end,
        ensures
            int_range(polys) == spec_range_coarsen(
                int_range(*range),
                self.spec_poly_byte_len() as int,
            ),
            polys.start < polys.end,
    {
        range_coarsen(range, self.poly_byte_len())
    }
}

} // verus!
