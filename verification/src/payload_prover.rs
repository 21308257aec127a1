//! Proving and verifying that a byte range of a payload holds claimed bytes:
//! the interface of the two kinds of proof, and what both have in common.

use crate::advz::Advz;
use crate::convert::{int_range, spec_range_len};
use crate::error::{ArgumentError, VidError, VidResult};
use crate::packing::spec_bytes_to_field;
use crate::primitives::Primitives;
use crate::statement::{
    spec_check_common_commit_consistency, spec_check_range_nonempty_and_inside_payload,
    spec_check_range_poly, spec_check_stmt_proof_consistency, Statement,
};
use std::ops::Range;
use vstd::prelude::*;

verus! {

/// Proofs of kind `PROOF` for byte ranges of a payload.
///
/// A request that is malformed is answered with an error. A proof that is
/// well-formed and wrong is no error: `payload_verify` answers `Ok(Err(()))`.
pub trait PayloadProver<P: Primitives, PROOF: View> {
    /// What `payload_proof` answers.
    spec fn spec_payload_proof(&self, payload: Seq<u8>, range: Range<usize>) -> VidResult<
        PROOF::V,
        P::Error,
    >;

    /// What `payload_verify` answers.
    spec fn spec_payload_verify(&self, stmt: Statement<P>, proof: PROOF::V) -> VidResult<
        Result<(), ()>,
        P::Error,
    >;

    /// A proof that the bytes of `payload` at `range` are what they are.
    fn payload_proof(&self, payload: &[u8], range: Range<usize>) -> (made: VidResult<
        PROOF,
        P::Error,
    >)
        ensures
            match made {
                Ok(made) => self.spec_payload_proof(payload@, range) == Ok::<
                    PROOF::V,
                    VidError<P::Error>,
                >(made@),
                Err(e) => self.spec_payload_proof(payload@, range) == Err::<
                    PROOF::V,
                    VidError<P::Error>,
                >(e),
            },
    ;

    /// Whether `proof` shows the claim of `stmt`.
    fn payload_verify(&self, stmt: Statement<P>, proof: &PROOF) -> (verdict: VidResult<
        Result<(), ()>,
        P::Error,
    >)
        ensures
            verdict == self.spec_payload_verify(stmt, proof@),
    ;
}

/// Where a non-empty byte range lies in the payload.
pub(crate) struct Located {
    pub(crate) range_elem: Range<usize>,
    pub(crate) range_poly: Range<usize>,
    pub(crate) start_namespace_byte: usize,
    pub(crate) offset_elem: usize,
}

impl<P: Primitives> Advz<P> {
    /// The checks that a request for a proof must pass: the range holds a
    /// byte, lies inside the payload, and touches one polynomial only.
    pub open spec fn spec_check_request(&self, payload_len: usize, range: Range<usize>) -> Result<
        (),
        ArgumentError,
    > {
        match spec_check_range_nonempty_and_inside_payload(payload_len, range) {
            Err(e) => Err(e),
            Ok(()) => spec_check_range_poly(self.spec_range_poly(range)),
        }
    }

    /// The checks that a statement and the range of a proof must pass, in
    /// their order: the statement fits the proof, the range touches one
    /// polynomial only, and the commitment list has the stated fingerprint.
    pub open spec fn spec_check_statement(
        &self,
        stmt: Statement<P>,
        proof_range: Range<usize>,
    ) -> VidResult<(), P::Error> {
        match spec_check_stmt_proof_consistency(
            stmt.payload_subslice@.len() as usize,
            stmt.range,
            proof_range,
        ) {
            Err(e) => Err(VidError::Argument(e)),
            Ok(()) => match spec_check_range_poly(self.spec_range_poly(proof_range)) {
                Err(e) => Err(VidError::Argument(e)),
                Ok(()) => spec_check_common_commit_consistency::<P>(
                    stmt.common.poly_commits@,
                    *stmt.commit,
                ),
            },
        }
    }

    /// The check that the commitment list holds a commitment for the
    /// polynomial of the range.
    pub open spec fn spec_check_commitment(
        &self,
        stmt: Statement<P>,
        proof_range: Range<usize>,
    ) -> Result<(), ArgumentError> {
        if self.spec_poly_index(proof_range) >= stmt.common.poly_commits@.len() {
            Err(
                ArgumentError::MissingCommitment {
                    poly: self.spec_poly_index(proof_range) as usize,
                    commits_len: stmt.common.poly_commits@.len() as usize,
                },
            )
        } else {
            Ok(())
        }
    }

    /// The points of the evaluation domain at which the elements that a range
    /// touches are the values of its polynomial.
    pub open spec fn spec_points(&self, range: Range<usize>) -> Seq<P::Elem> {
        self.spec_primitives().spec_domain().subrange(
            self.spec_offset_elem(range),
            self.spec_offset_elem(range) + spec_range_len(self.spec_range_elem(range)),
        )
    }

    /// The bytes of the first touched element that lie before the range.
    pub open spec fn spec_prefix_bytes(&self, payload: Seq<u8>, range: Range<usize>) -> Seq<u8> {
        payload.subrange(
            self.spec_range_elem_byte(range, payload.len() as int).start,
            range.start as int,
        )
    }

    /// The bytes of the last touched element that lie after the range.
    pub open spec fn spec_suffix_bytes(&self, payload: Seq<u8>, range: Range<usize>) -> Seq<u8> {
        payload.subrange(
            range.end as int,
            self.spec_range_elem_byte(range, payload.len() as int).end,
        )
    }

    /// The elements that a verifier packs from the boundary bytes of a proof
    /// around the claimed bytes.
    pub open spec fn spec_data_elems(
        prefix_bytes: Seq<u8>,
        payload_subslice: Seq<u8>,
        suffix_bytes: Seq<u8>,
    ) -> Seq<P::Elem> {
        spec_bytes_to_field::<P>(prefix_bytes + payload_subslice + suffix_bytes)
    }

    /// Resolves a non-empty byte range to its elements, its polynomials, the
    /// first byte of its first polynomial and its element offset in there.
    pub(crate) fn locate(&self, range: &Range<usize>) -> (at: Located)
        requires
            range.start < range.end,
        ensures
            self.wf(),
            int_range(at.range_elem) == self.spec_range_elem(*range),
            int_range(at.range_poly) == self.spec_range_poly(*range),
            at.range_elem.start < at.range_elem.end,
            at.start_namespace_byte == self.spec_poly_index(*range) * self.spec_poly_byte_len(),
            at.start_namespace_byte <= range.start,
            at.offset_elem == self.spec_offset_elem(*range),
    {
        proof {
            use_type_invariant(self);
            self.lemma_locate(*range, range.end as int);
        }
        let range_elem = self.range_byte_to_elem(range);
        let range_poly = self.range_elem_to_poly(&range_elem);
        let start_namespace_byte: usize = self.index_poly_to_byte(range_poly.start);
        let offset_elem: usize = range_elem.start - self.index_byte_to_elem(start_namespace_byte);
        Located { range_elem, range_poly, start_namespace_byte, offset_elem }
    }

    /// The boundary bytes around a range inside the payload: those of its
    /// first element before it, and those of its last element after it.
    pub(crate) fn boundary_bytes(
        &self,
        payload: &[u8],
        range: &Range<usize>,
        range_elem: &Range<usize>,
    ) -> (around: (Vec<u8>, Vec<u8>))
        requires
            self.wf(),
            range.start < range.end <= payload@.len(),
            int_range(*range_elem) == self.spec_range_elem(*range),
        ensures
            around.0@ == self.spec_prefix_bytes(payload@, *range),
            around.1@ == self.spec_suffix_bytes(payload@, *range),
    {
        proof {
            self.lemma_locate(*range, payload@.len() as int);
        }
        let range_elem_byte = self.range_elem_to_byte_clamped(range_elem, payload.len());
        let prefix_bytes = vstd::slice::slice_to_vec(
            vstd::slice::slice_subrange(payload, range_elem_byte.start, range.start),
        );
        let suffix_bytes = vstd::slice::slice_to_vec(
            vstd::slice::slice_subrange(payload, range.end, range_elem_byte.end),
        );
        (prefix_bytes, suffix_bytes)
    }

    /// The elements of the polynomial `poly` of the payload, which starts at
    /// the byte `start_namespace_byte`.
    pub(crate) fn poly_elems(&self, payload: &[u8], poly: usize, start_namespace_byte: usize) -> (elems:
        Vec<P::Elem>)
        requires
            self.wf(),
            start_namespace_byte == poly * self.spec_poly_byte_len(),
            start_namespace_byte <= payload@.len(),
        ensures
            elems@ == self.spec_poly_elems(payload@, poly as int),
    {
        let poly_byte_len: usize = self.poly_byte_len();
        let end: usize = if payload.len() - start_namespace_byte > poly_byte_len {
            start_namespace_byte + poly_byte_len
        } else {
            payload.len()
        };
        proof {
            assert((poly + 1) * self.spec_poly_byte_len() == poly * self.spec_poly_byte_len()
                + self.spec_poly_byte_len()) by (nonlinear_arith);
        }
        crate::packing::bytes_to_field::<P>(
            vstd::slice::slice_subrange(payload, start_namespace_byte, end),
        )
    }

    /// The elements that a verifier packs from the boundary bytes of a proof
    /// around the claimed bytes.
    pub(crate) fn data_elems(
        &self,
        prefix_bytes: &[u8],
        payload_subslice: &[u8],
        suffix_bytes: &[u8],
    ) -> (elems: Vec<P::Elem>)
        requires
            self.wf(),
        ensures
            elems@ == Self::spec_data_elems(prefix_bytes@, payload_subslice@, suffix_bytes@),
    {
        let mut bytes: Vec<u8> = Vec::new();
        append_bytes(&mut bytes, prefix_bytes);
        append_bytes(&mut bytes, payload_subslice);
        append_bytes(&mut bytes, suffix_bytes);
        crate::packing::bytes_to_field::<P>(bytes.as_slice())
    }
}

/// Appends `source` to `bytes`.
pub(crate) fn append_bytes(bytes: &mut Vec<u8>, source: &[u8])
    ensures
        final(bytes)@ == old(bytes)@ + source@,
{
    let mut index: usize = 0;
    while index < source.len()
        invariant
            index <= source@.len(),
            bytes@ == old(bytes)@ + source@.subrange(0, index as int),
        decreases source@.len() - index,
    {
        bytes.push(source[index]);
        index = index + 1;
    }
    assert(source@.subrange(0, index as int) == source@);
}

} // verus!
