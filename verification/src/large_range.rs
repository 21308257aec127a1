//! Proofs for large byte ranges: the rest of the range's polynomial, so that
//! a verifier can build the polynomial anew and commit to it. No opening is
//! made or checked.

use crate::advz::Advz;
use crate::convert::spec_range_len;
use crate::error::{ArgumentError, VidError, VidResult};
use crate::payload_prover::PayloadProver;
use crate::primitives::Primitives;
use crate::statement::{check_range_nonempty_and_inside_payload, check_range_poly, Statement};
use std::ops::Range;
use vstd::prelude::*;

verus! {

/// A proof for a large byte range of a payload.
///
/// `prefix_elems` and `suffix_elems` are the elements of the range's
/// polynomial before and after those that the range touches. `prefix_bytes`
/// and `suffix_bytes` are the bytes of the first and of the last touched
/// element that lie outside the range, and `chunk_range` is the range that the
/// proof was made for.
#[derive(Debug, Eq, PartialEq)]
pub struct LargeRangeProof<F> {
    prefix_elems: Vec<F>,
    suffix_elems: Vec<F>,
    prefix_bytes: Vec<u8>,
    suffix_bytes: Vec<u8>,
    chunk_range: Range<usize>,
}

/// What a `LargeRangeProof` holds.
pub struct LargeRangeProofView<F> {
    pub prefix_elems: Seq<F>,
    pub suffix_elems: Seq<F>,
    pub prefix_bytes: Seq<u8>,
    pub suffix_bytes: Seq<u8>,
    pub chunk_range: Range<usize>,
}

impl<F> View for LargeRangeProof<F> {
    type V = LargeRangeProofView<F>;

    closed spec fn view(&self) -> LargeRangeProofView<F> {
        LargeRangeProofView {
            prefix_elems: self.prefix_elems@,
            suffix_elems: self.suffix_elems@,
            prefix_bytes: self.prefix_bytes@,
            suffix_bytes: self.suffix_bytes@,
            chunk_range: self.chunk_range,
        }
    }
}

impl<F: Clone> Clone for LargeRangeProof<F> {
    fn clone(&self) -> (copy: Self)
        ensures
            copy@.prefix_bytes == self@.prefix_bytes,
            copy@.suffix_bytes == self@.suffix_bytes,
            copy@.chunk_range == self@.chunk_range,
            copy@.prefix_elems.len() == self@.prefix_elems.len(),
            copy@.suffix_elems.len() == self@.suffix_elems.len(),
            forall|index: int|
                0 <= index < self@.prefix_elems.len() ==> cloned(
                    #[trigger] self@.prefix_elems[index],
                    copy@.prefix_elems[index],
                ),
            forall|index: int|
                0 <= index < self@.suffix_elems.len() ==> cloned(
                    #[trigger] self@.suffix_elems[index],
                    copy@.suffix_elems[index],
                ),
    {
        LargeRangeProof {
            prefix_elems: self.prefix_elems.clone(),
            suffix_elems: self.suffix_elems.clone(),
            prefix_bytes: self.prefix_bytes.clone(),
            suffix_bytes: self.suffix_bytes.clone(),
            chunk_range: Range { start: self.chunk_range.start, end: self.chunk_range.end },
        }
    }
}

impl<F> LargeRangeProof<F> {
    /// A proof from its parts, as they were taken from another proof or read
    /// from its serialized form.
    pub fn new(
        prefix_elems: Vec<F>,
        suffix_elems: Vec<F>,
        prefix_bytes: Vec<u8>,
        suffix_bytes: Vec<u8>,
        chunk_range: Range<usize>,
    ) -> (made: Self)
        ensures
            made@ == (LargeRangeProofView {
                prefix_elems: prefix_elems@,
                suffix_elems: suffix_elems@,
                prefix_bytes: prefix_bytes@,
                suffix_bytes: suffix_bytes@,
                chunk_range,
            }),
    {
        LargeRangeProof { prefix_elems, suffix_elems, prefix_bytes, suffix_bytes, chunk_range }
    }

    pub fn prefix_elems(&self) -> (elems: &Vec<F>)
        ensures
            elems@ == self@.prefix_elems,
    {
        &self.prefix_elems
    }

    pub fn suffix_elems(&self) -> (elems: &Vec<F>)
        ensures
            elems@ == self@.suffix_elems,
    {
        &self.suffix_elems
    }

    pub fn prefix_bytes(&self) -> (bytes: &Vec<u8>)
        ensures
            bytes@ == self@.prefix_bytes,
    {
        &self.prefix_bytes
    }

    pub fn suffix_bytes(&self) -> (bytes: &Vec<u8>)
        ensures
            bytes@ == self@.suffix_bytes,
    {
        &self.suffix_bytes
    }

    pub fn chunk_range(&self) -> (range: Range<usize>)
        ensures
            range == self@.chunk_range,
    {
        Range { start: self.chunk_range.start, end: self.chunk_range.end }
    }
}

/// Appends the elements of `source` from `start` up to `end` to `elems`.
fn append_elems<F: Copy>(elems: &mut Vec<F>, source: &Vec<F>, start: usize, end: usize)
    requires
        start <= end <= source@.len(),
    ensures
        final(elems)@ == old(elems)@ + source@.subrange(start as int, end as int),
{
    let mut index: usize = start;
    while index < end
        invariant
            start <= index <= end <= source@.len(),
            elems@ == old(elems)@ + source@.subrange(start as int, index as int),
        decreases end - index,
    {
        elems.push(source[index]);
        index = index + 1;
    }
}

impl<P: Primitives> Advz<P> {
    /// What a large-range proof of `range` in `payload` is: the elements of
    /// the range's polynomial before and after the touched ones, with the
    /// boundary bytes and the range.
    pub open spec fn spec_large_range_proof(
        &self,
        payload: Seq<u8>,
        range: Range<usize>,
    ) -> VidResult<LargeRangeProofView<P::Elem>, P::Error> {
        let elems = self.spec_poly_elems(payload, self.spec_poly_index(range));
        let touched_end = self.spec_offset_elem(range) + spec_range_len(
            self.spec_range_elem(range),
        );
        match self.spec_check_request(payload.len() as usize, range) {
            Err(e) => Err(VidError::Argument(e)),
            Ok(()) => Ok(
                LargeRangeProofView {
                    prefix_elems: elems.subrange(0, self.spec_offset_elem(range)),
                    suffix_elems: elems.subrange(touched_end, elems.len() as int),
                    prefix_bytes: self.spec_prefix_bytes(payload, range),
                    suffix_bytes: self.spec_suffix_bytes(payload, range),
                    chunk_range: range,
                },
            ),
        }
    }

    /// The elements of the polynomial that a verifier builds anew: those of
    /// the proof around those packed from the boundary bytes around the
    /// claimed bytes.
    pub open spec fn spec_rebuilt_elems(
        payload_subslice: Seq<u8>,
        proof: LargeRangeProofView<P::Elem>,
    ) -> Seq<P::Elem> {
        proof.prefix_elems + Self::spec_data_elems(
            proof.prefix_bytes,
            payload_subslice,
            proof.suffix_bytes,
        ) + proof.suffix_elems
    }

    /// The checks that a statement and a large-range proof must pass before
    /// the polynomial is built anew, in their order: those of the statement,
    /// and that the commitment list has a commitment for the range's
    /// polynomial.
    pub open spec fn spec_check_large_range(
        &self,
        stmt: Statement<P>,
        proof: LargeRangeProofView<P::Elem>,
    ) -> VidResult<(), P::Error> {
        match self.spec_check_statement(stmt, proof.chunk_range) {
            Err(e) => Err(e),
            Ok(()) => match self.spec_check_commitment(stmt, proof.chunk_range) {
                Err(e) => Err(VidError::Argument(e)),
                Ok(()) => Ok(()),
            },
        }
    }

    /// What verifying a large-range proof answers: the error of the first
    /// check that the request fails; or else whether the commitment to the
    /// polynomial built anew is the one that the commitment list holds for the
    /// range's polynomial.
    pub open spec fn spec_large_range_verify(
        &self,
        stmt: Statement<P>,
        proof: LargeRangeProofView<P::Elem>,
    ) -> VidResult<Result<(), ()>, P::Error> {
        match self.spec_check_large_range(stmt, proof) {
            Err(e) => Err(e),
            Ok(()) => Self::spec_verdict_on_commitment(
                self.spec_primitives().spec_commit(
                    self.spec_primitives().spec_polynomial(
                        Self::spec_rebuilt_elems(stmt.payload_subslice@, proof),
                    ),
                ),
                stmt.common.poly_commits@[self.spec_poly_index(proof.chunk_range)],
            ),
        }
    }

    /// What `verdict_on_commitment` answers: a failure of the scheme is handed
    /// on; the proof is accepted where the commitment to the polynomial built
    /// anew is the stored one, and it fails where it is another.
    pub open spec fn spec_verdict_on_commitment(
        rebuilt: Result<P::Commitment, P::Error>,
        stored: P::Commitment,
    ) -> VidResult<Result<(), ()>, P::Error> {
        match rebuilt {
            Err(e) => Err(VidError::Internal(e)),
            Ok(commitment) => if commitment == stored {
                Ok(Ok(()))
            } else {
                Ok(Err(()))
            },
        }
    }

    /// The verdict on a large-range proof, from what the scheme gave for the
    /// commitment to the polynomial built anew and from the commitment that
    /// the commitment list holds.
    pub fn verdict_on_commitment(
        rebuilt: Result<P::Commitment, P::Error>,
        stored: &P::Commitment,
    ) -> (verdict: VidResult<Result<(), ()>, P::Error>)
        ensures
            verdict == Self::spec_verdict_on_commitment(rebuilt, *stored),
    {
        let poly_commit = match rebuilt {
            Err(e) => {
                return Err(VidError::Internal(e));
            },
            Ok(poly_commit) => poly_commit,
        };
        if !P::same_commitment(&poly_commit, stored) {
            return Ok(Err(()));
        }
        Ok(Ok(()))
    }
}

impl<P: Primitives> PayloadProver<P, LargeRangeProof<P::Elem>> for Advz<P> {
    open spec fn spec_payload_proof(&self, payload: Seq<u8>, range: Range<usize>) -> VidResult<
        LargeRangeProofView<P::Elem>,
        P::Error,
    > {
        self.spec_large_range_proof(payload, range)
    }

    open spec fn spec_payload_verify(
        &self,
        stmt: Statement<P>,
        proof: LargeRangeProofView<P::Elem>,
    ) -> VidResult<Result<(), ()>, P::Error> {
        self.spec_large_range_verify(stmt, proof)
    }

    fn payload_proof(&self, payload: &[u8], range: Range<usize>) -> (made: VidResult<
        LargeRangeProof<P::Elem>,
        P::Error,
    >) {
        match check_range_nonempty_and_inside_payload(payload, &range) {
            Err(e) => {
                return Err(VidError::Argument(e));
            },
            Ok(()) => {},
        }
        // index conversion
        let at = self.locate(&range);
        match check_range_poly(&at.range_poly) {
            Err(e) => {
                return Err(VidError::Argument(e));
            },
            Ok(()) => {},
        }
        proof {
            self.lemma_touched_elems(payload@, range);
        }
        // the elements before and after the touched ones
        let elems = self.poly_elems(payload, at.range_poly.start, at.start_namespace_byte);
        let touched_end: usize = at.offset_elem + (at.range_elem.end - at.range_elem.start);
        let mut prefix_elems: Vec<P::Elem> = Vec::new();
        append_elems(&mut prefix_elems, &elems, 0, at.offset_elem);
        let mut suffix_elems: Vec<P::Elem> = Vec::new();
        append_elems(&mut suffix_elems, &elems, touched_end, elems.len());
        let (prefix_bytes, suffix_bytes) = self.boundary_bytes(payload, &range, &at.range_elem);
        Ok(
            LargeRangeProof {
                prefix_elems,
                suffix_elems,
                prefix_bytes,
                suffix_bytes,
                chunk_range: range,
            },
        )
    }

    fn payload_verify(&self, stmt: Statement<P>, proof: &LargeRangeProof<P::Elem>) -> (verdict:
        VidResult<Result<(), ()>, P::Error>) {
        match Self::check_stmt_proof_consistency(&stmt, &proof.chunk_range) {
            Err(e) => {
                return Err(VidError::Argument(e));
            },
            Ok(()) => {},
        }
        // index conversion
        let range_poly = self.range_byte_to_poly(&proof.chunk_range);
        match check_range_poly(&range_poly) {
            Err(e) => {
                return Err(VidError::Argument(e));
            },
            Ok(()) => {},
        }
        match Self::check_common_commit_consistency(stmt.common, stmt.commit) {
            Err(e) => {
                return Err(e);
            },
            Ok(()) => {},
        }
        if range_poly.start >= stmt.common.poly_commits.len() {
            return Err(
                VidError::Argument(
                    ArgumentError::MissingCommitment {
                        poly: range_poly.start,
                        commits_len: stmt.common.poly_commits.len(),
                    },
                ),
            );
        }
        // build the polynomial anew, and check its commitment against `common`
        proof {
            use_type_invariant(self);
        }
        let data_elems = self.data_elems(
            proof.prefix_bytes.as_slice(),
            stmt.payload_subslice,
            proof.suffix_bytes.as_slice(),
        );
        let mut elems: Vec<P::Elem> = Vec::new();
        append_elems(&mut elems, &proof.prefix_elems, 0, proof.prefix_elems.len());
        append_elems(&mut elems, &data_elems, 0, data_elems.len());
        append_elems(&mut elems, &proof.suffix_elems, 0, proof.suffix_elems.len());
        proof {
            assert(elems@ == Self::spec_rebuilt_elems(stmt.payload_subslice@, proof@));
        }
        let polynomial = self.primitives().polynomial(elems.as_slice());
        Self::verdict_on_commitment(
            self.primitives().commit(&polynomial),
            &stmt.common.poly_commits[range_poly.start],
        )
    }
}

} // verus!
