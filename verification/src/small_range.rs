//! Proofs for small byte ranges: one opening of the range's polynomial for
//! each field element that the range touches.

use crate::advz::Advz;
use crate::convert::spec_range_len;
use crate::error::{ArgumentError, VidError, VidResult};
use crate::payload_prover::PayloadProver;
use crate::primitives::Primitives;
use crate::statement::{check_range_nonempty_and_inside_payload, check_range_poly, Statement};
use std::ops::Range;
use vstd::prelude::*;

verus! {

/// A proof for a small byte range of a payload.
///
/// `proofs` holds one opening for each element that the range touches.
/// `prefix_bytes` and `suffix_bytes` are the bytes of the first and of the last
/// of these elements that lie outside the range, and `chunk_range` is the
/// range that the proof was made for.
#[derive(Debug, Eq, PartialEq)]
pub struct SmallRangeProof<O> {
    proofs: Vec<O>,
    prefix_bytes: Vec<u8>,
    suffix_bytes: Vec<u8>,
    chunk_range: Range<usize>,
}

/// What a `SmallRangeProof` holds.
pub struct SmallRangeProofView<O> {
    pub proofs: Seq<O>,
    pub prefix_bytes: Seq<u8>,
    pub suffix_bytes: Seq<u8>,
    pub chunk_range: Range<usize>,
}

impl<O> View for SmallRangeProof<O> {
    type V = SmallRangeProofView<O>;

    closed spec fn view(&self) -> SmallRangeProofView<O> {
        SmallRangeProofView {
            proofs: self.proofs@,
            prefix_bytes: self.prefix_bytes@,
            suffix_bytes: self.suffix_bytes@,
            chunk_range: self.chunk_range,
        }
    }
}

impl<O: Clone> Clone for SmallRangeProof<O> {
    fn clone(&self) -> (copy: Self)
        ensures
            copy@.prefix_bytes == self@.prefix_bytes,
            copy@.suffix_bytes == self@.suffix_bytes,
            copy@.chunk_range == self@.chunk_range,
            copy@.proofs.len() == self@.proofs.len(),
            forall|index: int|
                0 <= index < self@.proofs.len() ==> cloned(
                    #[trigger] self@.proofs[index],
                    copy@.proofs[index],
                ),
    {
        SmallRangeProof {
            proofs: self.proofs.clone(),
            prefix_bytes: self.prefix_bytes.clone(),
            suffix_bytes: self.suffix_bytes.clone(),
            chunk_range: Range { start: self.chunk_range.start, end: self.chunk_range.end },
        }
    }
}

impl<O> SmallRangeProof<O> {
    /// A proof from its parts, as they were taken from another proof or read
    /// from its serialized form.
    pub fn new(
        proofs: Vec<O>,
        prefix_bytes: Vec<u8>,
        suffix_bytes: Vec<u8>,
        chunk_range: Range<usize>,
    ) -> (made: Self)
        ensures
            made@ == (SmallRangeProofView {
                proofs: proofs@,
                prefix_bytes: prefix_bytes@,
                suffix_bytes: suffix_bytes@,
                chunk_range,
            }),
    {
        SmallRangeProof { proofs, prefix_bytes, suffix_bytes, chunk_range }
    }

    pub fn proofs(&self) -> (proofs: &Vec<O>)
        ensures
            proofs@ == self@.proofs,
    {
        &self.proofs
    }

    pub fn prefix_bytes(&self) -> (bytes: &Vec<u8>)
        ensures
            bytes@ == self@.prefix_bytes,
    {
        &self.prefix_bytes
    }

    pub fn suffix_bytes(&self) -> (bytes: &Vec<u8>)
        ensures
            bytes@ == self@.suffix_bytes,
    {
        &self.suffix_bytes
    }

    pub fn chunk_range(&self) -> (range: Range<usize>)
        ensures
            range == self@.chunk_range,
    {
        Range { start: self.chunk_range.start, end: self.chunk_range.end }
    }
}

/// What `verdict_on_opening` answers: a failure of the scheme is handed on, an
/// opening that the scheme rejects fails the proof, and one that it accepts
/// leaves the verdict to the openings after it.
pub open spec fn spec_verdict_on_opening<E>(accepted: Result<bool, E>) -> Option<
    VidResult<Result<(), ()>, E>,
> {
    match accepted {
        Err(e) => Some(Err(VidError::Internal(e))),
        Ok(false) => Some(Ok(Err(()))),
        Ok(true) => None,
    }
}

/// The verdict on one opening of a small-range proof, from what the scheme
/// gave for it; nothing where the verdict is left to the openings after it.
pub fn verdict_on_opening<E>(accepted: Result<bool, E>) -> (verdict: Option<
    VidResult<Result<(), ()>, E>,
>)
    ensures
        verdict == spec_verdict_on_opening(accepted),
{
    match accepted {
        Err(e) => Some(Err(VidError::Internal(e))),
        Ok(accepted) => {
            if !accepted {
                return Some(Ok(Err(())));
            }
            None
        },
    }
}

/// The verdict on the openings from the one at `from` on: the first opening
/// that the scheme fails on or rejects decides, and where there is none the
/// proof is accepted.
pub open spec fn spec_check_openings<P: Primitives>(
    primitives: P,
    commitment: P::Commitment,
    points: Seq<P::Elem>,
    elems: Seq<P::Elem>,
    openings: Seq<P::Opening>,
    from: int,
) -> VidResult<Result<(), ()>, P::Error>
    decreases elems.len() - from,
{
    if from < 0 || from >= elems.len() {
        Ok(Ok(()))
    } else {
        match spec_verdict_on_opening(
            primitives.spec_verify(commitment, points[from], elems[from], openings[from]),
        ) {
            Some(verdict) => verdict,
            None => spec_check_openings(
                primitives,
                commitment,
                points,
                elems,
                openings,
                from + 1,
            ),
        }
    }
}

/// The openings are accepted exactly when the scheme accepts each of them.
pub proof fn lemma_check_openings_accepts<P: Primitives>(
    primitives: P,
    commitment: P::Commitment,
    points: Seq<P::Elem>,
    elems: Seq<P::Elem>,
    openings: Seq<P::Opening>,
    from: int,
)
    requires
        0 <= from,
    ensures
        spec_check_openings(primitives, commitment, points, elems, openings, from) == Ok::<
            Result<(), ()>,
            VidError<P::Error>,
        >(Ok(())) <==> (forall|index: int|
            from <= index < elems.len() ==> #[trigger] primitives.spec_verify(
                commitment,
                points[index],
                elems[index],
                openings[index],
            ) == Ok::<bool, P::Error>(true)),
    decreases elems.len() - from,
{
    if from < elems.len() {
        lemma_check_openings_accepts(primitives, commitment, points, elems, openings, from + 1);
        if primitives.spec_verify(commitment, points[from], elems[from], openings[from]) == Ok::<
            bool,
            P::Error,
        >(true) {
            assert forall|index: int|
                from <= index < elems.len() && spec_check_openings(
                    primitives,
                    commitment,
                    points,
                    elems,
                    openings,
                    from,
                ) == Ok::<Result<(), ()>, VidError<P::Error>>(Ok(())) implies #[trigger] primitives.spec_verify(
                commitment,
                points[index],
                elems[index],
                openings[index],
            ) == Ok::<bool, P::Error>(true) by {
                if index > from {
                }
            }
        }
    }
}

impl<P: Primitives> Advz<P> {
    /// What a small-range proof of `range` in `payload` is: the openings of
    /// the range's polynomial at the points of the touched elements, with the
    /// boundary bytes and the range.
    pub open spec fn spec_small_range_proof(
        &self,
        payload: Seq<u8>,
        range: Range<usize>,
    ) -> VidResult<SmallRangeProofView<P::Opening>, P::Error> {
        match self.spec_check_request(payload.len() as usize, range) {
            Err(e) => Err(VidError::Argument(e)),
            Ok(()) => match self.spec_primitives().spec_multi_open(
                self.spec_primitives().spec_polynomial(
                    self.spec_poly_elems(payload, self.spec_poly_index(range)),
                ),
                self.spec_points(range),
            ) {
                Err(e) => Err(VidError::Internal(e)),
                Ok((openings, _)) => Ok(
                    SmallRangeProofView {
                        proofs: openings,
                        prefix_bytes: self.spec_prefix_bytes(payload, range),
                        suffix_bytes: self.spec_suffix_bytes(payload, range),
                        chunk_range: range,
                    },
                ),
            },
        }
    }

    /// The checks that a statement and a small-range proof must pass before
    /// an opening is looked at, in their order: those of the statement; that
    /// the proof brings as many openings as the claimed bytes and the boundary
    /// bytes make up elements; that those are as many as the range touches;
    /// and that the commitment list has a commitment for the range's
    /// polynomial.
    pub open spec fn spec_check_small_range(
        &self,
        stmt: Statement<P>,
        proof: SmallRangeProofView<P::Opening>,
    ) -> VidResult<(), P::Error> {
        let data_len = Self::spec_data_elems(
            proof.prefix_bytes,
            stmt.payload_subslice@,
            proof.suffix_bytes,
        ).len();
        let range_len = spec_range_len(self.spec_range_elem(proof.chunk_range));
        match self.spec_check_statement(stmt, proof.chunk_range) {
            Err(e) => Err(e),
            Ok(()) => if data_len != proof.proofs.len() {
                Err(
                    VidError::Argument(
                        ArgumentError::ProofLength {
                            data_len: data_len as usize,
                            proof_len: proof.proofs.len() as usize,
                        },
                    ),
                )
            } else if data_len != range_len {
                Err(
                    VidError::Argument(
                        ArgumentError::ElementCount {
                            data_len: data_len as usize,
                            range_len: range_len as usize,
                        },
                    ),
                )
            } else {
                match self.spec_check_commitment(stmt, proof.chunk_range) {
                    Err(e) => Err(VidError::Argument(e)),
                    Ok(()) => Ok(()),
                }
            },
        }
    }

    /// What verifying a small-range proof answers: the error of the first
    /// check that the request fails; or else the verdict on the openings,
    /// taken against the commitment to the range's polynomial, at the points
    /// of the touched elements, for the elements packed from the boundary
    /// bytes around the claimed bytes.
    pub open spec fn spec_small_range_verify(
        &self,
        stmt: Statement<P>,
        proof: SmallRangeProofView<P::Opening>,
    ) -> VidResult<Result<(), ()>, P::Error> {
        match self.spec_check_small_range(stmt, proof) {
            Err(e) => Err(e),
            Ok(()) => spec_check_openings(
                self.spec_primitives(),
                stmt.common.poly_commits@[self.spec_poly_index(proof.chunk_range)],
                self.spec_points(proof.chunk_range),
                Self::spec_data_elems(
                    proof.prefix_bytes,
                    stmt.payload_subslice@,
                    proof.suffix_bytes,
                ),
                proof.proofs,
                0,
            ),
        }
    }

    /// Checks the openings one by one, and stops at the first that the scheme
    /// fails on or rejects.
    fn check_openings(
        &self,
        commitment: &P::Commitment,
        points: &Vec<P::Elem>,
        elems: &Vec<P::Elem>,
        openings: &Vec<P::Opening>,
    ) -> (verdict: VidResult<Result<(), ()>, P::Error>)
        requires
            points@.len() == elems@.len(),
            openings@.len() == elems@.len(),
        ensures
            verdict == spec_check_openings(
                self.spec_primitives(),
                *commitment,
                points@,
                elems@,
                openings@,
                0,
            ),
    {
        let mut index: usize = 0;
        while index < elems.len()
            invariant
                index <= elems@.len(),
                points@.len() == elems@.len(),
                openings@.len() == elems@.len(),
                spec_check_openings(
                    self.spec_primitives(),
                    *commitment,
                    points@,
                    elems@,
                    openings@,
                    0,
                ) == spec_check_openings(
                    self.spec_primitives(),
                    *commitment,
                    points@,
                    elems@,
                    openings@,
                    index as int,
                ),
            decreases elems@.len() - index,
        {
            let accepted = self.primitives().verify(
                commitment,
                &points[index],
                &elems[index],
                &openings[index],
            );
            match verdict_on_opening(accepted) {
                Some(verdict) => {
                    return verdict;
                },
                None => {},
            }
            index = index + 1;
        }
        Ok(Ok(()))
    }
}

impl<P: Primitives> PayloadProver<P, SmallRangeProof<P::Opening>> for Advz<P> {
    open spec fn spec_payload_proof(&self, payload: Seq<u8>, range: Range<usize>) -> VidResult<
        SmallRangeProofView<P::Opening>,
        P::Error,
    > {
        self.spec_small_range_proof(payload, range)
    }

    open spec fn spec_payload_verify(
        &self,
        stmt: Statement<P>,
        proof: SmallRangeProofView<P::Opening>,
    ) -> VidResult<Result<(), ()>, P::Error> {
        self.spec_small_range_verify(stmt, proof)
    }

    fn payload_proof(&self, payload: &[u8], range: Range<usize>) -> (made: VidResult<
        SmallRangeProof<P::Opening>,
        P::Error,
    >) {
        match check_range_nonempty_and_inside_payload(payload, &range) {
            Err(e) => {
                return Err(VidError::Argument(e));
            },
            Ok(()) => {},
        }
        // index conversion
        let at = self.locate(&range);
        match check_range_poly(&at.range_poly) {
            Err(e) => {
                return Err(VidError::Argument(e));
            },
            Ok(()) => {},
        }
        proof {
            self.lemma_locate_in_poly(range, payload@.len() as int);
        }
        // the polynomial that holds `range`
        let elems = self.poly_elems(payload, at.range_poly.start, at.start_namespace_byte);
        let polynomial = self.primitives().polynomial(elems.as_slice());
        // the points of the touched elements
        let points = self.primitives().domain_elements(
            at.offset_elem,
            at.range_elem.end - at.range_elem.start,
        );
        let (proofs, _evals) = match self.primitives().multi_open(&polynomial, points.as_slice()) {
            Err(e) => {
                return Err(VidError::Internal(e));
            },
            Ok(opened) => opened,
        };
        let (prefix_bytes, suffix_bytes) = self.boundary_bytes(payload, &range, &at.range_elem);
        Ok(SmallRangeProof { proofs, prefix_bytes, suffix_bytes, chunk_range: range })
    }

    fn payload_verify(&self, stmt: Statement<P>, proof: &SmallRangeProof<P::Opening>) -> (verdict:
        VidResult<Result<(), ()>, P::Error>) {
        match Self::check_stmt_proof_consistency(&stmt, &proof.chunk_range) {
            Err(e) => {
                return Err(VidError::Argument(e));
            },
            Ok(()) => {},
        }
        // index conversion
        let at = self.locate(&proof.chunk_range);
        match check_range_poly(&at.range_poly) {
            Err(e) => {
                return Err(VidError::Argument(e));
            },
            Ok(()) => {},
        }
        match Self::check_common_commit_consistency(stmt.common, stmt.commit) {
            Err(e) => {
                return Err(e);
            },
            Ok(()) => {},
        }
        proof {
            self.lemma_locate_in_poly(proof.chunk_range, proof.chunk_range.end as int);
        }
        // the elements that the claimed bytes and the boundary bytes make up
        let data_elems = self.data_elems(
            proof.prefix_bytes.as_slice(),
            stmt.payload_subslice,
            proof.suffix_bytes.as_slice(),
        );
        // the points of the touched elements
        let points = self.primitives().domain_elements(
            at.offset_elem,
            at.range_elem.end - at.range_elem.start,
        );
        if data_elems.len() != proof.proofs.len() {
            return Err(
                VidError::Argument(
                    ArgumentError::ProofLength {
                        data_len: data_elems.len(),
                        proof_len: proof.proofs.len(),
                    },
                ),
            );
        }
        if data_elems.len() != points.len() {
            return Err(
                VidError::Argument(
                    ArgumentError::ElementCount {
                        data_len: data_elems.len(),
                        range_len: points.len(),
                    },
                ),
            );
        }
        if at.range_poly.start >= stmt.common.poly_commits.len() {
            return Err(
                VidError::Argument(
                    ArgumentError::MissingCommitment {
                        poly: at.range_poly.start,
                        commits_len: stmt.common.poly_commits.len(),
                    },
                ),
            );
        }
        let poly_commit = &stmt.common.poly_commits[at.range_poly.start];
        self.check_openings(poly_commit, &points, &data_elems, &proof.proofs)
    }
}

} // verus!
