//! What holds of the range proofs as a whole.
//!
//! The laws speak of what `payload_proof` and `payload_verify` answer, by the
//! spec functions that their contracts name. Where a law needs something of
//! the primitives (that the scheme accepts its own openings, that it tells two
//! polynomials apart, that packing loses nothing), it says so: the primitives
//! themselves promise none of it.

use crate::advz::Advz;
use crate::convert::spec_range_len;
use crate::error::{ArgumentError, VidError};
use crate::large_range::LargeRangeProofView;
use crate::packing::{
    lemma_bytes_to_field_lossless, lemma_elems_len_bounds, spec_elems_len, spec_packing_lossless,
};
use crate::primitives::Primitives;
use crate::small_range::{lemma_check_openings_accepts, spec_check_openings, SmallRangeProofView};
use crate::statement::Statement;
use std::ops::Range;
use vstd::arithmetic::mul::lemma_mul_inequality;
use vstd::prelude::*;

verus! {

/// The scheme accepts its own openings: where it opens the polynomial
/// through the values `evals` at consecutive points of the domain, it makes one
/// opening for each point, and it accepts each of them for the value of
/// `evals` at that point, against the commitment to the polynomial.
pub open spec fn spec_complete<P: Primitives>(primitives: P) -> bool {
    forall|evals: Seq<P::Elem>, from: int, to: int|
        0 <= from <= to <= evals.len() <= primitives.spec_domain().len() ==> (
        #[trigger] primitives.spec_multi_open(
            primitives.spec_polynomial(evals),
            primitives.spec_domain().subrange(from, to),
        ) matches Ok((openings, _)) ==> {
            &&& openings.len() == to - from
            &&& primitives.spec_commit(primitives.spec_polynomial(evals)) matches Ok(commitment)
                ==> forall|index: int|
                0 <= index < to - from ==> primitives.spec_verify(
                    commitment,
                    primitives.spec_domain()[from + index],
                    evals[from + index],
                    #[trigger] openings[index],
                ) == Ok::<bool, P::Error>(true)
        })
}

/// The scheme does not give one commitment to the polynomials through `evals`
/// and through `other` unless they are the same values.
pub open spec fn spec_binds<P: Primitives>(
    primitives: P,
    evals: Seq<P::Elem>,
    other: Seq<P::Elem>,
) -> bool {
    (primitives.spec_commit(primitives.spec_polynomial(evals)) is Ok && primitives.spec_commit(
        primitives.spec_polynomial(evals),
    ) == primitives.spec_commit(primitives.spec_polynomial(other))) ==> evals == other
}

/// The scheme does not accept openings of one commitment at one point for the
/// value `eval` and for the value `other_eval` unless they are the same value.
pub open spec fn spec_opens_to_one_value<P: Primitives>(
    primitives: P,
    commitment: P::Commitment,
    point: P::Elem,
    eval: P::Elem,
    opening: P::Opening,
    other_eval: P::Elem,
    other_opening: P::Opening,
) -> bool {
    (primitives.spec_verify(commitment, point, eval, opening) == Ok::<bool, P::Error>(true)
        && primitives.spec_verify(commitment, point, other_eval, other_opening) == Ok::<
        bool,
        P::Error,
    >(true)) ==> eval == other_eval
}

impl<P: Primitives> Advz<P> {
    /// How many polynomials a payload of `payload_len` bytes makes.
    pub open spec fn spec_num_polys(&self, payload_len: int) -> int {
        spec_elems_len(payload_len, self.spec_poly_byte_len() as int)
    }

    /// `poly_commits` is the commitment list of `payload`: it holds, for each
    /// polynomial of the payload, the commitment to the polynomial through the
    /// elements that pack its bytes.
    pub open spec fn spec_commits_to(
        &self,
        poly_commits: Seq<P::Commitment>,
        payload: Seq<u8>,
    ) -> bool {
        &&& poly_commits.len() == self.spec_num_polys(payload.len() as int)
        &&& forall|poly: int|
            0 <= poly < poly_commits.len() ==> self.spec_primitives().spec_commit(
                self.spec_primitives().spec_polynomial(self.spec_poly_elems(payload, poly)),
            ) == Ok::<P::Commitment, P::Error>(#[trigger] poly_commits[poly])
    }

    /// `stmt` is the true statement about the bytes of `payload` at `range`:
    /// it claims those bytes, and it holds the commitment list of the payload
    /// and the fingerprint of that list.
    pub open spec fn spec_states(
        &self,
        stmt: Statement<P>,
        payload: Seq<u8>,
        range: Range<usize>,
    ) -> bool {
        &&& stmt.range == range
        &&& stmt.payload_subslice@ == payload.subrange(range.start as int, range.end as int)
        &&& self.spec_commits_to(stmt.common.poly_commits@, payload)
        &&& P::spec_commits_digest(stmt.common.poly_commits@) == Ok::<P::Digest, P::Error>(
            *stmt.commit,
        )
    }

    /// `other` differs from `stmt` in its claimed bytes at most, and claims as
    /// many.
    pub open spec fn spec_same_claim_but_bytes(stmt: Statement<P>, other: Statement<P>) -> bool {
        &&& other.range == stmt.range
        &&& other.commit == stmt.commit
        &&& other.common == stmt.common
        &&& other.payload_subslice@.len() == stmt.payload_subslice@.len()
    }

    /// The polynomial of a range inside the payload is one of the payload's.
    pub proof fn lemma_poly_index_in_payload(&self, range: Range<usize>, payload_len: int)
        requires
            self.wf(),
            range.start < range.end <= payload_len,
        ensures
            0 <= self.spec_poly_index(range) < self.spec_num_polys(payload_len),
    {
        let l = self.spec_poly_byte_len() as int;
        let p = self.spec_poly_index(range);
        let count = self.spec_num_polys(payload_len);
        self.lemma_locate(range, payload_len);
        assert(l >= 1) by (nonlinear_arith)
            requires
                l == self.spec_payload_chunk_size() * P::spec_elem_byte_capacity(),
                self.spec_payload_chunk_size() >= 1,
                P::spec_elem_byte_capacity() >= 1,
        ;
        lemma_elems_len_bounds(payload_len, l);
        if count <= p {
            lemma_mul_inequality(count, p, l);
        }
    }

    /// The boundary bytes of a range put around its own bytes are the bytes of
    /// the elements that the range touches.
    pub proof fn lemma_boundary_bytes(&self, payload: Seq<u8>, range: Range<usize>)
        requires
            self.wf(),
            range.start < range.end <= payload.len(),
        ensures
            self.spec_prefix_bytes(payload, range) + payload.subrange(
                range.start as int,
                range.end as int,
            ) + self.spec_suffix_bytes(payload, range) == payload.subrange(
                self.spec_range_elem_byte(range, payload.len() as int).start,
                self.spec_range_elem_byte(range, payload.len() as int).end,
            ),
            self.spec_prefix_bytes(payload, range).len() == range.start - self.spec_range_elem_byte(
                range,
                payload.len() as int,
            ).start,
            self.spec_suffix_bytes(payload, range).len() == self.spec_range_elem_byte(
                range,
                payload.len() as int,
            ).end - range.end,
    {
        self.lemma_locate(range, payload.len() as int);
        assert(self.spec_prefix_bytes(payload, range) + payload.subrange(
            range.start as int,
            range.end as int,
        ) + self.spec_suffix_bytes(payload, range) =~= payload.subrange(
            self.spec_range_elem_byte(range, payload.len() as int).start,
            self.spec_range_elem_byte(range, payload.len() as int).end,
        ));
    }

    /// A request for a proof passes its checks exactly when the range holds a
    /// byte, lies inside the payload and touches one polynomial only. A
    /// large-range proof is made for every such request, and a small-range
    /// proof unless the commitment scheme fails.
    pub proof fn law_proof_is_owed(&self, payload: Seq<u8>, range: Range<usize>)
        requires
            self.wf(),
            payload.len() <= usize::MAX,
        ensures
            self.spec_check_request(payload.len() as usize, range) is Ok <==> (range.start
                < range.end <= payload.len() && spec_range_len(self.spec_range_poly(range)) == 1),
            self.spec_large_range_proof(payload, range) is Ok <==> self.spec_check_request(
                payload.len() as usize,
                range,
            ) is Ok,
            self.spec_small_range_proof(payload, range) is Err ==> (self.spec_check_request(
                payload.len() as usize,
                range,
            ) is Err || self.spec_small_range_proof(payload, range) matches Err(
                VidError::Internal(_),
            )),
            self.spec_small_range_proof(payload, range) matches Ok(made) ==> made.chunk_range
                == range,
            self.spec_large_range_proof(payload, range) matches Ok(made) ==> made.chunk_range
                == range,
    {
    }

    /// Round trip, large ranges: the proof of a range that lies inside one
    /// polynomial of the payload is accepted for the true statement about that
    /// range.
    pub proof fn law_large_range_round_trip(
        &self,
        payload: Seq<u8>,
        range: Range<usize>,
        stmt: Statement<P>,
    )
        requires
            self.wf(),
            payload.len() <= usize::MAX,
            range.start < range.end <= payload.len(),
            spec_range_len(self.spec_range_poly(range)) == 1,
            self.spec_states(stmt, payload, range),
        ensures
            self.spec_large_range_proof(payload, range) matches Ok(made)
                && self.spec_large_range_verify(stmt, made) == Ok::<
                Result<(), ()>,
                VidError<P::Error>,
            >(Ok(())),
    {
        let made = self.spec_large_range_proof(payload, range)->Ok_0;
        let elems = self.spec_poly_elems(payload, self.spec_poly_index(range));
        self.lemma_locate(range, payload.len() as int);
        self.lemma_poly_index_in_payload(range, payload.len() as int);
        self.lemma_boundary_bytes(payload, range);
        self.lemma_touched_elems(payload, range);
        let offset = self.spec_offset_elem(range);
        let touched = spec_range_len(self.spec_range_elem(range));
        assert(Self::spec_data_elems(made.prefix_bytes, stmt.payload_subslice@, made.suffix_bytes)
            == elems.subrange(offset, offset + touched));
        assert(Self::spec_rebuilt_elems(stmt.payload_subslice@, made) =~= elems);
        assert(self.spec_primitives().spec_commit(self.spec_primitives().spec_polynomial(elems))
            == Ok::<P::Commitment, P::Error>(
            stmt.common.poly_commits@[self.spec_poly_index(range)],
        ));
    }

    /// Round trip, small ranges: where the scheme accepts its own openings,
    /// the proof of a range that lies inside one polynomial of the payload is
    /// accepted for the true statement about that range.
    pub proof fn law_small_range_round_trip(
        &self,
        payload: Seq<u8>,
        range: Range<usize>,
        stmt: Statement<P>,
    )
        requires
            self.wf(),
            spec_complete(self.spec_primitives()),
            payload.len() <= usize::MAX,
            range.start < range.end <= payload.len(),
            spec_range_len(self.spec_range_poly(range)) == 1,
            self.spec_states(stmt, payload, range),
        ensures
            self.spec_small_range_proof(payload, range) matches Ok(made)
                ==> self.spec_small_range_verify(stmt, made) == Ok::<
                Result<(), ()>,
                VidError<P::Error>,
            >(Ok(())),
    {
        if self.spec_small_range_proof(payload, range) is Ok {
            let made = self.spec_small_range_proof(payload, range)->Ok_0;
            let primitives = self.spec_primitives();
            let poly = self.spec_poly_index(range);
            let elems = self.spec_poly_elems(payload, poly);
            let offset = self.spec_offset_elem(range);
            let touched = spec_range_len(self.spec_range_elem(range));
            let data_elems = Self::spec_data_elems(
                made.prefix_bytes,
                stmt.payload_subslice@,
                made.suffix_bytes,
            );
            let points = self.spec_points(range);
            self.lemma_locate(range, payload.len() as int);
            self.lemma_poly_index_in_payload(range, payload.len() as int);
            self.lemma_boundary_bytes(payload, range);
            self.lemma_touched_elems(payload, range);
            assert(data_elems == elems.subrange(offset, offset + touched));
            // the scheme accepts what it opened
            assert(primitives.spec_multi_open(
                primitives.spec_polynomial(elems),
                primitives.spec_domain().subrange(offset, offset + touched),
            ) is Ok);
            let commitment = stmt.common.poly_commits@[poly];
            assert forall|index: int| 0 <= index < data_elems.len() implies #[trigger] primitives.spec_verify(
                commitment,
                points[index],
                data_elems[index],
                made.proofs[index],
            ) == Ok::<bool, P::Error>(true) by {
                assert(made.proofs[index] == made.proofs[index]);
            }
            lemma_check_openings_accepts(
                primitives,
                commitment,
                points,
                data_elems,
                made.proofs,
                0,
            );
        }
    }

    /// Tampering, large ranges: where a statement and a proof pass the checks
    /// of a request, so do a statement with other claimed bytes of the same
    /// number and a proof with other boundary bytes and other elements. The
    /// answer for them is no argument error; it is the failure of the proof
    /// wherever the polynomial built anew can be committed to and its
    /// commitment is not the one in the commitment list.
    pub proof fn law_large_range_tamper(
        &self,
        stmt: Statement<P>,
        proof: LargeRangeProofView<P::Elem>,
        tampered_stmt: Statement<P>,
        tampered: LargeRangeProofView<P::Elem>,
    )
        requires
            self.wf(),
            self.spec_check_large_range(stmt, proof) is Ok,
            Self::spec_same_claim_but_bytes(stmt, tampered_stmt),
            tampered.chunk_range == proof.chunk_range,
        ensures
            self.spec_check_large_range(tampered_stmt, tampered) is Ok,
            !(self.spec_large_range_verify(tampered_stmt, tampered) matches Err(
                VidError::Argument(_),
            )),
            (self.spec_primitives().spec_commit(
                self.spec_primitives().spec_polynomial(
                    Self::spec_rebuilt_elems(tampered_stmt.payload_subslice@, tampered),
                ),
            ) matches Ok(commitment) && commitment
                != tampered_stmt.common.poly_commits@[self.spec_poly_index(tampered.chunk_range)])
                ==> self.spec_large_range_verify(tampered_stmt, tampered) == Ok::<
                Result<(), ()>,
                VidError<P::Error>,
            >(Err(())),
    {
    }

    /// Tampering, small ranges: where a statement and a proof pass the checks
    /// of a request, so do a statement with other claimed bytes and a proof
    /// with other boundary bytes and other openings, as long as each part is
    /// as long as it was. The answer for them is no argument error; it is the
    /// failure of the proof wherever the scheme rejects one of the openings
    /// and accepts all before it.
    pub proof fn law_small_range_tamper(
        &self,
        stmt: Statement<P>,
        proof: SmallRangeProofView<P::Opening>,
        tampered_stmt: Statement<P>,
        tampered: SmallRangeProofView<P::Opening>,
        rejected: int,
    )
        requires
            self.wf(),
            self.spec_check_small_range(stmt, proof) is Ok,
            Self::spec_same_claim_but_bytes(stmt, tampered_stmt),
            tampered.chunk_range == proof.chunk_range,
            tampered.prefix_bytes.len() == proof.prefix_bytes.len(),
            tampered.suffix_bytes.len() == proof.suffix_bytes.len(),
            tampered.proofs.len() == proof.proofs.len(),
        ensures
            self.spec_check_small_range(tampered_stmt, tampered) is Ok,
            !(self.spec_small_range_verify(tampered_stmt, tampered) matches Err(
                VidError::Argument(_),
            )),
            spec_first_rejected(
                self.spec_primitives(),
                tampered_stmt.common.poly_commits@[self.spec_poly_index(tampered.chunk_range)],
                self.spec_points(tampered.chunk_range),
                Self::spec_data_elems(
                    tampered.prefix_bytes,
                    tampered_stmt.payload_subslice@,
                    tampered.suffix_bytes,
                ),
                tampered.proofs,
                rejected,
            ) ==> self.spec_small_range_verify(tampered_stmt, tampered) == Ok::<
                Result<(), ()>,
                VidError<P::Error>,
            >(Err(())),
    {
        let data_elems = Self::spec_data_elems(
            tampered.prefix_bytes,
            tampered_stmt.payload_subslice@,
            tampered.suffix_bytes,
        );
        let commitment =
            tampered_stmt.common.poly_commits@[self.spec_poly_index(tampered.chunk_range)];
        let points = self.spec_points(tampered.chunk_range);
        lemma_check_openings_no_argument_error(
            self.spec_primitives(),
            commitment,
            points,
            data_elems,
            tampered.proofs,
            0,
        );
        if spec_first_rejected(
            self.spec_primitives(),
            commitment,
            points,
            data_elems,
            tampered.proofs,
            rejected,
        ) {
            lemma_check_openings_rejects(
                self.spec_primitives(),
                commitment,
                points,
                data_elems,
                tampered.proofs,
                0,
                rejected,
            );
        }
    }

    /// Tampering is detected, large ranges: a proof that was accepted is no
    /// longer accepted once a claimed byte, a boundary byte or an element of
    /// it is changed and every part is as long as it was. This holds where
    /// packing loses nothing and the scheme does not give the polynomial built
    /// anew from the changed parts the commitment of the one built from the
    /// parts as they were.
    pub proof fn law_large_range_tamper_is_detected(
        &self,
        stmt: Statement<P>,
        proof: LargeRangeProofView<P::Elem>,
        tampered_stmt: Statement<P>,
        tampered: LargeRangeProofView<P::Elem>,
    )
        requires
            self.wf(),
            spec_packing_lossless::<P>(),
            self.spec_large_range_verify(stmt, proof) == Ok::<Result<(), ()>, VidError<P::Error>>(
                Ok(()),
            ),
            Self::spec_same_claim_but_bytes(stmt, tampered_stmt),
            tampered.chunk_range == proof.chunk_range,
            tampered.prefix_bytes.len() == proof.prefix_bytes.len(),
            tampered.suffix_bytes.len() == proof.suffix_bytes.len(),
            tampered.prefix_elems.len() == proof.prefix_elems.len(),
            tampered.suffix_elems.len() == proof.suffix_elems.len(),
            tampered_stmt.payload_subslice@ != stmt.payload_subslice@ || tampered.prefix_bytes
                != proof.prefix_bytes || tampered.suffix_bytes != proof.suffix_bytes
                || tampered.prefix_elems != proof.prefix_elems || tampered.suffix_elems
                != proof.suffix_elems,
            spec_binds(
                self.spec_primitives(),
                Self::spec_rebuilt_elems(stmt.payload_subslice@, proof),
                Self::spec_rebuilt_elems(tampered_stmt.payload_subslice@, tampered),
            ),
        ensures
            self.spec_large_range_verify(tampered_stmt, tampered) != Ok::<
                Result<(), ()>,
                VidError<P::Error>,
            >(Ok(())),
            !(self.spec_large_range_verify(tampered_stmt, tampered) matches Err(
                VidError::Argument(_),
            )),
    {
        let rebuilt = Self::spec_rebuilt_elems(stmt.payload_subslice@, proof);
        let other = Self::spec_rebuilt_elems(tampered_stmt.payload_subslice@, tampered);
        let data = Self::spec_data_elems(
            proof.prefix_bytes,
            stmt.payload_subslice@,
            proof.suffix_bytes,
        );
        let other_data = Self::spec_data_elems(
            tampered.prefix_bytes,
            tampered_stmt.payload_subslice@,
            tampered.suffix_bytes,
        );
        if rebuilt == other {
            let before = proof.prefix_elems.len() as int;
            let touched = data.len() as int;
            assert(proof.prefix_elems =~= rebuilt.subrange(0, before));
            assert(tampered.prefix_elems =~= other.subrange(0, before));
            assert(data =~= rebuilt.subrange(before, before + touched));
            assert(other_data =~= other.subrange(before, before + touched));
            assert(proof.suffix_elems =~= rebuilt.subrange(
                before + touched,
                rebuilt.len() as int,
            ));
            assert(tampered.suffix_elems =~= other.subrange(before + touched, other.len() as int));
            Self::lemma_data_elems_lossless(
                proof.prefix_bytes,
                stmt.payload_subslice@,
                proof.suffix_bytes,
                tampered.prefix_bytes,
                tampered_stmt.payload_subslice@,
                tampered.suffix_bytes,
            );
        }
    }

    /// Tampering is detected, small ranges: a proof that was accepted is no
    /// longer accepted once a claimed byte or a boundary byte of it is
    /// changed and every part is as long as it was, whatever openings come
    /// with it. This holds where packing loses nothing and the scheme does
    /// not accept openings for two values at one point of the polynomial.
    pub proof fn law_small_range_tamper_is_detected(
        &self,
        stmt: Statement<P>,
        proof: SmallRangeProofView<P::Opening>,
        tampered_stmt: Statement<P>,
        tampered: SmallRangeProofView<P::Opening>,
    )
        requires
            self.wf(),
            spec_packing_lossless::<P>(),
            self.spec_small_range_verify(stmt, proof) == Ok::<Result<(), ()>, VidError<P::Error>>(
                Ok(()),
            ),
            Self::spec_same_claim_but_bytes(stmt, tampered_stmt),
            tampered.chunk_range == proof.chunk_range,
            tampered.prefix_bytes.len() == proof.prefix_bytes.len(),
            tampered.suffix_bytes.len() == proof.suffix_bytes.len(),
            tampered.proofs.len() == proof.proofs.len(),
            tampered_stmt.payload_subslice@ != stmt.payload_subslice@ || tampered.prefix_bytes
                != proof.prefix_bytes || tampered.suffix_bytes != proof.suffix_bytes,
            forall|index: int|
                0 <= index < proof.proofs.len() ==> spec_opens_to_one_value(
                    self.spec_primitives(),
                    stmt.common.poly_commits@[self.spec_poly_index(proof.chunk_range)],
                    self.spec_points(proof.chunk_range)[index],
                    Self::spec_data_elems(
                        proof.prefix_bytes,
                        stmt.payload_subslice@,
                        proof.suffix_bytes,
                    )[index],
                    #[trigger] proof.proofs[index],
                    Self::spec_data_elems(
                        tampered.prefix_bytes,
                        tampered_stmt.payload_subslice@,
                        tampered.suffix_bytes,
                    )[index],
                    tampered.proofs[index],
                ),
        ensures
            self.spec_small_range_verify(tampered_stmt, tampered) != Ok::<
                Result<(), ()>,
                VidError<P::Error>,
            >(Ok(())),
            !(self.spec_small_range_verify(tampered_stmt, tampered) matches Err(
                VidError::Argument(_),
            )),
    {
        let primitives = self.spec_primitives();
        let commitment = stmt.common.poly_commits@[self.spec_poly_index(proof.chunk_range)];
        let points = self.spec_points(proof.chunk_range);
        let data = Self::spec_data_elems(
            proof.prefix_bytes,
            stmt.payload_subslice@,
            proof.suffix_bytes,
        );
        let other_data = Self::spec_data_elems(
            tampered.prefix_bytes,
            tampered_stmt.payload_subslice@,
            tampered.suffix_bytes,
        );
        lemma_check_openings_no_argument_error(
            primitives,
            commitment,
            points,
            other_data,
            tampered.proofs,
            0,
        );
        lemma_check_openings_accepts(primitives, commitment, points, data, proof.proofs, 0);
        lemma_check_openings_accepts(
            primitives,
            commitment,
            points,
            other_data,
            tampered.proofs,
            0,
        );
        if self.spec_small_range_verify(tampered_stmt, tampered) == Ok::<
            Result<(), ()>,
            VidError<P::Error>,
        >(Ok(())) {
            assert forall|index: int| 0 <= index < data.len() implies data[index]
                == other_data[index] by {
                assert(spec_opens_to_one_value(
                    primitives,
                    commitment,
                    points[index],
                    data[index],
                    proof.proofs[index],
                    other_data[index],
                    tampered.proofs[index],
                ));
            }
            assert(data =~= other_data);
            Self::lemma_data_elems_lossless(
                proof.prefix_bytes,
                stmt.payload_subslice@,
                proof.suffix_bytes,
                tampered.prefix_bytes,
                tampered_stmt.payload_subslice@,
                tampered.suffix_bytes,
            );
        }
    }

    /// Where packing loses nothing, boundary bytes and claimed bytes that
    /// make up the same elements, part by part of one length, are the same
    /// bytes.
    pub proof fn lemma_data_elems_lossless(
        prefix_bytes: Seq<u8>,
        payload_subslice: Seq<u8>,
        suffix_bytes: Seq<u8>,
        other_prefix_bytes: Seq<u8>,
        other_payload_subslice: Seq<u8>,
        other_suffix_bytes: Seq<u8>,
    )
        requires
            P::spec_elem_byte_capacity() >= 1,
            spec_packing_lossless::<P>(),
            prefix_bytes.len() == other_prefix_bytes.len(),
            payload_subslice.len() == other_payload_subslice.len(),
            suffix_bytes.len() == other_suffix_bytes.len(),
            Self::spec_data_elems(prefix_bytes, payload_subslice, suffix_bytes)
                == Self::spec_data_elems(
                other_prefix_bytes,
                other_payload_subslice,
                other_suffix_bytes,
            ),
        ensures
            prefix_bytes == other_prefix_bytes,
            payload_subslice == other_payload_subslice,
            suffix_bytes == other_suffix_bytes,
    {
        let bytes = prefix_bytes + payload_subslice + suffix_bytes;
        let other = other_prefix_bytes + other_payload_subslice + other_suffix_bytes;
        let before = prefix_bytes.len() as int;
        let claimed = payload_subslice.len() as int;
        lemma_bytes_to_field_lossless::<P>(bytes, other);
        assert(prefix_bytes =~= bytes.subrange(0, before));
        assert(other_prefix_bytes =~= other.subrange(0, before));
        assert(payload_subslice =~= bytes.subrange(before, before + claimed));
        assert(other_payload_subslice =~= other.subrange(before, before + claimed));
        assert(suffix_bytes =~= bytes.subrange(before + claimed, bytes.len() as int));
        assert(other_suffix_bytes =~= other.subrange(before + claimed, other.len() as int));
    }

    /// A range that touches more than one polynomial is refused with an
    /// argument error that names their number, when a proof is asked for and
    /// when one is checked, whatever else the request holds.
    pub proof fn law_spanning_range_is_refused(
        &self,
        payload: Seq<u8>,
        range: Range<usize>,
        stmt: Statement<P>,
        small: SmallRangeProofView<P::Opening>,
        large: LargeRangeProofView<P::Elem>,
    )
        requires
            self.wf(),
            payload.len() <= usize::MAX,
            range.start < range.end <= payload.len(),
            spec_range_len(self.spec_range_poly(range)) != 1,
            stmt.range == range,
            stmt.payload_subslice@.len() == range.end - range.start,
            small.chunk_range == range,
            large.chunk_range == range,
        ensures
            spec_range_len(self.spec_range_poly(range)) >= 2,
            self.spec_small_range_proof(payload, range) == Err::<
                SmallRangeProofView<P::Opening>,
                VidError<P::Error>,
            >(self.spec_spans_error(range)),
            self.spec_large_range_proof(payload, range) == Err::<
                LargeRangeProofView<P::Elem>,
                VidError<P::Error>,
            >(self.spec_spans_error(range)),
            self.spec_small_range_verify(stmt, small) == Err::<
                Result<(), ()>,
                VidError<P::Error>,
            >(self.spec_spans_error(range)),
            self.spec_large_range_verify(stmt, large) == Err::<
                Result<(), ()>,
                VidError<P::Error>,
            >(self.spec_spans_error(range)),
    {
        self.lemma_locate(range, payload.len() as int);
    }

    /// The argument error for a range that touches more than one polynomial.
    pub open spec fn spec_spans_error(&self, range: Range<usize>) -> VidError<P::Error> {
        VidError::Argument(
            ArgumentError::SpansPolynomials {
                count: spec_range_len(self.spec_range_poly(range)) as usize,
            },
        )
    }

    /// Proving is a function of the payload and the range, and verifying one
    /// of the statement and the proof: what was proved twice is one proof, and
    /// it is accepted or refused as one.
    pub proof fn law_proving_twice(
        &self,
        payload: Seq<u8>,
        range: Range<usize>,
        stmt: Statement<P>,
        small_once: SmallRangeProofView<P::Opening>,
        small_again: SmallRangeProofView<P::Opening>,
        large_once: LargeRangeProofView<P::Elem>,
        large_again: LargeRangeProofView<P::Elem>,
    )
        requires
            self.spec_small_range_proof(payload, range) == Ok::<
                SmallRangeProofView<P::Opening>,
                VidError<P::Error>,
            >(small_once),
            self.spec_small_range_proof(payload, range) == Ok::<
                SmallRangeProofView<P::Opening>,
                VidError<P::Error>,
            >(small_again),
            self.spec_large_range_proof(payload, range) == Ok::<
                LargeRangeProofView<P::Elem>,
                VidError<P::Error>,
            >(large_once),
            self.spec_large_range_proof(payload, range) == Ok::<
                LargeRangeProofView<P::Elem>,
                VidError<P::Error>,
            >(large_again),
        ensures
            small_once == small_again,
            large_once == large_again,
            self.spec_small_range_verify(stmt, small_once) == self.spec_small_range_verify(
                stmt,
                small_again,
            ),
            self.spec_large_range_verify(stmt, large_once) == self.spec_large_range_verify(
                stmt,
                large_again,
            ),
    {
    }

    /// Commit binding: a statement whose commitment list does not hash to its
    /// fingerprint is refused with an argument error, whatever the proof, once
    /// it fits the range of the proof and that range lies in one polynomial.
    pub proof fn law_commit_binding(
        &self,
        stmt: Statement<P>,
        small: SmallRangeProofView<P::Opening>,
        large: LargeRangeProofView<P::Elem>,
        fingerprint: P::Digest,
    )
        requires
            self.wf(),
            stmt.range.start < stmt.range.end,
            stmt.payload_subslice@.len() == stmt.range.end - stmt.range.start,
            spec_range_len(self.spec_range_poly(stmt.range)) == 1,
            small.chunk_range == stmt.range,
            large.chunk_range == stmt.range,
            P::spec_commits_digest(stmt.common.poly_commits@) == Ok::<P::Digest, P::Error>(
                fingerprint,
            ),
            fingerprint != *stmt.commit,
        ensures
            self.spec_small_range_verify(stmt, small) == Err::<Result<(), ()>, VidError<P::Error>>(
                VidError::Argument(ArgumentError::CommitMismatch),
            ),
            self.spec_large_range_verify(stmt, large) == Err::<Result<(), ()>, VidError<P::Error>>(
                VidError::Argument(ArgumentError::CommitMismatch),
            ),
    {
    }
}

/// The scheme rejects the opening at `rejected`, and accepts every opening
/// before it.
pub open spec fn spec_first_rejected<P: Primitives>(
    primitives: P,
    commitment: P::Commitment,
    points: Seq<P::Elem>,
    elems: Seq<P::Elem>,
    openings: Seq<P::Opening>,
    rejected: int,
) -> bool {
    &&& 0 <= rejected < elems.len()
    &&& primitives.spec_verify(
        commitment,
        points[rejected],
        elems[rejected],
        openings[rejected],
    ) == Ok::<bool, P::Error>(false)
    &&& forall|index: int|
        0 <= index < rejected ==> #[trigger] primitives.spec_verify(
            commitment,
            points[index],
            elems[index],
            openings[index],
        ) == Ok::<bool, P::Error>(true)
}

/// The verdict on the openings is the failure of the proof where the scheme
/// rejects one of them and accepts all before it.
pub proof fn lemma_check_openings_rejects<P: Primitives>(
    primitives: P,
    commitment: P::Commitment,
    points: Seq<P::Elem>,
    elems: Seq<P::Elem>,
    openings: Seq<P::Opening>,
    from: int,
    rejected: int,
)
    requires
        0 <= from <= rejected,
        spec_first_rejected(primitives, commitment, points, elems, openings, rejected),
    ensures
        spec_check_openings(primitives, commitment, points, elems, openings, from) == Ok::<
            Result<(), ()>,
            VidError<P::Error>,
        >(Err(())),
    decreases rejected - from,
{
    if from < rejected {
        assert(primitives.spec_verify(commitment, points[from], elems[from], openings[from])
            == Ok::<bool, P::Error>(true));
        lemma_check_openings_rejects(
            primitives,
            commitment,
            points,
            elems,
            openings,
            from + 1,
            rejected,
        );
    }
}

/// The verdict on the openings is never an argument error.
pub proof fn lemma_check_openings_no_argument_error<P: Primitives>(
    primitives: P,
    commitment: P::Commitment,
    points: Seq<P::Elem>,
    elems: Seq<P::Elem>,
    openings: Seq<P::Opening>,
    from: int,
)
    requires
        0 <= from,
    ensures
        !(spec_check_openings(primitives, commitment, points, elems, openings, from) matches Err(
            VidError::Argument(_),
        )),
    decreases elems.len() - from,
{
    if from < elems.len() {
        lemma_check_openings_no_argument_error(
            primitives,
            commitment,
            points,
            elems,
            openings,
            from + 1,
        );
    }
}

} // verus!
