//! What a verifier holds, and the checks that a request must pass before any
//! cryptographic work is done on it.

use crate::advz::Advz;
use crate::convert::{int_range, spec_range_len};
use crate::error::{ArgumentError, VidError, VidResult};
use crate::primitives::Primitives;
use std::ops::Range;
use vstd::prelude::*;

verus! {

/// The commitments to the polynomials of a payload, one for each, in the
/// order of the payload.
pub struct Common<P: Primitives> {
    pub poly_commits: Vec<P::Commitment>,
}

/// A claim about a payload that only its commitment is known of: the bytes at
/// `range` are `payload_subslice`.
pub struct Statement<'a, P: Primitives> {
    pub payload_subslice: &'a [u8],
    pub range: Range<usize>,
    pub commit: &'a P::Digest,
    pub common: &'a Common<P>,
}

impl<'a, P: Primitives> Statement<'a, P> {
    /// What holds of a statement that can be true: its range holds a byte, and
    /// it claims as many bytes as its range holds.
    pub open spec fn wf(&self) -> bool {
        &&& self.range.start < self.range.end
        &&& self.payload_subslice@.len() == self.range.end - self.range.start
    }
}

impl<'a, P: Primitives> Clone for Statement<'a, P> {
    fn clone(&self) -> (copy: Self)
        ensures
            copy == *self,
    {
        Statement {
            payload_subslice: self.payload_subslice,
            range: Range { start: self.range.start, end: self.range.end },
            commit: self.commit,
            common: self.common,
        }
    }
}

/// What `check_range_nonempty_and_inside_payload` answers for a payload of
/// `payload_len` bytes.
pub open spec fn spec_check_range_nonempty_and_inside_payload(
    payload_len: usize,
    range: Range<usize>,
) -> Result<(), ArgumentError> {
    if range.start >= range.end {
        Err(ArgumentError::EmptyRange { start: range.start, end: range.end })
    } else if range.end > payload_len {
        Err(ArgumentError::RangeOutOfBounds { start: range.start, end: range.end, payload_len })
    } else {
        Ok(())
    }
}

/// What `check_range_poly` answers.
pub open spec fn spec_check_range_poly(range_poly: Range<int>) -> Result<(), ArgumentError> {
    if spec_range_len(range_poly) != 1 {
        Err(ArgumentError::SpansPolynomials { count: spec_range_len(range_poly) as usize })
    } else {
        Ok(())
    }
}

/// What `check_stmt_proof_consistency` answers.
pub open spec fn spec_check_stmt_proof_consistency(
    subslice_len: usize,
    stmt_range: Range<usize>,
    proof_range: Range<usize>,
) -> Result<(), ArgumentError> {
    if stmt_range.start >= stmt_range.end {
        Err(ArgumentError::EmptyStatementRange { start: stmt_range.start, end: stmt_range.end })
    } else if subslice_len != stmt_range.end - stmt_range.start {
        Err(
            ArgumentError::SubsliceLength {
                subslice_len,
                range_len: (stmt_range.end - stmt_range.start) as usize,
            },
        )
    } else if stmt_range != proof_range {
        Err(
            ArgumentError::RangeMismatch {
                stmt_start: stmt_range.start,
                stmt_end: stmt_range.end,
                proof_start: proof_range.start,
                proof_end: proof_range.end,
            },
        )
    } else {
        Ok(())
    }
}

/// What `check_fingerprint` answers: a failure of the hash is handed on, and a
/// fingerprint other than `commit` is an argument error.
pub open spec fn spec_check_fingerprint<P: Primitives>(
    digest: Result<P::Digest, P::Error>,
    commit: P::Digest,
) -> VidResult<(), P::Error> {
    match digest {
        Err(e) => Err(VidError::Internal(e)),
        Ok(digest) => if digest == commit {
            Ok(())
        } else {
            Err(VidError::Argument(ArgumentError::CommitMismatch))
        },
    }
}

/// What `check_common_commit_consistency` answers: what `check_fingerprint`
/// does for the fingerprint of the commitment list.
pub open spec fn spec_check_common_commit_consistency<P: Primitives>(
    poly_commits: Seq<P::Commitment>,
    commit: P::Digest,
) -> VidResult<(), P::Error> {
    spec_check_fingerprint::<P>(P::spec_commits_digest(poly_commits), commit)
}

/// Accepts a range that holds at least one byte and lies inside the payload.
pub fn check_range_nonempty_and_inside_payload(payload: &[u8], range: &Range<usize>) -> (checked:
    Result<(), ArgumentError>)
    ensures
        checked == spec_check_range_nonempty_and_inside_payload(payload@.len() as usize, *range),
        checked is Ok <==> range.start < range.end <= payload@.len(),
{
    if range.start >= range.end {
        return Err(ArgumentError::EmptyRange { start: range.start, end: range.end });
    }
    if range.end > payload.len() {
        return Err(
            ArgumentError::RangeOutOfBounds {
                start: range.start,
                end: range.end,
                payload_len: payload.len(),
            },
        );
    }
    Ok(())
}

/// Accepts a range of polynomials that holds exactly one.
pub fn check_range_poly(range_poly: &Range<usize>) -> (checked: Result<(), ArgumentError>)
    ensures
        checked == spec_check_range_poly(int_range(*range_poly)),
        checked is Ok <==> range_poly.start + 1 == range_poly.end,
{
    let count: usize = if range_poly.start < range_poly.end {
        range_poly.end - range_poly.start
    } else {
        0
    };
    if count != 1 {
        return Err(ArgumentError::SpansPolynomials { count });
    }
    Ok(())
}

impl<P: Primitives> Advz<P> {
    /// Accepts the fingerprint `digest` that the hash gave for a commitment
    /// list where it is `commit`, and hands on a failure of the hash.
    pub fn check_fingerprint(digest: Result<P::Digest, P::Error>, commit: &P::Digest) -> (checked:
        VidResult<(), P::Error>)
        ensures
            checked == spec_check_fingerprint::<P>(digest, *commit),
    {
        match digest {
            Err(e) => Err(VidError::Internal(e)),
            Ok(digest) => {
                if !P::same_digest(commit, &digest) {
                    return Err(VidError::Argument(ArgumentError::CommitMismatch));
                }
                Ok(())
            },
        }
    }

    /// Accepts a commitment list whose fingerprint is `commit`.
    pub fn check_common_commit_consistency(common: &Common<P>, commit: &P::Digest) -> (checked:
        VidResult<(), P::Error>)
        ensures
            checked == spec_check_common_commit_consistency::<P>(common.poly_commits@, *commit),
    {
        Self::check_fingerprint(P::commits_digest(common.poly_commits.as_slice()), commit)
    }

    /// Accepts a statement whose range holds at least one byte, whose claimed
    /// bytes are as many as its range holds, and whose range is the one that
    /// the proof was made for.
    pub fn check_stmt_proof_consistency(stmt: &Statement<P>, proof_range: &Range<usize>) -> (checked:
        Result<(), ArgumentError>)
        ensures
            checked == spec_check_stmt_proof_consistency(
                stmt.payload_subslice@.len() as usize,
                stmt.range,
                *proof_range,
            ),
            checked is Ok <==> stmt.wf() && stmt.range == *proof_range,
    {
        if stmt.range.start >= stmt.range.end {
            return Err(
                ArgumentError::EmptyStatementRange {
                    start: stmt.range.start,
                    end: stmt.range.end,
                },
            );
        }
        if stmt.payload_subslice.len() != stmt.range.end - stmt.range.start {
            return Err(
                ArgumentError::SubsliceLength {
                    subslice_len: stmt.payload_subslice.len(),
                    range_len: stmt.range.end - stmt.range.start,
                },
            );
        }
        if stmt.range.start != proof_range.start || stmt.range.end != proof_range.end {
            return Err(
                ArgumentError::RangeMismatch {
                    stmt_start: stmt.range.start,
                    stmt_end: stmt.range.end,
                    proof_start: proof_range.start,
                    proof_end: proof_range.end,
                },
            );
        }
        Ok(())
    }
}

} // verus!
