//! The cryptographic collaborators of the range proofs.

use vstd::prelude::*;

verus! {

/// What the range proofs take from the scalar field, the evaluation domain, the
/// polynomial commitment scheme and the hash behind the payload commitment.
///
/// Every operation is a function of its arguments: each executable method
/// returns what the spec function of the same name (with `spec_` before it)
/// gives for the same arguments, failures too. An implementation states what
/// those spec functions are; the defaults leave them unspecified. Nothing here
/// promises that an operation succeeds, nor that an opening verifies.
///
/// Values of the associated types are told apart by their identity: two
/// commitments are the same in a contract exactly when `same_commitment` says
/// so, and two fingerprints exactly when `same_digest` says so.
pub trait Primitives {
    /// An element of the scalar field: a payload value, an evaluation point.
    type Elem: Copy;

    /// A polynomial over the scalar field.
    type Polynomial;

    /// A commitment to one polynomial.
    type Commitment;

    /// An opening proof: evidence that a committed polynomial takes a claimed
    /// value at a claimed point.
    type Opening;

    /// The fingerprint of a list of commitments.
    type Digest;

    /// A failure of the commitment scheme or of the hash.
    type Error;

    /// How many bytes fit into one field element without loss.
    open spec fn spec_elem_byte_capacity() -> nat {
        arbitrary()
    }

    /// The field element that packs `bytes`.
    open spec fn spec_elem_from_bytes(bytes: Seq<u8>) -> Self::Elem {
        arbitrary()
    }

    /// The points of the evaluation domain, in their order.
    open spec fn spec_domain(&self) -> Seq<Self::Elem> {
        arbitrary()
    }

    /// The polynomial that takes the values `evals` at the first points of the
    /// evaluation domain.
    open spec fn spec_polynomial(&self, evals: Seq<Self::Elem>) -> Self::Polynomial {
        arbitrary()
    }

    /// The commitment to `polynomial`.
    open spec fn spec_commit(&self, polynomial: Self::Polynomial) -> Result<
        Self::Commitment,
        Self::Error,
    > {
        arbitrary()
    }

    /// One opening of `polynomial` at each of `points`, and its values there.
    open spec fn spec_multi_open(
        &self,
        polynomial: Self::Polynomial,
        points: Seq<Self::Elem>,
    ) -> Result<(Seq<Self::Opening>, Seq<Self::Elem>), Self::Error> {
        arbitrary()
    }

    /// Whether `opening` shows that the polynomial behind `commitment` takes
    /// the value `eval` at `point`.
    open spec fn spec_verify(
        &self,
        commitment: Self::Commitment,
        point: Self::Elem,
        eval: Self::Elem,
        opening: Self::Opening,
    ) -> Result<bool, Self::Error> {
        arbitrary()
    }

    /// The fingerprint of a list of commitments.
    open spec fn spec_commits_digest(commitments: Seq<Self::Commitment>) -> Result<
        Self::Digest,
        Self::Error,
    > {
        arbitrary()
    }

    fn elem_byte_capacity() -> (capacity: usize)
        ensures
            capacity == Self::spec_elem_byte_capacity(),
    ;

    /// Packs at least one byte and at most `elem_byte_capacity()` bytes.
    fn elem_from_bytes(bytes: &[u8]) -> (elem: Self::Elem)
        requires
            0 < bytes@.len() <= Self::spec_elem_byte_capacity(),
        ensures
            elem == Self::spec_elem_from_bytes(bytes@),
    ;

    fn domain_size(&self) -> (size: usize)
        ensures
            size == self.spec_domain().len(),
    ;

    /// The `len` points of the domain from the one at `offset` on.
    fn domain_elements(&self, offset: usize, len: usize) -> (points: Vec<Self::Elem>)
        requires
            offset + len <= self.spec_domain().len(),
        ensures
            points@ == self.spec_domain().subrange(offset as int, offset + len),
    ;

    fn polynomial(&self, evals: &[Self::Elem]) -> (polynomial: Self::Polynomial)
        ensures
            polynomial == self.spec_polynomial(evals@),
    ;

    fn commit(&self, polynomial: &Self::Polynomial) -> (commitment: Result<
        Self::Commitment,
        Self::Error,
    >)
        ensures
            commitment == self.spec_commit(*polynomial),
    ;

    fn multi_open(&self, polynomial: &Self::Polynomial, points: &[Self::Elem]) -> (opened: Result<
        (Vec<Self::Opening>, Vec<Self::Elem>),
        Self::Error,
    >)
        ensures
            match opened {
                Ok((openings, evals)) => self.spec_multi_open(*polynomial, points@) == Ok::<
                    (Seq<Self::Opening>, Seq<Self::Elem>),
                    Self::Error,
                >((openings@, evals@)),
                Err(e) => self.spec_multi_open(*polynomial, points@) == Err::<
                    (Seq<Self::Opening>, Seq<Self::Elem>),
                    Self::Error,
                >(e),
            },
    ;

    fn verify(
        &self,
        commitment: &Self::Commitment,
        point: &Self::Elem,
        eval: &Self::Elem,
        opening: &Self::Opening,
    ) -> (accepted: Result<bool, Self::Error>)
        ensures
            accepted == self.spec_verify(*commitment, *point, *eval, *opening),
    ;

    fn commits_digest(commitments: &[Self::Commitment]) -> (digest: Result<
        Self::Digest,
        Self::Error,
    >)
        ensures
            digest == Self::spec_commits_digest(commitments@),
    ;

    fn same_commitment(a: &Self::Commitment, b: &Self::Commitment) -> (same: bool)
        ensures
            same == (*a == *b),
    ;

    fn same_digest(a: &Self::Digest, b: &Self::Digest) -> (same: bool)
        ensures
            same == (*a == *b),
    ;
}

} // verus!
