//! Range proofs for the payload of a verifiable-information-dispersal scheme.
//!
//! A payload is cut into polynomials of a fixed number of field elements, and
//! each polynomial is committed to. Whoever holds the payload can prove that
//! the bytes at a range are what they are; whoever holds the commitments alone
//! can check such a proof. There are two kinds of proof: one for small ranges,
//! made of openings of the polynomial, and one for large ranges, from which the
//! polynomial is built anew and committed to again.

pub mod advz;
pub mod convert;
pub mod error;
pub mod large_range;
pub mod laws;
pub mod packing;
pub mod payload_prover;
pub mod primitives;
pub mod small_range;
pub mod statement;

pub use advz::Advz;
pub use error::{ArgumentError, VidError, VidResult};
pub use large_range::LargeRangeProof;
pub use payload_prover::PayloadProver;
pub use primitives::Primitives;
pub use small_range::SmallRangeProof;
pub use statement::{Common, Statement};
