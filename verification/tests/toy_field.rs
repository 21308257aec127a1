//! The range proofs over a small commitment scheme that is cheap to run: the
//! field of integers modulo 2^64 - 2^32 + 1, and a commitment that is the value
//! of the polynomial at a fixed point. It has the algebra of a pairing-based
//! scheme and none of its secrecy, which is all that these tests need.

use ark_std::rand::Rng;
use payload_prover::packing::bytes_to_field;
use payload_prover::statement::{check_range_nonempty_and_inside_payload, check_range_poly};
use payload_prover::{
    Advz, ArgumentError, Common, LargeRangeProof, PayloadProver, Primitives, SmallRangeProof,
    Statement, VidError,
};
use std::ops::Range;

const MODULUS: u64 = 0xffff_ffff_0000_0001;
const GENERATOR: u64 = 7;
const SECRET: u64 = 0x1234_5678_9abc_def1;

fn f_add(a: u64, b: u64) -> u64 {
    ((a as u128 + b as u128) % MODULUS as u128) as u64
}

fn f_sub(a: u64, b: u64) -> u64 {
    ((a as u128 + MODULUS as u128 - b as u128) % MODULUS as u128) as u64
}

fn f_mul(a: u64, b: u64) -> u64 {
    ((a as u128 * b as u128) % MODULUS as u128) as u64
}

fn f_pow(base: u64, mut exponent: u64) -> u64 {
    let mut power = base;
    let mut result = 1;
    while exponent > 0 {
        if exponent & 1 == 1 {
            result = f_mul(result, power);
        }
        power = f_mul(power, power);
        exponent >>= 1;
    }
    result
}

fn f_inv(a: u64) -> u64 {
    f_pow(a, MODULUS - 2)
}

fn evaluate(coeffs: &[u64], point: u64) -> u64 {
    coeffs.iter().rev().fold(0, |acc, c| f_add(f_mul(acc, point), *c))
}

/// What the scheme is told to fail on.
#[derive(Clone, Copy, Debug, PartialEq, Eq)]
enum Fail {
    Nothing,
    Commit,
    MultiOpen,
    Verify,
}

#[derive(Clone, Debug)]
struct Toy {
    domain: Vec<u64>,
    fail: Fail,
}

impl Toy {
    fn new(payload_chunk_size: usize) -> Toy {
        Toy::failing(payload_chunk_size, Fail::Nothing)
    }

    fn failing(payload_chunk_size: usize, fail: Fail) -> Toy {
        let size = payload_chunk_size.next_power_of_two() as u64;
        let root = f_pow(GENERATOR, (MODULUS - 1) / size);
        let mut domain = Vec::new();
        let mut point = 1;
        for _ in 0..size {
            domain.push(point);
            point = f_mul(point, root);
        }
        Toy { domain, fail }
    }
}

impl Primitives for Toy {
    type Elem = u64;
    type Polynomial = Vec<u64>;
    type Commitment = u64;
    type Opening = u64;
    type Digest = u64;
    type Error = String;

    fn elem_byte_capacity() -> usize {
        7
    }

    fn elem_from_bytes(bytes: &[u8]) -> u64 {
        assert!(!bytes.is_empty() && bytes.len() <= 7);
        bytes.iter().rev().fold(0, |acc, b| (acc << 8) | *b as u64)
    }

    fn domain_size(&self) -> usize {
        self.domain.len()
    }

    fn domain_elements(&self, offset: usize, len: usize) -> Vec<u64> {
        assert!(offset + len <= self.domain.len());
        self.domain[offset..offset + len].to_vec()
    }

    fn polynomial(&self, evals: &[u64]) -> Vec<u64> {
        let size = self.domain.len();
        let mut evals = evals.to_vec();
        evals.resize(size, 0);
        let size_inv = f_inv(size as u64);
        (0..size)
            .map(|j| {
                let point = f_inv(self.domain[j]);
                f_mul(size_inv, evaluate(&evals, point))
            })
            .collect()
    }

    fn commit(&self, polynomial: &Vec<u64>) -> Result<u64, String> {
        if self.fail == Fail::Commit {
            return Err("commit".to_string());
        }
        Ok(evaluate(polynomial, SECRET))
    }

    fn multi_open(
        &self,
        polynomial: &Vec<u64>,
        points: &[u64],
    ) -> Result<(Vec<u64>, Vec<u64>), String> {
        if self.fail == Fail::MultiOpen {
            return Err("multi_open".to_string());
        }
        let mut openings = Vec::new();
        let mut evals = Vec::new();
        for point in points {
            // the quotient of the polynomial by (X - point), at the secret
            let mut quotient = vec![0; polynomial.len()];
            let mut carry = 0;
            for (index, c) in polynomial.iter().enumerate().rev() {
                quotient[index] = carry;
                carry = f_add(*c, f_mul(carry, *point));
            }
            openings.push(evaluate(&quotient, SECRET));
            evals.push(carry);
        }
        Ok((openings, evals))
    }

    fn verify(
        &self,
        commitment: &u64,
        point: &u64,
        eval: &u64,
        opening: &u64,
    ) -> Result<bool, String> {
        if self.fail == Fail::Verify {
            return Err("verify".to_string());
        }
        Ok(f_sub(*commitment, *eval) == f_mul(*opening, f_sub(SECRET, *point)))
    }

    fn commits_digest(commitments: &[u64]) -> Result<u64, String> {
        let mut digest: u64 = 0xcbf2_9ce4_8422_2325;
        for commitment in commitments {
            for byte in commitment.to_le_bytes() {
                digest = (digest ^ byte as u64).wrapping_mul(0x0000_0100_0000_01b3);
            }
        }
        Ok(digest)
    }

    fn same_commitment(a: &u64, b: &u64) -> bool {
        a == b
    }

    fn same_digest(a: &u64, b: &u64) -> bool {
        a == b
    }
}

/// The toy scheme with a hash that always fails.
#[derive(Clone, Debug)]
struct NoHash(Toy);

impl Primitives for NoHash {
    type Elem = u64;
    type Polynomial = Vec<u64>;
    type Commitment = u64;
    type Opening = u64;
    type Digest = u64;
    type Error = String;

    fn elem_byte_capacity() -> usize {
        Toy::elem_byte_capacity()
    }

    fn elem_from_bytes(bytes: &[u8]) -> u64 {
        Toy::elem_from_bytes(bytes)
    }

    fn domain_size(&self) -> usize {
        self.0.domain_size()
    }

    fn domain_elements(&self, offset: usize, len: usize) -> Vec<u64> {
        self.0.domain_elements(offset, len)
    }

    fn polynomial(&self, evals: &[u64]) -> Vec<u64> {
        self.0.polynomial(evals)
    }

    fn commit(&self, polynomial: &Vec<u64>) -> Result<u64, String> {
        self.0.commit(polynomial)
    }

    fn multi_open(
        &self,
        polynomial: &Vec<u64>,
        points: &[u64],
    ) -> Result<(Vec<u64>, Vec<u64>), String> {
        self.0.multi_open(polynomial, points)
    }

    fn verify(
        &self,
        commitment: &u64,
        point: &u64,
        eval: &u64,
        opening: &u64,
    ) -> Result<bool, String> {
        self.0.verify(commitment, point, eval, opening)
    }

    fn commits_digest(_commitments: &[u64]) -> Result<u64, String> {
        Err("hash".to_string())
    }

    fn same_commitment(a: &u64, b: &u64) -> bool {
        a == b
    }

    fn same_digest(a: &u64, b: &u64) -> bool {
        a == b
    }
}

/// An element without room for a byte.
struct NoRoom;

impl Primitives for NoRoom {
    type Elem = u64;
    type Polynomial = Vec<u64>;
    type Commitment = u64;
    type Opening = u64;
    type Digest = u64;
    type Error = String;

    fn elem_byte_capacity() -> usize {
        0
    }

    fn elem_from_bytes(_bytes: &[u8]) -> u64 {
        0
    }

    fn domain_size(&self) -> usize {
        4
    }

    fn domain_elements(&self, _offset: usize, _len: usize) -> Vec<u64> {
        Vec::new()
    }

    fn polynomial(&self, evals: &[u64]) -> Vec<u64> {
        evals.to_vec()
    }

    fn commit(&self, _polynomial: &Vec<u64>) -> Result<u64, String> {
        Ok(0)
    }

    fn multi_open(
        &self,
        _polynomial: &Vec<u64>,
        _points: &[u64],
    ) -> Result<(Vec<u64>, Vec<u64>), String> {
        Ok((Vec::new(), Vec::new()))
    }

    fn verify(&self, _c: &u64, _x: &u64, _y: &u64, _o: &u64) -> Result<bool, String> {
        Ok(true)
    }

    fn commits_digest(_commitments: &[u64]) -> Result<u64, String> {
        Ok(0)
    }

    fn same_commitment(a: &u64, b: &u64) -> bool {
        a == b
    }

    fn same_digest(a: &u64, b: &u64) -> bool {
        a == b
    }
}

const CHUNK_SIZE: usize = 4;
const CAPACITY: usize = 7;
const POLY_BYTES: usize = CHUNK_SIZE * CAPACITY;

fn toy_advz() -> Advz<Toy> {
    Advz::new(CHUNK_SIZE, Toy::new(CHUNK_SIZE)).unwrap()
}

/// A payload whose byte at `index` is `index + 1`, so that no two bytes of a
/// polynomial are the same and none is zero.
fn counting_payload(len: usize) -> Vec<u8> {
    (0..len).map(|index| (index + 1) as u8).collect()
}

/// The commitments to the polynomials of a payload, and their fingerprint.
fn disperse<P: Primitives>(advz: &Advz<P>, payload: &[u8]) -> (P::Digest, Common<P>)
where
    P::Error: std::fmt::Debug,
{
    let elems = bytes_to_field::<P>(payload);
    let poly_commits: Vec<P::Commitment> = elems
        .chunks(advz.payload_chunk_size())
        .map(|chunk| {
            let polynomial = advz.primitives().polynomial(chunk);
            advz.primitives().commit(&polynomial).unwrap()
        })
        .collect();
    let commit = P::commits_digest(&poly_commits).unwrap();
    (commit, Common { poly_commits })
}

fn prove_small(advz: &Advz<Toy>, payload: &[u8], range: Range<usize>) -> SmallRangeProof<u64> {
    advz.payload_proof(payload, range).unwrap()
}

fn prove_large(advz: &Advz<Toy>, payload: &[u8], range: Range<usize>) -> LargeRangeProof<u64> {
    advz.payload_proof(payload, range).unwrap()
}

fn correctness_generic<P>(make: fn(usize) -> P)
where
    P: Primitives,
    P::Error: std::fmt::Debug,
    Advz<P>: PayloadProver<P, SmallRangeProof<P::Opening>>
        + PayloadProver<P, LargeRangeProof<P::Elem>>,
{
    // play with these items
    let payload_chunk_size = 4;
    let num_polys = 3;

    // more items as a function of the above
    let payload_elems_len = num_polys * payload_chunk_size;
    let payload_bytes_base_len = payload_elems_len * P::elem_byte_capacity();
    let poly_bytes_len = payload_chunk_size * P::elem_byte_capacity();
    let mut rng = ark_std::test_rng();
    let advz = Advz::new(payload_chunk_size, make(payload_chunk_size)).unwrap();

    // TEST: different payload byte lengths
    let payload_byte_len_noise_cases = vec![0, poly_bytes_len / 2, poly_bytes_len - 1];
    let payload_len_cases = payload_byte_len_noise_cases
        .into_iter()
        .map(|l| payload_bytes_base_len - l);

    // TEST: prove data ranges for this payload
    // it takes too long to test all combos of (polynomial, start, len)
    // so do some edge cases and random cases
    let edge_cases = vec![
        Range { start: 0, end: 1 },
        Range { start: 0, end: 2 },
        Range {
            start: 0,
            end: poly_bytes_len - 1,
        },
        Range {
            start: 0,
            end: poly_bytes_len,
        },
        Range { start: 1, end: 2 },
        Range { start: 1, end: 3 },
        Range {
            start: 1,
            end: poly_bytes_len - 1,
        },
        Range {
            start: 1,
            end: poly_bytes_len,
        },
        Range {
            start: poly_bytes_len - 2,
            end: poly_bytes_len - 1,
        },
        Range {
            start: poly_bytes_len - 2,
            end: poly_bytes_len,
        },
        Range {
            start: poly_bytes_len - 1,
            end: poly_bytes_len,
        },
    ];
    let random_cases = {
        let num_cases = edge_cases.len();
        let mut random_cases = Vec::with_capacity(num_cases);
        for _ in 0..num_cases {
            let start = rng.gen_range(0..poly_bytes_len - 1);
            let end = rng.gen_range(start + 1..poly_bytes_len);
            random_cases.push(Range { start, end });
        }
        random_cases
    };
    let all_cases = [(edge_cases, "edge"), (random_cases, "rand")];

    for payload_len_case in payload_len_cases {
        let payload: Vec<u8> = (0..payload_len_case).map(|_| rng.gen()).collect();
        let (commit, common) = disperse(&advz, &payload);
        println!("payload byte len case: {}", payload.len());

        for poly in 0..num_polys {
            let poly_offset = poly * poly_bytes_len;

            for cases in all_cases.iter() {
                for range in cases.0.iter() {
                    let range = Range {
                        start: range.start + poly_offset,
                        end: range.end + poly_offset,
                    };

                    // ensure range fits inside payload
                    let range = if range.start >= payload.len() {
                        println!(
                            "poly {} {} case: {:?} outside payload len {}, skipping",
                            poly,
                            cases.1,
                            range,
                            payload.len()
                        );
                        continue;
                    } else if range.end > payload.len() {
                        println!(
                            "poly {} {} case: {:?} clamped to payload len {}",
                            poly,
                            cases.1,
                            range,
                            payload.len()
                        );
                        Range {
                            end: payload.len(),
                            ..range
                        }
                    } else {
                        println!("poly {} {} case: {:?}", poly, cases.1, range);
                        range
                    };

                    let stmt = Statement {
                        payload_subslice: &payload[range.clone()],
                        range: range.clone(),
                        commit: &commit,
                        common: &common,
                    };

                    let small_range_proof: SmallRangeProof<_> =
                        advz.payload_proof(&payload, range.clone()).unwrap();
                    advz.payload_verify(stmt.clone(), &small_range_proof)
                        .unwrap()
                        .unwrap();

                    let large_range_proof: LargeRangeProof<_> =
                        advz.payload_proof(&payload, range.clone()).unwrap();
                    advz.payload_verify(stmt, &large_range_proof)
                        .unwrap()
                        .unwrap();
                }
            }
        }
    }
}

#[test]
fn correctness_toy_field() {
    correctness_generic::<Toy>(Toy::new);
}

#[test]
fn toy_scheme_accepts_its_own_openings() {
    let toy = Toy::new(4);
    let evals = [11, 22, 33, 44];
    let polynomial = toy.polynomial(&evals);
    let commitment = toy.commit(&polynomial).unwrap();
    let points = toy.domain_elements(0, 4);
    let (openings, opened) = toy.multi_open(&polynomial, &points).unwrap();
    assert_eq!(opened, evals);
    for index in 0..4 {
        assert_eq!(
            toy.verify(&commitment, &points[index], &evals[index], &openings[index]),
            Ok(true)
        );
        assert_eq!(
            toy.verify(&commitment, &points[index], &(evals[index] + 1), &openings[index]),
            Ok(false)
        );
    }
}

#[test]
fn new_refuses_parameters_that_do_not_fit() {
    assert!(Advz::new(4, Toy::new(4)).is_some());
    assert!(Advz::new(1, Toy::new(1)).is_some());
    assert!(Advz::new(3, Toy::new(3)).is_some());
    // no element in a polynomial
    assert!(Advz::new(0, Toy::new(4)).is_none());
    // fewer points in the domain than elements in a polynomial
    assert!(Advz::new(5, Toy::new(4)).is_none());
    // polynomials longer in bytes than the machine can count
    assert!(Advz::new(usize::MAX / 7 + 1, Toy::new(4)).is_none());
    // no room for a byte in an element
    assert!(Advz::new(4, NoRoom).is_none());
}

#[test]
fn new_keeps_its_parameters() {
    let advz = toy_advz();
    assert_eq!(advz.payload_chunk_size(), 4);
    assert_eq!(advz.primitives().domain_size(), 4);
    assert_eq!(advz.poly_byte_len(), 28);
    let advz = Advz::new(3, Toy::new(3)).unwrap();
    assert_eq!(advz.payload_chunk_size(), 3);
    assert_eq!(advz.primitives().domain_size(), 4);
    assert_eq!(advz.poly_byte_len(), 21);
}

#[test]
fn index_conversions_of_an_instance() {
    let advz = toy_advz();
    assert_eq!(advz.index_byte_to_elem(0), 0);
    assert_eq!(advz.index_byte_to_elem(6), 0);
    assert_eq!(advz.index_byte_to_elem(7), 1);
    assert_eq!(advz.index_byte_to_elem(27), 3);
    assert_eq!(advz.index_byte_to_elem(28), 4);
    assert_eq!(advz.index_poly_to_byte(0), 0);
    assert_eq!(advz.index_poly_to_byte(1), 28);
    assert_eq!(advz.index_poly_to_byte(2), 56);
}

#[test]
fn range_conversions_of_an_instance() {
    let advz = toy_advz();
    assert_eq!(advz.range_byte_to_elem(&(0..1)), 0..1);
    assert_eq!(advz.range_byte_to_elem(&(6..8)), 0..2);
    assert_eq!(advz.range_byte_to_elem(&(7..14)), 1..2);
    assert_eq!(advz.range_byte_to_elem(&(7..15)), 1..3);
    assert_eq!(advz.range_elem_to_byte(&(1..3)), 7..21);
    assert_eq!(advz.range_elem_to_byte_clamped(&(1..3), 100), 7..21);
    assert_eq!(advz.range_elem_to_byte_clamped(&(1..3), 21), 7..21);
    assert_eq!(advz.range_elem_to_byte_clamped(&(1..3), 20), 7..20);
    assert_eq!(advz.range_elem_to_byte_clamped(&(1..3), 15), 7..15);
    assert_eq!(advz.range_elem_to_poly(&(0..4)), 0..1);
    assert_eq!(advz.range_elem_to_poly(&(3..5)), 0..2);
    assert_eq!(advz.range_elem_to_poly(&(4..5)), 1..2);
    assert_eq!(advz.range_byte_to_poly(&(0..28)), 0..1);
    assert_eq!(advz.range_byte_to_poly(&(27..29)), 0..2);
    assert_eq!(advz.range_byte_to_poly(&(28..29)), 1..2);
    assert_eq!(advz.range_byte_to_poly(&(0..84)), 0..3);
}

#[test]
fn range_elem_to_byte_clamped_survives_an_end_beyond_the_machine() {
    let advz = toy_advz();
    let last = usize::MAX / 7;
    assert_eq!(
        advz.range_elem_to_byte_clamped(&(last..last + 1), usize::MAX),
        last * 7..usize::MAX
    );
}

#[test]
fn the_polynomial_of_a_byte_is_that_of_its_element() {
    let advz = toy_advz();
    for start in 0..90 {
        for end in start + 1..91 {
            let range = start..end;
            let by_elem = advz.range_elem_to_poly(&advz.range_byte_to_elem(&range));
            assert_eq!(by_elem, advz.range_byte_to_poly(&range));
        }
    }
}

#[test]
fn bytes_to_field_packs_chunks_of_seven_bytes() {
    let none: Vec<u64> = Vec::new();
    assert_eq!(bytes_to_field::<Toy>(&[]), none);
    assert_eq!(bytes_to_field::<Toy>(&[1]), vec![1]);
    assert_eq!(bytes_to_field::<Toy>(&[1, 2]), vec![0x0201]);
    assert_eq!(
        bytes_to_field::<Toy>(&[1, 2, 3, 4, 5, 6, 7]),
        vec![0x07_0605_0403_0201]
    );
    assert_eq!(
        bytes_to_field::<Toy>(&[1, 2, 3, 4, 5, 6, 7, 8]),
        vec![0x07_0605_0403_0201, 8]
    );
    assert_eq!(bytes_to_field::<Toy>(&counting_payload(14)).len(), 2);
    assert_eq!(bytes_to_field::<Toy>(&counting_payload(15)).len(), 3);
    assert_eq!(bytes_to_field::<Toy>(&counting_payload(84)).len(), 12);
}

#[test]
fn check_range_nonempty_and_inside_payload_names_what_is_wrong() {
    let payload = [0u8; 10];
    assert_eq!(check_range_nonempty_and_inside_payload(&payload, &(0..10)), Ok(()));
    assert_eq!(check_range_nonempty_and_inside_payload(&payload, &(9..10)), Ok(()));
    assert_eq!(
        check_range_nonempty_and_inside_payload(&payload, &(3..3)),
        Err(ArgumentError::EmptyRange { start: 3, end: 3 })
    );
    assert_eq!(
        check_range_nonempty_and_inside_payload(&payload, &(5..2)),
        Err(ArgumentError::EmptyRange { start: 5, end: 2 })
    );
    assert_eq!(
        check_range_nonempty_and_inside_payload(&payload, &(11..11)),
        Err(ArgumentError::EmptyRange { start: 11, end: 11 })
    );
    assert_eq!(
        check_range_nonempty_and_inside_payload(&payload, &(0..11)),
        Err(ArgumentError::RangeOutOfBounds { start: 0, end: 11, payload_len: 10 })
    );
    assert_eq!(
        check_range_nonempty_and_inside_payload(&[], &(0..1)),
        Err(ArgumentError::RangeOutOfBounds { start: 0, end: 1, payload_len: 0 })
    );
}

#[test]
fn check_range_poly_accepts_one_polynomial_only() {
    assert_eq!(check_range_poly(&(0..1)), Ok(()));
    assert_eq!(check_range_poly(&(7..8)), Ok(()));
    assert_eq!(
        check_range_poly(&(0..2)),
        Err(ArgumentError::SpansPolynomials { count: 2 })
    );
    assert_eq!(
        check_range_poly(&(3..3)),
        Err(ArgumentError::SpansPolynomials { count: 0 })
    );
    assert_eq!(
        check_range_poly(&(4..3)),
        Err(ArgumentError::SpansPolynomials { count: 0 })
    );
    assert_eq!(
        check_range_poly(&(1..6)),
        Err(ArgumentError::SpansPolynomials { count: 5 })
    );
}

#[test]
fn check_stmt_proof_consistency_names_what_is_wrong() {
    let advz = toy_advz();
    let payload = counting_payload(84);
    let (commit, common) = disperse(&advz, &payload);
    let stmt = |subslice: &'static [u8], range: Range<usize>| Statement::<Toy> {
        payload_subslice: subslice,
        range,
        commit: &commit,
        common: &common,
    };
    assert_eq!(
        Advz::<Toy>::check_stmt_proof_consistency(&stmt(&[1, 2], 0..2), &(0..2)),
        Ok(())
    );
    assert_eq!(
        Advz::<Toy>::check_stmt_proof_consistency(&stmt(&[], 4..4), &(4..4)),
        Err(ArgumentError::EmptyStatementRange { start: 4, end: 4 })
    );
    assert_eq!(
        Advz::<Toy>::check_stmt_proof_consistency(&stmt(&[1], 5..4), &(5..4)),
        Err(ArgumentError::EmptyStatementRange { start: 5, end: 4 })
    );
    assert_eq!(
        Advz::<Toy>::check_stmt_proof_consistency(&stmt(&[1, 2, 3], 0..2), &(0..2)),
        Err(ArgumentError::SubsliceLength { subslice_len: 3, range_len: 2 })
    );
    assert_eq!(
        Advz::<Toy>::check_stmt_proof_consistency(&stmt(&[1, 2], 0..2), &(0..3)),
        Err(ArgumentError::RangeMismatch {
            stmt_start: 0,
            stmt_end: 2,
            proof_start: 0,
            proof_end: 3
        })
    );
    assert_eq!(
        Advz::<Toy>::check_stmt_proof_consistency(&stmt(&[1, 2], 1..3), &(0..2)),
        Err(ArgumentError::RangeMismatch {
            stmt_start: 1,
            stmt_end: 3,
            proof_start: 0,
            proof_end: 2
        })
    );
}

#[test]
fn check_common_commit_consistency_binds_the_list_to_the_fingerprint() {
    let advz = toy_advz();
    let payload = counting_payload(84);
    let (commit, common) = disperse(&advz, &payload);
    assert_eq!(common.poly_commits.len(), 3);
    assert_eq!(Advz::<Toy>::check_common_commit_consistency(&common, &commit), Ok(()));
    assert_eq!(
        Advz::<Toy>::check_common_commit_consistency(&common, &(commit ^ 1)),
        Err(VidError::Argument(ArgumentError::CommitMismatch))
    );
    let mut other = Common::<Toy> { poly_commits: common.poly_commits.clone() };
    other.poly_commits[1] ^= 1;
    assert_eq!(
        Advz::<Toy>::check_common_commit_consistency(&other, &commit),
        Err(VidError::Argument(ArgumentError::CommitMismatch))
    );
    let shorter = Common::<Toy> { poly_commits: common.poly_commits[..2].to_vec() };
    assert_eq!(
        Advz::<Toy>::check_common_commit_consistency(&shorter, &commit),
        Err(VidError::Argument(ArgumentError::CommitMismatch))
    );
}

#[test]
fn check_common_commit_consistency_hands_on_a_failure_of_the_hash() {
    let common = Common::<NoHash> { poly_commits: vec![1, 2, 3] };
    assert_eq!(
        Advz::<NoHash>::check_common_commit_consistency(&common, &0),
        Err(VidError::Internal("hash".to_string()))
    );
}

#[test]
fn example_first_two_bytes_of_the_second_polynomial() {
    let advz = toy_advz();
    let payload = counting_payload(3 * POLY_BYTES);
    let (commit, common) = disperse(&advz, &payload);
    let range = POLY_BYTES..POLY_BYTES + 2;
    let stmt = Statement {
        payload_subslice: &payload[range.clone()],
        range: range.clone(),
        commit: &commit,
        common: &common,
    };

    let small = prove_small(&advz, &payload, range.clone());
    assert_eq!(small.chunk_range(), range);
    assert_eq!(advz.payload_verify(stmt.clone(), &small), Ok(Ok(())));

    let large = prove_large(&advz, &payload, range.clone());
    assert_eq!(large.chunk_range(), range);
    assert_eq!(advz.payload_verify(stmt, &large), Ok(Ok(())));
}

#[test]
fn example_range_over_the_edge_of_two_polynomials() {
    let advz = toy_advz();
    let payload = counting_payload(3 * POLY_BYTES);
    let range = POLY_BYTES - 1..POLY_BYTES + 1;
    let expected = VidError::Argument(ArgumentError::SpansPolynomials { count: 2 });

    let small: Result<SmallRangeProof<u64>, _> = advz.payload_proof(&payload, range.clone());
    assert_eq!(small, Err(VidError::Argument(ArgumentError::SpansPolynomials { count: 2 })));
    let large: Result<LargeRangeProof<u64>, _> = advz.payload_proof(&payload, range.clone());
    assert_eq!(large, Err(VidError::Argument(ArgumentError::SpansPolynomials { count: 2 })));
    match expected {
        VidError::Argument(e) => {
            assert_eq!(e.message(), "request spans 2 polynomials, expect 1")
        }
        VidError::Internal::<String>(_) => unreachable!(),
    }
}

#[test]
fn a_spanning_range_is_refused_at_verify_time() {
    let advz = toy_advz();
    let payload = counting_payload(3 * POLY_BYTES);
    let (commit, common) = disperse(&advz, &payload);
    let range = POLY_BYTES - 1..POLY_BYTES + 1;
    let stmt = Statement {
        payload_subslice: &payload[range.clone()],
        range: range.clone(),
        commit: &commit,
        common: &common,
    };
    // proofs for a range inside one polynomial, dressed up as proofs for `range`
    let inside = POLY_BYTES - 2..POLY_BYTES;
    let small = prove_small(&advz, &payload, inside.clone());
    let small = SmallRangeProof::new(
        small.proofs().clone(),
        small.prefix_bytes().clone(),
        small.suffix_bytes().clone(),
        range.clone(),
    );
    assert_eq!(
        advz.payload_verify(stmt.clone(), &small),
        Err(VidError::Argument(ArgumentError::SpansPolynomials { count: 2 }))
    );
    let large = prove_large(&advz, &payload, inside);
    let large = LargeRangeProof::new(
        large.prefix_elems().clone(),
        large.suffix_elems().clone(),
        large.prefix_bytes().clone(),
        large.suffix_bytes().clone(),
        range.clone(),
    );
    assert_eq!(
        advz.payload_verify(stmt, &large),
        Err(VidError::Argument(ArgumentError::SpansPolynomials { count: 2 }))
    );

    // all three polynomials
    let range = 0..3 * POLY_BYTES;
    let all: Result<LargeRangeProof<u64>, _> = advz.payload_proof(&payload, range);
    assert_eq!(all, Err(VidError::Argument(ArgumentError::SpansPolynomials { count: 3 })));
}

#[test]
fn ranges_of_one_byte_at_the_edges_verify() {
    let advz = toy_advz();
    let payload = counting_payload(3 * POLY_BYTES);
    let (commit, common) = disperse(&advz, &payload);
    let mut starts = Vec::new();
    for poly in 0..3 {
        // the first and the last byte of the polynomial
        starts.push(poly * POLY_BYTES);
        starts.push((poly + 1) * POLY_BYTES - 1);
        // the last byte of an element and the first byte of the next
        starts.push(poly * POLY_BYTES + CAPACITY - 1);
        starts.push(poly * POLY_BYTES + CAPACITY);
    }
    for start in starts {
        let range = start..start + 1;
        let stmt = Statement {
            payload_subslice: &payload[range.clone()],
            range: range.clone(),
            commit: &commit,
            common: &common,
        };
        let small = prove_small(&advz, &payload, range.clone());
        assert_eq!(small.proofs().len(), 1);
        assert_eq!(small.prefix_bytes().len() + 1 + small.suffix_bytes().len(), CAPACITY);
        assert_eq!(advz.payload_verify(stmt.clone(), &small), Ok(Ok(())));
        let large = prove_large(&advz, &payload, range.clone());
        assert_eq!(large.prefix_elems().len() + 1 + large.suffix_elems().len(), CHUNK_SIZE);
        assert_eq!(advz.payload_verify(stmt, &large), Ok(Ok(())));
    }
}

#[test]
fn a_range_over_the_edge_of_two_elements_verifies() {
    let advz = toy_advz();
    let payload = counting_payload(3 * POLY_BYTES);
    let (commit, common) = disperse(&advz, &payload);
    for poly in 0..3 {
        for elem in 1..CHUNK_SIZE {
            let edge = poly * POLY_BYTES + elem * CAPACITY;
            let range = edge - 1..edge + 1;
            let stmt = Statement {
                payload_subslice: &payload[range.clone()],
                range: range.clone(),
                commit: &commit,
                common: &common,
            };
            let small = prove_small(&advz, &payload, range.clone());
            assert_eq!(small.proofs().len(), 2);
            assert_eq!(small.prefix_bytes().len(), CAPACITY - 1);
            assert_eq!(small.suffix_bytes().len(), CAPACITY - 1);
            assert_eq!(advz.payload_verify(stmt.clone(), &small), Ok(Ok(())));
            let large = prove_large(&advz, &payload, range.clone());
            assert_eq!(large.prefix_elems().len(), elem - 1);
            assert_eq!(large.suffix_elems().len(), CHUNK_SIZE - elem - 1);
            assert_eq!(advz.payload_verify(stmt, &large), Ok(Ok(())));
        }
    }
}

#[test]
fn every_range_inside_a_polynomial_verifies() {
    let advz = toy_advz();
    // a payload that ends in the middle of an element of its third polynomial
    let payload = counting_payload(2 * POLY_BYTES + 10);
    let (commit, common) = disperse(&advz, &payload);
    assert_eq!(common.poly_commits.len(), 3);
    for poly in 0..3 {
        let first = poly * POLY_BYTES;
        let last = std::cmp::min(first + POLY_BYTES, payload.len());
        for start in first..last {
            for end in start + 1..last + 1 {
                let range = start..end;
                let stmt = Statement {
                    payload_subslice: &payload[range.clone()],
                    range: range.clone(),
                    commit: &commit,
                    common: &common,
                };
                let small = prove_small(&advz, &payload, range.clone());
                assert_eq!(advz.payload_verify(stmt.clone(), &small), Ok(Ok(())));
                let large = prove_large(&advz, &payload, range.clone());
                assert_eq!(advz.payload_verify(stmt, &large), Ok(Ok(())));
            }
        }
    }
}

#[test]
fn a_polynomial_size_that_is_no_power_of_two_verifies() {
    let advz = Advz::new(3, Toy::new(3)).unwrap();
    let payload = counting_payload(2 * 21 + 5);
    let (commit, common) = disperse(&advz, &payload);
    assert_eq!(common.poly_commits.len(), 3);
    for (start, end) in [(0, 1), (0, 21), (20, 21), (21, 22), (21, 42), (30, 40), (42, 47), (46, 47)]
    {
        let range = start..end;
        let stmt = Statement {
            payload_subslice: &payload[range.clone()],
            range: range.clone(),
            commit: &commit,
            common: &common,
        };
        let small: SmallRangeProof<u64> = advz.payload_proof(&payload, range.clone()).unwrap();
        assert_eq!(advz.payload_verify(stmt.clone(), &small), Ok(Ok(())));
        let large: LargeRangeProof<u64> = advz.payload_proof(&payload, range.clone()).unwrap();
        assert_eq!(advz.payload_verify(stmt, &large), Ok(Ok(())));
    }
    let over: Result<SmallRangeProof<u64>, _> = advz.payload_proof(&payload, 20..22);
    assert_eq!(over, Err(VidError::Argument(ArgumentError::SpansPolynomials { count: 2 })));
}

#[test]
fn a_small_range_proof_holds_openings_and_boundary_bytes() {
    let advz = toy_advz();
    let payload = counting_payload(3 * POLY_BYTES);
    // bytes 37..44 of the payload: the last 5 bytes of element 1 and the first
    // 2 bytes of element 2 of polynomial 1
    let range = 37..44;
    let proof = prove_small(&advz, &payload, range.clone());
    assert_eq!(proof.chunk_range(), 37..44);
    assert_eq!(proof.prefix_bytes(), &payload[35..37].to_vec());
    assert_eq!(proof.prefix_bytes(), &vec![36, 37]);
    assert_eq!(proof.suffix_bytes(), &payload[44..49].to_vec());
    assert_eq!(proof.suffix_bytes(), &vec![45, 46, 47, 48, 49]);
    // the openings are those of the polynomial at the points of elements 1 and 2
    let toy = advz.primitives();
    let elems = bytes_to_field::<Toy>(&payload[28..56]);
    let polynomial = toy.polynomial(&elems);
    let (openings, evals) = toy.multi_open(&polynomial, &toy.domain_elements(1, 2)).unwrap();
    assert_eq!(evals, elems[1..3].to_vec());
    assert_eq!(proof.proofs(), &openings);
}

#[test]
fn a_large_range_proof_holds_the_other_elements_and_boundary_bytes() {
    let advz = toy_advz();
    let payload = counting_payload(3 * POLY_BYTES);
    let elems = bytes_to_field::<Toy>(&payload[28..56]);

    let proof = prove_large(&advz, &payload, 37..44);
    assert_eq!(proof.chunk_range(), 37..44);
    assert_eq!(proof.prefix_elems(), &elems[..1].to_vec());
    assert_eq!(proof.suffix_elems(), &elems[3..].to_vec());
    assert_eq!(proof.prefix_bytes(), &vec![36, 37]);
    assert_eq!(proof.suffix_bytes(), &vec![45, 46, 47, 48, 49]);

    // a range of whole elements has no boundary bytes
    let proof = prove_large(&advz, &payload, 28..42);
    assert_eq!(proof.prefix_elems(), &Vec::<u64>::new());
    assert_eq!(proof.suffix_elems(), &elems[2..].to_vec());
    assert_eq!(proof.prefix_bytes(), &Vec::<u8>::new());
    assert_eq!(proof.suffix_bytes(), &Vec::<u8>::new());

    // the whole polynomial leaves nothing for the proof to hold
    let proof = prove_large(&advz, &payload, 28..56);
    assert_eq!(proof.prefix_elems(), &Vec::<u64>::new());
    assert_eq!(proof.suffix_elems(), &Vec::<u64>::new());
}

#[test]
fn boundary_bytes_stop_where_a_short_payload_ends() {
    let advz = toy_advz();
    // the third polynomial holds one whole element and 3 bytes of a second
    let payload = counting_payload(2 * POLY_BYTES + 10);
    let (commit, common) = disperse(&advz, &payload);
    let range = 64..65;
    let small = prove_small(&advz, &payload, range.clone());
    assert_eq!(small.proofs().len(), 1);
    assert_eq!(small.prefix_bytes(), &vec![64]);
    assert_eq!(small.suffix_bytes(), &vec![66]);
    let large = prove_large(&advz, &payload, range.clone());
    assert_eq!(large.prefix_elems().len(), 1);
    assert_eq!(large.suffix_elems().len(), 0);
    assert_eq!(large.prefix_bytes(), &vec![64]);
    assert_eq!(large.suffix_bytes(), &vec![66]);
    let stmt = Statement {
        payload_subslice: &payload[range.clone()],
        range,
        commit: &commit,
        common: &common,
    };
    assert_eq!(advz.payload_verify(stmt.clone(), &small), Ok(Ok(())));
    assert_eq!(advz.payload_verify(stmt, &large), Ok(Ok(())));
}

#[test]
fn proving_refuses_a_range_that_is_empty_or_outside_the_payload() {
    let advz = toy_advz();
    let payload = counting_payload(3 * POLY_BYTES);
    let small: Result<SmallRangeProof<u64>, _> = advz.payload_proof(&payload, 5..5);
    assert_eq!(small, Err(VidError::Argument(ArgumentError::EmptyRange { start: 5, end: 5 })));
    let large: Result<LargeRangeProof<u64>, _> = advz.payload_proof(&payload, 6..5);
    assert_eq!(large, Err(VidError::Argument(ArgumentError::EmptyRange { start: 6, end: 5 })));
    let small: Result<SmallRangeProof<u64>, _> = advz.payload_proof(&payload, 80..85);
    assert_eq!(
        small,
        Err(VidError::Argument(ArgumentError::RangeOutOfBounds {
            start: 80,
            end: 85,
            payload_len: 84
        }))
    );
    let large: Result<LargeRangeProof<u64>, _> = advz.payload_proof(&payload, 84..85);
    assert_eq!(
        large,
        Err(VidError::Argument(ArgumentError::RangeOutOfBounds {
            start: 84,
            end: 85,
            payload_len: 84
        }))
    );
    let empty: Result<LargeRangeProof<u64>, _> = advz.payload_proof(&[], 0..1);
    assert_eq!(
        empty,
        Err(VidError::Argument(ArgumentError::RangeOutOfBounds {
            start: 0,
            end: 1,
            payload_len: 0
        }))
    );
}

#[test]
fn proving_twice_gives_one_proof() {
    let advz = toy_advz();
    let payload = counting_payload(3 * POLY_BYTES);
    let (commit, common) = disperse(&advz, &payload);
    let range = 30..50;
    let stmt = Statement {
        payload_subslice: &payload[range.clone()],
        range: range.clone(),
        commit: &commit,
        common: &common,
    };
    let small_once = prove_small(&advz, &payload, range.clone());
    let small_again = prove_small(&advz, &payload, range.clone());
    assert_eq!(small_once, small_again);
    assert_eq!(small_once.clone(), small_again);
    assert_eq!(advz.payload_verify(stmt.clone(), &small_once), Ok(Ok(())));
    assert_eq!(advz.payload_verify(stmt.clone(), &small_again), Ok(Ok(())));
    assert_eq!(advz.payload_verify(stmt.clone(), &small_once), Ok(Ok(())));
    let large_once = prove_large(&advz, &payload, range.clone());
    let large_again = prove_large(&advz, &payload, range.clone());
    assert_eq!(large_once, large_again);
    assert_eq!(large_once.clone(), large_again);
    assert_eq!(advz.payload_verify(stmt.clone(), &large_again), Ok(Ok(())));
    assert_eq!(advz.payload_verify(stmt, &large_once), Ok(Ok(())));
}

#[test]
fn a_wrong_byte_in_the_claim_fails_the_proof() {
    let advz = toy_advz();
    let payload = counting_payload(3 * POLY_BYTES);
    let (commit, common) = disperse(&advz, &payload);
    let range = 37..44;
    let small = prove_small(&advz, &payload, range.clone());
    let large = prove_large(&advz, &payload, range.clone());
    for at in 0..range.len() {
        let mut claimed = payload[range.clone()].to_vec();
        claimed[at] ^= 0x40;
        let stmt = Statement {
            payload_subslice: &claimed,
            range: range.clone(),
            commit: &commit,
            common: &common,
        };
        assert_eq!(advz.payload_verify(stmt.clone(), &small), Ok(Err(())));
        assert_eq!(advz.payload_verify(stmt, &large), Ok(Err(())));
    }
}

#[test]
fn a_wrong_boundary_byte_fails_the_proof() {
    let advz = toy_advz();
    let payload = counting_payload(3 * POLY_BYTES);
    let (commit, common) = disperse(&advz, &payload);
    let range = 37..44;
    let stmt = Statement {
        payload_subslice: &payload[range.clone()],
        range: range.clone(),
        commit: &commit,
        common: &common,
    };
    let small = prove_small(&advz, &payload, range.clone());
    let large = prove_large(&advz, &payload, range.clone());
    for at in 0..small.prefix_bytes().len() {
        let mut prefix_bytes = small.prefix_bytes().clone();
        prefix_bytes[at] ^= 1;
        let tampered = SmallRangeProof::new(
            small.proofs().clone(),
            prefix_bytes.clone(),
            small.suffix_bytes().clone(),
            small.chunk_range(),
        );
        assert_eq!(advz.payload_verify(stmt.clone(), &tampered), Ok(Err(())));
        let tampered = LargeRangeProof::new(
            large.prefix_elems().clone(),
            large.suffix_elems().clone(),
            prefix_bytes,
            large.suffix_bytes().clone(),
            large.chunk_range(),
        );
        assert_eq!(advz.payload_verify(stmt.clone(), &tampered), Ok(Err(())));
    }
    for at in 0..small.suffix_bytes().len() {
        let mut suffix_bytes = small.suffix_bytes().clone();
        suffix_bytes[at] ^= 0x80;
        let tampered = SmallRangeProof::new(
            small.proofs().clone(),
            small.prefix_bytes().clone(),
            suffix_bytes.clone(),
            small.chunk_range(),
        );
        assert_eq!(advz.payload_verify(stmt.clone(), &tampered), Ok(Err(())));
        let tampered = LargeRangeProof::new(
            large.prefix_elems().clone(),
            large.suffix_elems().clone(),
            large.prefix_bytes().clone(),
            suffix_bytes,
            large.chunk_range(),
        );
        assert_eq!(advz.payload_verify(stmt.clone(), &tampered), Ok(Err(())));
    }
}

#[test]
fn a_wrong_element_fails_the_proof() {
    let advz = toy_advz();
    let payload = counting_payload(3 * POLY_BYTES);
    let (commit, common) = disperse(&advz, &payload);
    let range = 37..44;
    let stmt = Statement {
        payload_subslice: &payload[range.clone()],
        range: range.clone(),
        commit: &commit,
        common: &common,
    };
    let large = prove_large(&advz, &payload, range);
    assert_eq!(large.prefix_elems().len(), 1);
    assert_eq!(large.suffix_elems().len(), 1);
    let mut prefix_elems = large.prefix_elems().clone();
    prefix_elems[0] += 1;
    let tampered = LargeRangeProof::new(
        prefix_elems,
        large.suffix_elems().clone(),
        large.prefix_bytes().clone(),
        large.suffix_bytes().clone(),
        large.chunk_range(),
    );
    assert_eq!(advz.payload_verify(stmt.clone(), &tampered), Ok(Err(())));
    let mut suffix_elems = large.suffix_elems().clone();
    suffix_elems[0] += 1;
    let tampered = LargeRangeProof::new(
        large.prefix_elems().clone(),
        suffix_elems,
        large.prefix_bytes().clone(),
        large.suffix_bytes().clone(),
        large.chunk_range(),
    );
    assert_eq!(advz.payload_verify(stmt.clone(), &tampered), Ok(Err(())));
    // the elements in another order
    let tampered = LargeRangeProof::new(
        large.suffix_elems().clone(),
        large.prefix_elems().clone(),
        large.prefix_bytes().clone(),
        large.suffix_bytes().clone(),
        large.chunk_range(),
    );
    assert_eq!(advz.payload_verify(stmt, &tampered), Ok(Err(())));
}

#[test]
fn a_wrong_opening_fails_the_proof() {
    let advz = toy_advz();
    let payload = counting_payload(3 * POLY_BYTES);
    let (commit, common) = disperse(&advz, &payload);
    let range = 30..50;
    let stmt = Statement {
        payload_subslice: &payload[range.clone()],
        range: range.clone(),
        commit: &commit,
        common: &common,
    };
    let small = prove_small(&advz, &payload, range);
    assert_eq!(small.proofs().len(), 4);
    for at in 0..4 {
        let mut proofs = small.proofs().clone();
        proofs[at] += 1;
        let tampered = SmallRangeProof::new(
            proofs,
            small.prefix_bytes().clone(),
            small.suffix_bytes().clone(),
            small.chunk_range(),
        );
        assert_eq!(advz.payload_verify(stmt.clone(), &tampered), Ok(Err(())));
    }
}

#[test]
fn a_proof_for_another_polynomial_fails() {
    let advz = toy_advz();
    let payload = counting_payload(3 * POLY_BYTES);
    let (commit, common) = disperse(&advz, &payload);
    // the commitments of the first two polynomials change places
    let mut swapped = Common::<Toy> { poly_commits: common.poly_commits.clone() };
    swapped.poly_commits.swap(0, 1);
    let swapped_commit = Toy::commits_digest(&swapped.poly_commits).unwrap();
    assert_ne!(swapped_commit, commit);
    let range = 3..9;
    let stmt = Statement {
        payload_subslice: &payload[range.clone()],
        range: range.clone(),
        commit: &swapped_commit,
        common: &swapped,
    };
    let small = prove_small(&advz, &payload, range.clone());
    assert_eq!(advz.payload_verify(stmt.clone(), &small), Ok(Err(())));
    let large = prove_large(&advz, &payload, range);
    assert_eq!(advz.payload_verify(stmt, &large), Ok(Err(())));
}

#[test]
fn verification_binds_the_commitment_list_to_the_fingerprint() {
    let advz = toy_advz();
    let payload = counting_payload(3 * POLY_BYTES);
    let (commit, common) = disperse(&advz, &payload);
    let range = 30..50;
    let wrong = commit ^ 1;
    let stmt = Statement {
        payload_subslice: &payload[range.clone()],
        range: range.clone(),
        commit: &wrong,
        common: &common,
    };
    let small = prove_small(&advz, &payload, range.clone());
    assert_eq!(
        advz.payload_verify(stmt.clone(), &small),
        Err(VidError::Argument(ArgumentError::CommitMismatch))
    );
    let large = prove_large(&advz, &payload, range);
    assert_eq!(
        advz.payload_verify(stmt, &large),
        Err(VidError::Argument(ArgumentError::CommitMismatch))
    );
}

#[test]
fn verification_checks_the_statement_before_the_polynomials_and_those_before_the_fingerprint() {
    let advz = toy_advz();
    let payload = counting_payload(3 * POLY_BYTES);
    let (commit, common) = disperse(&advz, &payload);
    let wrong = commit ^ 1;
    let inside = prove_large(&advz, &payload, 20..28);
    let spanning = LargeRangeProof::new(
        inside.prefix_elems().clone(),
        inside.suffix_elems().clone(),
        inside.prefix_bytes().clone(),
        inside.suffix_bytes().clone(),
        20..30,
    );
    // a wrong length of the claim, a spanning range and a wrong fingerprint
    let stmt = Statement {
        payload_subslice: &payload[20..29],
        range: 20..30,
        commit: &wrong,
        common: &common,
    };
    assert_eq!(
        advz.payload_verify(stmt, &spanning),
        Err(VidError::Argument(ArgumentError::SubsliceLength { subslice_len: 9, range_len: 10 }))
    );
    // a spanning range and a wrong fingerprint
    let stmt = Statement {
        payload_subslice: &payload[20..30],
        range: 20..30,
        commit: &wrong,
        common: &common,
    };
    assert_eq!(
        advz.payload_verify(stmt, &spanning),
        Err(VidError::Argument(ArgumentError::SpansPolynomials { count: 2 }))
    );
}

#[test]
fn verification_refuses_a_statement_that_does_not_fit_the_proof() {
    let advz = toy_advz();
    let payload = counting_payload(3 * POLY_BYTES);
    let (commit, common) = disperse(&advz, &payload);
    let small = prove_small(&advz, &payload, 30..50);
    let large = prove_large(&advz, &payload, 30..50);

    let stmt = Statement {
        payload_subslice: &payload[30..30],
        range: 30..30,
        commit: &commit,
        common: &common,
    };
    let expected = Err(VidError::Argument(ArgumentError::EmptyStatementRange {
        start: 30,
        end: 30,
    }));
    assert_eq!(advz.payload_verify(stmt.clone(), &small), expected);
    assert_eq!(advz.payload_verify(stmt, &large), expected);

    let stmt = Statement {
        payload_subslice: &payload[30..49],
        range: 30..50,
        commit: &commit,
        common: &common,
    };
    let expected = Err(VidError::Argument(ArgumentError::SubsliceLength {
        subslice_len: 19,
        range_len: 20,
    }));
    assert_eq!(advz.payload_verify(stmt.clone(), &small), expected);
    assert_eq!(advz.payload_verify(stmt, &large), expected);

    let stmt = Statement {
        payload_subslice: &payload[30..49],
        range: 30..49,
        commit: &commit,
        common: &common,
    };
    let expected = Err(VidError::Argument(ArgumentError::RangeMismatch {
        stmt_start: 30,
        stmt_end: 49,
        proof_start: 30,
        proof_end: 50,
    }));
    assert_eq!(advz.payload_verify(stmt.clone(), &small), expected);
    assert_eq!(advz.payload_verify(stmt, &large), expected);
}

#[test]
fn verification_refuses_a_small_proof_with_too_few_or_too_many_openings() {
    let advz = toy_advz();
    let payload = counting_payload(3 * POLY_BYTES);
    let (commit, common) = disperse(&advz, &payload);
    let range = 30..50;
    let stmt = Statement {
        payload_subslice: &payload[range.clone()],
        range: range.clone(),
        commit: &commit,
        common: &common,
    };
    let small = prove_small(&advz, &payload, range);
    let mut proofs = small.proofs().clone();
    proofs.pop();
    let fewer = SmallRangeProof::new(
        proofs,
        small.prefix_bytes().clone(),
        small.suffix_bytes().clone(),
        small.chunk_range(),
    );
    assert_eq!(
        advz.payload_verify(stmt.clone(), &fewer),
        Err(VidError::Argument(ArgumentError::ProofLength { data_len: 4, proof_len: 3 }))
    );
    let mut proofs = small.proofs().clone();
    proofs.push(0);
    let more = SmallRangeProof::new(
        proofs,
        small.prefix_bytes().clone(),
        small.suffix_bytes().clone(),
        small.chunk_range(),
    );
    assert_eq!(
        advz.payload_verify(stmt.clone(), &more),
        Err(VidError::Argument(ArgumentError::ProofLength { data_len: 4, proof_len: 5 }))
    );
    // without its boundary bytes the claim makes up one element less
    let shorter = SmallRangeProof::new(
        small.proofs().clone(),
        Vec::new(),
        Vec::new(),
        small.chunk_range(),
    );
    assert_eq!(
        advz.payload_verify(stmt, &shorter),
        Err(VidError::Argument(ArgumentError::ProofLength { data_len: 3, proof_len: 4 }))
    );
}

#[test]
fn verification_refuses_a_small_proof_for_more_elements_than_the_range_touches() {
    let advz = toy_advz();
    let payload = counting_payload(3 * POLY_BYTES);
    let (commit, common) = disperse(&advz, &payload);
    // bytes 30..40 touch the elements 0 and 1 of polynomial 1
    let range = 30..40;
    let stmt = Statement {
        payload_subslice: &payload[range.clone()],
        range: range.clone(),
        commit: &commit,
        common: &common,
    };
    let small = prove_small(&advz, &payload, range);
    assert_eq!(small.proofs().len(), 2);
    // one more opening, and boundary bytes for one more element
    let mut proofs = small.proofs().clone();
    proofs.push(0);
    let mut suffix_bytes = small.suffix_bytes().clone();
    suffix_bytes.extend_from_slice(&[0; CAPACITY]);
    let longer = SmallRangeProof::new(
        proofs,
        small.prefix_bytes().clone(),
        suffix_bytes,
        small.chunk_range(),
    );
    assert_eq!(
        advz.payload_verify(stmt.clone(), &longer),
        Err(VidError::Argument(ArgumentError::ElementCount { data_len: 3, range_len: 2 }))
    );
    // bytes 34..36 touch the elements 0 and 1 of polynomial 1 as well; without
    // boundary bytes they make up one element
    let range = 34..36;
    let stmt = Statement {
        payload_subslice: &payload[range.clone()],
        range: range.clone(),
        commit: &commit,
        common: &common,
    };
    let small = prove_small(&advz, &payload, range);
    assert_eq!(small.proofs().len(), 2);
    let shorter = SmallRangeProof::new(
        small.proofs()[..1].to_vec(),
        Vec::new(),
        Vec::new(),
        small.chunk_range(),
    );
    assert_eq!(
        advz.payload_verify(stmt, &shorter),
        Err(VidError::Argument(ArgumentError::ElementCount { data_len: 1, range_len: 2 }))
    );
}

#[test]
fn verification_refuses_a_range_beyond_the_commitment_list() {
    let advz = toy_advz();
    let payload = counting_payload(3 * POLY_BYTES);
    let (_, common) = disperse(&advz, &payload);
    // the list of a payload of two polynomials, with its own fingerprint
    let shorter = Common::<Toy> { poly_commits: common.poly_commits[..2].to_vec() };
    let commit = Toy::commits_digest(&shorter.poly_commits).unwrap();
    let range = 2 * POLY_BYTES + 3..2 * POLY_BYTES + 9;
    let stmt = Statement {
        payload_subslice: &payload[range.clone()],
        range: range.clone(),
        commit: &commit,
        common: &shorter,
    };
    let expected = Err(VidError::Argument(ArgumentError::MissingCommitment {
        poly: 2,
        commits_len: 2,
    }));
    let small = prove_small(&advz, &payload, range.clone());
    assert_eq!(advz.payload_verify(stmt.clone(), &small), expected);
    let large = prove_large(&advz, &payload, range);
    assert_eq!(advz.payload_verify(stmt.clone(), &large), expected);
    // the check comes before the scheme is asked for a commitment
    let failing = Advz::new(CHUNK_SIZE, Toy::failing(CHUNK_SIZE, Fail::Commit)).unwrap();
    assert_eq!(failing.payload_verify(stmt, &large), expected);
}

#[test]
fn failures_of_the_scheme_are_handed_on() {
    let payload = counting_payload(3 * POLY_BYTES);
    let good = toy_advz();
    let (commit, common) = disperse(&good, &payload);
    let range = 30..50;
    let stmt = Statement {
        payload_subslice: &payload[range.clone()],
        range: range.clone(),
        commit: &commit,
        common: &common,
    };
    let small = prove_small(&good, &payload, range.clone());
    let large = prove_large(&good, &payload, range.clone());

    let advz = Advz::new(CHUNK_SIZE, Toy::failing(CHUNK_SIZE, Fail::MultiOpen)).unwrap();
    let made: Result<SmallRangeProof<u64>, _> = advz.payload_proof(&payload, range.clone());
    assert_eq!(made, Err(VidError::Internal("multi_open".to_string())));
    // a large-range proof needs nothing of the scheme
    let made: Result<LargeRangeProof<u64>, _> = advz.payload_proof(&payload, range.clone());
    assert_eq!(made.as_ref(), Ok(&large));

    let advz = Advz::new(CHUNK_SIZE, Toy::failing(CHUNK_SIZE, Fail::Verify)).unwrap();
    assert_eq!(
        advz.payload_verify(stmt.clone(), &small),
        Err(VidError::Internal("verify".to_string()))
    );
    assert_eq!(advz.payload_verify(stmt.clone(), &large), Ok(Ok(())));

    let advz = Advz::new(CHUNK_SIZE, Toy::failing(CHUNK_SIZE, Fail::Commit)).unwrap();
    assert_eq!(
        advz.payload_verify(stmt.clone(), &large),
        Err(VidError::Internal("commit".to_string()))
    );
    assert_eq!(advz.payload_verify(stmt, &small), Ok(Ok(())));

    // argument errors come before the scheme is asked
    let spanning: Result<SmallRangeProof<u64>, _> = advz.payload_proof(&payload, 20..30);
    assert_eq!(spanning, Err(VidError::Argument(ArgumentError::SpansPolynomials { count: 2 })));
}

#[test]
fn a_failure_of_the_hash_is_handed_on() {
    let payload = counting_payload(3 * POLY_BYTES);
    let good = toy_advz();
    let (_, common) = disperse(&good, &payload);
    let range = 30..50;
    let small = prove_small(&good, &payload, range.clone());
    let large = prove_large(&good, &payload, range.clone());

    let advz = Advz::new(CHUNK_SIZE, NoHash(Toy::new(CHUNK_SIZE))).unwrap();
    let common = Common::<NoHash> { poly_commits: common.poly_commits };
    let stmt = Statement {
        payload_subslice: &payload[range.clone()],
        range,
        commit: &0,
        common: &common,
    };
    assert_eq!(
        advz.payload_verify(stmt.clone(), &small),
        Err(VidError::Internal("hash".to_string()))
    );
    assert_eq!(
        advz.payload_verify(stmt, &large),
        Err(VidError::Internal("hash".to_string()))
    );
}

#[test]
fn argument_errors_in_words() {
    assert_eq!(
        ArgumentError::EmptyRange { start: 3, end: 3 }.message(),
        "empty range (3..3)"
    );
    assert_eq!(
        ArgumentError::RangeOutOfBounds { start: 80, end: 85, payload_len: 84 }.message(),
        "range (80..85) out of bounds for payload len 84"
    );
    assert_eq!(
        ArgumentError::SpansPolynomials { count: 2 }.message(),
        "request spans 2 polynomials, expect 1"
    );
    assert_eq!(
        ArgumentError::SpansPolynomials { count: 0 }.message(),
        "request spans 0 polynomials, expect 1"
    );
    assert_eq!(
        ArgumentError::EmptyStatementRange { start: 10, end: 9 }.message(),
        "empty range (10,9)"
    );
    assert_eq!(
        ArgumentError::SubsliceLength { subslice_len: 19, range_len: 20 }.message(),
        "payload_subslice length 19 inconsistent with range length 20"
    );
    assert_eq!(
        ArgumentError::RangeMismatch {
            stmt_start: 30,
            stmt_end: 49,
            proof_start: 30,
            proof_end: 50
        }
        .message(),
        "statement range (30,49) differs from proof range (30,50)"
    );
    assert_eq!(
        ArgumentError::ProofLength { data_len: 4, proof_len: 3 }.message(),
        "data len 4 differs from proof len 3"
    );
    assert_eq!(
        ArgumentError::ElementCount { data_len: 3, range_len: 2 }.message(),
        "data len 3 differs from range elem len 2"
    );
    assert_eq!(
        ArgumentError::MissingCommitment { poly: 2, commits_len: 2 }.message(),
        "polynomial 2 out of bounds for 2 commitments"
    );
    assert_eq!(
        ArgumentError::CommitMismatch.message(),
        "common inconsistent with commit"
    );
    assert_eq!(
        ArgumentError::EmptyRange { start: 1234567890, end: usize::MAX }.message(),
        format!("empty range (1234567890..{})", usize::MAX)
    );
    assert_eq!(
        ArgumentError::SpansPolynomials { count: 1000 }.message(),
        "request spans 1000 polynomials, expect 1"
    );
}
