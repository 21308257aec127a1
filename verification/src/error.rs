//! What can go wrong with a request, as opposed to a proof that is merely
//! wrong: a proof that fails its cryptographic check is no error.

use vstd::prelude::*;

verus! {

/// A request that is malformed or inconsistent in itself.
#[derive(Clone, Copy, Debug, PartialEq, Eq, Structural)]
pub enum ArgumentError {
    /// The byte range to prove holds no byte.
    EmptyRange { start: usize, end: usize },
    /// The byte range to prove ends after the payload does.
    RangeOutOfBounds { start: usize, end: usize, payload_len: usize },
    /// The byte range touches `count` polynomials and not exactly one.
    SpansPolynomials { count: usize },
    /// The byte range of a statement holds no byte.
    EmptyStatementRange { start: usize, end: usize },
    /// A statement claims a number of bytes other than the length of its range.
    SubsliceLength { subslice_len: usize, range_len: usize },
    /// A statement speaks of another range than the proof was made for.
    RangeMismatch { stmt_start: usize, stmt_end: usize, proof_start: usize, proof_end: usize },
    /// The claimed bytes and the proof's boundary bytes make up a number of
    /// field elements other than the number of openings in the proof.
    ProofLength { data_len: usize, proof_len: usize },
    /// The claimed bytes and the proof's boundary bytes make up a number of
    /// field elements other than the number that the range touches.
    ElementCount { data_len: usize, range_len: usize },
    /// The commitment list has no commitment for the polynomial of the range.
    MissingCommitment { poly: usize, commits_len: usize },
    /// The commitment list does not hash to the stated fingerprint.
    CommitMismatch,
}

/// Why a range proof could not be made or checked.
#[derive(Debug, PartialEq, Eq)]
pub enum VidError<E> {
    /// The request itself is at fault.
    Argument(ArgumentError),
    /// The underlying commitment scheme reported a failure, handed on as it came.
    Internal(E),
}

pub type VidResult<T, E> = Result<T, VidError<E>>;

/// The decimal digit `digit`.
pub open spec fn spec_digit(digit: nat) -> char {
    if digit == 0 {
        '0'
    } else if digit == 1 {
        '1'
    } else if digit == 2 {
        '2'
    } else if digit == 3 {
        '3'
    } else if digit == 4 {
        '4'
    } else if digit == 5 {
        '5'
    } else if digit == 6 {
        '6'
    } else if digit == 7 {
        '7'
    } else if digit == 8 {
        '8'
    } else {
        '9'
    }
}

/// The decimal numeral of `number`, without leading zeros.
pub open spec fn spec_decimal(number: nat) -> Seq<char>
    decreases number,
{
    if number < 10 {
        seq![spec_digit(number)]
    } else {
        spec_decimal(number / 10).push(spec_digit(number % 10))
    }
}

/// The numeral of one decimal digit.
fn digit_str(digit: usize) -> (numeral: &'static str)
    requires
        digit < 10,
    ensures
        numeral@ == seq![spec_digit(digit as nat)],
{
    proof {
        reveal_strlit("0");
        reveal_strlit("1");
        reveal_strlit("2");
        reveal_strlit("3");
        reveal_strlit("4");
        reveal_strlit("5");
        reveal_strlit("6");
        reveal_strlit("7");
        reveal_strlit("8");
        reveal_strlit("9");
    }
    let numeral = if digit == 0 {
        "0"
    } else if digit == 1 {
        "1"
    } else if digit == 2 {
        "2"
    } else if digit == 3 {
        "3"
    } else if digit == 4 {
        "4"
    } else if digit == 5 {
        "5"
    } else if digit == 6 {
        "6"
    } else if digit == 7 {
        "7"
    } else if digit == 8 {
        "8"
    } else {
        "9"
    };
    assert(numeral@ =~= seq![spec_digit(digit as nat)]);
    numeral
}

/// Appends the decimal numeral of `number` to `text`.
fn append_decimal(text: &mut String, number: usize)
    ensures
        final(text)@ == old(text)@ + spec_decimal(number as nat),
    decreases number,
{
    if number >= 10 {
        append_decimal(text, number / 10);
    }
    text.append(digit_str(number % 10));
    assert(text@ =~= old(text)@ + spec_decimal(number as nat));
}

impl ArgumentError {
    /// The error in words.
    pub open spec fn spec_message(self) -> Seq<char> {
        match self {
            ArgumentError::EmptyRange { start, end } => "empty range ("@ + spec_decimal(
                start as nat,
            ) + ".."@ + spec_decimal(end as nat) + ")"@,
            ArgumentError::RangeOutOfBounds { start, end, payload_len } => "range ("@
                + spec_decimal(start as nat) + ".."@ + spec_decimal(end as nat)
                + ") out of bounds for payload len "@ + spec_decimal(payload_len as nat),
            ArgumentError::SpansPolynomials { count } => "request spans "@ + spec_decimal(
                count as nat,
            ) + " polynomials, expect 1"@,
            ArgumentError::EmptyStatementRange { start, end } => "empty range ("@ + spec_decimal(
                start as nat,
            ) + ","@ + spec_decimal(end as nat) + ")"@,
            ArgumentError::SubsliceLength { subslice_len, range_len } => "payload_subslice length "@
                + spec_decimal(subslice_len as nat) + " inconsistent with range length "@
                + spec_decimal(range_len as nat),
            ArgumentError::RangeMismatch { stmt_start, stmt_end, proof_start, proof_end } =>
                "statement range ("@ + spec_decimal(stmt_start as nat) + ","@ + spec_decimal(
                    stmt_end as nat,
                ) + ") differs from proof range ("@ + spec_decimal(proof_start as nat) + ","@
                    + spec_decimal(proof_end as nat) + ")"@,
            ArgumentError::ProofLength { data_len, proof_len } => "data len "@ + spec_decimal(
                data_len as nat,
            ) + " differs from proof len "@ + spec_decimal(proof_len as nat),
            ArgumentError::ElementCount { data_len, range_len } => "data len "@ + spec_decimal(
                data_len as nat,
            ) + " differs from range elem len "@ + spec_decimal(range_len as nat),
            ArgumentError::MissingCommitment { poly, commits_len } => "polynomial "@
                + spec_decimal(poly as nat) + " out of bounds for "@ + spec_decimal(
                commits_len as nat,
            ) + " commitments"@,
            ArgumentError::CommitMismatch => "common inconsistent with commit"@,
        }
    }

    /// The error in words.
    pub fn message(&self) -> (text: String)
        ensures
            text@ == self.spec_message(),
    {
        let mut text = String::new();
        match *self {
            ArgumentError::EmptyRange { start, end } => {
                text.append("empty range (");
                append_decimal(&mut text, start);
                text.append("..");
                append_decimal(&mut text, end);
                text.append(")");
            },
            ArgumentError::RangeOutOfBounds { start, end, payload_len } => {
                text.append("range (");
                append_decimal(&mut text, start);
                text.append("..");
                append_decimal(&mut text, end);
                text.append(") out of bounds for payload len ");
                append_decimal(&mut text, payload_len);
            },
            ArgumentError::SpansPolynomials { count } => {
                text.append("request spans ");
                append_decimal(&mut text, count);
                text.append(" polynomials, expect 1");
            },
            ArgumentError::EmptyStatementRange { start, end } => {
                text.append("empty range (");
                append_decimal(&mut text, start);
                text.append(",");
                append_decimal(&mut text, end);
                text.append(")");
            },
            ArgumentError::SubsliceLength { subslice_len, range_len } => {
                text.append("payload_subslice length ");
                append_decimal(&mut text, subslice_len);
                text.append(" inconsistent with range length ");
                append_decimal(&mut text, range_len);
            },
            ArgumentError::RangeMismatch { stmt_start, stmt_end, proof_start, proof_end } => {
                text.append("statement range (");
                append_decimal(&mut text, stmt_start);
                text.append(",");
                append_decimal(&mut text, stmt_end);
                text.append(") differs from proof range (");
                append_decimal(&mut text, proof_start);
                text.append(",");
                append_decimal(&mut text, proof_end);
                text.append(")");
            },
            ArgumentError::ProofLength { data_len, proof_len } => {
                text.append("data len ");
                append_decimal(&mut text, data_len);
                text.append(" differs from proof len ");
                append_decimal(&mut text, proof_len);
            },
            ArgumentError::ElementCount { data_len, range_len } => {
                text.append("data len ");
                append_decimal(&mut text, data_len);
                text.append(" differs from range elem len ");
                append_decimal(&mut text, range_len);
            },
            ArgumentError::MissingCommitment { poly, commits_len } => {
                text.append("polynomial ");
                append_decimal(&mut text, poly);
                text.append(" out of bounds for ");
                append_decimal(&mut text, commits_len);
                text.append(" commitments");
            },
            ArgumentError::CommitMismatch => {
                text.append("common inconsistent with commit");
            },
        }
        assert(text@ =~= self.spec_message());
        text
    }
}

} // verus!
