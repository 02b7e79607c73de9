//! The error taxonomy shared by the decoder and the encoder, and the small
//! term-coercion helpers used while decoding composite layouts.
use crate::terms::{
    Atom, BigInteger, BigIntegerV, FixInteger, Pid, PidV, Reference, ReferenceV, Term, TermV,
    term_view,
};
use vstd::prelude::*;

verus! {

use vstd::utf8::{encode_utf8, valid_utf8};

/// Which kind of term a composite layout expected at some field.
#[derive(Debug, Clone, Copy, PartialEq, Eq, Structural)]
pub enum ExpectedKind {
    Atom,
    Pid,
    FixInteger,
}

/// View of a decode failure.
#[verifier::ext_equal]
pub enum DecodeErrV {
    UnexpectedEof,
    UnsupportedVersion { version: u8 },
    UnknownTag { tag: u8 },
    UnimplementedTag { tag: u8 },
    UnexpectedType { value: Box<TermV>, expected: ExpectedKind },
    OutOfRange { value: i32, start: i32, end: i32 },
    InvalidText,
    NonFiniteFloat,
}

/// A failure while decoding: every malformed field terminates the decode
/// immediately with one of these, and no partial term is ever returned.
#[derive(Debug, PartialEq)]
pub enum DecodeError {
    /// The input ended before the field that was being read.
    UnexpectedEof,
    /// The leading version byte is not the supported version.
    UnsupportedVersion { version: u8 },
    /// A tag byte outside every known layout.
    UnknownTag { tag: u8 },
    /// A recognized tag whose payload this codec deliberately rejects:
    /// compressed terms, distribution headers and atom-cache references.
    UnimplementedTag { tag: u8 },
    /// A field that must be a particular kind of term decoded as another.
    UnexpectedType { value: Term, expected: ExpectedKind },
    /// An integer field outside its valid range (the range is inclusive).
    OutOfRange { value: i32, range: core::ops::Range<i32> },
    /// Malformed text: atom bytes that are not valid UTF-8, or an
    /// unparseable legacy float text field.
    InvalidText,
    /// A float field holding a NaN or an infinity.
    NonFiniteFloat,
}

impl View for DecodeError {
    type V = DecodeErrV;

    open spec fn view(&self) -> DecodeErrV {
        match *self {
            DecodeError::UnexpectedEof => DecodeErrV::UnexpectedEof,
            DecodeError::UnsupportedVersion { version } => DecodeErrV::UnsupportedVersion {
                version,
            },
            DecodeError::UnknownTag { tag } => DecodeErrV::UnknownTag { tag },
            DecodeError::UnimplementedTag { tag } => DecodeErrV::UnimplementedTag { tag },
            DecodeError::UnexpectedType { ref value, expected } => DecodeErrV::UnexpectedType {
                value: Box::new(term_view(*value)),
                expected,
            },
            DecodeError::OutOfRange { value, ref range } => DecodeErrV::OutOfRange {
                value,
                start: range.start,
                end: range.end,
            },
            DecodeError::InvalidText => DecodeErrV::InvalidText,
            DecodeError::NonFiniteFloat => DecodeErrV::NonFiniteFloat,
        }
    }
}

/// View of an encode failure.
#[verifier::ext_equal]
pub enum EncodeErrV {
    TooLongAtomName { name: Seq<char> },
    TooLargeInteger { big: BigIntegerV },
    TooLargeReferenceId { reference: ReferenceV },
    TooLargeInternalFun,
}

/// A failure while encoding: each stated size limit of the format is
/// reported as its own error, before any byte of the offending field is
/// written.
#[derive(Debug, PartialEq)]
pub enum EncodeError {
    /// An atom whose name does not fit the 16-bit length field.
    TooLongAtomName(Atom),
    /// A big integer whose magnitude does not fit the 32-bit count field.
    TooLargeInteger(BigInteger),
    /// A reference whose id sequence does not fit the 16-bit count field.
    TooLargeReferenceId(Reference),
    /// An internal function closure whose body does not fit the 32-bit
    /// length prefix of its layout.
    TooLargeInternalFun,
}

impl View for EncodeError {
    type V = EncodeErrV;

    open spec fn view(&self) -> EncodeErrV {
        match *self {
            EncodeError::TooLongAtomName(ref a) => EncodeErrV::TooLongAtomName { name: a@ },
            EncodeError::TooLargeInteger(ref b) => EncodeErrV::TooLargeInteger { big: b@ },
            EncodeError::TooLargeReferenceId(ref r) => EncodeErrV::TooLargeReferenceId {
                reference: r@,
            },
            EncodeError::TooLargeInternalFun => EncodeErrV::TooLargeInternalFun,
        }
    }
}

/// The decoder's result: one term, or the failure that ended the decode.
pub type DecodeResult = Result<Term, DecodeError>;

/// The encoder's result.
pub type EncodeResult = Result<(), EncodeError>;

// ---------------------------------------------------------------------------
// Term coercions used by the composite layouts
// ---------------------------------------------------------------------------
/// The atom inside a decoded term, or an unexpected-type failure.
pub fn term_into_atom(t: Term) -> (r: Result<Atom, DecodeError>)
    ensures
        match r {
            Ok(a) => t@ == (TermV::Atom { name: a@ }),
            Err(e) => !(t@ matches TermV::Atom { .. }) && e@ == (DecodeErrV::UnexpectedType {
                value: Box::new(t@),
                expected: ExpectedKind::Atom,
            }),
        },
{
    match t {
        Term::Atom(a) => Ok(a),
        other => Err(DecodeError::UnexpectedType { value: other, expected: ExpectedKind::Atom }),
    }
}

/// The process identifier inside a decoded term, or an unexpected-type
/// failure.
pub fn term_into_pid(t: Term) -> (r: Result<Pid, DecodeError>)
    ensures
        match r {
            Ok(p) => t@ == (TermV::Pid { pid: p@ }),
            Err(e) => !(t@ matches TermV::Pid { .. }) && e@ == (DecodeErrV::UnexpectedType {
                value: Box::new(t@),
                expected: ExpectedKind::Pid,
            }),
        },
{
    match t {
        Term::Pid(p) => Ok(p),
        other => Err(DecodeError::UnexpectedType { value: other, expected: ExpectedKind::Pid }),
    }
}

/// The small integer inside a decoded term, or an unexpected-type failure.
pub fn term_into_fix_integer(t: Term) -> (r: Result<FixInteger, DecodeError>)
    ensures
        match r {
            Ok(n) => t@ == (TermV::FixInteger { value: n.value }),
            Err(e) => !(t@ matches TermV::FixInteger { .. }) && e@ == (DecodeErrV::UnexpectedType {
                value: Box::new(t@),
                expected: ExpectedKind::FixInteger,
            }),
        },
{
    match t {
        Term::FixInteger(n) => Ok(n),
        other => Err(
            DecodeError::UnexpectedType { value: other, expected: ExpectedKind::FixInteger },
        ),
    }
}

/// The small integer inside a decoded term, constrained to the given range
/// with an inclusive upper end, or the matching typed failure.
pub fn term_into_ranged_integer(t: Term, range: core::ops::Range<i32>) -> (r: Result<
    i32,
    DecodeError,
>)
    ensures
        match r {
            Ok(n) => t@ == (TermV::FixInteger { value: n }) && range.start <= n <= range.end,
            Err(e) => match e@ {
                DecodeErrV::UnexpectedType { value, expected } => !(t@ matches TermV::FixInteger {
                    ..
                }) && value == Box::new(t@) && expected == ExpectedKind::FixInteger,
                DecodeErrV::OutOfRange { value, start, end } => t@ == (TermV::FixInteger {
                    value,
                }) && start == range.start && end == range.end && !(range.start <= value
                    <= range.end),
                _ => false,
            },
        },
{
    match term_into_fix_integer(t) {
        Ok(i) => {
            let n = i.value;
            if range.start <= n && n <= range.end {
                Ok(n)
            } else {
                Err(DecodeError::OutOfRange { value: n, range })
            }
        },
        Err(e) => Err(e),
    }
}

// ---------------------------------------------------------------------------
// Text and sign fields
// ---------------------------------------------------------------------------
/// Relies on String::from_utf8: it succeeds exactly on valid UTF-8 input,
/// and the returned string is the decoding of those same bytes.
#[verifier::external_body]
pub(crate) fn utf8_to_string(bytes: Vec<u8>) -> (r: Option<String>)
    ensures
        r matches Some(s) ==> valid_utf8(bytes@) && encode_utf8(s@) == bytes@,
        r is None ==> !valid_utf8(bytes@),
{
    String::from_utf8(bytes).ok()
}

/// The text decoded from a length-prefixed atom payload. The wire names the
/// legacy layouts Latin-1, but only byte sequences that are valid UTF-8 are
/// accepted; anything else is malformed text.
pub fn latin1_bytes_to_string(buf: Vec<u8>) -> (r: Result<String, DecodeError>)
    ensures
        match r {
            Ok(s) => valid_utf8(buf@) && encode_utf8(s@) == buf@,
            Err(e) => !valid_utf8(buf@) && e@ == DecodeErrV::InvalidText,
        },
{
    match utf8_to_string(buf) {
        Some(s) => Ok(s),
        None => Err(DecodeError::InvalidText),
    }
}

/// The sign flag of a big-integer payload: byte 0 is non-negative, byte 1 is
/// negative, and every other byte is out of range.
pub fn byte_to_sign(b: u8) -> (r: Result<bool, DecodeError>)
    ensures
        match r {
            Ok(negative) => (b == 0 || b == 1) && negative == (b == 1),
            Err(e) => b >= 2 && e@ == (DecodeErrV::OutOfRange { value: b as i32, start: 0, end: 1 }),
        },
{
    match b {
        0 => Ok(false),
        1 => Ok(true),
        _ => Err(DecodeError::OutOfRange { value: b as i32, range: 0i32..1i32 }),
    }
}

/// The sign byte written for a big-integer payload.
pub fn sign_to_byte(negative: bool) -> (r: u8)
    ensures
        r == (if negative { 1u8 } else { 0u8 }),
{
    if negative {
        1
    } else {
        0
    }
}

} // verus!
