//! Laws of the wire format, stated and proved over the encoding and
//! decoding specifications.
use crate::codec_common::DecodeErrV;
use crate::decoder::{
    spec_decode, spec_decode_big_payload, spec_decode_term, spec_decode_terms, strip_zeros,
};
use crate::encoder::{byte_elems, is_byte_elems, spec_encode_term};
use crate::terms::{BigIntegerV, TermV};
use crate::wire::{
    ATOM_CACHE_REF, ATOM_EXT, ATOM_UTF8_EXT, BINARY_EXT, BIT_BINARY_EXT, EXPORT_EXT, FLOAT_EXT,
    FUN_EXT, INTEGER_EXT, LARGE_BIG_EXT, LARGE_TUPLE_EXT, LIST_EXT, MAP_EXT, NEWER_REFERENCE_EXT,
    NEW_FLOAT_EXT, NEW_FUN_EXT, NEW_PID_EXT, NEW_PORT_EXT, NEW_REFERENCE_EXT, NIL_EXT, PID_EXT,
    PORT_EXT, REFERENCE_EXT, SMALL_ATOM_EXT, SMALL_ATOM_UTF8_EXT, SMALL_BIG_EXT,
    SMALL_INTEGER_EXT, SMALL_TUPLE_EXT, STRING_EXT, V4_PORT_EXT, VERSION, be_u32, enc_u16,
};
use vstd::prelude::*;

verus! {

/// The tag bytes that select a known layout.
pub open spec fn is_known_tag(tag: u8) -> bool {
    tag == NEW_FLOAT_EXT || tag == BIT_BINARY_EXT || tag == ATOM_CACHE_REF || tag
        == SMALL_INTEGER_EXT || tag == INTEGER_EXT || tag == FLOAT_EXT || tag == ATOM_EXT || tag
        == REFERENCE_EXT || tag == PORT_EXT || tag == NEW_PORT_EXT || tag == V4_PORT_EXT || tag
        == PID_EXT || tag == NEW_PID_EXT || tag == SMALL_TUPLE_EXT || tag == LARGE_TUPLE_EXT || tag
        == NIL_EXT || tag == STRING_EXT || tag == LIST_EXT || tag == BINARY_EXT || tag
        == SMALL_BIG_EXT || tag == LARGE_BIG_EXT || tag == NEW_FUN_EXT || tag == EXPORT_EXT || tag
        == NEW_REFERENCE_EXT || tag == SMALL_ATOM_EXT || tag == MAP_EXT || tag == FUN_EXT || tag
        == ATOM_UTF8_EXT || tag == SMALL_ATOM_UTF8_EXT || tag == NEWER_REFERENCE_EXT
}

/// A term whose tag byte lies outside every known layout fails with an
/// unknown-tag failure carrying that byte.
pub proof fn lemma_unknown_tag(b: Seq<u8>, pos: int)
    requires
        0 <= pos,
        pos + 1 <= b.len(),
        !is_known_tag(b[pos]),
    ensures
        spec_decode_term(b, pos) == Err::<(TermV, int), DecodeErrV>(
            DecodeErrV::UnknownTag { tag: b[pos] },
        ),
{
}

/// A stream whose first byte is not the supported version fails at once
/// with an unsupported-version failure, whatever follows.
pub proof fn lemma_version_check(b: Seq<u8>)
    requires
        b.len() >= 1,
        b[0] != VERSION,
    ensures
        spec_decode(b) == Err::<(TermV, int), DecodeErrV>(
            DecodeErrV::UnsupportedVersion { version: b[0] },
        ),
{
}

/// Both the bare NIL tag and a zero-count LIST tag followed by NIL decode
/// to the same canonical empty list, and that value always encodes as the
/// bare NIL tag.
pub proof fn lemma_canonical_empty_list(b: Seq<u8>, pos: int)
    requires
        0 <= pos,
        pos + 1 <= b.len(),
    ensures
        b[pos] == NIL_EXT ==> spec_decode_term(b, pos) == Ok::<(TermV, int), DecodeErrV>(
            (TermV::List { elements: Seq::empty() }, pos + 1),
        ),
        (b[pos] == LIST_EXT && pos + 6 <= b.len() && b[pos + 1] == 0 && b[pos + 2] == 0 && b[pos
            + 3] == 0 && b[pos + 4] == 0 && b[pos + 5] == NIL_EXT) ==> spec_decode_term(b, pos)
            == Ok::<(TermV, int), DecodeErrV>((TermV::List { elements: Seq::empty() }, pos + 6)),
        spec_encode_term(TermV::List { elements: Seq::empty() }) == seq![NIL_EXT],
{
    reveal_with_fuel(spec_decode_term, 3);
    if b[pos] == LIST_EXT && pos + 6 <= b.len() && b[pos + 1] == 0 && b[pos + 2] == 0 && b[pos + 3]
        == 0 && b[pos + 4] == 0 && b[pos + 5] == NIL_EXT {
        assert(be_u32(b, pos + 1) == 0);
        assert(spec_decode_terms(b, pos + 5, 0) == Ok::<(Seq<TermV>, int), DecodeErrV>(
            (Seq::empty(), pos + 5),
        ));
        assert(spec_decode_term(b, pos + 5) == Ok::<(TermV, int), DecodeErrV>(
            (TermV::List { elements: Seq::empty() }, pos + 6),
        ));
        assert((TermV::List { elements: Seq::<TermV>::empty() }).is_nil());
    }
}

/// Sign byte 0 decodes to a non-negative big integer, sign byte 1 to a
/// negative one when the magnitude is non-zero, and any other sign byte is
/// an out-of-range failure.
pub proof fn lemma_big_integer_sign(b: Seq<u8>, pos: int, n: int)
    requires
        0 <= pos,
        0 <= n,
        pos + 1 + n <= b.len(),
    ensures
        b[pos] >= 2 ==> spec_decode_big_payload(b, pos, n) == Err::<(TermV, int), DecodeErrV>(
            DecodeErrV::OutOfRange { value: b[pos] as i32, start: 0, end: 1 },
        ),
        b[pos] == 0 ==> spec_decode_big_payload(b, pos, n) == Ok::<(TermV, int), DecodeErrV>(
            (
                TermV::BigInteger {
                    big: BigIntegerV {
                        negative: false,
                        magnitude: strip_zeros(b.subrange(pos + 1, pos + 1 + n)),
                    },
                },
                pos + 1 + n,
            ),
        ),
        b[pos] == 1 ==> spec_decode_big_payload(b, pos, n) == Ok::<(TermV, int), DecodeErrV>(
            (
                TermV::BigInteger {
                    big: BigIntegerV {
                        negative: strip_zeros(b.subrange(pos + 1, pos + 1 + n)).len() > 0,
                        magnitude: strip_zeros(b.subrange(pos + 1, pos + 1 + n)),
                    },
                },
                pos + 1 + n,
            ),
        ),
{
}

/// A proper list of one to 65535 byte-range small integers encodes with the
/// compact byte-string tag.
pub proof fn lemma_compact_byte_list(elements: Seq<TermV>)
    requires
        0 < elements.len() <= 0xffff,
        is_byte_elems(elements),
    ensures
        spec_encode_term(TermV::List { elements }) == seq![STRING_EXT] + enc_u16(
            elements.len() as int,
        ) + byte_elems(elements),
        spec_encode_term(TermV::List { elements })[0] == STRING_EXT,
{
    assert((seq![STRING_EXT] + enc_u16(elements.len() as int) + byte_elems(elements))[0]
        == STRING_EXT);
}

} // verus!
