//! The decoder: the specification of how a byte stream is read back into a
//! term — tag dispatch, per-tag layouts, recursive substructure, and the
//! exact failure for every malformed input — and the verified decoder that
//! implements it.
use crate::codec_common::{DecodeErrV, DecodeError, DecodeResult, ExpectedKind};
use crate::codec_common::{latin1_bytes_to_string, byte_to_sign};
use crate::terms::{
    Atom, BigInteger, BigIntegerV, BitBinary, Binary, ByteList, ExternalFun, FixInteger, Float,
    ImproperList, InternalFun, InternalFunV, List, MapTerm, Pid, PidV, Port, Reference, Term,
    TermV, Tuple, is_finite_bits, lemma_pairs_view_len, lemma_terms_view_len, pairs_view,
    term_eq, term_view, terms_view,
};
use crate::wire::{
    ATOM_CACHE_REF, ATOM_EXT, ATOM_UTF8_EXT, BINARY_EXT, BIT_BINARY_EXT, COMPRESSED_TERM,
    DISTRIBUTION_HEADER, EXPORT_EXT, FLOAT_EXT, FUN_EXT, INTEGER_EXT, LARGE_BIG_EXT,
    LARGE_TUPLE_EXT, LIST_EXT, MAP_EXT, NEWER_REFERENCE_EXT, NEW_FLOAT_EXT, NEW_FUN_EXT,
    NEW_PID_EXT, NEW_PORT_EXT, NEW_REFERENCE_EXT, NIL_EXT, PID_EXT, PORT_EXT, REFERENCE_EXT,
    SMALL_ATOM_EXT, SMALL_ATOM_UTF8_EXT, SMALL_BIG_EXT, SMALL_INTEGER_EXT, SMALL_TUPLE_EXT,
    STRING_EXT, V4_PORT_EXT, VERSION, be_i32, be_u16, be_u32, be_u64,
};
use vstd::prelude::*;

verus! {

broadcast use vstd::std_specs::vec::group_vec_axioms, vstd::seq::group_seq_axioms;

use vstd::utf8::{decode_utf8, encode_utf8, valid_utf8};

/// What decoding one field or one term yields: the value and the position
/// just past it, or the failure that ends the whole decode.
pub type SpecDecode<T> = Result<(T, int), DecodeErrV>;

// ---------------------------------------------------------------------------
// The wire grammar, tag by tag
// ---------------------------------------------------------------------------
/// Strips the trailing zero bytes of a little-endian magnitude.
pub open spec fn strip_zeros(m: Seq<u8>) -> Seq<u8>
    decreases m,
{
    if m.len() > 0 && m.last() == 0 {
        strip_zeros(m.drop_last())
    } else {
        m
    }
}

/// An atom payload of `n` bytes at `pos`: the bytes must be valid UTF-8.
pub open spec fn spec_decode_atom_payload(b: Seq<u8>, pos: int, n: int) -> SpecDecode<TermV> {
    if pos + n > b.len() {
        Err(DecodeErrV::UnexpectedEof)
    } else {
        let bytes = b.subrange(pos, pos + n);
        if valid_utf8(bytes) {
            Ok((TermV::Atom { name: decode_utf8(bytes) }, pos + n))
        } else {
            Err(DecodeErrV::InvalidText)
        }
    }
}

/// A big-integer payload: `n` magnitude bytes preceded by one sign byte at
/// `pos`; the sign byte must be 0 or 1, and the magnitude is normalized by
/// stripping trailing zeros, a zero magnitude forcing the non-negative sign.
pub open spec fn spec_decode_big_payload(b: Seq<u8>, pos: int, n: int) -> SpecDecode<TermV> {
    if pos + 1 + n > b.len() {
        Err(DecodeErrV::UnexpectedEof)
    } else {
        let sign = b[pos];
        let m = strip_zeros(b.subrange(pos + 1, pos + 1 + n));
        if sign >= 2 {
            Err(DecodeErrV::OutOfRange { value: sign as i32, start: 0, end: 1 })
        } else {
            Ok(
                (
                    TermV::BigInteger {
                        big: BigIntegerV { negative: sign == 1 && m.len() > 0, magnitude: m },
                    },
                    pos + 1 + n,
                ),
            )
        }
    }
}

/// The node field of an identifier layout: one recursively decoded term
/// that must be an atom.
pub open spec fn spec_decode_node(b: Seq<u8>, pos: int) -> SpecDecode<Seq<char>>
    decreases b.len() - pos, 3int, 0int,
{
    match spec_decode_term(b, pos) {
        Err(e) => Err(e),
        Ok((t, p)) => match t {
            TermV::Atom { name } => Ok((name, p)),
            _ => Err(DecodeErrV::UnexpectedType { value: Box::new(t), expected: ExpectedKind::Atom }),
        },
    }
}

/// A process identifier layout after its tag: node atom, 32-bit id and
/// serial, then a creation field of `cwidth` bytes (1 legacy, 4 modern).
pub open spec fn spec_decode_pid_body(b: Seq<u8>, pos: int, cwidth: int) -> SpecDecode<TermV>
    decreases b.len() - pos, 3int, 1int,
{
    match spec_decode_node(b, pos) {
        Err(e) => Err(e),
        Ok((name, p)) => if 0 <= p && p + 8 + cwidth <= b.len() {
            let creation = if cwidth == 1 {
                b[p + 8] as int
            } else {
                be_u32(b, p + 8)
            };
            Ok(
                (
                    TermV::Pid {
                        pid: PidV {
                            node: name,
                            id: be_u32(b, p) as u32,
                            serial: be_u32(b, p + 4) as u32,
                            creation: creation as u32,
                        },
                    },
                    p + 8 + cwidth,
                ),
            )
        } else {
            Err(DecodeErrV::UnexpectedEof)
        },
    }
}

/// A port layout after its tag: node atom, an id of `iwidth` bytes, then a
/// creation field of `cwidth` bytes.
pub open spec fn spec_decode_port_body(b: Seq<u8>, pos: int, iwidth: int, cwidth: int) -> SpecDecode<
    TermV,
>
    decreases b.len() - pos, 3int, 1int,
{
    match spec_decode_node(b, pos) {
        Err(e) => Err(e),
        Ok((name, p)) => if 0 <= p && p + iwidth + cwidth <= b.len() {
            let id = if iwidth == 4 {
                be_u32(b, p)
            } else {
                be_u64(b, p)
            };
            let creation = if cwidth == 1 {
                b[p + iwidth] as int
            } else {
                be_u32(b, p + iwidth)
            };
            Ok(
                (
                    TermV::Port {
                        port: crate::terms::PortV {
                            node: name,
                            id: id as u64,
                            creation: creation as u32,
                        },
                    },
                    p + iwidth + cwidth,
                ),
            )
        } else {
            Err(DecodeErrV::UnexpectedEof)
        },
    }
}

/// The legacy reference layout after its tag: node atom, one 32-bit id
/// word, an 8-bit creation.
pub open spec fn spec_decode_reference(b: Seq<u8>, pos: int) -> SpecDecode<TermV>
    decreases b.len() - pos, 3int, 1int,
{
    match spec_decode_node(b, pos) {
        Err(e) => Err(e),
        Ok((name, p)) => if 0 <= p && p + 5 <= b.len() {
            Ok(
                (
                    TermV::Reference {
                        reference: crate::terms::ReferenceV {
                            node: name,
                            id: seq![be_u32(b, p) as u32],
                            creation: b[p + 4] as u32,
                        },
                    },
                    p + 5,
                ),
            )
        } else {
            Err(DecodeErrV::UnexpectedEof)
        },
    }
}

/// The id words of the newer reference layouts.
pub open spec fn spec_id_words(b: Seq<u8>, pos: int, n: int) -> Seq<u32> {
    Seq::new(n as nat, |k: int| be_u32(b, pos + 4 * k) as u32)
}

/// The two newer reference layouts after their tag: a 16-bit id count, the
/// node atom, a creation field of `cwidth` bytes, then the id words.
pub open spec fn spec_decode_new_reference(b: Seq<u8>, pos: int, cwidth: int) -> SpecDecode<TermV>
    decreases b.len() - pos, 3int, 1int,
{
    if pos + 2 > b.len() {
        Err(DecodeErrV::UnexpectedEof)
    } else {
        let n = be_u16(b, pos);
        match spec_decode_node(b, pos + 2) {
            Err(e) => Err(e),
            Ok((name, p)) => if 0 <= p && p + cwidth + 4 * n <= b.len() {
                let creation = if cwidth == 1 {
                    b[p] as int
                } else {
                    be_u32(b, p)
                };
                Ok(
                    (
                        TermV::Reference {
                            reference: crate::terms::ReferenceV {
                                node: name,
                                id: spec_id_words(b, p + cwidth, n),
                                creation: creation as u32,
                            },
                        },
                        p + cwidth + 4 * n,
                    ),
                )
            } else {
                Err(DecodeErrV::UnexpectedEof)
            },
        }
    }
}

/// The export layout after its tag: module atom, function atom, then an
/// arity decoded as an integer term constrained to 0..=255.
pub open spec fn spec_decode_export(b: Seq<u8>, pos: int) -> SpecDecode<TermV>
    decreases b.len() - pos, 3int, 1int,
{
    match spec_decode_node(b, pos) {
        Err(e) => Err(e),
        Ok((module, p1)) => if !(pos < p1 <= b.len()) {
            Err(DecodeErrV::UnexpectedEof)
        } else {
            match spec_decode_node(b, p1) {
                Err(e) => Err(e),
                Ok((function, p2)) => if !(p1 <= p2 <= b.len()) {
                    Err(DecodeErrV::UnexpectedEof)
                } else {
                    match spec_decode_term(b, p2) {
                    Err(e) => Err(e),
                    Ok((t, p3)) => match t {
                        TermV::FixInteger { value } => if 0 <= value <= 0xff {
                            Ok(
                                (
                                    TermV::ExternalFun {
                                        fun: crate::terms::ExternalFunV {
                                            module,
                                            function,
                                            arity: value as u8,
                                        },
                                    },
                                    p3,
                                ),
                            )
                        } else {
                            Err(DecodeErrV::OutOfRange { value, start: 0, end: 0xff })
                        },
                        _ => Err(
                            DecodeErrV::UnexpectedType {
                                value: Box::new(t),
                                expected: ExpectedKind::FixInteger,
                            },
                        ),
                    },
                    }
                },
            }
        },
    }
}

/// A recursively decoded term that must be a small integer.
pub open spec fn spec_decode_fix_field(b: Seq<u8>, pos: int) -> SpecDecode<i32>
    decreases b.len() - pos, 3int, 0int,
{
    match spec_decode_term(b, pos) {
        Err(e) => Err(e),
        Ok((t, p)) => match t {
            TermV::FixInteger { value } => Ok((value, p)),
            _ => Err(
                DecodeErrV::UnexpectedType {
                    value: Box::new(t),
                    expected: ExpectedKind::FixInteger,
                },
            ),
        },
    }
}

/// A recursively decoded term that must be a process identifier.
pub open spec fn spec_decode_pid_field(b: Seq<u8>, pos: int) -> SpecDecode<PidV>
    decreases b.len() - pos, 3int, 0int,
{
    match spec_decode_term(b, pos) {
        Err(e) => Err(e),
        Ok((t, p)) => match t {
            TermV::Pid { pid } => Ok((pid, p)),
            _ => Err(DecodeErrV::UnexpectedType { value: Box::new(t), expected: ExpectedKind::Pid }),
        },
    }
}

/// The old function-closure layout after its tag: a 32-bit free-variable
/// count, then pid, module atom, index and uniq integer terms, then the
/// free variables.
pub open spec fn spec_decode_fun(b: Seq<u8>, pos: int) -> SpecDecode<TermV>
    decreases b.len() - pos, 3int, 1int,
{
    if pos + 4 > b.len() {
        Err(DecodeErrV::UnexpectedEof)
    } else {
        let n = be_u32(b, pos);
        match spec_decode_pid_field(b, pos + 4) {
            Err(e) => Err(e),
            Ok((pid, p1)) => if !(pos < p1 <= b.len()) {
                Err(DecodeErrV::UnexpectedEof)
            } else {
                match spec_decode_node(b, p1) {
                    Err(e) => Err(e),
                    Ok((module, p2)) => if !(p1 <= p2 <= b.len()) {
                        Err(DecodeErrV::UnexpectedEof)
                    } else {
                        match spec_decode_fix_field(b, p2) {
                            Err(e) => Err(e),
                            Ok((index, p3)) => if !(p2 <= p3 <= b.len()) {
                                Err(DecodeErrV::UnexpectedEof)
                            } else {
                                match spec_decode_fix_field(b, p3) {
                                    Err(e) => Err(e),
                                    Ok((uniq, p4)) => if !(p3 <= p4 <= b.len()) {
                                        Err(DecodeErrV::UnexpectedEof)
                                    } else {
                                        match spec_decode_terms(b, p4, n) {
                                            Err(e) => Err(e),
                                            Ok((vars, p5)) => Ok(
                                                (
                                                    TermV::InternalFun {
                                                        fun: InternalFunV::Old {
                                                            module,
                                                            pid,
                                                            free_vars: vars,
                                                            index,
                                                            uniq,
                                                        },
                                                    },
                                                    p5,
                                                ),
                                            ),
                                        }
                                    },
                                }
                            },
                        }
                    },
                }
            },
        }
    }
}

/// The newest function-closure layout after its tag: an informational total
/// size, arity byte, 16 raw uniq bytes, 32-bit index and free-variable
/// count, module atom, old-index and old-uniq integer terms, pid, then the
/// free variables.
pub open spec fn spec_decode_new_fun(b: Seq<u8>, pos: int) -> SpecDecode<TermV>
    decreases b.len() - pos, 3int, 1int,
{
    if pos + 29 > b.len() {
        Err(DecodeErrV::UnexpectedEof)
    } else {
        let arity = b[pos + 4];
        let uniq = b.subrange(pos + 5, pos + 21);
        let index = be_u32(b, pos + 21);
        let n = be_u32(b, pos + 25);
        match spec_decode_node(b, pos + 29) {
            Err(e) => Err(e),
            Ok((module, p1)) => if !(pos < p1 <= b.len()) {
                Err(DecodeErrV::UnexpectedEof)
            } else {
                match spec_decode_fix_field(b, p1) {
                    Err(e) => Err(e),
                    Ok((old_index, p2)) => if !(p1 <= p2 <= b.len()) {
                        Err(DecodeErrV::UnexpectedEof)
                    } else {
                        match spec_decode_fix_field(b, p2) {
                            Err(e) => Err(e),
                            Ok((old_uniq, p3)) => if !(p2 <= p3 <= b.len()) {
                                Err(DecodeErrV::UnexpectedEof)
                            } else {
                                match spec_decode_pid_field(b, p3) {
                                    Err(e) => Err(e),
                                    Ok((pid, p4)) => if !(p3 <= p4 <= b.len()) {
                                        Err(DecodeErrV::UnexpectedEof)
                                    } else {
                                        match spec_decode_terms(b, p4, n) {
                                            Err(e) => Err(e),
                                            Ok((vars, p5)) => Ok(
                                                (
                                                    TermV::InternalFun {
                                                        fun: InternalFunV::New {
                                                            module,
                                                            arity,
                                                            pid,
                                                            free_vars: vars,
                                                            index: index as u32,
                                                            uniq,
                                                            old_index,
                                                            old_uniq,
                                                        },
                                                    },
                                                    p5,
                                                ),
                                            ),
                                        }
                                    },
                                }
                            },
                        }
                    },
                }
            },
        }
    }
}

/// A counted run of recursively decoded terms.
pub open spec fn spec_decode_terms(b: Seq<u8>, pos: int, n: int) -> SpecDecode<Seq<TermV>>
    decreases b.len() - pos, 4int, n,
{
    if n <= 0 {
        Ok((Seq::empty(), pos))
    } else {
        match spec_decode_term(b, pos) {
            Err(e) => Err(e),
            Ok((t, p)) => if !(pos < p <= b.len()) {
                Err(DecodeErrV::UnexpectedEof)
            } else {
                match spec_decode_terms(b, p, n - 1) {
                    Err(e) => Err(e),
                    Ok((ts, p2)) => Ok((seq![t] + ts, p2)),
                }
            },
        }
    }
}

/// Inserts one entry into a map's entry list: a later duplicate key
/// overwrites the earlier entry in place.
pub open spec fn map_insert(es: Seq<(TermV, TermV)>, k: TermV, v: TermV) -> Seq<(TermV, TermV)>
    decreases es,
{
    if es.len() == 0 {
        seq![(k, v)]
    } else if es.first().0 == k {
        seq![(k, v)] + es.drop_first()
    } else {
        seq![es.first()] + map_insert(es.drop_first(), k, v)
    }
}

/// A counted run of key-value pairs, folded into an entry list with
/// duplicate keys overwriting.
pub open spec fn spec_decode_map_entries(b: Seq<u8>, pos: int, n: int, acc: Seq<(TermV, TermV)>) -> SpecDecode<
    Seq<(TermV, TermV)>,
>
    decreases b.len() - pos, 4int, n,
{
    if n <= 0 {
        Ok((acc, pos))
    } else {
        match spec_decode_term(b, pos) {
            Err(e) => Err(e),
            Ok((k, p)) => if !(pos < p <= b.len()) {
                Err(DecodeErrV::UnexpectedEof)
            } else {
                match spec_decode_term(b, p) {
                    Err(e) => Err(e),
                    Ok((v, p2)) => if !(p < p2 <= b.len()) {
                        Err(DecodeErrV::UnexpectedEof)
                    } else {
                        spec_decode_map_entries(b, p2, n - 1, map_insert(acc, k, v))
                    },
                }
            },
        }
    }
}

/// One term at `pos`: a tag byte, then the tag's layout.
pub open spec fn spec_decode_term(b: Seq<u8>, pos: int) -> SpecDecode<TermV>
    decreases b.len() - pos, 2int, 0int,
{
    if pos < 0 || pos + 1 > b.len() {
        Err(DecodeErrV::UnexpectedEof)
    } else {
        let tag = b[pos];
        let p = pos + 1;
        if tag == SMALL_INTEGER_EXT {
            if p + 1 <= b.len() {
                Ok((TermV::FixInteger { value: b[p] as i32 }, p + 1))
            } else {
                Err(DecodeErrV::UnexpectedEof)
            }
        } else if tag == INTEGER_EXT {
            if p + 4 <= b.len() {
                Ok((TermV::FixInteger { value: be_i32(b, p) as i32 }, p + 4))
            } else {
                Err(DecodeErrV::UnexpectedEof)
            }
        } else if tag == NEW_FLOAT_EXT {
            if p + 8 <= b.len() {
                let bits = be_u64(b, p) as u64;
                if is_finite_bits(bits) {
                    Ok((TermV::Float { bits }, p + 8))
                } else {
                    Err(DecodeErrV::NonFiniteFloat)
                }
            } else {
                Err(DecodeErrV::UnexpectedEof)
            }
        } else if tag == FLOAT_EXT {
            // The legacy fixed-width float text layout: parsing its decimal
            // text needs floating-point arithmetic, which this verified
            // core cannot hold, so the layout is recognized and rejected.
            Err(DecodeErrV::UnimplementedTag { tag })
        } else if tag == ATOM_EXT || tag == ATOM_UTF8_EXT {
            if p + 2 <= b.len() {
                spec_decode_atom_payload(b, p + 2, be_u16(b, p))
            } else {
                Err(DecodeErrV::UnexpectedEof)
            }
        } else if tag == SMALL_ATOM_EXT || tag == SMALL_ATOM_UTF8_EXT {
            if p + 1 <= b.len() {
                spec_decode_atom_payload(b, p + 1, b[p] as int)
            } else {
                Err(DecodeErrV::UnexpectedEof)
            }
        } else if tag == NIL_EXT {
            Ok((TermV::List { elements: Seq::empty() }, p))
        } else if tag == STRING_EXT {
            if p + 2 <= b.len() {
                let n = be_u16(b, p);
                if p + 2 + n <= b.len() {
                    Ok((TermV::ByteList { bytes: b.subrange(p + 2, p + 2 + n) }, p + 2 + n))
                } else {
                    Err(DecodeErrV::UnexpectedEof)
                }
            } else {
                Err(DecodeErrV::UnexpectedEof)
            }
        } else if tag == BINARY_EXT {
            if p + 4 <= b.len() {
                let n = be_u32(b, p);
                if p + 4 + n <= b.len() {
                    Ok((TermV::Binary { bytes: b.subrange(p + 4, p + 4 + n) }, p + 4 + n))
                } else {
                    Err(DecodeErrV::UnexpectedEof)
                }
            } else {
                Err(DecodeErrV::UnexpectedEof)
            }
        } else if tag == BIT_BINARY_EXT {
            if p + 5 <= b.len() {
                let n = be_u32(b, p);
                let tbs = b[p + 4];
                if p + 5 + n <= b.len() {
                    if n == 0 {
                        Ok((TermV::BitBinary { bytes: Seq::empty(), tail_bits_size: tbs }, p + 5))
                    } else if 1 <= tbs <= 8 {
                        let payload = b.subrange(p + 5, p + 5 + n);
                        Ok(
                            (
                                TermV::BitBinary {
                                    bytes: payload.drop_last() + seq![
                                        crate::encoder::shr_byte(
                                            payload.last(),
                                            8 - tbs as int,
                                        ),
                                    ],
                                    tail_bits_size: tbs,
                                },
                                p + 5 + n,
                            ),
                        )
                    } else {
                        Err(DecodeErrV::OutOfRange { value: tbs as i32, start: 1, end: 8 })
                    }
                } else {
                    Err(DecodeErrV::UnexpectedEof)
                }
            } else {
                Err(DecodeErrV::UnexpectedEof)
            }
        } else if tag == SMALL_BIG_EXT {
            if p + 1 <= b.len() {
                spec_decode_big_payload(b, p + 1, b[p] as int)
            } else {
                Err(DecodeErrV::UnexpectedEof)
            }
        } else if tag == LARGE_BIG_EXT {
            if p + 4 <= b.len() {
                spec_decode_big_payload(b, p + 4, be_u32(b, p))
            } else {
                Err(DecodeErrV::UnexpectedEof)
            }
        } else if tag == PID_EXT {
            spec_decode_pid_body(b, p, 1)
        } else if tag == NEW_PID_EXT {
            spec_decode_pid_body(b, p, 4)
        } else if tag == PORT_EXT {
            spec_decode_port_body(b, p, 4, 1)
        } else if tag == NEW_PORT_EXT {
            spec_decode_port_body(b, p, 4, 4)
        } else if tag == V4_PORT_EXT {
            spec_decode_port_body(b, p, 8, 4)
        } else if tag == REFERENCE_EXT {
            spec_decode_reference(b, p)
        } else if tag == NEW_REFERENCE_EXT {
            spec_decode_new_reference(b, p, 1)
        } else if tag == NEWER_REFERENCE_EXT {
            spec_decode_new_reference(b, p, 4)
        } else if tag == EXPORT_EXT {
            spec_decode_export(b, p)
        } else if tag == FUN_EXT {
            spec_decode_fun(b, p)
        } else if tag == NEW_FUN_EXT {
            spec_decode_new_fun(b, p)
        } else if tag == SMALL_TUPLE_EXT {
            if p + 1 <= b.len() {
                match spec_decode_terms(b, p + 1, b[p] as int) {
                    Err(e) => Err(e),
                    Ok((ts, p2)) => Ok((TermV::Tuple { elements: ts }, p2)),
                }
            } else {
                Err(DecodeErrV::UnexpectedEof)
            }
        } else if tag == LARGE_TUPLE_EXT {
            if p + 4 <= b.len() {
                match spec_decode_terms(b, p + 4, be_u32(b, p)) {
                    Err(e) => Err(e),
                    Ok((ts, p2)) => Ok((TermV::Tuple { elements: ts }, p2)),
                }
            } else {
                Err(DecodeErrV::UnexpectedEof)
            }
        } else if tag == LIST_EXT {
            if p + 4 <= b.len() {
                match spec_decode_terms(b, p + 4, be_u32(b, p)) {
                    Err(e) => Err(e),
                    Ok((ts, p2)) => if !(pos < p2 <= b.len()) {
                        Err(DecodeErrV::UnexpectedEof)
                    } else {
                        match spec_decode_term(b, p2) {
                            Err(e) => Err(e),
                            Ok((tail, p3)) => if tail.is_nil() {
                                Ok((TermV::List { elements: ts }, p3))
                            } else {
                                Ok(
                                    (
                                        TermV::ImproperList {
                                            elements: ts,
                                            last: Box::new(tail),
                                        },
                                        p3,
                                    ),
                                )
                            },
                        }
                    },
                }
            } else {
                Err(DecodeErrV::UnexpectedEof)
            }
        } else if tag == MAP_EXT {
            if p + 4 <= b.len() {
                match spec_decode_map_entries(b, p + 4, be_u32(b, p), Seq::empty()) {
                    Err(e) => Err(e),
                    Ok((es, p2)) => Ok((TermV::MapTerm { entries: es }, p2)),
                }
            } else {
                Err(DecodeErrV::UnexpectedEof)
            }
        } else if tag == ATOM_CACHE_REF {
            Err(DecodeErrV::UnimplementedTag { tag })
        } else {
            Err(DecodeErrV::UnknownTag { tag })
        }
    }
}

/// A whole stream: the version byte, then one term. A compressed payload or
/// a distribution header is recognized and deliberately rejected.
pub open spec fn spec_decode(b: Seq<u8>) -> Result<(TermV, int), DecodeErrV> {
    if b.len() < 1 {
        Err(DecodeErrV::UnexpectedEof)
    } else if b[0] != VERSION {
        Err(DecodeErrV::UnsupportedVersion { version: b[0] })
    } else if b.len() < 2 {
        Err(DecodeErrV::UnexpectedEof)
    } else if b[1] == COMPRESSED_TERM || b[1] == DISTRIBUTION_HEADER {
        Err(DecodeErrV::UnimplementedTag { tag: b[1] })
    } else {
        spec_decode_term(b, 1)
    }
}


// ---------------------------------------------------------------------------
// The decoder
// ---------------------------------------------------------------------------
/// Consumes a byte stream from the front; `decode` reads one version byte
/// and one term.
pub struct Decoder {
    bytes: Vec<u8>,
    pos: usize,
}

impl Decoder {
    /// The whole input.
    pub closed spec fn input(&self) -> Seq<u8> {
        self.bytes@
    }

    /// How many bytes have been consumed.
    pub closed spec fn offset(&self) -> int {
        self.pos as int
    }

    /// The cursor never runs past the input.
    pub closed spec fn wf(&self) -> bool {
        self.pos <= self.bytes@.len()
    }

    /// A fresh decoder over the given bytes.
    pub fn new(bytes: Vec<u8>) -> (r: Decoder)
        ensures
            r.input() == bytes@,
            r.offset() == 0,
            r.wf(),
    {
        Decoder { bytes, pos: 0 }
    }

    /// Reads the version byte and one term; trailing bytes are left
    /// unread. Every malformed stream yields exactly the failure that the
    /// wire grammar assigns to it.
    pub fn decode(&mut self) -> (r: DecodeResult)
        requires
            old(self).wf(),
            old(self).offset() == 0,
        ensures
            final(self).wf(),
            final(self).input() == old(self).input(),
            r matches Ok(t) ==> spec_decode(old(self).input()) matches Ok((tv, p)) && tv
                == t@,
            r matches Err(e) ==> spec_decode(old(self).input()) == Err::<
                (TermV, int),
                DecodeErrV,
            >(e@),
    {
        let version = match self.read_u8() {
            Ok(v) => v,
            Err(e) => {
                return Err(e);
            },
        };
        if version != VERSION {
            return Err(DecodeError::UnsupportedVersion { version });
        }
        let tag = match self.read_u8() {
            Ok(v) => v,
            Err(e) => {
                return Err(e);
            },
        };
        if tag == COMPRESSED_TERM || tag == DISTRIBUTION_HEADER {
            return Err(DecodeError::UnimplementedTag { tag });
        }
        match self.decode_term_with_tag(tag) {
            Ok(t) => Ok(t),
            Err(e) => Err(e),
        }
    }

    fn read_u8(&mut self) -> (r: Result<u8, DecodeError>)
        requires
            old(self).wf(),
        ensures
            final(self).wf(),
            final(self).input() == old(self).input(),
            match r {
                Ok(v) => old(self).offset() + 1 <= old(self).input().len() && v == old(self).input()[old(self).offset()] && final(self).offset() == old(self).offset() + 1,
                Err(e) => old(self).offset() + 1 > old(self).input().len() && e@
                    == DecodeErrV::UnexpectedEof && final(self).offset() == old(self).offset(),
            },
    {
        if self.pos < self.bytes.len() {
            let v = self.bytes[self.pos];
            self.pos = self.pos + 1;
            Ok(v)
        } else {
            Err(DecodeError::UnexpectedEof)
        }
    }

    fn read_u16(&mut self) -> (r: Result<u16, DecodeError>)
        requires
            old(self).wf(),
        ensures
            final(self).wf(),
            final(self).input() == old(self).input(),
            match r {
                Ok(v) => old(self).offset() + 2 <= old(self).input().len() && v as int == be_u16(
                    old(self).input(),
                    old(self).offset(),
                ) && final(self).offset() == old(self).offset() + 2,
                Err(e) => old(self).offset() + 2 > old(self).input().len() && e@
                    == DecodeErrV::UnexpectedEof && final(self).offset() >= old(self).offset(),
            },
    {
        if 2 <= self.bytes.len() - self.pos {
            let b0 = self.bytes[self.pos];
            let b1 = self.bytes[self.pos + 1];
            self.pos = self.pos + 2;
            Ok((b0 as u16) * 0x100 + (b1 as u16))
        } else {
            Err(DecodeError::UnexpectedEof)
        }
    }

    fn read_u32(&mut self) -> (r: Result<u32, DecodeError>)
        requires
            old(self).wf(),
        ensures
            final(self).wf(),
            final(self).input() == old(self).input(),
            match r {
                Ok(v) => old(self).offset() + 4 <= old(self).input().len() && v as int == be_u32(
                    old(self).input(),
                    old(self).offset(),
                ) && final(self).offset() == old(self).offset() + 4,
                Err(e) => old(self).offset() + 4 > old(self).input().len() && e@
                    == DecodeErrV::UnexpectedEof && final(self).offset() >= old(self).offset(),
            },
    {
        if 4 <= self.bytes.len() - self.pos {
            let b0 = self.bytes[self.pos];
            let b1 = self.bytes[self.pos + 1];
            let b2 = self.bytes[self.pos + 2];
            let b3 = self.bytes[self.pos + 3];
            self.pos = self.pos + 4;
            Ok(
                (b0 as u32) * 0x100_0000 + (b1 as u32) * 0x1_0000 + (b2 as u32) * 0x100 + (
                b3 as u32),
            )
        } else {
            Err(DecodeError::UnexpectedEof)
        }
    }

    fn read_u64(&mut self) -> (r: Result<u64, DecodeError>)
        requires
            old(self).wf(),
        ensures
            final(self).wf(),
            final(self).input() == old(self).input(),
            match r {
                Ok(v) => old(self).offset() + 8 <= old(self).input().len() && v as int == be_u64(
                    old(self).input(),
                    old(self).offset(),
                ) && final(self).offset() == old(self).offset() + 8,
                Err(e) => old(self).offset() + 8 > old(self).input().len() && e@
                    == DecodeErrV::UnexpectedEof && final(self).offset() >= old(self).offset(),
            },
    {
        let ghost b = self.bytes@;
        let ghost pos0 = self.pos as int;
        if 8 <= self.bytes.len() - self.pos {
            let hi = match self.read_u32() {
                Ok(v) => v,
                Err(e) => {
                    return Err(e);
                },
            };
            let lo = match self.read_u32() {
                Ok(v) => v,
                Err(e) => {
                    return Err(e);
                },
            };
            Ok((hi as u64) * 0x1_0000_0000 + (lo as u64))
        } else {
            Err(DecodeError::UnexpectedEof)
        }
    }

    fn read_i32(&mut self) -> (r: Result<i32, DecodeError>)
        requires
            old(self).wf(),
        ensures
            final(self).wf(),
            final(self).input() == old(self).input(),
            match r {
                Ok(v) => old(self).offset() + 4 <= old(self).input().len() && v as int == be_i32(
                    old(self).input(),
                    old(self).offset(),
                ) && final(self).offset() == old(self).offset() + 4,
                Err(e) => old(self).offset() + 4 > old(self).input().len() && e@
                    == DecodeErrV::UnexpectedEof && final(self).offset() >= old(self).offset(),
            },
    {
        let u = match self.read_u32() {
            Ok(v) => v,
            Err(e) => {
                return Err(e);
            },
        };
        if u >= 0x8000_0000 {
            let d = u - 0x8000_0000;
            Ok(i32::MIN + (d as i32))
        } else {
            Ok(u as i32)
        }
    }

    fn read_exact(&mut self, n: usize) -> (r: Result<Vec<u8>, DecodeError>)
        requires
            old(self).wf(),
        ensures
            final(self).wf(),
            final(self).input() == old(self).input(),
            match r {
                Ok(v) => old(self).offset() + n <= old(self).input().len() && v@ == old(self).input().subrange(old(self).offset(), old(self).offset() + n) && final(self).offset() == old(self).offset() + n,
                Err(e) => old(self).offset() + n > old(self).input().len() && e@
                    == DecodeErrV::UnexpectedEof && final(self).offset() == old(self).offset(),
            },
    {
        if self.pos <= self.bytes.len() && n <= self.bytes.len() - self.pos {
            let mut v: Vec<u8> = Vec::new();
            let mut i: usize = 0;
            while i < n
                invariant
                    i <= n,
                    self.pos + n <= self.bytes@.len(),
                    self.bytes@.len() <= usize::MAX,
                    v@ == self.bytes@.subrange(self.pos as int, self.pos + i),
                decreases n - i,
            {
                v.push(self.bytes[self.pos + i]);
                proof {
                    assert(self.bytes@.subrange(self.pos as int, self.pos + i).push(
                        self.bytes@[self.pos + i],
                    ) =~= self.bytes@.subrange(self.pos as int, self.pos + i + 1));
                }
                i = i + 1;
            }
            self.pos = self.pos + n;
            Ok(v)
        } else {
            Err(DecodeError::UnexpectedEof)
        }
    }
}

impl Decoder {
    fn decode_term(&mut self) -> (r: DecodeResult)
        requires
            old(self).wf(),
        ensures
            final(self).wf(),
            final(self).input() == old(self).input(),
            old(self).offset() <= final(self).offset(),
            r matches Ok(t) ==> spec_decode_term(old(self).input(), old(self).offset())
                == Ok::<(TermV, int), DecodeErrV>((t@, final(self).offset() as int)) && old(
                self,
            ).offset() < final(self).offset(),
            r matches Err(e) ==> spec_decode_term(old(self).input(), old(self).offset())
                == Err::<(TermV, int), DecodeErrV>(e@),
        decreases self.input().len() - self.offset(), 0int,
    {
        let tag = match self.read_u8() {
            Ok(v) => v,
            Err(e) => {
                return Err(e);
            },
        };
        self.decode_term_with_tag(tag)
    }

    fn decode_term_with_tag(&mut self, tag: u8) -> (r: DecodeResult)
        requires
            old(self).wf(),
            old(self).offset() >= 1,
            old(self).input()[old(self).offset() - 1] == tag,
        ensures
            final(self).wf(),
            final(self).input() == old(self).input(),
            old(self).offset() <= final(self).offset(),
            r matches Ok(t) ==> spec_decode_term(old(self).input(), old(self).offset() - 1)
                == Ok::<(TermV, int), DecodeErrV>((t@, final(self).offset() as int)),
            r matches Err(e) ==> spec_decode_term(old(self).input(), old(self).offset() - 1)
                == Err::<(TermV, int), DecodeErrV>(e@),
        decreases self.input().len() - self.offset(), 3int,
    {
        if tag == SMALL_INTEGER_EXT {
            self.decode_small_integer_ext()
        } else if tag == INTEGER_EXT {
            self.decode_integer_ext()
        } else if tag == NEW_FLOAT_EXT {
            self.decode_new_float_ext()
        } else if tag == ATOM_EXT || tag == ATOM_UTF8_EXT {
            self.decode_atom_ext()
        } else if tag == SMALL_ATOM_EXT || tag == SMALL_ATOM_UTF8_EXT {
            self.decode_small_atom_ext()
        } else if tag == NIL_EXT {
            Ok(Term::List(List::nil()))
        } else if tag == STRING_EXT {
            self.decode_string_ext()
        } else if tag == BINARY_EXT {
            self.decode_binary_ext()
        } else if tag == BIT_BINARY_EXT {
            self.decode_bit_binary_ext()
        } else if tag == SMALL_BIG_EXT {
            self.decode_small_big_ext()
        } else if tag == LARGE_BIG_EXT {
            self.decode_large_big_ext()
        } else if tag == PID_EXT {
            self.decode_pid_body(1)
        } else if tag == NEW_PID_EXT {
            self.decode_pid_body(4)
        } else if tag == PORT_EXT {
            self.decode_port_body(4, 1)
        } else if tag == NEW_PORT_EXT {
            self.decode_port_body(4, 4)
        } else if tag == V4_PORT_EXT {
            self.decode_port_body(8, 4)
        } else if tag == REFERENCE_EXT {
            self.decode_reference_ext()
        } else if tag == NEW_REFERENCE_EXT {
            self.decode_new_reference_body(1)
        } else if tag == NEWER_REFERENCE_EXT {
            self.decode_new_reference_body(4)
        } else if tag == EXPORT_EXT {
            self.decode_export_ext()
        } else if tag == FUN_EXT {
            self.decode_fun_ext()
        } else if tag == NEW_FUN_EXT {
            self.decode_new_fun_ext()
        } else if tag == SMALL_TUPLE_EXT {
            self.decode_small_tuple_ext()
        } else if tag == LARGE_TUPLE_EXT {
            self.decode_large_tuple_ext()
        } else if tag == LIST_EXT {
            self.decode_list_ext()
        } else if tag == MAP_EXT {
            self.decode_map_ext()
        } else if tag == FLOAT_EXT || tag == ATOM_CACHE_REF {
            Err(DecodeError::UnimplementedTag { tag })
        } else {
            Err(DecodeError::UnknownTag { tag })
        }
    }

    fn decode_small_integer_ext(&mut self) -> (r: DecodeResult)
        requires
            old(self).wf(),
            old(self).offset() >= 1,
            old(self).input()[old(self).offset() - 1] == SMALL_INTEGER_EXT,
        ensures
            final(self).wf(),
            final(self).input() == old(self).input(),
            old(self).offset() <= final(self).offset(),
            r matches Ok(t) ==> spec_decode_term(old(self).input(), old(self).offset() - 1)
                == Ok::<(TermV, int), DecodeErrV>((t@, final(self).offset() as int)),
            r matches Err(e) ==> spec_decode_term(old(self).input(), old(self).offset() - 1)
                == Err::<(TermV, int), DecodeErrV>(e@),
    {
        match self.read_u8() {
            Ok(v) => Ok(Term::FixInteger(FixInteger { value: v as i32 })),
            Err(e) => Err(e),
        }
    }

    fn decode_integer_ext(&mut self) -> (r: DecodeResult)
        requires
            old(self).wf(),
            old(self).offset() >= 1,
            old(self).input()[old(self).offset() - 1] == INTEGER_EXT,
        ensures
            final(self).wf(),
            final(self).input() == old(self).input(),
            old(self).offset() <= final(self).offset(),
            r matches Ok(t) ==> spec_decode_term(old(self).input(), old(self).offset() - 1)
                == Ok::<(TermV, int), DecodeErrV>((t@, final(self).offset() as int)),
            r matches Err(e) ==> spec_decode_term(old(self).input(), old(self).offset() - 1)
                == Err::<(TermV, int), DecodeErrV>(e@),
    {
        match self.read_i32() {
            Ok(v) => Ok(Term::FixInteger(FixInteger { value: v })),
            Err(e) => Err(e),
        }
    }

    fn decode_new_float_ext(&mut self) -> (r: DecodeResult)
        requires
            old(self).wf(),
            old(self).offset() >= 1,
            old(self).input()[old(self).offset() - 1] == NEW_FLOAT_EXT,
        ensures
            final(self).wf(),
            final(self).input() == old(self).input(),
            old(self).offset() <= final(self).offset(),
            r matches Ok(t) ==> spec_decode_term(old(self).input(), old(self).offset() - 1)
                == Ok::<(TermV, int), DecodeErrV>((t@, final(self).offset() as int)),
            r matches Err(e) ==> spec_decode_term(old(self).input(), old(self).offset() - 1)
                == Err::<(TermV, int), DecodeErrV>(e@),
    {
        let bits = match self.read_u64() {
            Ok(v) => v,
            Err(e) => {
                return Err(e);
            },
        };
        if (bits / 0x10_0000_0000_0000) % 0x800 != 0x7ff {
            Ok(Term::Float(Float { bits }))
        } else {
            Err(DecodeError::NonFiniteFloat)
        }
    }

    fn decode_atom_payload(&mut self, n: usize) -> (r: DecodeResult)
        requires
            old(self).wf(),
        ensures
            final(self).wf(),
            final(self).input() == old(self).input(),
            old(self).offset() <= final(self).offset(),
            r matches Ok(t) ==> spec_decode_atom_payload(
                old(self).input(),
                old(self).offset(),
                n as int,
            ) == Ok::<(TermV, int), DecodeErrV>((t@, final(self).offset() as int)),
            r matches Err(e) ==> spec_decode_atom_payload(
                old(self).input(),
                old(self).offset(),
                n as int,
            ) == Err::<(TermV, int), DecodeErrV>(e@),
    {
        let buf = match self.read_exact(n) {
            Ok(v) => v,
            Err(e) => {
                return Err(e);
            },
        };
        let ghost bytes = buf@;
        match latin1_bytes_to_string(buf) {
            Ok(name) => {
                proof {
                    vstd::utf8::encode_utf8_decode_utf8(name@);
                }
                Ok(Term::Atom(Atom { name }))
            },
            Err(e) => Err(e),
        }
    }

    fn decode_atom_ext(&mut self) -> (r: DecodeResult)
        requires
            old(self).wf(),
            old(self).offset() >= 1,
            old(self).input()[old(self).offset() - 1] == ATOM_EXT || old(self).input()[old(
                self,
            ).offset() - 1] == ATOM_UTF8_EXT,
        ensures
            final(self).wf(),
            final(self).input() == old(self).input(),
            old(self).offset() <= final(self).offset(),
            r matches Ok(t) ==> spec_decode_term(old(self).input(), old(self).offset() - 1)
                == Ok::<(TermV, int), DecodeErrV>((t@, final(self).offset() as int)),
            r matches Err(e) ==> spec_decode_term(old(self).input(), old(self).offset() - 1)
                == Err::<(TermV, int), DecodeErrV>(e@),
    {
        let n = match self.read_u16() {
            Ok(v) => v,
            Err(e) => {
                return Err(e);
            },
        };
        self.decode_atom_payload(n as usize)
    }

    fn decode_small_atom_ext(&mut self) -> (r: DecodeResult)
        requires
            old(self).wf(),
            old(self).offset() >= 1,
            old(self).input()[old(self).offset() - 1] == SMALL_ATOM_EXT || old(self).input()[old(
                self,
            ).offset() - 1] == SMALL_ATOM_UTF8_EXT,
        ensures
            final(self).wf(),
            final(self).input() == old(self).input(),
            old(self).offset() <= final(self).offset(),
            r matches Ok(t) ==> spec_decode_term(old(self).input(), old(self).offset() - 1)
                == Ok::<(TermV, int), DecodeErrV>((t@, final(self).offset() as int)),
            r matches Err(e) ==> spec_decode_term(old(self).input(), old(self).offset() - 1)
                == Err::<(TermV, int), DecodeErrV>(e@),
    {
        let n = match self.read_u8() {
            Ok(v) => v,
            Err(e) => {
                return Err(e);
            },
        };
        self.decode_atom_payload(n as usize)
    }

    fn decode_string_ext(&mut self) -> (r: DecodeResult)
        requires
            old(self).wf(),
            old(self).offset() >= 1,
            old(self).input()[old(self).offset() - 1] == STRING_EXT,
        ensures
            final(self).wf(),
            final(self).input() == old(self).input(),
            old(self).offset() <= final(self).offset(),
            r matches Ok(t) ==> spec_decode_term(old(self).input(), old(self).offset() - 1)
                == Ok::<(TermV, int), DecodeErrV>((t@, final(self).offset() as int)),
            r matches Err(e) ==> spec_decode_term(old(self).input(), old(self).offset() - 1)
                == Err::<(TermV, int), DecodeErrV>(e@),
    {
        let n = match self.read_u16() {
            Ok(v) => v,
            Err(e) => {
                return Err(e);
            },
        };
        match self.read_exact(n as usize) {
            Ok(bytes) => Ok(Term::ByteList(ByteList { bytes })),
            Err(e) => Err(e),
        }
    }

    fn decode_binary_ext(&mut self) -> (r: DecodeResult)
        requires
            old(self).wf(),
            old(self).offset() >= 1,
            old(self).input()[old(self).offset() - 1] == BINARY_EXT,
        ensures
            final(self).wf(),
            final(self).input() == old(self).input(),
            old(self).offset() <= final(self).offset(),
            r matches Ok(t) ==> spec_decode_term(old(self).input(), old(self).offset() - 1)
                == Ok::<(TermV, int), DecodeErrV>((t@, final(self).offset() as int)),
            r matches Err(e) ==> spec_decode_term(old(self).input(), old(self).offset() - 1)
                == Err::<(TermV, int), DecodeErrV>(e@),
    {
        let n = match self.read_u32() {
            Ok(v) => v,
            Err(e) => {
                return Err(e);
            },
        };
        match self.read_exact(n as usize) {
            Ok(bytes) => Ok(Term::Binary(Binary { bytes })),
            Err(e) => Err(e),
        }
    }

    fn decode_bit_binary_ext(&mut self) -> (r: DecodeResult)
        requires
            old(self).wf(),
            old(self).offset() >= 1,
            old(self).input()[old(self).offset() - 1] == BIT_BINARY_EXT,
        ensures
            final(self).wf(),
            final(self).input() == old(self).input(),
            old(self).offset() <= final(self).offset(),
            r matches Ok(t) ==> spec_decode_term(old(self).input(), old(self).offset() - 1)
                == Ok::<(TermV, int), DecodeErrV>((t@, final(self).offset() as int)),
            r matches Err(e) ==> spec_decode_term(old(self).input(), old(self).offset() - 1)
                == Err::<(TermV, int), DecodeErrV>(e@),
    {
        let n = match self.read_u32() {
            Ok(v) => v,
            Err(e) => {
                return Err(e);
            },
        };
        let tbs = match self.read_u8() {
            Ok(v) => v,
            Err(e) => {
                return Err(e);
            },
        };
        let mut buf = match self.read_exact(n as usize) {
            Ok(v) => v,
            Err(e) => {
                return Err(e);
            },
        };
        let ghost payload = buf@;
        if buf.len() == 0 {
            proof {
                assert(buf@ =~= Seq::<u8>::empty());
            }
            Ok(Term::BitBinary(BitBinary { bytes: buf, tail_bits_size: tbs }))
        } else if 1 <= tbs && tbs <= 8 {
            let last_index = buf.len() - 1;
            let factor = crate::encoder::pow2_factor(8 - tbs);
            let shifted = buf[last_index] / (factor as u8);
            buf.set(last_index, shifted);
            proof {
                assert(shifted == crate::encoder::shr_byte(payload.last(), 8 - tbs as int));
                assert(buf@ =~= payload.drop_last() + seq![
                    crate::encoder::shr_byte(payload.last(), 8 - tbs as int),
                ]);
            }
            Ok(Term::BitBinary(BitBinary { bytes: buf, tail_bits_size: tbs }))
        } else {
            Err(DecodeError::OutOfRange { value: tbs as i32, range: 1i32..8i32 })
        }
    }

    fn decode_big_payload(&mut self, n: usize) -> (r: DecodeResult)
        requires
            old(self).wf(),
        ensures
            final(self).wf(),
            final(self).input() == old(self).input(),
            old(self).offset() <= final(self).offset(),
            r matches Ok(t) ==> spec_decode_big_payload(
                old(self).input(),
                old(self).offset(),
                n as int,
            ) == Ok::<(TermV, int), DecodeErrV>((t@, final(self).offset() as int)),
            r matches Err(e) ==> spec_decode_big_payload(
                old(self).input(),
                old(self).offset(),
                n as int,
            ) == Err::<(TermV, int), DecodeErrV>(e@),
    {
        let sign = match self.read_u8() {
            Ok(v) => v,
            Err(e) => {
                return Err(e);
            },
        };
        let mut m = match self.read_exact(n) {
            Ok(v) => v,
            Err(e) => {
                return Err(e);
            },
        };
        let ghost raw = m@;
        let negative = match byte_to_sign(sign) {
            Ok(v) => v,
            Err(e) => {
                return Err(e);
            },
        };
        while m.len() > 0 && m[m.len() - 1] == 0
            invariant
                strip_zeros(m@) == strip_zeros(raw),
            decreases m@.len(),
        {
            m.pop();
        }
        proof {
            assert(strip_zeros(m@) == m@);
        }
        Ok(
            Term::BigInteger(
                BigInteger { negative: negative && m.len() > 0, magnitude: m },
            ),
        )
    }

    fn decode_small_big_ext(&mut self) -> (r: DecodeResult)
        requires
            old(self).wf(),
            old(self).offset() >= 1,
            old(self).input()[old(self).offset() - 1] == SMALL_BIG_EXT,
        ensures
            final(self).wf(),
            final(self).input() == old(self).input(),
            old(self).offset() <= final(self).offset(),
            r matches Ok(t) ==> spec_decode_term(old(self).input(), old(self).offset() - 1)
                == Ok::<(TermV, int), DecodeErrV>((t@, final(self).offset() as int)),
            r matches Err(e) ==> spec_decode_term(old(self).input(), old(self).offset() - 1)
                == Err::<(TermV, int), DecodeErrV>(e@),
    {
        let n = match self.read_u8() {
            Ok(v) => v,
            Err(e) => {
                return Err(e);
            },
        };
        self.decode_big_payload(n as usize)
    }

    fn decode_large_big_ext(&mut self) -> (r: DecodeResult)
        requires
            old(self).wf(),
            old(self).offset() >= 1,
            old(self).input()[old(self).offset() - 1] == LARGE_BIG_EXT,
        ensures
            final(self).wf(),
            final(self).input() == old(self).input(),
            old(self).offset() <= final(self).offset(),
            r matches Ok(t) ==> spec_decode_term(old(self).input(), old(self).offset() - 1)
                == Ok::<(TermV, int), DecodeErrV>((t@, final(self).offset() as int)),
            r matches Err(e) ==> spec_decode_term(old(self).input(), old(self).offset() - 1)
                == Err::<(TermV, int), DecodeErrV>(e@),
    {
        let n = match self.read_u32() {
            Ok(v) => v,
            Err(e) => {
                return Err(e);
            },
        };
        self.decode_big_payload(n as usize)
    }
}


/// Stepping an insertion past a prefix that does not hold the key.
proof fn lemma_map_insert_skip(es: Seq<(TermV, TermV)>, i: int, k: TermV, v: TermV)
    requires
        0 <= i <= es.len(),
        forall|j: int| 0 <= j < i ==> (#[trigger] es[j]).0 != k,
    ensures
        map_insert(es, k, v) == es.take(i) + map_insert(es.skip(i), k, v),
    decreases i,
{
    if i > 0 {
        assert(es.first() == es[0]);
        lemma_map_insert_skip(es.drop_first(), i - 1, k, v);
        assert(es.drop_first().skip(i - 1) =~= es.skip(i));
        assert(es.drop_first().take(i - 1) =~= es.take(i).drop_first());
        assert(seq![es.first()] + (es.take(i).drop_first() + map_insert(es.skip(i), k, v)) =~= (
        es.take(i) + map_insert(es.skip(i), k, v)));
    } else {
        assert(es.skip(0) =~= es);
        assert(es.take(0) + map_insert(es, k, v) =~= map_insert(es, k, v));
    }
}

/// Inserts one decoded entry, a duplicate key overwriting in place.
#[verifier::loop_isolation(false)]
fn insert_entry(entries: &mut Vec<(Term, Term)>, k: Term, v: Term)
    ensures
        pairs_view(final(entries)@) == map_insert(
            pairs_view(old(entries)@),
            term_view(k),
            term_view(v),
        ),
{
    let ghost es = pairs_view(entries@);
    let ghost kv = term_view(k);
    let ghost vv = term_view(v);
    proof {
        lemma_pairs_view_len(entries@);
    }
    let mut j: usize = 0;
    while j < entries.len()
        invariant
            j <= entries@.len(),
            es == pairs_view(entries@),
            es.len() == entries@.len(),
            kv == term_view(k),
            vv == term_view(v),
            forall|jj: int|
                0 <= jj < entries@.len() ==> #[trigger] es[jj] == (
                    term_view(entries@[jj].0),
                    term_view(entries@[jj].1),
                ),
            forall|jj: int| 0 <= jj < j ==> (#[trigger] es[jj]).0 != kv,
        decreases entries@.len() - j,
    {
        if term_eq(&entries[j].0, &k) {
            proof {
                lemma_map_insert_skip(es, j as int, kv, vv);
                assert(es.skip(j as int).first() == es[j as int]);
                assert(es.skip(j as int).drop_first() =~= es.skip(j as int + 1));
            }
            entries.set(j, (k, v));
            proof {
                lemma_pairs_view_len(entries@);
                assert(pairs_view(entries@) =~= es.take(j as int) + (seq![(kv, vv)] + es.skip(
                    j as int + 1,
                )));
                assert(pairs_view(entries@) == map_insert(es, kv, vv));
            }
            return;
        }
        j += 1;
    }
    entries.push((k, v));
    proof {
        lemma_map_insert_skip(es, es.len() as int, kv, vv);
        assert(es.skip(es.len() as int) =~= Seq::<(TermV, TermV)>::empty());
        lemma_pairs_view_len(entries@);
        assert(pairs_view(entries@) =~= es.take(es.len() as int) + map_insert(
            Seq::<(TermV, TermV)>::empty(),
            kv,
            vv,
        ));
        assert(pairs_view(entries@) == map_insert(es, kv, vv));
    }
}

impl Decoder {
    fn decode_node(&mut self) -> (r: Result<Atom, DecodeError>)
        requires
            old(self).wf(),
        ensures
            final(self).wf(),
            final(self).input() == old(self).input(),
            old(self).offset() <= final(self).offset(),
            r matches Ok(a) ==> spec_decode_node(old(self).input(), old(self).offset())
                == Ok::<(Seq<char>, int), DecodeErrV>((a@, final(self).offset() as int)) && old(
                self,
            ).offset() < final(self).offset(),
            r matches Err(e) ==> spec_decode_node(old(self).input(), old(self).offset())
                == Err::<(Seq<char>, int), DecodeErrV>(e@),
        decreases self.input().len() - self.offset(), 1int,
    {
        let t = match self.decode_term() {
            Ok(t) => t,
            Err(e) => {
                return Err(e);
            },
        };
        match crate::codec_common::term_into_atom(t) {
            Ok(a) => Ok(a),
            Err(e) => Err(e),
        }
    }

    fn decode_fix_field(&mut self) -> (r: Result<i32, DecodeError>)
        requires
            old(self).wf(),
        ensures
            final(self).wf(),
            final(self).input() == old(self).input(),
            old(self).offset() <= final(self).offset(),
            r matches Ok(v) ==> spec_decode_fix_field(old(self).input(), old(self).offset())
                == Ok::<(i32, int), DecodeErrV>((v, final(self).offset() as int)) && old(
                self,
            ).offset() < final(self).offset(),
            r matches Err(e) ==> spec_decode_fix_field(old(self).input(), old(self).offset())
                == Err::<(i32, int), DecodeErrV>(e@),
        decreases self.input().len() - self.offset(), 1int,
    {
        let t = match self.decode_term() {
            Ok(t) => t,
            Err(e) => {
                return Err(e);
            },
        };
        match crate::codec_common::term_into_fix_integer(t) {
            Ok(n) => Ok(n.value),
            Err(e) => Err(e),
        }
    }

    fn decode_pid_field(&mut self) -> (r: Result<Pid, DecodeError>)
        requires
            old(self).wf(),
        ensures
            final(self).wf(),
            final(self).input() == old(self).input(),
            old(self).offset() <= final(self).offset(),
            r matches Ok(p) ==> spec_decode_pid_field(old(self).input(), old(self).offset())
                == Ok::<(PidV, int), DecodeErrV>((p@, final(self).offset() as int)) && old(
                self,
            ).offset() < final(self).offset(),
            r matches Err(e) ==> spec_decode_pid_field(old(self).input(), old(self).offset())
                == Err::<(PidV, int), DecodeErrV>(e@),
        decreases self.input().len() - self.offset(), 1int,
    {
        let t = match self.decode_term() {
            Ok(t) => t,
            Err(e) => {
                return Err(e);
            },
        };
        match crate::codec_common::term_into_pid(t) {
            Ok(p) => Ok(p),
            Err(e) => Err(e),
        }
    }

    fn decode_pid_body(&mut self, cwidth: u8) -> (r: DecodeResult)
        requires
            old(self).wf(),
            old(self).offset() >= 1,
            cwidth == 1 || cwidth == 4,
            cwidth == 1 ==> old(self).input()[old(self).offset() - 1] == PID_EXT,
            cwidth == 4 ==> old(self).input()[old(self).offset() - 1] == NEW_PID_EXT,
        ensures
            final(self).wf(),
            final(self).input() == old(self).input(),
            old(self).offset() <= final(self).offset(),
            r matches Ok(t) ==> spec_decode_term(old(self).input(), old(self).offset() - 1)
                == Ok::<(TermV, int), DecodeErrV>((t@, final(self).offset() as int)),
            r matches Err(e) ==> spec_decode_term(old(self).input(), old(self).offset() - 1)
                == Err::<(TermV, int), DecodeErrV>(e@),
        decreases self.input().len() - self.offset(), 2int,
    {
        proof {
            reveal_with_fuel(spec_decode_term, 2);
        }
        let node = match self.decode_node() {
            Ok(a) => a,
            Err(e) => {
                return Err(e);
            },
        };
        let id = match self.read_u32() {
            Ok(v) => v,
            Err(e) => {
                return Err(e);
            },
        };
        let serial = match self.read_u32() {
            Ok(v) => v,
            Err(e) => {
                return Err(e);
            },
        };
        let creation: u32 = if cwidth == 1 {
            match self.read_u8() {
                Ok(v) => v as u32,
                Err(e) => {
                    return Err(e);
                },
            }
        } else {
            match self.read_u32() {
                Ok(v) => v,
                Err(e) => {
                    return Err(e);
                },
            }
        };
        Ok(Term::Pid(Pid { node, id, serial, creation }))
    }

    fn decode_port_body(&mut self, iwidth: u8, cwidth: u8) -> (r: DecodeResult)
        requires
            old(self).wf(),
            old(self).offset() >= 1,
            iwidth == 4 || iwidth == 8,
            cwidth == 1 || cwidth == 4,
            iwidth == 4 && cwidth == 1 ==> old(self).input()[old(self).offset() - 1] == PORT_EXT,
            iwidth == 4 && cwidth == 4 ==> old(self).input()[old(self).offset() - 1]
                == NEW_PORT_EXT,
            iwidth == 8 ==> cwidth == 4 && old(self).input()[old(self).offset() - 1] == V4_PORT_EXT,
        ensures
            final(self).wf(),
            final(self).input() == old(self).input(),
            old(self).offset() <= final(self).offset(),
            r matches Ok(t) ==> spec_decode_term(old(self).input(), old(self).offset() - 1)
                == Ok::<(TermV, int), DecodeErrV>((t@, final(self).offset() as int)),
            r matches Err(e) ==> spec_decode_term(old(self).input(), old(self).offset() - 1)
                == Err::<(TermV, int), DecodeErrV>(e@),
        decreases self.input().len() - self.offset(), 2int,
    {
        proof {
            reveal_with_fuel(spec_decode_term, 2);
        }
        let node = match self.decode_node() {
            Ok(a) => a,
            Err(e) => {
                return Err(e);
            },
        };
        let id: u64 = if iwidth == 4 {
            match self.read_u32() {
                Ok(v) => v as u64,
                Err(e) => {
                    return Err(e);
                },
            }
        } else {
            match self.read_u64() {
                Ok(v) => v,
                Err(e) => {
                    return Err(e);
                },
            }
        };
        let creation: u32 = if cwidth == 1 {
            match self.read_u8() {
                Ok(v) => v as u32,
                Err(e) => {
                    return Err(e);
                },
            }
        } else {
            match self.read_u32() {
                Ok(v) => v,
                Err(e) => {
                    return Err(e);
                },
            }
        };
        Ok(Term::Port(Port { node, id, creation }))
    }

    fn decode_reference_ext(&mut self) -> (r: DecodeResult)
        requires
            old(self).wf(),
            old(self).offset() >= 1,
            old(self).input()[old(self).offset() - 1] == REFERENCE_EXT,
        ensures
            final(self).wf(),
            final(self).input() == old(self).input(),
            old(self).offset() <= final(self).offset(),
            r matches Ok(t) ==> spec_decode_term(old(self).input(), old(self).offset() - 1)
                == Ok::<(TermV, int), DecodeErrV>((t@, final(self).offset() as int)),
            r matches Err(e) ==> spec_decode_term(old(self).input(), old(self).offset() - 1)
                == Err::<(TermV, int), DecodeErrV>(e@),
        decreases self.input().len() - self.offset(), 2int,
    {
        proof {
            reveal_with_fuel(spec_decode_term, 2);
        }
        let node = match self.decode_node() {
            Ok(a) => a,
            Err(e) => {
                return Err(e);
            },
        };
        let word = match self.read_u32() {
            Ok(v) => v,
            Err(e) => {
                return Err(e);
            },
        };
        let creation: u32 = match self.read_u8() {
            Ok(v) => v as u32,
            Err(e) => {
                return Err(e);
            },
        };
        let mut id: Vec<u32> = Vec::new();
        id.push(word);
        proof {
            assert(id@ =~= seq![word]);
        }
        Ok(Term::Reference(Reference { node, id, creation }))
    }

    #[verifier::rlimit(100)]
    #[verifier::loop_isolation(false)]
    fn decode_new_reference_body(&mut self, cwidth: u8) -> (r: DecodeResult)
        requires
            old(self).wf(),
            old(self).offset() >= 1,
            cwidth == 1 || cwidth == 4,
            cwidth == 1 ==> old(self).input()[old(self).offset() - 1] == NEW_REFERENCE_EXT,
            cwidth == 4 ==> old(self).input()[old(self).offset() - 1] == NEWER_REFERENCE_EXT,
        ensures
            final(self).wf(),
            final(self).input() == old(self).input(),
            old(self).offset() <= final(self).offset(),
            r matches Ok(t) ==> spec_decode_term(old(self).input(), old(self).offset() - 1)
                == Ok::<(TermV, int), DecodeErrV>((t@, final(self).offset() as int)),
            r matches Err(e) ==> spec_decode_term(old(self).input(), old(self).offset() - 1)
                == Err::<(TermV, int), DecodeErrV>(e@),
        decreases self.input().len() - self.offset(), 2int,
    {
        proof {
            reveal_with_fuel(spec_decode_term, 2);
            reveal_with_fuel(term_view, 2);
        }
        let ghost b = self.input();
        let ghost pos0 = self.offset();
        let n = match self.read_u16() {
            Ok(v) => v,
            Err(e) => {
                return Err(e);
            },
        };
        let node = match self.decode_node() {
            Ok(a) => a,
            Err(e) => {
                return Err(e);
            },
        };
        let creation: u32 = if cwidth == 1 {
            match self.read_u8() {
                Ok(v) => v as u32,
                Err(e) => {
                    return Err(e);
                },
            }
        } else {
            match self.read_u32() {
                Ok(v) => v,
                Err(e) => {
                    return Err(e);
                },
            }
        };
        let ghost idpos = self.offset();
        let mut id: Vec<u32> = Vec::new();
        let mut i: u16 = 0;
        while i < n
            invariant
                i <= n,
                self.wf(),
                self.input() == b,
                self.offset() == idpos + 4 * i,
                idpos + 4 * (n as int) <= b.len() || self.offset() <= b.len(),
                id@.len() == i as int,
                forall|k: int| 0 <= k < i ==> id@[k] == spec_id_words(b, idpos, n as int)[k],
            decreases n - i,
        {
            let w = match self.read_u32() {
                Ok(v) => v,
                Err(e) => {
                    return Err(e);
                },
            };
            id.push(w);
            i += 1;
        }
        proof {
            assert(id@ =~= spec_id_words(b, idpos, n as int));
        }
        Ok(Term::Reference(Reference { node, id, creation }))
    }

    fn decode_export_ext(&mut self) -> (r: DecodeResult)
        requires
            old(self).wf(),
            old(self).offset() >= 1,
            old(self).input()[old(self).offset() - 1] == EXPORT_EXT,
        ensures
            final(self).wf(),
            final(self).input() == old(self).input(),
            old(self).offset() <= final(self).offset(),
            r matches Ok(t) ==> spec_decode_term(old(self).input(), old(self).offset() - 1)
                == Ok::<(TermV, int), DecodeErrV>((t@, final(self).offset() as int)),
            r matches Err(e) ==> spec_decode_term(old(self).input(), old(self).offset() - 1)
                == Err::<(TermV, int), DecodeErrV>(e@),
        decreases self.input().len() - self.offset(), 2int,
    {
        proof {
            reveal_with_fuel(spec_decode_term, 2);
        }
        let module = match self.decode_node() {
            Ok(a) => a,
            Err(e) => {
                return Err(e);
            },
        };
        let function = match self.decode_node() {
            Ok(a) => a,
            Err(e) => {
                return Err(e);
            },
        };
        let t = match self.decode_term() {
            Ok(t) => t,
            Err(e) => {
                return Err(e);
            },
        };
        let arity = match crate::codec_common::term_into_ranged_integer(t, 0i32..0xffi32) {
            Ok(v) => v,
            Err(e) => {
                return Err(e);
            },
        };
        Ok(Term::ExternalFun(ExternalFun { module, function, arity: arity as u8 }))
    }

    #[verifier::rlimit(100)]
    fn decode_fun_ext(&mut self) -> (r: DecodeResult)
        requires
            old(self).wf(),
            old(self).offset() >= 1,
            old(self).input()[old(self).offset() - 1] == FUN_EXT,
        ensures
            final(self).wf(),
            final(self).input() == old(self).input(),
            old(self).offset() <= final(self).offset(),
            r matches Ok(t) ==> spec_decode_term(old(self).input(), old(self).offset() - 1)
                == Ok::<(TermV, int), DecodeErrV>((t@, final(self).offset() as int)),
            r matches Err(e) ==> spec_decode_term(old(self).input(), old(self).offset() - 1)
                == Err::<(TermV, int), DecodeErrV>(e@),
        decreases self.input().len() - self.offset(), 2int,
    {
        proof {
            reveal_with_fuel(spec_decode_term, 2);
            reveal_with_fuel(term_view, 2);
        }
        let n = match self.read_u32() {
            Ok(v) => v,
            Err(e) => {
                return Err(e);
            },
        };
        let pid = match self.decode_pid_field() {
            Ok(p) => p,
            Err(e) => {
                return Err(e);
            },
        };
        let module = match self.decode_node() {
            Ok(a) => a,
            Err(e) => {
                return Err(e);
            },
        };
        let index = match self.decode_fix_field() {
            Ok(v) => v,
            Err(e) => {
                return Err(e);
            },
        };
        let uniq = match self.decode_fix_field() {
            Ok(v) => v,
            Err(e) => {
                return Err(e);
            },
        };
        let mut vars: Vec<Term> = Vec::new();
        match self.decode_terms_into(n, &mut vars) {
            Ok(_) => {},
            Err(e) => {
                return Err(e);
            },
        }
        proof {
            assert(vars@.skip(0) =~= vars@);
        }
        Ok(Term::InternalFun(InternalFun::Old { module, pid, free_vars: vars, index, uniq }))
    }

    #[verifier::rlimit(100)]
    fn decode_new_fun_ext(&mut self) -> (r: DecodeResult)
        requires
            old(self).wf(),
            old(self).offset() >= 1,
            old(self).input()[old(self).offset() - 1] == NEW_FUN_EXT,
        ensures
            final(self).wf(),
            final(self).input() == old(self).input(),
            old(self).offset() <= final(self).offset(),
            r matches Ok(t) ==> spec_decode_term(old(self).input(), old(self).offset() - 1)
                == Ok::<(TermV, int), DecodeErrV>((t@, final(self).offset() as int)),
            r matches Err(e) ==> spec_decode_term(old(self).input(), old(self).offset() - 1)
                == Err::<(TermV, int), DecodeErrV>(e@),
        decreases self.input().len() - self.offset(), 2int,
    {
        proof {
            reveal_with_fuel(spec_decode_term, 2);
            reveal_with_fuel(term_view, 2);
        }
        let ghost b = self.input();
        let ghost pos0 = self.offset();
        if self.remaining() < 29 {
            return Err(DecodeError::UnexpectedEof);
        }
        let _size = match self.read_u32() {
            Ok(v) => v,
            Err(e) => {
                return Err(e);
            },
        };
        let arity = match self.read_u8() {
            Ok(v) => v,
            Err(e) => {
                return Err(e);
            },
        };
        let uniq = match self.read_exact(16) {
            Ok(v) => v,
            Err(e) => {
                return Err(e);
            },
        };
        let index = match self.read_u32() {
            Ok(v) => v,
            Err(e) => {
                return Err(e);
            },
        };
        let n = match self.read_u32() {
            Ok(v) => v,
            Err(e) => {
                return Err(e);
            },
        };
        let module = match self.decode_node() {
            Ok(a) => a,
            Err(e) => {
                return Err(e);
            },
        };
        let old_index = match self.decode_fix_field() {
            Ok(v) => v,
            Err(e) => {
                return Err(e);
            },
        };
        let old_uniq = match self.decode_fix_field() {
            Ok(v) => v,
            Err(e) => {
                return Err(e);
            },
        };
        let pid = match self.decode_pid_field() {
            Ok(p) => p,
            Err(e) => {
                return Err(e);
            },
        };
        let mut vars: Vec<Term> = Vec::new();
        match self.decode_terms_into(n, &mut vars) {
            Ok(_) => {},
            Err(e) => {
                return Err(e);
            },
        }
        proof {
            assert(vars@.skip(0) =~= vars@);
        }
        Ok(
            Term::InternalFun(
                InternalFun::New {
                    module,
                    arity,
                    pid,
                    free_vars: vars,
                    index,
                    uniq,
                    old_index,
                    old_uniq,
                },
            ),
        )
    }

    /// How many bytes are left to read.
    fn remaining(&self) -> (r: usize)
        requires
            self.wf(),
        ensures
            r == self.input().len() - self.offset(),
    {
        self.bytes.len() - self.pos
    }

    fn decode_small_tuple_ext(&mut self) -> (r: DecodeResult)
        requires
            old(self).wf(),
            old(self).offset() >= 1,
            old(self).input()[old(self).offset() - 1] == SMALL_TUPLE_EXT,
        ensures
            final(self).wf(),
            final(self).input() == old(self).input(),
            old(self).offset() <= final(self).offset(),
            r matches Ok(t) ==> spec_decode_term(old(self).input(), old(self).offset() - 1)
                == Ok::<(TermV, int), DecodeErrV>((t@, final(self).offset() as int)),
            r matches Err(e) ==> spec_decode_term(old(self).input(), old(self).offset() - 1)
                == Err::<(TermV, int), DecodeErrV>(e@),
        decreases self.input().len() - self.offset(), 2int,
    {
        proof {
            reveal_with_fuel(spec_decode_term, 2);
        }
        let n = match self.read_u8() {
            Ok(v) => v,
            Err(e) => {
                return Err(e);
            },
        };
        let mut elements: Vec<Term> = Vec::new();
        match self.decode_terms_into(n as u32, &mut elements) {
            Ok(_) => {},
            Err(e) => {
                return Err(e);
            },
        }
        proof {
            assert(elements@.skip(0) =~= elements@);
        }
        Ok(Term::Tuple(Tuple { elements }))
    }

    fn decode_large_tuple_ext(&mut self) -> (r: DecodeResult)
        requires
            old(self).wf(),
            old(self).offset() >= 1,
            old(self).input()[old(self).offset() - 1] == LARGE_TUPLE_EXT,
        ensures
            final(self).wf(),
            final(self).input() == old(self).input(),
            old(self).offset() <= final(self).offset(),
            r matches Ok(t) ==> spec_decode_term(old(self).input(), old(self).offset() - 1)
                == Ok::<(TermV, int), DecodeErrV>((t@, final(self).offset() as int)),
            r matches Err(e) ==> spec_decode_term(old(self).input(), old(self).offset() - 1)
                == Err::<(TermV, int), DecodeErrV>(e@),
        decreases self.input().len() - self.offset(), 2int,
    {
        proof {
            reveal_with_fuel(spec_decode_term, 2);
        }
        let n = match self.read_u32() {
            Ok(v) => v,
            Err(e) => {
                return Err(e);
            },
        };
        let mut elements: Vec<Term> = Vec::new();
        match self.decode_terms_into(n, &mut elements) {
            Ok(_) => {},
            Err(e) => {
                return Err(e);
            },
        }
        proof {
            assert(elements@.skip(0) =~= elements@);
        }
        Ok(Term::Tuple(Tuple { elements }))
    }

    fn decode_list_ext(&mut self) -> (r: DecodeResult)
        requires
            old(self).wf(),
            old(self).offset() >= 1,
            old(self).input()[old(self).offset() - 1] == LIST_EXT,
        ensures
            final(self).wf(),
            final(self).input() == old(self).input(),
            old(self).offset() <= final(self).offset(),
            r matches Ok(t) ==> spec_decode_term(old(self).input(), old(self).offset() - 1)
                == Ok::<(TermV, int), DecodeErrV>((t@, final(self).offset() as int)),
            r matches Err(e) ==> spec_decode_term(old(self).input(), old(self).offset() - 1)
                == Err::<(TermV, int), DecodeErrV>(e@),
        decreases self.input().len() - self.offset(), 2int,
    {
        proof {
            reveal_with_fuel(spec_decode_term, 2);
        }
        let n = match self.read_u32() {
            Ok(v) => v,
            Err(e) => {
                return Err(e);
            },
        };
        let mut elements: Vec<Term> = Vec::new();
        match self.decode_terms_into(n, &mut elements) {
            Ok(_) => {},
            Err(e) => {
                return Err(e);
            },
        }
        proof {
            assert(elements@.skip(0) =~= elements@);
        }
        let last = match self.decode_term() {
            Ok(t) => t,
            Err(e) => {
                return Err(e);
            },
        };
        let is_nil = match &last {
            Term::List(l) => l.elements.len() == 0,
            _ => false,
        };
        proof {
            match last {
                Term::List(ref l) => {
                    lemma_terms_view_len(l.elements@);
                    assert(term_view(last) == TermV::List {
                        elements: terms_view(l.elements@),
                    });
                },
                _ => {
                    assert(!term_view(last).is_nil());
                },
            }
            assert(is_nil == term_view(last).is_nil());
        }
        if is_nil {
            Ok(Term::List(List { elements }))
        } else {
            Ok(Term::ImproperList(ImproperList { elements, last: Box::new(last) }))
        }
    }

    fn decode_map_ext(&mut self) -> (r: DecodeResult)
        requires
            old(self).wf(),
            old(self).offset() >= 1,
            old(self).input()[old(self).offset() - 1] == MAP_EXT,
        ensures
            final(self).wf(),
            final(self).input() == old(self).input(),
            old(self).offset() <= final(self).offset(),
            r matches Ok(t) ==> spec_decode_term(old(self).input(), old(self).offset() - 1)
                == Ok::<(TermV, int), DecodeErrV>((t@, final(self).offset() as int)),
            r matches Err(e) ==> spec_decode_term(old(self).input(), old(self).offset() - 1)
                == Err::<(TermV, int), DecodeErrV>(e@),
        decreases self.input().len() - self.offset(), 2int,
    {
        proof {
            reveal_with_fuel(spec_decode_term, 2);
        }
        let n = match self.read_u32() {
            Ok(v) => v,
            Err(e) => {
                return Err(e);
            },
        };
        let mut entries: Vec<(Term, Term)> = Vec::new();
        proof {
            assert(pairs_view(entries@) =~= Seq::<(TermV, TermV)>::empty());
        }
        match self.decode_map_entries(n, &mut entries) {
            Ok(_) => {},
            Err(e) => {
                return Err(e);
            },
        }
        Ok(Term::MapTerm(MapTerm { entries }))
    }

    fn decode_terms_into(&mut self, n: u32, out: &mut Vec<Term>) -> (r: Result<(), DecodeError>)
        requires
            old(self).wf(),
        ensures
            final(self).wf(),
            final(self).input() == old(self).input(),
            old(self).offset() <= final(self).offset(),
            r is Ok ==> final(out)@.len() == old(out)@.len() + n && final(out)@.take(
                old(out)@.len() as int,
            ) == old(out)@ && spec_decode_terms(old(self).input(), old(self).offset(), n as int)
                == Ok::<(Seq<TermV>, int), DecodeErrV>(
                (
                    terms_view(final(out)@.skip(old(out)@.len() as int)),
                    final(self).offset() as int,
                ),
            ),
            r matches Err(e) ==> spec_decode_terms(old(self).input(), old(self).offset(), n as int)
                == Err::<(Seq<TermV>, int), DecodeErrV>(e@),
        decreases self.input().len() - self.offset(), 1int, n,
    {
        if n == 0 {
            proof {
                assert(out@.take(out@.len() as int) =~= out@);
                assert(out@.skip(out@.len() as int) =~= Seq::<Term>::empty());
                assert(terms_view(Seq::<Term>::empty()) =~= Seq::<TermV>::empty());
            }
            return Ok(());
        }
        let ghost out0 = out@;
        let t = match self.decode_term() {
            Ok(t) => t,
            Err(e) => {
                return Err(e);
            },
        };
        let ghost tv = term_view(t);
        out.push(t);
        let ghost out1 = out@;
        match self.decode_terms_into(n - 1, out) {
            Ok(_) => {
                proof {
                    lemma_terms_view_len(out@.skip(out0.len() as int));
                    lemma_terms_view_len(out@.skip(out1.len() as int));
                    assert(out@.take(out0.len() as int) =~= out0);
                    assert(out@.skip(out0.len() as int) =~= seq![out1[out0.len() as int]] + out@.skip(
                        out1.len() as int,
                    ));
                    assert(out1[out0.len() as int] == t);
                    assert(terms_view(out@.skip(out0.len() as int)) =~= seq![tv] + terms_view(
                        out@.skip(out1.len() as int),
                    ));
                }
                Ok(())
            },
            Err(e) => Err(e),
        }
    }

    fn decode_map_entries(&mut self, n: u32, entries: &mut Vec<(Term, Term)>) -> (r: Result<
        (),
        DecodeError,
    >)
        requires
            old(self).wf(),
        ensures
            final(self).wf(),
            final(self).input() == old(self).input(),
            old(self).offset() <= final(self).offset(),
            r is Ok ==> spec_decode_map_entries(
                old(self).input(),
                old(self).offset(),
                n as int,
                pairs_view(old(entries)@),
            ) == Ok::<(Seq<(TermV, TermV)>, int), DecodeErrV>(
                (pairs_view(final(entries)@), final(self).offset() as int),
            ),
            r matches Err(e) ==> spec_decode_map_entries(
                old(self).input(),
                old(self).offset(),
                n as int,
                pairs_view(old(entries)@),
            ) == Err::<(Seq<(TermV, TermV)>, int), DecodeErrV>(e@),
        decreases self.input().len() - self.offset(), 1int, n,
    {
        if n == 0 {
            return Ok(());
        }
        let k = match self.decode_term() {
            Ok(t) => t,
            Err(e) => {
                return Err(e);
            },
        };
        let v = match self.decode_term() {
            Ok(t) => t,
            Err(e) => {
                return Err(e);
            },
        };
        insert_entry(entries, k, v);
        self.decode_map_entries(n - 1, entries)
    }
}

} // verus!
