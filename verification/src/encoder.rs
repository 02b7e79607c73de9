//! The encoder: the specification of the byte layout chosen for every term,
//! and the verified encoder that produces exactly those bytes, choosing the
//! most compact valid representation.
use crate::codec_common::{EncodeErrV, EncodeError, EncodeResult};
use crate::terms::{
    Atom, BigInteger, BigIntegerV, BitBinary, Binary, ByteList, ExternalFun, FixInteger, Float,
    ImproperList, InternalFun, InternalFunV, List, MapTerm, Pid, PidV, Port, Reference, Term,
    TermV, Tuple, copy_bytes, copy_u32s, internal_fun_view, lemma_pairs_view_len,
    lemma_terms_view_len, pairs_view, pairs_wf, term_view, terms_view, terms_wf,
};
use crate::wire::{
    ATOM_EXT, ATOM_UTF8_EXT, BINARY_EXT, BIT_BINARY_EXT, EXPORT_EXT, FUN_EXT, INTEGER_EXT,
    LARGE_BIG_EXT, LARGE_TUPLE_EXT, LIST_EXT, MAP_EXT, NEWER_REFERENCE_EXT, NEW_FLOAT_EXT,
    NEW_FUN_EXT, NEW_PID_EXT, NEW_PORT_EXT, NIL_EXT, SMALL_BIG_EXT, SMALL_INTEGER_EXT,
    SMALL_TUPLE_EXT, STRING_EXT, V4_PORT_EXT, VERSION, enc_i32, enc_u16, enc_u32, enc_u64,
    lemma_be_enc_i32, lemma_be_enc_u16, lemma_be_enc_u32, lemma_be_enc_u64,
};
use vstd::prelude::*;

verus! {

broadcast use vstd::std_specs::vec::group_vec_axioms, vstd::seq::group_seq_axioms;

use vstd::utf8::encode_utf8;

// ---------------------------------------------------------------------------
// Specification of the chosen encoding
// ---------------------------------------------------------------------------
/// Two to the power `k`, for the small exponents of partial-byte shifts.
pub open spec fn pow2_small(k: int) -> int
    decreases k,
{
    if k <= 0 {
        1
    } else {
        2 * pow2_small(k - 1)
    }
}

/// The last byte of a bit-binary as written: the stored value shifted left
/// so that only the `tail_bits_size` significant bits remain, high-aligned.
pub open spec fn shl_byte(b: u8, k: int) -> u8 {
    ((b * pow2_small(k)) % 0x100) as u8
}

/// The last byte of a bit-binary as stored: the wire byte shifted right to
/// strip its padding bits.
pub open spec fn shr_byte(b: u8, k: int) -> u8 {
    ((b as int) / pow2_small(k)) as u8
}

/// True when every byte is ASCII, which selects the plain atom tag.
pub open spec fn is_ascii_bytes(b: Seq<u8>) -> bool {
    forall|i: int| 0 <= i < b.len() ==> b[i] < 0x80
}

/// The encoding of an atom: the plain tag for ASCII names, the UTF-8 tag
/// otherwise, then a 16-bit byte count and the name's UTF-8 bytes.
pub open spec fn spec_encode_atom(name: Seq<char>) -> Seq<u8> {
    let b = encode_utf8(name);
    let tag: u8 = if is_ascii_bytes(b) {
        ATOM_EXT
    } else {
        ATOM_UTF8_EXT
    };
    seq![tag] + enc_u16(b.len() as int) + b
}

/// An atom name that does not fit the 16-bit length field is the atom's
/// encode failure.
pub open spec fn atom_err(name: Seq<char>) -> Option<EncodeErrV> {
    if encode_utf8(name).len() > 0xffff {
        Some(EncodeErrV::TooLongAtomName { name })
    } else {
        None
    }
}

/// The encoding of a small integer: the 1-byte form in 0..=255, else the
/// 4-byte signed form.
pub open spec fn spec_encode_fix(v: i32) -> Seq<u8> {
    if 0 <= v <= 0xff {
        seq![SMALL_INTEGER_EXT, v as u8]
    } else {
        seq![INTEGER_EXT] + enc_i32(v as int)
    }
}

/// The magnitude bytes written for a big integer: zero is written as one
/// zero byte.
pub open spec fn big_magnitude(big: BigIntegerV) -> Seq<u8> {
    if big.magnitude.len() == 0 {
        seq![0u8]
    } else {
        big.magnitude
    }
}

/// The encoding of a big integer: the 8-bit-count form when the magnitude
/// fits 255 bytes, else the 32-bit-count form; then the sign byte and the
/// little-endian magnitude.
pub open spec fn spec_encode_big(big: BigIntegerV) -> Seq<u8> {
    let m = big_magnitude(big);
    let sign: u8 = if big.negative {
        1
    } else {
        0
    };
    if m.len() <= 0xff {
        seq![SMALL_BIG_EXT, m.len() as u8, sign] + m
    } else {
        seq![LARGE_BIG_EXT] + enc_u32(m.len() as int) + seq![sign] + m
    }
}

/// The encoding of a process identifier, always in the newest layout.
pub open spec fn spec_encode_pid(p: PidV) -> Seq<u8> {
    seq![NEW_PID_EXT] + spec_encode_atom(p.node) + enc_u32(p.id as int) + enc_u32(p.serial as int)
        + enc_u32(p.creation as int)
}

/// True when a list can use the compact byte-string form: every element a
/// small integer in 0..=255.
pub open spec fn is_byte_elems(es: Seq<TermV>) -> bool {
    forall|i: int|
        0 <= i < es.len() ==> ((#[trigger] es[i]) matches TermV::FixInteger { value } && 0 <= value
            <= 0xff)
}

/// The byte that a byte-range small integer element contributes.
pub open spec fn term_byte(t: TermV) -> u8 {
    match t {
        TermV::FixInteger { value } => if 0 <= value <= 0xff {
            value as u8
        } else {
            0
        },
        _ => 0,
    }
}

/// The bytes of a compact byte-string form list.
pub open spec fn byte_elems(es: Seq<TermV>) -> Seq<u8> {
    Seq::new(es.len(), |i: int| term_byte(es[i]))
}

/// The payload of a bit-binary: all but the last byte verbatim, the last
/// byte shifted left to restore its padding as zeros; nothing when empty.
pub open spec fn bit_binary_payload(bytes: Seq<u8>, tail_bits_size: u8) -> Seq<u8> {
    if bytes.len() == 0 {
        Seq::empty()
    } else {
        bytes.take(bytes.len() - 1) + seq![shl_byte(bytes.last(), 8 - tail_bits_size)]
    }
}

/// The encoding of one term.
pub open spec fn spec_encode_term(t: TermV) -> Seq<u8>
    decreases t,
{
    match t {
        TermV::Atom { name } => spec_encode_atom(name),
        TermV::FixInteger { value } => spec_encode_fix(value),
        TermV::BigInteger { big } => spec_encode_big(big),
        TermV::Float { bits } => seq![NEW_FLOAT_EXT] + enc_u64(bits as int),
        TermV::Pid { pid } => spec_encode_pid(pid),
        TermV::Port { port } => if port.id < 0x1_0000_0000 {
            seq![NEW_PORT_EXT] + spec_encode_atom(port.node) + enc_u32(port.id as int) + enc_u32(
                port.creation as int,
            )
        } else {
            seq![V4_PORT_EXT] + spec_encode_atom(port.node) + enc_u64(port.id as int) + enc_u32(
                port.creation as int,
            )
        },
        TermV::Reference { reference } => seq![NEWER_REFERENCE_EXT] + enc_u16(
            reference.id.len() as int,
        ) + spec_encode_atom(reference.node) + enc_u32(reference.creation as int) + enc_u32s(
            reference.id,
        ),
        TermV::ExternalFun { fun } => seq![EXPORT_EXT] + spec_encode_atom(fun.module)
            + spec_encode_atom(fun.function) + spec_encode_fix(fun.arity as i32),
        TermV::InternalFun { fun } => match fun {
            InternalFunV::Old { module, pid, free_vars, index, uniq } => seq![FUN_EXT] + enc_u32(
                free_vars.len() as int,
            ) + spec_encode_pid(pid) + spec_encode_atom(module) + spec_encode_fix(index)
                + spec_encode_fix(uniq) + spec_encode_terms(free_vars),
            InternalFunV::New { .. } => {
                let inner = spec_encode_fun_inner(fun);
                seq![NEW_FUN_EXT] + enc_u32(4 + inner.len() as int) + inner
            },
        },
        TermV::Binary { bytes } => seq![BINARY_EXT] + enc_u32(bytes.len() as int) + bytes,
        TermV::BitBinary { bytes, tail_bits_size } => seq![BIT_BINARY_EXT] + enc_u32(
            bytes.len() as int,
        ) + seq![tail_bits_size] + bit_binary_payload(bytes, tail_bits_size),
        TermV::List { elements } => if elements.len() > 0 && elements.len() <= 0xffff
            && is_byte_elems(elements) {
            seq![STRING_EXT] + enc_u16(elements.len() as int) + byte_elems(elements)
        } else if elements.len() == 0 {
            seq![NIL_EXT]
        } else {
            seq![LIST_EXT] + enc_u32(elements.len() as int) + spec_encode_terms(elements) + seq![
                NIL_EXT,
            ]
        },
        TermV::ImproperList { elements, last } => seq![LIST_EXT] + enc_u32(elements.len() as int)
            + spec_encode_terms(elements) + spec_encode_term(*last),
        TermV::Tuple { elements } => if elements.len() < 0x100 {
            seq![SMALL_TUPLE_EXT, elements.len() as u8] + spec_encode_terms(elements)
        } else {
            seq![LARGE_TUPLE_EXT] + enc_u32(elements.len() as int) + spec_encode_terms(elements)
        },
        TermV::MapTerm { entries } => seq![MAP_EXT] + enc_u32(entries.len() as int)
            + spec_encode_pairs(entries),
        TermV::ByteList { bytes } => seq![STRING_EXT] + enc_u16(bytes.len() as int) + bytes,
    }
}

/// The concatenated encodings of a sequence of terms.
pub open spec fn spec_encode_terms(ts: Seq<TermV>) -> Seq<u8>
    decreases ts,
{
    if ts.len() == 0 {
        Seq::empty()
    } else {
        spec_encode_term(ts.first()) + spec_encode_terms(ts.drop_first())
    }
}

/// The concatenated encodings of a sequence of key-value pairs.
pub open spec fn spec_encode_pairs(ps: Seq<(TermV, TermV)>) -> Seq<u8>
    decreases ps,
{
    if ps.len() == 0 {
        Seq::empty()
    } else {
        spec_encode_term(ps.first().0) + spec_encode_term(ps.first().1) + spec_encode_pairs(
            ps.drop_first(),
        )
    }
}

/// The concatenated 4-byte encodings of a sequence of id words.
pub open spec fn enc_u32s(ids: Seq<u32>) -> Seq<u8>
    decreases ids,
{
    if ids.len() == 0 {
        Seq::empty()
    } else {
        enc_u32s(ids.drop_last()) + enc_u32(ids.last() as int)
    }
}

/// The body of the newest function-closure layout, which is serialized
/// first so that its length can be written as a prefix.
pub open spec fn spec_encode_fun_inner(fun: InternalFunV) -> Seq<u8>
    recommends
        fun matches InternalFunV::New { .. },
    decreases fun,
{
    match fun {
        InternalFunV::New { module, arity, pid, free_vars, index, uniq, old_index, old_uniq } => {
            seq![arity] + uniq + enc_u32(index as int) + enc_u32(free_vars.len() as int)
                + spec_encode_atom(module) + spec_encode_fix(old_index) + spec_encode_fix(old_uniq)
                + spec_encode_pid(pid) + spec_encode_terms(free_vars)
        },
        InternalFunV::Old { .. } => Seq::empty(),
    }
}

/// The whole encoded stream for one term: the version byte, then the term.
pub open spec fn spec_encode_stream(t: TermV) -> Seq<u8> {
    seq![VERSION] + spec_encode_term(t)
}

// ---------------------------------------------------------------------------
// Which encode failure a term produces, in traversal order
// ---------------------------------------------------------------------------
/// The first encode failure that writing this term would meet, or nothing.
pub open spec fn first_encode_error(t: TermV) -> Option<EncodeErrV>
    decreases t,
{
    match t {
        TermV::Atom { name } => atom_err(name),
        TermV::FixInteger { .. } => None,
        TermV::BigInteger { big } => if big_magnitude(big).len() > 0xffff_ffff {
            Some(EncodeErrV::TooLargeInteger { big })
        } else {
            None
        },
        TermV::Float { .. } => None,
        TermV::Pid { pid } => atom_err(pid.node),
        TermV::Port { port } => atom_err(port.node),
        TermV::Reference { reference } => if reference.id.len() > 0xffff {
            Some(EncodeErrV::TooLargeReferenceId { reference })
        } else {
            atom_err(reference.node)
        },
        TermV::ExternalFun { fun } => if atom_err(fun.module) is Some {
            atom_err(fun.module)
        } else {
            atom_err(fun.function)
        },
        TermV::InternalFun { fun } => match fun {
            InternalFunV::Old { module, pid, free_vars, .. } => if atom_err(pid.node) is Some {
                atom_err(pid.node)
            } else if atom_err(module) is Some {
                atom_err(module)
            } else {
                first_err_terms(free_vars)
            },
            InternalFunV::New { module, pid, free_vars, .. } => if atom_err(module) is Some {
                atom_err(module)
            } else if atom_err(pid.node) is Some {
                atom_err(pid.node)
            } else if first_err_terms(free_vars) is Some {
                first_err_terms(free_vars)
            } else if 4 + spec_encode_fun_inner(fun).len() > 0xffff_ffff {
                Some(EncodeErrV::TooLargeInternalFun)
            } else {
                None
            },
        },
        TermV::Binary { .. } => None,
        TermV::BitBinary { .. } => None,
        TermV::List { elements } => if elements.len() > 0 && elements.len() <= 0xffff
            && is_byte_elems(elements) {
            None
        } else {
            first_err_terms(elements)
        },
        TermV::ImproperList { elements, last } => if first_err_terms(elements) is Some {
            first_err_terms(elements)
        } else {
            first_encode_error(*last)
        },
        TermV::Tuple { elements } => first_err_terms(elements),
        TermV::MapTerm { entries } => first_err_pairs(entries),
        TermV::ByteList { .. } => None,
    }
}

/// The first encode failure among a sequence of terms, in order.
pub open spec fn first_err_terms(ts: Seq<TermV>) -> Option<EncodeErrV>
    decreases ts,
{
    if ts.len() == 0 {
        None
    } else if first_encode_error(ts.first()) is Some {
        first_encode_error(ts.first())
    } else {
        first_err_terms(ts.drop_first())
    }
}

/// The first encode failure among a sequence of key-value pairs, in order.
pub open spec fn first_err_pairs(ps: Seq<(TermV, TermV)>) -> Option<EncodeErrV>
    decreases ps,
{
    if ps.len() == 0 {
        None
    } else if first_encode_error(ps.first().0) is Some {
        first_encode_error(ps.first().0)
    } else if first_encode_error(ps.first().1) is Some {
        first_encode_error(ps.first().1)
    } else {
        first_err_pairs(ps.drop_first())
    }
}


// ---------------------------------------------------------------------------
// Helper lemmas for the encoder's loops
// ---------------------------------------------------------------------------
/// Regrouping an appended pair behind a common prefix.
pub proof fn lemma_app2(p: Seq<u8>, a: Seq<u8>, b: Seq<u8>)
    ensures
        p + a + b == p + (a + b),
{
    assert(p + a + b =~= p + (a + b));
}

/// Regrouping an appended triple behind a common prefix.
pub proof fn lemma_app3(p: Seq<u8>, a: Seq<u8>, b: Seq<u8>, c: Seq<u8>)
    ensures
        p + a + b + c == p + (a + b + c),
{
    assert(p + a + b + c =~= p + (a + b + c));
}

/// Regrouping seven appended pieces behind a common prefix.
pub proof fn lemma_app7(
    p: Seq<u8>,
    a: Seq<u8>,
    b: Seq<u8>,
    c: Seq<u8>,
    d: Seq<u8>,
    e: Seq<u8>,
    f: Seq<u8>,
    g: Seq<u8>,
)
    ensures
        p + a + b + c + d + e + f + g == p + (a + b + c + d + e + f + g),
{
    assert(p + a + b + c + d + e + f + g =~= p + (a + b + c + d + e + f + g));
}

/// Regrouping nine appended pieces behind a common prefix.
pub proof fn lemma_app9(
    p: Seq<u8>,
    a: Seq<u8>,
    b: Seq<u8>,
    c: Seq<u8>,
    d: Seq<u8>,
    e: Seq<u8>,
    f: Seq<u8>,
    g: Seq<u8>,
    h: Seq<u8>,
    i: Seq<u8>,
)
    ensures
        p + a + b + c + d + e + f + g + h + i == p + (a + b + c + d + e + f + g + h + i),
{
    assert(p + a + b + c + d + e + f + g + h + i =~= p + (a + b + c + d + e + f + g + h + i));
}

/// An empty prefix appends to anything without effect.
pub proof fn lemma_empty_add(a: Seq<u8>)
    ensures
        Seq::<u8>::empty() + a == a,
{
    assert(Seq::<u8>::empty() + a =~= a);
}

/// A sequence is a prefix of itself extended by anything.
pub proof fn lemma_prefix_extend(a: Seq<u8>, b: Seq<u8>)
    ensures
        a.is_prefix_of(a + b),
{
    assert(a =~= (a + b).subrange(0, a.len() as int));
}

/// Being a prefix is transitive.
pub proof fn lemma_prefix_trans(a: Seq<u8>, b: Seq<u8>, c: Seq<u8>)
    requires
        a.is_prefix_of(b),
        b.is_prefix_of(c),
    ensures
        a.is_prefix_of(c),
{
    assert(a =~= c.subrange(0, a.len() as int));
}

/// Extending the encoded prefix of an id-word sequence by one more word.
pub proof fn lemma_enc_u32s_take_step(ids: Seq<u32>, i: int)
    requires
        0 <= i < ids.len(),
    ensures
        enc_u32s(ids.take(i + 1)) == enc_u32s(ids.take(i)) + enc_u32(ids[i] as int),
{
    assert(ids.take(i + 1).drop_last() =~= ids.take(i));
    assert(ids.take(i + 1).last() == ids[i]);
}

/// When no term before position `i` fails, the first failure of the whole
/// sequence is the first failure from position `i` on.
pub proof fn lemma_first_err_terms_skip(ts: Seq<TermV>, i: int)
    requires
        0 <= i <= ts.len(),
        forall|j: int| 0 <= j < i ==> first_encode_error(#[trigger] ts[j]) is None,
    ensures
        first_err_terms(ts) == first_err_terms(ts.skip(i)),
    decreases i,
{
    reveal(first_encode_error);
    if i > 0 {
        assert(ts.first() == ts[0]);
        lemma_first_err_terms_skip(ts.drop_first(), i - 1);
        assert(ts.drop_first().skip(i - 1) =~= ts.skip(i));
    } else {
        assert(ts.skip(0) =~= ts);
    }
}

/// A sequence whose head already fails reports the head's failure.
pub proof fn lemma_first_err_terms_head(ts: Seq<TermV>, e: EncodeErrV)
    requires
        ts.len() > 0,
        first_encode_error(ts.first()) == Some(e),
    ensures
        first_err_terms(ts) == Some(e),
{
}

/// An entry sequence whose head key or head value fails reports that
/// failure.
pub proof fn lemma_first_err_pairs_head(ps: Seq<(TermV, TermV)>, e: EncodeErrV)
    requires
        ps.len() > 0,
        first_encode_error(ps.first().0) == Some(e) || (first_encode_error(ps.first().0) is None
            && first_encode_error(ps.first().1) == Some(e)),
    ensures
        first_err_pairs(ps) == Some(e),
{
}

/// The same, for entry sequences.
pub proof fn lemma_first_err_pairs_skip(ps: Seq<(TermV, TermV)>, i: int)
    requires
        0 <= i <= ps.len(),
        forall|j: int|
            0 <= j < i ==> first_encode_error((#[trigger] ps[j]).0) is None && first_encode_error(
                ps[j].1,
            ) is None,
    ensures
        first_err_pairs(ps) == first_err_pairs(ps.skip(i)),
    decreases i,
{
    reveal(first_encode_error);
    if i > 0 {
        assert(ps.first() == ps[0]);
        lemma_first_err_pairs_skip(ps.drop_first(), i - 1);
        assert(ps.drop_first().skip(i - 1) =~= ps.skip(i));
    } else {
        assert(ps.skip(0) =~= ps);
    }
}

// ---------------------------------------------------------------------------
// The encoder
// ---------------------------------------------------------------------------
/// Accumulates the encoded byte stream; each `encode` call appends one
/// version byte and one term.
pub struct Encoder {
    buf: Vec<u8>,
}

impl View for Encoder {
    type V = Seq<u8>;

    closed spec fn view(&self) -> Seq<u8> {
        self.buf@
    }
}

impl Encoder {
    /// A fresh encoder with an empty output.
    pub fn new() -> (r: Encoder)
        ensures
            r@ == Seq::<u8>::empty(),
    {
        Encoder { buf: Vec::new() }
    }

    /// The bytes written so far.
    pub fn into_bytes(self) -> (r: Vec<u8>)
        ensures
            r@ == self@,
    {
        self.buf
    }

    /// Appends the version byte and the encoding of one well-formed term,
    /// or reports the first size violation that the term contains.
    pub fn encode(&mut self, term: &Term) -> (r: EncodeResult)
        requires
            term_view(*term).wf(),
        ensures
            match r {
                Ok(_) => first_encode_error(term_view(*term)) is None && final(self)@ == old(self)@ + spec_encode_stream(term_view(*term)),
                Err(e) => Some(e@) == first_encode_error(term_view(*term)) && old(self)@.is_prefix_of(final(self)@),
            },
    {
        let ghost buf0 = self.buf@;
        self.write_u8(VERSION);
        match self.encode_term(term) {
            Ok(_) => {
                proof {
                    assert(self.buf@ =~= buf0 + spec_encode_stream(term_view(*term)));
                }
                Ok(())
            },
            Err(e) => {
                proof {
                    lemma_prefix_extend(buf0, self.buf@.skip(buf0.len() as int));
                    assert(buf0.is_prefix_of(self.buf@)) by {
                        assert(buf0 =~= self.buf@.subrange(0, buf0.len() as int));
                    }
                }
                Err(e)
            },
        }
    }

    fn write_u8(&mut self, b: u8)
        ensures
            final(self).buf@ == old(self).buf@ + seq![b],
    {
        self.buf.push(b);
        proof {
            assert(self.buf@ =~= old(self).buf@ + seq![b]);
        }
    }

    fn write_u16(&mut self, n: u16)
        ensures
            final(self).buf@ == old(self).buf@ + enc_u16(n as int),
    {
        self.buf.push((n / 0x100) as u8);
        self.buf.push((n % 0x100) as u8);
        proof {
            assert(self.buf@ =~= old(self).buf@ + enc_u16(n as int));
        }
    }

    fn write_u32(&mut self, n: u32)
        ensures
            final(self).buf@ == old(self).buf@ + enc_u32(n as int),
    {
        self.buf.push((n / 0x100_0000) as u8);
        self.buf.push(((n / 0x1_0000) % 0x100) as u8);
        self.buf.push(((n / 0x100) % 0x100) as u8);
        self.buf.push((n % 0x100) as u8);
        proof {
            assert(n as int / 0x100_0000 < 0x100);
            assert(self.buf@ =~= old(self).buf@ + enc_u32(n as int));
        }
    }

    fn write_u64(&mut self, n: u64)
        ensures
            final(self).buf@ == old(self).buf@ + enc_u64(n as int),
    {
        let hi = (n / 0x1_0000_0000) as u32;
        let lo = (n % 0x1_0000_0000) as u32;
        self.write_u32(hi);
        self.write_u32(lo);
        proof {
            assert(self.buf@ =~= old(self).buf@ + enc_u64(n as int));
        }
    }

    fn write_i32(&mut self, v: i32)
        ensures
            final(self).buf@ == old(self).buf@ + enc_i32(v as int),
    {
        if v >= 0 {
            self.write_u32(v as u32);
        } else {
            let u = ((v as i64) + 0x1_0000_0000i64) as u32;
            self.write_u32(u);
        }
    }

    fn write_all(&mut self, x: &[u8])
        ensures
            final(self).buf@ == old(self).buf@ + x@,
    {
        let ghost buf0 = self.buf@;
        let mut i: usize = 0;
        while i < x.len()
            invariant
                i <= x@.len(),
                self.buf@ == buf0 + x@.take(i as int),
            decreases x@.len() - i,
        {
            let b = x[i];
            self.buf.push(b);
            proof {
                assert(buf0 + x@.take(i as int) + seq![x@[i as int]] =~= buf0 + x@.take(i + 1));
            }
            i += 1;
        }
        proof {
            assert(x@.take(x@.len() as int) =~= x@);
        }
    }

    fn encode_nil(&mut self) -> (r: EncodeResult)
        ensures
            r is Ok,
            final(self).buf@ == old(self).buf@ + seq![NIL_EXT],
    {
        self.write_u8(NIL_EXT);
        Ok(())
    }

    fn encode_atom(&mut self, x: &Atom) -> (r: EncodeResult)
        ensures
            match r {
                Ok(_) => atom_err(x@) is None && final(self).buf@ == old(self).buf@
                    + spec_encode_atom(x@),
                Err(e) => Some(e@) == atom_err(x@) && final(self).buf@ == old(self).buf@,
            },
    {
        let ghost buf0 = self.buf@;
        let bytes: &[u8] = x.name.as_str().as_bytes();
        if bytes.len() > 0xffff {
            return Err(EncodeError::TooLongAtomName(Atom { name: x.name.clone() }));
        }
        let mut ascii = true;
        let mut i: usize = 0;
        while i < bytes.len()
            invariant
                i <= bytes@.len(),
                bytes@ == encode_utf8(x.name@),
                ascii == (forall|j: int| 0 <= j < i ==> bytes@[j] < 0x80),
            decreases bytes@.len() - i,
        {
            if bytes[i] >= 0x80 {
                ascii = false;
            }
            i += 1;
        }
        proof {
            assert(ascii == is_ascii_bytes(encode_utf8(x.name@)));
        }
        if ascii {
            self.write_u8(ATOM_EXT);
        } else {
            self.write_u8(ATOM_UTF8_EXT);
        }
        self.write_u16(bytes.len() as u16);
        self.write_all(bytes);
        proof {
            assert(self.buf@ =~= buf0 + spec_encode_atom(x@));
        }
        Ok(())
    }

    fn encode_fix_integer(&mut self, x: &FixInteger) -> (r: EncodeResult)
        ensures
            r is Ok,
            final(self).buf@ == old(self).buf@ + spec_encode_fix(x.value),
    {
        let ghost buf0 = self.buf@;
        if 0 <= x.value && x.value <= 0xff {
            self.write_u8(SMALL_INTEGER_EXT);
            self.write_u8(x.value as u8);
        } else {
            self.write_u8(INTEGER_EXT);
            self.write_i32(x.value);
        }
        proof {
            assert(self.buf@ =~= buf0 + spec_encode_fix(x.value));
        }
        Ok(())
    }

    fn encode_float(&mut self, x: &Float) -> (r: EncodeResult)
        ensures
            r is Ok,
            final(self).buf@ == old(self).buf@ + spec_encode_term(TermV::Float { bits: x.bits }),
    {
        proof {
            reveal(spec_encode_term);
        }
        let ghost buf0 = self.buf@;
        self.write_u8(NEW_FLOAT_EXT);
        self.write_u64(x.bits);
        proof {
            assert(self.buf@ =~= buf0 + spec_encode_term(TermV::Float { bits: x.bits }));
        }
        Ok(())
    }

    fn encode_big_integer(&mut self, x: &BigInteger) -> (r: EncodeResult)
        ensures
            match r {
                Ok(_) => big_magnitude(x@).len() <= 0xffff_ffff && final(self).buf@ == old(self).buf@ + spec_encode_big(x@),
                Err(e) => big_magnitude(x@).len() > 0xffff_ffff && e@ == (
                EncodeErrV::TooLargeInteger { big: x@ }) && final(self).buf@ == old(self).buf@,
            },
    {
        let ghost buf0 = self.buf@;
        let sign = crate::codec_common::sign_to_byte(x.negative);
        if x.magnitude.len() == 0 {
            self.write_u8(SMALL_BIG_EXT);
            self.write_u8(1);
            self.write_u8(sign);
            self.write_u8(0);
            proof {
                assert(self.buf@ =~= buf0 + spec_encode_big(x@));
            }
            Ok(())
        } else if x.magnitude.len() <= 0xff {
            self.write_u8(SMALL_BIG_EXT);
            self.write_u8(x.magnitude.len() as u8);
            self.write_u8(sign);
            self.write_all(x.magnitude.as_slice());
            proof {
                assert(self.buf@ =~= buf0 + spec_encode_big(x@));
            }
            Ok(())
        } else if x.magnitude.len() <= 0xffff_ffff {
            self.write_u8(LARGE_BIG_EXT);
            self.write_u32(x.magnitude.len() as u32);
            self.write_u8(sign);
            self.write_all(x.magnitude.as_slice());
            proof {
                assert(self.buf@ =~= buf0 + spec_encode_big(x@));
            }
            Ok(())
        } else {
            Err(
                EncodeError::TooLargeInteger(
                    BigInteger { negative: x.negative, magnitude: copy_bytes(&x.magnitude) },
                ),
            )
        }
    }

    fn encode_binary(&mut self, x: &Binary) -> (r: EncodeResult)
        requires
            x.bytes@.len() < 0x1_0000_0000,
        ensures
            r is Ok,
            final(self).buf@ == old(self).buf@ + spec_encode_term(
                TermV::Binary { bytes: x.bytes@ },
            ),
    {
        proof {
            reveal(spec_encode_term);
        }
        let ghost buf0 = self.buf@;
        self.write_u8(BINARY_EXT);
        self.write_u32(x.bytes.len() as u32);
        self.write_all(x.bytes.as_slice());
        proof {
            assert(self.buf@ =~= buf0 + spec_encode_term(TermV::Binary { bytes: x.bytes@ }));
        }
        Ok(())
    }

    fn encode_byte_list(&mut self, x: &[u8]) -> (r: EncodeResult)
        requires
            x@.len() <= 0xffff,
        ensures
            r is Ok,
            final(self).buf@ == old(self).buf@ + seq![STRING_EXT] + enc_u16(x@.len() as int) + x@,
    {
        let ghost buf0 = self.buf@;
        self.write_u8(STRING_EXT);
        self.write_u16(x.len() as u16);
        self.write_all(x);
        proof {
            assert(self.buf@ =~= buf0 + seq![STRING_EXT] + enc_u16(x@.len() as int) + x@);
        }
        Ok(())
    }

    fn encode_bit_binary(&mut self, x: &BitBinary) -> (r: EncodeResult)
        requires
            x.bytes@.len() < 0x1_0000_0000,
            x.bytes@.len() > 0 ==> 1 <= x.tail_bits_size <= 8,
        ensures
            r is Ok,
            final(self).buf@ == old(self).buf@ + spec_encode_term(
                TermV::BitBinary { bytes: x.bytes@, tail_bits_size: x.tail_bits_size },
            ),
    {
        proof {
            reveal(spec_encode_term);
        }
        let ghost buf0 = self.buf@;
        self.write_u8(BIT_BINARY_EXT);
        self.write_u32(x.bytes.len() as u32);
        self.write_u8(x.tail_bits_size);
        if x.bytes.len() > 0 {
            let ghost mid0 = self.buf@;
            let last_index = x.bytes.len() - 1;
            let mut i: usize = 0;
            while i < last_index
                invariant
                    i <= last_index,
                    last_index == x.bytes@.len() - 1,
                    self.buf@ == mid0 + x.bytes@.take(i as int),
                decreases last_index - i,
            {
                let b = x.bytes[i];
                self.buf.push(b);
                proof {
                    assert(mid0 + x.bytes@.take(i as int) + seq![x.bytes@[i as int]] =~= mid0
                        + x.bytes@.take(i + 1));
                }
                i += 1;
            }
            let factor = pow2_factor(8 - x.tail_bits_size);
            let last_byte = x.bytes[last_index];
            proof {
                assert((last_byte as int) * (factor as int) <= 255 * 128) by (nonlinear_arith)
                    requires last_byte <= 255, factor <= 128;
            }
            let shifted = (((last_byte as u16) * factor) % 0x100) as u8;
            self.write_u8(shifted);
            proof {
                assert(shifted == shl_byte(x.bytes@.last(), 8 - x.tail_bits_size as int));
                assert(self.buf@ =~= buf0 + spec_encode_term(
                    TermV::BitBinary { bytes: x.bytes@, tail_bits_size: x.tail_bits_size },
                ));
            }
        } else {
            proof {
                assert(self.buf@ =~= buf0 + spec_encode_term(
                    TermV::BitBinary { bytes: x.bytes@, tail_bits_size: x.tail_bits_size },
                ));
            }
        }
        Ok(())
    }

    fn encode_pid(&mut self, x: &Pid) -> (r: EncodeResult)
        ensures
            match r {
                Ok(_) => atom_err(x.node@) is None && final(self).buf@ == old(self).buf@
                    + spec_encode_pid(x@),
                Err(e) => Some(e@) == atom_err(x.node@) && old(self).buf@.is_prefix_of(
                    final(self).buf@,
                ),
            },
    {
        let ghost buf0 = self.buf@;
        self.write_u8(NEW_PID_EXT);
        match self.encode_atom(&x.node) {
            Ok(_) => {},
            Err(e) => {
                proof {
                    lemma_prefix_extend(buf0, seq![NEW_PID_EXT]);
                }
                return Err(e);
            },
        }
        self.write_u32(x.id);
        self.write_u32(x.serial);
        self.write_u32(x.creation);
        proof {
            assert(self.buf@ =~= buf0 + spec_encode_pid(x@));
        }
        Ok(())
    }

    fn encode_port(&mut self, x: &Port) -> (r: EncodeResult)
        ensures
            match r {
                Ok(_) => atom_err(x.node@) is None && final(self).buf@ == old(self).buf@
                    + spec_encode_term(TermV::Port { port: x@ }),
                Err(e) => Some(e@) == atom_err(x.node@) && old(self).buf@.is_prefix_of(
                    final(self).buf@,
                ),
            },
    {
        proof {
            reveal(spec_encode_term);
        }
        let ghost buf0 = self.buf@;
        if x.id < 0x1_0000_0000 {
            self.write_u8(NEW_PORT_EXT);
            match self.encode_atom(&x.node) {
                Ok(_) => {},
                Err(e) => {
                    proof {
                        lemma_prefix_extend(buf0, seq![NEW_PORT_EXT]);
                    }
                    return Err(e);
                },
            }
            self.write_u32(x.id as u32);
            self.write_u32(x.creation);
        } else {
            self.write_u8(V4_PORT_EXT);
            match self.encode_atom(&x.node) {
                Ok(_) => {},
                Err(e) => {
                    proof {
                        lemma_prefix_extend(buf0, seq![V4_PORT_EXT]);
                    }
                    return Err(e);
                },
            }
            self.write_u64(x.id);
            self.write_u32(x.creation);
        }
        proof {
            assert(self.buf@ =~= buf0 + spec_encode_term(TermV::Port { port: x@ }));
        }
        Ok(())
    }

    fn encode_reference(&mut self, x: &Reference) -> (r: EncodeResult)
        ensures
            match r {
                Ok(_) => x.id@.len() <= 0xffff && atom_err(x.node@) is None && final(self).buf@
                    == old(self).buf@ + spec_encode_term(TermV::Reference { reference: x@ }),
                Err(e) => Some(e@) == first_encode_error(TermV::Reference { reference: x@ })
                    && first_encode_error(TermV::Reference { reference: x@ }) is Some && old(self).buf@.is_prefix_of(final(self).buf@),
            },
    {
        proof {
            reveal(spec_encode_term);
            reveal(first_encode_error);
        }
        let ghost buf0 = self.buf@;
        self.write_u8(NEWER_REFERENCE_EXT);
        if x.id.len() > 0xffff {
            proof {
                lemma_prefix_extend(buf0, seq![NEWER_REFERENCE_EXT]);
            }
            return Err(
                EncodeError::TooLargeReferenceId(
                    Reference {
                        node: Atom { name: x.node.name.clone() },
                        id: copy_u32s(&x.id),
                        creation: x.creation,
                    },
                ),
            );
        }
        self.write_u16(x.id.len() as u16);
        match self.encode_atom(&x.node) {
            Ok(_) => {},
            Err(e) => {
                proof {
                    lemma_prefix_extend(buf0, seq![NEWER_REFERENCE_EXT] + enc_u16(x.id@.len() as int));
                    assert(buf0.is_prefix_of(self.buf@));
                }
                return Err(e);
            },
        }
        self.write_u32(x.creation);
        let ghost mid0 = self.buf@;
        let mut i: usize = 0;
        while i < x.id.len()
            invariant
                i <= x.id@.len(),
                self.buf@ == mid0 + enc_u32s(x.id@.take(i as int)),
            decreases x.id@.len() - i,
        {
            let n = x.id[i];
            self.write_u32(n);
            proof {
                lemma_enc_u32s_take_step(x.id@, i as int);
                assert(mid0 + enc_u32s(x.id@.take(i as int)) + enc_u32(x.id@[i as int] as int)
                    =~= mid0 + enc_u32s(x.id@.take(i + 1)));
            }
            i += 1;
        }
        proof {
            assert(x.id@.take(x.id@.len() as int) =~= x.id@);
            assert(self.buf@ =~= buf0 + spec_encode_term(TermV::Reference { reference: x@ }));
        }
        Ok(())
    }

    fn encode_external_fun(&mut self, x: &ExternalFun) -> (r: EncodeResult)
        ensures
            match r {
                Ok(_) => first_encode_error(TermV::ExternalFun { fun: x@ }) is None && final(self).buf@ == old(self).buf@ + spec_encode_term(TermV::ExternalFun { fun: x@ }),
                Err(e) => Some(e@) == first_encode_error(TermV::ExternalFun { fun: x@ }) && old(self).buf@.is_prefix_of(final(self).buf@),
            },
    {
        proof {
            reveal(spec_encode_term);
            reveal(first_encode_error);
        }
        let ghost buf0 = self.buf@;
        self.write_u8(EXPORT_EXT);
        match self.encode_atom(&x.module) {
            Ok(_) => {},
            Err(e) => {
                proof {
                    lemma_prefix_extend(buf0, seq![EXPORT_EXT]);
                }
                return Err(e);
            },
        }
        match self.encode_atom(&x.function) {
            Ok(_) => {},
            Err(e) => {
                proof {
                    lemma_prefix_extend(buf0, seq![EXPORT_EXT] + spec_encode_atom(x.module@));
                    assert(buf0.is_prefix_of(self.buf@));
                }
                return Err(e);
            },
        }
        let arity = FixInteger { value: x.arity as i32 };
        match self.encode_fix_integer(&arity) {
            Ok(_) => {},
            Err(e) => {
                return Err(e);
            },
        }
        proof {
            assert(self.buf@ =~= buf0 + spec_encode_term(TermV::ExternalFun { fun: x@ }));
        }
        Ok(())
    }

    fn encode_term(&mut self, t: &Term) -> (r: EncodeResult)
        requires
            term_view(*t).wf(),
        ensures
            match r {
                Ok(_) => first_encode_error(term_view(*t)) is None && final(self).buf@ == old(self).buf@ + spec_encode_term(term_view(*t)),
                Err(e) => Some(e@) == first_encode_error(term_view(*t)) && old(self).buf@.is_prefix_of(final(self).buf@),
            },
        decreases *t,
    {
        proof {
            reveal(spec_encode_term);
            reveal(first_encode_error);
        }
        match t {
            Term::Atom(x) => {
                let r = self.encode_atom(x);
                proof {
                    if r is Err {
                        lemma_prefix_extend(old(self).buf@, Seq::empty());
                        assert(old(self).buf@ + Seq::<u8>::empty() =~= old(self).buf@);
                    }
                }
                r
            },
            Term::FixInteger(x) => self.encode_fix_integer(x),
            Term::BigInteger(x) => {
                let r = self.encode_big_integer(x);
                proof {
                    if r is Err {
                        assert(self.buf@.is_prefix_of(self.buf@)) by {
                            assert(self.buf@ =~= self.buf@.subrange(0, self.buf@.len() as int));
                        }
                    }
                }
                r
            },
            Term::Float(x) => self.encode_float(x),
            Term::Pid(x) => self.encode_pid(x),
            Term::Port(x) => self.encode_port(x),
            Term::Reference(x) => self.encode_reference(x),
            Term::ExternalFun(x) => self.encode_external_fun(x),
            Term::InternalFun(x) => self.encode_internal_fun(x),
            Term::Binary(x) => self.encode_binary(x),
            Term::BitBinary(x) => self.encode_bit_binary(x),
            Term::List(x) => {
                proof {
                    lemma_terms_view_len(x.elements@);
                    assert(term_view(*t) == TermV::List { elements: terms_view(x.elements@) });
                    assert forall|i: int| 0 <= i < terms_view(x.elements@).len() implies (
                    #[trigger] terms_view(x.elements@)[i]).wf() by {
                        assert(term_view(*t).wf());
                    }
                }
                self.encode_list(x)
            },
            Term::ImproperList(x) => {
                proof {
                    lemma_terms_view_len(x.elements@);
                    assert(term_view(*t) == TermV::ImproperList {
                        elements: terms_view(x.elements@),
                        last: Box::new(term_view(*x.last)),
                    });
                    assert forall|i: int| 0 <= i < terms_view(x.elements@).len() implies (
                    #[trigger] terms_view(x.elements@)[i]).wf() by {
                        assert(term_view(*t).wf());
                    }
                    assert(term_view(*x.last).wf());
                }
                self.encode_improper_list(x)
            },
            Term::Tuple(x) => {
                proof {
                    lemma_terms_view_len(x.elements@);
                    assert(term_view(*t) == TermV::Tuple { elements: terms_view(x.elements@) });
                    assert forall|i: int| 0 <= i < terms_view(x.elements@).len() implies (
                    #[trigger] terms_view(x.elements@)[i]).wf() by {
                        assert(term_view(*t).wf());
                    }
                }
                self.encode_tuple(x)
            },
            Term::MapTerm(x) => {
                proof {
                    lemma_pairs_view_len(x.entries@);
                    assert(term_view(*t) == TermV::MapTerm { entries: pairs_view(x.entries@) });
                    assert forall|i: int| 0 <= i < pairs_view(x.entries@).len() implies (
                    #[trigger] pairs_view(x.entries@)[i]).0.wf() && pairs_view(
                        x.entries@,
                    )[i].1.wf() by {
                        assert(term_view(*t).wf());
                    }
                }
                self.encode_map(x)
            },
            Term::ByteList(x) => {
                let r = self.encode_byte_list(x.bytes.as_slice());
                proof {
                    assert(old(self).buf@ + seq![STRING_EXT] + enc_u16(x.bytes@.len() as int)
                        + x.bytes@ =~= old(self).buf@ + spec_encode_term(term_view(*t)));
                }
                r
            },
        }
    }

    fn encode_list(&mut self, x: &List) -> (r: EncodeResult)
        requires
            x.elements@.len() < 0x1_0000_0000,
            terms_wf(terms_view(x.elements@)),
        ensures
            match r {
                Ok(_) => first_encode_error(
                    TermV::List { elements: terms_view(x.elements@) },
                ) is None && final(self).buf@ == old(self).buf@ + spec_encode_term(
                    TermV::List { elements: terms_view(x.elements@) },
                ),
                Err(e) => Some(e@) == first_encode_error(
                    TermV::List { elements: terms_view(x.elements@) },
                ) && old(self).buf@.is_prefix_of(final(self).buf@),
            },
        decreases *x,
    {
        proof {
            reveal(spec_encode_term);
            reveal(first_encode_error);
        }
        let ghost buf0 = self.buf@;
        let ghost es = terms_view(x.elements@);
        match list_as_bytes(&x.elements) {
            Some(bs) => {
                let r = self.encode_byte_list(bs.as_slice());
                proof {
                    assert(buf0 + seq![STRING_EXT] + enc_u16(bs@.len() as int) + bs@ =~= buf0
                        + spec_encode_term(TermV::List { elements: es }));
                }
                r
            },
            None => {
                if x.elements.len() == 0 {
                    let r = self.encode_nil();
                    proof {
                        assert(buf0 + seq![NIL_EXT] =~= buf0 + spec_encode_term(
                            TermV::List { elements: es },
                        ));
                    }
                    r
                } else {
                    self.write_u8(LIST_EXT);
                    self.write_u32(x.elements.len() as u32);
                    match self.encode_terms(&x.elements) {
                        Ok(_) => {},
                        Err(e) => {
                            proof {
                                lemma_prefix_extend(
                                    buf0,
                                    seq![LIST_EXT] + enc_u32(x.elements@.len() as int),
                                );
                                assert(buf0.is_prefix_of(self.buf@)) by {
                                    assert(buf0 =~= self.buf@.subrange(0, buf0.len() as int));
                                }
                            }
                            return Err(e);
                        },
                    }
                    self.write_u8(NIL_EXT);
                    proof {
                        assert(self.buf@ =~= buf0 + spec_encode_term(
                            TermV::List { elements: es },
                        ));
                    }
                    Ok(())
                }
            },
        }
    }

    fn encode_improper_list(&mut self, x: &ImproperList) -> (r: EncodeResult)
        requires
            x.elements@.len() < 0x1_0000_0000,
            terms_wf(terms_view(x.elements@)),
            term_view(*x.last).wf(),
        ensures
            match r {
                Ok(_) => first_encode_error(
                    TermV::ImproperList {
                        elements: terms_view(x.elements@),
                        last: Box::new(term_view(*x.last)),
                    },
                ) is None && final(self).buf@ == old(self).buf@ + spec_encode_term(
                    TermV::ImproperList {
                        elements: terms_view(x.elements@),
                        last: Box::new(term_view(*x.last)),
                    },
                ),
                Err(e) => Some(e@) == first_encode_error(
                    TermV::ImproperList {
                        elements: terms_view(x.elements@),
                        last: Box::new(term_view(*x.last)),
                    },
                ) && old(self).buf@.is_prefix_of(final(self).buf@),
            },
        decreases *x,
    {
        proof {
            reveal(spec_encode_term);
            reveal(first_encode_error);
        }
        let ghost buf0 = self.buf@;
        self.write_u8(LIST_EXT);
        self.write_u32(x.elements.len() as u32);
        match self.encode_terms(&x.elements) {
            Ok(_) => {},
            Err(e) => {
                proof {
                    lemma_prefix_extend(buf0, seq![LIST_EXT] + enc_u32(x.elements@.len() as int));
                    assert(buf0.is_prefix_of(self.buf@)) by {
                        assert(buf0 =~= self.buf@.subrange(0, buf0.len() as int));
                    }
                }
                return Err(e);
            },
        }
        match self.encode_term(&*x.last) {
            Ok(_) => {},
            Err(e) => {
                proof {
                    assert(buf0.is_prefix_of(self.buf@)) by {
                        assert(buf0 =~= self.buf@.subrange(0, buf0.len() as int));
                    }
                }
                return Err(e);
            },
        }
        proof {
            assert(self.buf@ =~= buf0 + spec_encode_term(
                TermV::ImproperList {
                    elements: terms_view(x.elements@),
                    last: Box::new(term_view(*x.last)),
                },
            ));
        }
        Ok(())
    }

    fn encode_tuple(&mut self, x: &Tuple) -> (r: EncodeResult)
        requires
            x.elements@.len() < 0x1_0000_0000,
            terms_wf(terms_view(x.elements@)),
        ensures
            match r {
                Ok(_) => first_encode_error(
                    TermV::Tuple { elements: terms_view(x.elements@) },
                ) is None && final(self).buf@ == old(self).buf@ + spec_encode_term(
                    TermV::Tuple { elements: terms_view(x.elements@) },
                ),
                Err(e) => Some(e@) == first_encode_error(
                    TermV::Tuple { elements: terms_view(x.elements@) },
                ) && old(self).buf@.is_prefix_of(final(self).buf@),
            },
        decreases *x,
    {
        proof {
            reveal(spec_encode_term);
            reveal(first_encode_error);
        }
        let ghost buf0 = self.buf@;
        let ghost header: Seq<u8>;
        if x.elements.len() < 0x100 {
            self.write_u8(SMALL_TUPLE_EXT);
            self.write_u8(x.elements.len() as u8);
            proof {
                header = seq![SMALL_TUPLE_EXT, x.elements@.len() as u8];
                assert(self.buf@ =~= buf0 + header);
            }
        } else {
            self.write_u8(LARGE_TUPLE_EXT);
            self.write_u32(x.elements.len() as u32);
            proof {
                header = seq![LARGE_TUPLE_EXT] + enc_u32(x.elements@.len() as int);
                assert(self.buf@ =~= buf0 + header);
            }
        }
        match self.encode_terms(&x.elements) {
            Ok(_) => {},
            Err(e) => {
                proof {
                    lemma_prefix_extend(buf0, header);
                    assert(buf0.is_prefix_of(self.buf@)) by {
                        assert(buf0 =~= self.buf@.subrange(0, buf0.len() as int));
                    }
                }
                return Err(e);
            },
        }
        proof {
            assert(self.buf@ =~= buf0 + spec_encode_term(
                TermV::Tuple { elements: terms_view(x.elements@) },
            ));
        }
        Ok(())
    }

    fn encode_map(&mut self, x: &MapTerm) -> (r: EncodeResult)
        requires
            x.entries@.len() < 0x1_0000_0000,
            pairs_wf(pairs_view(x.entries@)),
        ensures
            match r {
                Ok(_) => first_encode_error(
                    TermV::MapTerm { entries: pairs_view(x.entries@) },
                ) is None && final(self).buf@ == old(self).buf@ + spec_encode_term(
                    TermV::MapTerm { entries: pairs_view(x.entries@) },
                ),
                Err(e) => Some(e@) == first_encode_error(
                    TermV::MapTerm { entries: pairs_view(x.entries@) },
                ) && old(self).buf@.is_prefix_of(final(self).buf@),
            },
        decreases *x,
    {
        proof {
            reveal(spec_encode_term);
            reveal(first_encode_error);
        }
        let ghost buf0 = self.buf@;
        self.write_u8(MAP_EXT);
        self.write_u32(x.entries.len() as u32);
        match self.encode_pairs(&x.entries) {
            Ok(_) => {},
            Err(e) => {
                proof {
                    lemma_prefix_extend(buf0, seq![MAP_EXT] + enc_u32(x.entries@.len() as int));
                    assert(buf0.is_prefix_of(self.buf@)) by {
                        assert(buf0 =~= self.buf@.subrange(0, buf0.len() as int));
                    }
                }
                return Err(e);
            },
        }
        proof {
            assert(self.buf@ =~= buf0 + spec_encode_term(
                TermV::MapTerm { entries: pairs_view(x.entries@) },
            ));
        }
        Ok(())
    }

    fn encode_internal_fun(&mut self, x: &InternalFun) -> (r: EncodeResult)
        requires
            (TermV::InternalFun { fun: internal_fun_view(*x) }).wf(),
        ensures
            match r {
                Ok(_) => first_encode_error(
                    TermV::InternalFun { fun: internal_fun_view(*x) },
                ) is None && final(self).buf@ == old(self).buf@ + spec_encode_term(
                    TermV::InternalFun { fun: internal_fun_view(*x) },
                ),
                Err(e) => Some(e@) == first_encode_error(
                    TermV::InternalFun { fun: internal_fun_view(*x) },
                ) && old(self).buf@.is_prefix_of(final(self).buf@),
            },
        decreases *x, 1int,
    {
        match x {
            InternalFun::Old { .. } => self.encode_fun_old(x),
            InternalFun::New { .. } => self.encode_fun_new(x),
        }
    }

    #[verifier::rlimit(100)]
    fn encode_fun_old(&mut self, x: &InternalFun) -> (r: EncodeResult)
        requires
            *x matches InternalFun::Old { .. },
            (TermV::InternalFun { fun: internal_fun_view(*x) }).wf(),
        ensures
            match r {
                Ok(_) => first_encode_error(
                    TermV::InternalFun { fun: internal_fun_view(*x) },
                ) is None && final(self).buf@ == old(self).buf@ + spec_encode_term(
                    TermV::InternalFun { fun: internal_fun_view(*x) },
                ),
                Err(e) => Some(e@) == first_encode_error(
                    TermV::InternalFun { fun: internal_fun_view(*x) },
                ) && old(self).buf@.is_prefix_of(final(self).buf@),
            },
        decreases *x, 0int,
    {
        let ghost buf0 = self.buf@;
        let ghost fun = internal_fun_view(*x);
        proof {
            match *x {
                InternalFun::Old { ref free_vars, .. } => {
                    lemma_terms_view_len(free_vars@);
                    assert forall|i: int| 0 <= i < terms_view(free_vars@).len() implies (
                    #[trigger] terms_view(free_vars@)[i]).wf() by {
                        assert((TermV::InternalFun { fun }).wf());
                    }
                },
                InternalFun::New { .. } => {},
            }
        }
        match x {
            InternalFun::Old { module, pid, free_vars, index, uniq } => {
                self.write_u8(FUN_EXT);
                self.write_u32(free_vars.len() as u32);
                match self.encode_pid(pid) {
                    Ok(_) => {},
                    Err(e) => {
                        proof {
                            assert(Some(e@) == first_encode_error(
                                TermV::InternalFun { fun },
                            )) by {
                                reveal(first_encode_error);
                            }
                            lemma_prefix_extend(
                                buf0,
                                seq![FUN_EXT] + enc_u32(free_vars@.len() as int),
                            );
                            assert(buf0.is_prefix_of(self.buf@)) by {
                                assert(buf0 =~= self.buf@.subrange(0, buf0.len() as int));
                            }
                        }
                        return Err(e);
                    },
                }
                match self.encode_atom(module) {
                    Ok(_) => {},
                    Err(e) => {
                        proof {
                            assert(Some(e@) == first_encode_error(
                                TermV::InternalFun { fun },
                            )) by {
                                reveal(first_encode_error);
                            }
                            assert(buf0.is_prefix_of(self.buf@)) by {
                                assert(buf0 =~= self.buf@.subrange(0, buf0.len() as int));
                            }
                        }
                        return Err(e);
                    },
                }
                let idx = FixInteger { value: *index };
                let unq = FixInteger { value: *uniq };
                match self.encode_fix_integer(&idx) {
                    Ok(_) => {},
                    Err(e) => {
                        return Err(e);
                    },
                }
                match self.encode_fix_integer(&unq) {
                    Ok(_) => {},
                    Err(e) => {
                        return Err(e);
                    },
                }
                match self.encode_terms(free_vars) {
                    Ok(_) => {},
                    Err(e) => {
                        proof {
                            assert(Some(e@) == first_encode_error(
                                TermV::InternalFun { fun },
                            )) by {
                                reveal(first_encode_error);
                            }
                            assert(buf0.is_prefix_of(self.buf@)) by {
                                assert(buf0 =~= self.buf@.subrange(0, buf0.len() as int));
                            }
                        }
                        return Err(e);
                    },
                }
                proof {
                    assert(self.buf@ == buf0 + spec_encode_term(TermV::InternalFun { fun })) by {
                        reveal(spec_encode_term);
                        lemma_app7(
                            buf0,
                            seq![FUN_EXT],
                            enc_u32(free_vars@.len() as int),
                            spec_encode_pid(pid@),
                            spec_encode_atom(module@),
                            spec_encode_fix(*index),
                            spec_encode_fix(*uniq),
                            spec_encode_terms(terms_view(free_vars@)),
                        );
                    }
                    assert(first_encode_error(TermV::InternalFun { fun }) is None) by {
                        reveal(first_encode_error);
                    }
                }
                Ok(())
            },
            InternalFun::New { .. } => {
                proof {
                    assert(false);
                }
                Err(EncodeError::TooLargeInternalFun)
            },
        }
    }

    #[verifier::rlimit(100)]
    fn encode_fun_new(&mut self, x: &InternalFun) -> (r: EncodeResult)
        requires
            *x matches InternalFun::New { .. },
            (TermV::InternalFun { fun: internal_fun_view(*x) }).wf(),
        ensures
            match r {
                Ok(_) => first_encode_error(
                    TermV::InternalFun { fun: internal_fun_view(*x) },
                ) is None && final(self).buf@ == old(self).buf@ + spec_encode_term(
                    TermV::InternalFun { fun: internal_fun_view(*x) },
                ),
                Err(e) => Some(e@) == first_encode_error(
                    TermV::InternalFun { fun: internal_fun_view(*x) },
                ) && old(self).buf@.is_prefix_of(final(self).buf@),
            },
        decreases *x, 0int,
    {
        let ghost buf0 = self.buf@;
        let ghost fun = internal_fun_view(*x);
        proof {
            match *x {
                InternalFun::New { ref free_vars, .. } => {
                    lemma_terms_view_len(free_vars@);
                    assert forall|i: int| 0 <= i < terms_view(free_vars@).len() implies (
                    #[trigger] terms_view(free_vars@)[i]).wf() by {
                        assert((TermV::InternalFun { fun }).wf());
                    }
                },
                InternalFun::Old { .. } => {},
            }
        }
        match x {
            InternalFun::Old { .. } => {
                proof {
                    assert(false);
                }
                Err(EncodeError::TooLargeInternalFun)
            },
            InternalFun::New {
                module,
                arity,
                pid,
                free_vars,
                index,
                uniq,
                old_index,
                old_uniq,
            } => {
                self.write_u8(NEW_FUN_EXT);
                let count: u32 = free_vars.len() as u32;
                proof {
                    assert(count as int == terms_view(free_vars@).len());
                }
                let mut inner = Encoder::new();
                inner.write_u8(*arity);
                inner.write_all(uniq.as_slice());
                inner.write_u32(*index);
                inner.write_u32(count);
                match inner.encode_atom(module) {
                    Ok(_) => {},
                    Err(e) => {
                        proof {
                            assert(Some(e@) == first_encode_error(
                                TermV::InternalFun { fun },
                            )) by {
                                reveal(first_encode_error);
                            }
                            lemma_prefix_extend(buf0, seq![NEW_FUN_EXT]);
                        }
                        return Err(e);
                    },
                }
                let oi = FixInteger { value: *old_index };
                let ou = FixInteger { value: *old_uniq };
                match inner.encode_fix_integer(&oi) {
                    Ok(_) => {},
                    Err(e) => {
                        return Err(e);
                    },
                }
                match inner.encode_fix_integer(&ou) {
                    Ok(_) => {},
                    Err(e) => {
                        return Err(e);
                    },
                }
                match inner.encode_pid(pid) {
                    Ok(_) => {},
                    Err(e) => {
                        proof {
                            assert(Some(e@) == first_encode_error(
                                TermV::InternalFun { fun },
                            )) by {
                                reveal(first_encode_error);
                            }
                            lemma_prefix_extend(buf0, seq![NEW_FUN_EXT]);
                        }
                        return Err(e);
                    },
                }
                match inner.encode_terms(free_vars) {
                    Ok(_) => {},
                    Err(e) => {
                        proof {
                            assert(Some(e@) == first_encode_error(
                                TermV::InternalFun { fun },
                            )) by {
                                reveal(first_encode_error);
                            }
                            lemma_prefix_extend(buf0, seq![NEW_FUN_EXT]);
                        }
                        return Err(e);
                    },
                }
                proof {
                    assert(fun == InternalFunV::New {
                        module: module@,
                        arity: *arity,
                        pid: pid@,
                        free_vars: terms_view(free_vars@),
                        index: *index,
                        uniq: uniq@,
                        old_index: *old_index,
                        old_uniq: *old_uniq,
                    });
                    assert(inner.buf@ == Seq::<u8>::empty() + seq![*arity] + uniq@ + enc_u32(
                        *index as int,
                    ) + enc_u32(count as int) + spec_encode_atom(module@) + spec_encode_fix(
                        *old_index,
                    ) + spec_encode_fix(*old_uniq) + spec_encode_pid(pid@) + spec_encode_terms(
                        terms_view(free_vars@),
                    ));
                    assert(inner.buf@ == spec_encode_fun_inner(fun)) by {
                        lemma_app9(
                            Seq::<u8>::empty(),
                        seq![*arity],
                        uniq@,
                        enc_u32(*index as int),
                        enc_u32(free_vars@.len() as int),
                        spec_encode_atom(module@),
                        spec_encode_fix(*old_index),
                        spec_encode_fix(*old_uniq),
                        spec_encode_pid(pid@),
                        spec_encode_terms(terms_view(free_vars@)),
                    );
                        lemma_empty_add(
                            seq![*arity] + uniq@ + enc_u32(*index as int) + enc_u32(
                                free_vars@.len() as int,
                            ) + spec_encode_atom(module@) + spec_encode_fix(*old_index)
                                + spec_encode_fix(*old_uniq) + spec_encode_pid(pid@)
                                + spec_encode_terms(terms_view(free_vars@)),
                        );
                    }
                }
                if inner.buf.len() > 0xffff_ffffusize - 4 {
                    proof {
                        assert(Some(
                            (EncodeError::TooLargeInternalFun)@,
                        ) == first_encode_error(TermV::InternalFun { fun })) by {
                            reveal(first_encode_error);
                        }
                        lemma_prefix_extend(buf0, seq![NEW_FUN_EXT]);
                    }
                    return Err(EncodeError::TooLargeInternalFun);
                }
                self.write_u32((4 + inner.buf.len()) as u32);
                self.write_all(inner.buf.as_slice());
                proof {
                    assert(self.buf@ == buf0 + spec_encode_term(TermV::InternalFun { fun })) by {
                        reveal(spec_encode_term);
                        lemma_app3(
                            buf0,
                            seq![NEW_FUN_EXT],
                            enc_u32(4 + spec_encode_fun_inner(fun).len() as int),
                            spec_encode_fun_inner(fun),
                        );
                    }
                    assert(first_encode_error(TermV::InternalFun { fun }) is None) by {
                        reveal(first_encode_error);
                    }
                }
                Ok(())
            },
        }
    }

    fn encode_terms(&mut self, ts: &Vec<Term>) -> (r: EncodeResult)
        requires
            terms_wf(terms_view(ts@)),
        ensures
            match r {
                Ok(_) => first_err_terms(terms_view(ts@)) is None && final(self).buf@ == old(self).buf@ + spec_encode_terms(terms_view(ts@)),
                Err(e) => Some(e@) == first_err_terms(terms_view(ts@)) && old(self).buf@.is_prefix_of(final(self).buf@),
            },
        decreases *ts, 1int,
    {
        proof {
            assert(terms_view(ts@).skip(0) =~= terms_view(ts@));
        }
        self.encode_terms_from(ts, 0)
    }

    fn encode_terms_from(&mut self, ts: &Vec<Term>, i: usize) -> (r: EncodeResult)
        requires
            terms_wf(terms_view(ts@)),
            i <= ts@.len(),
        ensures
            match r {
                Ok(_) => first_err_terms(terms_view(ts@).skip(i as int)) is None && final(self).buf@ == old(self).buf@ + spec_encode_terms(terms_view(ts@).skip(i as int)),
                Err(e) => Some(e@) == first_err_terms(terms_view(ts@).skip(i as int)) && old(self).buf@.is_prefix_of(final(self).buf@),
            },
        decreases *ts, 0int, ts@.len() - i,
    {
        let ghost tsv = terms_view(ts@);
        proof {
            lemma_terms_view_len(ts@);
        }
        if i == ts.len() {
            proof {
                assert(tsv.skip(i as int) =~= Seq::<TermV>::empty());
                assert(self.buf@ + Seq::<u8>::empty() =~= self.buf@);
            }
            return Ok(());
        }
        let ghost buf0 = self.buf@;
        proof {
            assert(tsv.skip(i as int).first() == tsv[i as int]);
            assert(tsv.skip(i as int).drop_first() =~= tsv.skip(i as int + 1));
            assert(tsv[i as int].wf());
        }
        match self.encode_term(&ts[i]) {
            Ok(_) => {},
            Err(e) => {
                proof {
                    lemma_first_err_terms_head(tsv.skip(i as int), e@);
                }
                return Err(e);
            },
        }
        match self.encode_terms_from(ts, i + 1) {
            Ok(_) => {
                proof {
                    lemma_app2(
                        buf0,
                        spec_encode_term(tsv[i as int]),
                        spec_encode_terms(tsv.skip(i as int + 1)),
                    );
                    assert(spec_encode_terms(tsv.skip(i as int)) == spec_encode_term(
                        tsv[i as int],
                    ) + spec_encode_terms(tsv.skip(i as int + 1)));
                }
                Ok(())
            },
            Err(e) => {
                proof {
                    assert(first_err_terms(tsv.skip(i as int)) == Some(e@));
                    lemma_prefix_extend(buf0, spec_encode_term(tsv[i as int]));
                    lemma_prefix_trans(
                        buf0,
                        buf0 + spec_encode_term(tsv[i as int]),
                        self.buf@,
                    );
                }
                Err(e)
            },
        }
    }

    fn encode_pairs(&mut self, ps: &Vec<(Term, Term)>) -> (r: EncodeResult)
        requires
            pairs_wf(pairs_view(ps@)),
        ensures
            match r {
                Ok(_) => first_err_pairs(pairs_view(ps@)) is None && final(self).buf@ == old(self).buf@ + spec_encode_pairs(pairs_view(ps@)),
                Err(e) => Some(e@) == first_err_pairs(pairs_view(ps@)) && old(self).buf@.is_prefix_of(final(self).buf@),
            },
        decreases *ps, 1int,
    {
        proof {
            assert(pairs_view(ps@).skip(0) =~= pairs_view(ps@));
        }
        self.encode_pairs_from(ps, 0)
    }

    fn encode_pairs_from(&mut self, ps: &Vec<(Term, Term)>, i: usize) -> (r: EncodeResult)
        requires
            pairs_wf(pairs_view(ps@)),
            i <= ps@.len(),
        ensures
            match r {
                Ok(_) => first_err_pairs(pairs_view(ps@).skip(i as int)) is None && final(self).buf@ == old(self).buf@ + spec_encode_pairs(pairs_view(ps@).skip(i as int)),
                Err(e) => Some(e@) == first_err_pairs(pairs_view(ps@).skip(i as int)) && old(self).buf@.is_prefix_of(final(self).buf@),
            },
        decreases *ps, 0int, ps@.len() - i,
    {
        let ghost psv = pairs_view(ps@);
        proof {
            lemma_pairs_view_len(ps@);
        }
        if i == ps.len() {
            proof {
                assert(psv.skip(i as int) =~= Seq::<(TermV, TermV)>::empty());
                assert(self.buf@ + Seq::<u8>::empty() =~= self.buf@);
            }
            return Ok(());
        }
        let ghost buf0 = self.buf@;
        let pair = &ps[i];
        proof {
            assert(psv.skip(i as int).first() == psv[i as int]);
            assert(psv.skip(i as int).drop_first() =~= psv.skip(i as int + 1));
            assert(psv[i as int] == (term_view(ps@[i as int].0), term_view(ps@[i as int].1)));
            assert(psv[i as int].0.wf() && psv[i as int].1.wf());
        }
        match self.encode_term(&pair.0) {
            Ok(_) => {},
            Err(e) => {
                proof {
                    lemma_first_err_pairs_head(psv.skip(i as int), e@);
                }
                return Err(e);
            },
        }
        match self.encode_term(&pair.1) {
            Ok(_) => {},
            Err(e) => {
                proof {
                    lemma_first_err_pairs_head(psv.skip(i as int), e@);
                    lemma_prefix_extend(buf0, spec_encode_term(psv[i as int].0));
                    lemma_prefix_trans(
                        buf0,
                        buf0 + spec_encode_term(psv[i as int].0),
                        self.buf@,
                    );
                }
                return Err(e);
            },
        }
        match self.encode_pairs_from(ps, i + 1) {
            Ok(_) => {
                proof {
                    lemma_app3(
                        buf0,
                        spec_encode_term(psv[i as int].0),
                        spec_encode_term(psv[i as int].1),
                        spec_encode_pairs(psv.skip(i as int + 1)),
                    );
                    assert(spec_encode_pairs(psv.skip(i as int)) == spec_encode_term(
                        psv[i as int].0,
                    ) + spec_encode_term(psv[i as int].1) + spec_encode_pairs(
                        psv.skip(i as int + 1),
                    ));
                }
                Ok(())
            },
            Err(e) => {
                proof {
                    assert(first_err_pairs(psv.skip(i as int)) == Some(e@));
                    lemma_prefix_extend(
                        buf0,
                        spec_encode_term(psv[i as int].0) + spec_encode_term(psv[i as int].1),
                    );
                    lemma_app2(
                        buf0,
                        spec_encode_term(psv[i as int].0),
                        spec_encode_term(psv[i as int].1),
                    );
                    lemma_prefix_trans(
                        buf0,
                        buf0 + (spec_encode_term(psv[i as int].0) + spec_encode_term(
                            psv[i as int].1,
                        )),
                        self.buf@,
                    );
                }
                Err(e)
            },
        }
    }
}

/// The bytes of a list that can use the compact byte-string form, when it
/// can: non-empty, at most 65535 elements, every element a small integer in
/// 0..=255.
fn list_as_bytes(elements: &Vec<Term>) -> (r: Option<Vec<u8>>)
    ensures
        match r {
            Some(bs) => terms_view(elements@).len() > 0 && terms_view(elements@).len() <= 0xffff
                && is_byte_elems(terms_view(elements@)) && bs@ == byte_elems(terms_view(elements@)),
            None => !(terms_view(elements@).len() > 0 && terms_view(elements@).len() <= 0xffff
                && is_byte_elems(terms_view(elements@))),
        },
{
    let ghost es = terms_view(elements@);
    proof {
        lemma_terms_view_len(elements@);
    }
    if elements.len() == 0 || elements.len() > 0xffff {
        return None;
    }
    let mut out: Vec<u8> = Vec::new();
    let mut i: usize = 0;
    while i < elements.len()
        invariant
            i <= elements@.len(),
            0 < elements@.len() <= 0xffff,
            es == terms_view(elements@),
            es.len() == elements@.len(),
            forall|j: int| 0 <= j < elements@.len() ==> es[j] == term_view(#[trigger] elements@[j]),
            out@.len() == i,
            forall|j: int|
                0 <= j < i ==> ((#[trigger] es[j]) matches TermV::FixInteger { value } && 0 <= value
                    <= 0xff),
            forall|j: int| 0 <= j < i ==> #[trigger] out@[j] == term_byte(es[j]),
        decreases elements@.len() - i,
    {
        match &elements[i] {
            Term::FixInteger(f) => {
                if 0 <= f.value && f.value <= 0xff {
                    out.push(f.value as u8);
                } else {
                    return None;
                }
            },
            _ => {
                return None;
            },
        }
        i += 1;
    }
    proof {
        assert(out@ =~= byte_elems(es));
    }
    Some(out)
}

/// The power-of-two factor used to shift a partial byte by `k` bits.
pub(crate) fn pow2_factor(k: u8) -> (r: u16)
    requires
        k <= 7,
    ensures
        r as int == pow2_small(k as int),
        1 <= r <= 128,
{
    proof {
        reveal_with_fuel(pow2_small, 9);
    }
    if k == 0 {
        1
    } else if k == 1 {
        2
    } else if k == 2 {
        4
    } else if k == 3 {
        8
    } else if k == 4 {
        16
    } else if k == 5 {
        32
    } else if k == 6 {
        64
    } else {
        128
    }
}

} // verus!
