//! The term model: the tagged union of every decodable value, together with
//! its mathematical view and the structural well-formedness invariants.
use vstd::prelude::*;

verus! {

broadcast use vstd::std_specs::vec::group_vec_axioms, vstd::seq::group_seq_axioms;

// ---------------------------------------------------------------------------
// Mathematical views
// ---------------------------------------------------------------------------
/// View of a process identifier.
#[verifier::ext_equal]
pub struct PidV {
    pub node: Seq<char>,
    pub id: u32,
    pub serial: u32,
    pub creation: u32,
}

/// View of a port.
#[verifier::ext_equal]
pub struct PortV {
    pub node: Seq<char>,
    pub id: u64,
    pub creation: u32,
}

/// View of a reference.
#[verifier::ext_equal]
pub struct ReferenceV {
    pub node: Seq<char>,
    pub id: Seq<u32>,
    pub creation: u32,
}

/// View of an arbitrary-precision integer: an explicit sign and a
/// little-endian magnitude with no trailing zero byte.
#[verifier::ext_equal]
pub struct BigIntegerV {
    pub negative: bool,
    pub magnitude: Seq<u8>,
}

/// View of an external function reference.
#[verifier::ext_equal]
pub struct ExternalFunV {
    pub module: Seq<char>,
    pub function: Seq<char>,
    pub arity: u8,
}

/// View of an internal function closure, in one of its two wire shapes.
#[verifier::ext_equal]
pub enum InternalFunV {
    Old {
        module: Seq<char>,
        pid: PidV,
        free_vars: Seq<TermV>,
        index: i32,
        uniq: i32,
    },
    New {
        module: Seq<char>,
        arity: u8,
        pid: PidV,
        free_vars: Seq<TermV>,
        index: u32,
        uniq: Seq<u8>,
        old_index: i32,
        old_uniq: i32,
    },
}

/// View of a term: the abstract value that contracts speak about.
#[verifier::ext_equal]
pub enum TermV {
    Atom { name: Seq<char> },
    FixInteger { value: i32 },
    BigInteger { big: BigIntegerV },
    Float { bits: u64 },
    Pid { pid: PidV },
    Port { port: PortV },
    Reference { reference: ReferenceV },
    ExternalFun { fun: ExternalFunV },
    InternalFun { fun: InternalFunV },
    Binary { bytes: Seq<u8> },
    BitBinary { bytes: Seq<u8>, tail_bits_size: u8 },
    List { elements: Seq<TermV> },
    ImproperList { elements: Seq<TermV>, last: Box<TermV> },
    Tuple { elements: Seq<TermV> },
    MapTerm { entries: Seq<(TermV, TermV)> },
    ByteList { bytes: Seq<u8> },
}

// ---------------------------------------------------------------------------
// Executable term model
// ---------------------------------------------------------------------------
/// A text label, compared by name.
#[derive(Debug, Clone, PartialEq)]
pub struct Atom {
    pub name: String,
}

/// A small integer: always fits one of the two compact integer layouts.
#[derive(Debug, Clone, PartialEq)]
pub struct FixInteger {
    pub value: i32,
}

/// A sign-magnitude arbitrary-precision integer. The magnitude is
/// little-endian and normalized: no trailing zero byte, and zero itself is
/// the empty, non-negative magnitude.
#[derive(Debug, Clone, PartialEq)]
pub struct BigInteger {
    pub negative: bool,
    pub magnitude: Vec<u8>,
}

/// A finite 64-bit IEEE double, carried by its bit pattern; the constructors
/// never admit a non-finite pattern.
#[derive(Debug, Clone, PartialEq)]
pub struct Float {
    pub bits: u64,
}

/// A process identifier; the three wire layouts normalize to this one shape.
#[derive(Debug, Clone, PartialEq)]
pub struct Pid {
    pub node: Atom,
    pub id: u32,
    pub serial: u32,
    pub creation: u32,
}

/// A port; the three wire layouts normalize to this one shape.
#[derive(Debug, Clone, PartialEq)]
pub struct Port {
    pub node: Atom,
    pub id: u64,
    pub creation: u32,
}

/// A reference; the three wire layouts normalize to this one shape.
#[derive(Debug, Clone, PartialEq)]
pub struct Reference {
    pub node: Atom,
    pub id: Vec<u32>,
    pub creation: u32,
}

/// A reference to an exported function.
#[derive(Debug, Clone, PartialEq)]
pub struct ExternalFun {
    pub module: Atom,
    pub function: Atom,
    pub arity: u8,
}

/// An internal function closure; the two shapes are structurally distinct
/// and each reproduces its own wire layout.
#[derive(Debug, PartialEq)]
pub enum InternalFun {
    Old {
        module: Atom,
        pid: Pid,
        free_vars: Vec<Term>,
        index: i32,
        uniq: i32,
    },
    New {
        module: Atom,
        arity: u8,
        pid: Pid,
        free_vars: Vec<Term>,
        index: u32,
        uniq: Vec<u8>,
        old_index: i32,
        old_uniq: i32,
    },
}

/// A raw byte sequence.
#[derive(Debug, Clone, PartialEq)]
pub struct Binary {
    pub bytes: Vec<u8>,
}

/// A byte sequence whose last byte holds only `tail_bits_size` significant
/// low-order bits after decoding.
#[derive(Debug, Clone, PartialEq)]
pub struct BitBinary {
    pub bytes: Vec<u8>,
    pub tail_bits_size: u8,
}

/// A proper list; the empty list is the canonical nil value.
#[derive(Debug, PartialEq)]
pub struct List {
    pub elements: Vec<Term>,
}

/// A list whose final tail is not nil.
#[derive(Debug, PartialEq)]
pub struct ImproperList {
    pub elements: Vec<Term>,
    pub last: Box<Term>,
}

/// A tuple; the small and large layouts are an encoding choice only.
#[derive(Debug, PartialEq)]
pub struct Tuple {
    pub elements: Vec<Term>,
}

/// A map with unique keys, kept in insertion order.
#[derive(Debug, PartialEq)]
pub struct MapTerm {
    pub entries: Vec<(Term, Term)>,
}

/// A string-like term: a compact byte string on the wire.
#[derive(Debug, Clone, PartialEq)]
pub struct ByteList {
    pub bytes: Vec<u8>,
}

/// One decoded or encoded value of the wire format.
#[derive(Debug, PartialEq)]
pub enum Term {
    Atom(Atom),
    FixInteger(FixInteger),
    BigInteger(BigInteger),
    Float(Float),
    Pid(Pid),
    Port(Port),
    Reference(Reference),
    ExternalFun(ExternalFun),
    InternalFun(InternalFun),
    Binary(Binary),
    BitBinary(BitBinary),
    List(List),
    ImproperList(ImproperList),
    Tuple(Tuple),
    MapTerm(MapTerm),
    ByteList(ByteList),
}

// ---------------------------------------------------------------------------
// View functions
// ---------------------------------------------------------------------------
impl View for Atom {
    type V = Seq<char>;

    open spec fn view(&self) -> Seq<char> {
        self.name@
    }
}

impl View for Pid {
    type V = PidV;

    open spec fn view(&self) -> PidV {
        PidV { node: self.node@, id: self.id, serial: self.serial, creation: self.creation }
    }
}

impl View for Port {
    type V = PortV;

    open spec fn view(&self) -> PortV {
        PortV { node: self.node@, id: self.id, creation: self.creation }
    }
}

impl View for Reference {
    type V = ReferenceV;

    open spec fn view(&self) -> ReferenceV {
        ReferenceV { node: self.node@, id: self.id@, creation: self.creation }
    }
}

impl View for BigInteger {
    type V = BigIntegerV;

    open spec fn view(&self) -> BigIntegerV {
        BigIntegerV { negative: self.negative, magnitude: self.magnitude@ }
    }
}

impl View for ExternalFun {
    type V = ExternalFunV;

    open spec fn view(&self) -> ExternalFunV {
        ExternalFunV { module: self.module@, function: self.function@, arity: self.arity }
    }
}

impl View for Binary {
    type V = Seq<u8>;

    open spec fn view(&self) -> Seq<u8> {
        self.bytes@
    }
}

impl View for ByteList {
    type V = Seq<u8>;

    open spec fn view(&self) -> Seq<u8> {
        self.bytes@
    }
}

/// The view of one term.
pub open spec fn term_view(t: Term) -> TermV
    decreases t,
{
    match t {
        Term::Atom(a) => TermV::Atom { name: a@ },
        Term::FixInteger(n) => TermV::FixInteger { value: n.value },
        Term::BigInteger(b) => TermV::BigInteger { big: b@ },
        Term::Float(f) => TermV::Float { bits: f.bits },
        Term::Pid(p) => TermV::Pid { pid: p@ },
        Term::Port(p) => TermV::Port { port: p@ },
        Term::Reference(r) => TermV::Reference { reference: r@ },
        Term::ExternalFun(f) => TermV::ExternalFun { fun: f@ },
        Term::InternalFun(f) => TermV::InternalFun { fun: internal_fun_view(f) },
        Term::Binary(b) => TermV::Binary { bytes: b.bytes@ },
        Term::BitBinary(b) => TermV::BitBinary {
            bytes: b.bytes@,
            tail_bits_size: b.tail_bits_size,
        },
        Term::List(l) => TermV::List { elements: terms_view(l.elements@) },
        Term::ImproperList(l) => TermV::ImproperList {
            elements: terms_view(l.elements@),
            last: Box::new(term_view(*l.last)),
        },
        Term::Tuple(t) => TermV::Tuple { elements: terms_view(t.elements@) },
        Term::MapTerm(m) => TermV::MapTerm { entries: pairs_view(m.entries@) },
        Term::ByteList(b) => TermV::ByteList { bytes: b.bytes@ },
    }
}

/// The view of an internal function closure.
pub open spec fn internal_fun_view(f: InternalFun) -> InternalFunV
    decreases f,
{
    match f {
        InternalFun::Old { module, pid, free_vars, index, uniq } => InternalFunV::Old {
            module: module@,
            pid: pid@,
            free_vars: terms_view(free_vars@),
            index,
            uniq,
        },
        InternalFun::New { module, arity, pid, free_vars, index, uniq, old_index, old_uniq } => {
            InternalFunV::New {
                module: module@,
                arity,
                pid: pid@,
                free_vars: terms_view(free_vars@),
                index,
                uniq: uniq@,
                old_index,
                old_uniq,
            }
        },
    }
}

/// The views of a sequence of terms, element by element.
pub open spec fn terms_view(ts: Seq<Term>) -> Seq<TermV>
    decreases ts,
{
    Seq::new(
        ts.len(),
        |i: int|
            if 0 <= i < ts.len() {
                term_view(ts[i])
            } else {
                TermV::FixInteger { value: 0 }
            },
    )
}

/// The views of a sequence of key-value pairs, entry by entry.
pub open spec fn pairs_view(ps: Seq<(Term, Term)>) -> Seq<(TermV, TermV)>
    decreases ps,
{
    Seq::new(
        ps.len(),
        |i: int|
            if 0 <= i < ps.len() {
                (term_view(ps[i].0), term_view(ps[i].1))
            } else {
                (TermV::FixInteger { value: 0 }, TermV::FixInteger { value: 0 })
            },
    )
}

impl View for List {
    type V = Seq<TermV>;

    open spec fn view(&self) -> Seq<TermV> {
        terms_view(self.elements@)
    }
}

impl View for Tuple {
    type V = Seq<TermV>;

    open spec fn view(&self) -> Seq<TermV> {
        terms_view(self.elements@)
    }
}

impl View for MapTerm {
    type V = Seq<(TermV, TermV)>;

    open spec fn view(&self) -> Seq<(TermV, TermV)> {
        pairs_view(self.entries@)
    }
}

impl View for InternalFun {
    type V = InternalFunV;

    open spec fn view(&self) -> InternalFunV {
        internal_fun_view(*self)
    }
}

impl View for Term {
    type V = TermV;

    open spec fn view(&self) -> TermV {
        term_view(*self)
    }
}

// ---------------------------------------------------------------------------
// Well-formedness
// ---------------------------------------------------------------------------
/// A finite IEEE 754 double: its eleven exponent bits are not all ones.
pub open spec fn is_finite_bits(bits: u64) -> bool {
    (bits / 0x10_0000_0000_0000) % 0x800 != 0x7ff
}

impl TermV {
    /// The canonical empty list.
    pub open spec fn nil() -> TermV {
        TermV::List { elements: Seq::empty() }
    }

    /// True of the canonical empty list.
    pub open spec fn is_nil(self) -> bool {
        self matches TermV::List { elements } && elements.len() == 0
    }

    /// The structural invariants of the term model: field counts that the
    /// wire format's count fields can carry, normalized magnitudes, finite
    /// floats, bounded tail bits, non-nil improper tails, unique map keys.
    pub open spec fn wf(self) -> bool
        decreases self,
    {
        match self {
            TermV::Atom { .. } => true,
            TermV::FixInteger { .. } => true,
            TermV::BigInteger { big } => (big.magnitude.len() == 0 ==> !big.negative)
                && (big.magnitude.len() > 0 ==> big.magnitude.last() != 0),
            TermV::Float { bits } => is_finite_bits(bits),
            TermV::Pid { .. } => true,
            TermV::Port { .. } => true,
            TermV::Reference { .. } => true,
            TermV::ExternalFun { .. } => true,
            TermV::InternalFun { fun } => match fun {
                InternalFunV::Old { free_vars, .. } => free_vars.len() < 0x1_0000_0000 && (forall|
                    i: int,
                |
                    0 <= i < free_vars.len() ==> (#[trigger] free_vars[i]).wf()),
                InternalFunV::New { free_vars, uniq, .. } => free_vars.len() < 0x1_0000_0000
                    && uniq.len() == 16 && (forall|i: int|
                    0 <= i < free_vars.len() ==> (#[trigger] free_vars[i]).wf()),
            },
            TermV::Binary { bytes } => bytes.len() < 0x1_0000_0000,
            TermV::BitBinary { bytes, tail_bits_size } => bytes.len() < 0x1_0000_0000 && (
            bytes.len() > 0 ==> 1 <= tail_bits_size <= 8),
            TermV::List { elements } => elements.len() < 0x1_0000_0000 && (forall|i: int|
                0 <= i < elements.len() ==> (#[trigger] elements[i]).wf()),
            TermV::ImproperList { elements, last } => elements.len() < 0x1_0000_0000
                && !(*last).is_nil() && (*last).wf() && (forall|i: int|
                0 <= i < elements.len() ==> (#[trigger] elements[i]).wf()),
            TermV::Tuple { elements } => elements.len() < 0x1_0000_0000 && (forall|i: int|
                0 <= i < elements.len() ==> (#[trigger] elements[i]).wf()),
            TermV::MapTerm { entries } => entries.len() < 0x1_0000_0000 && (forall|i: int|
                0 <= i < entries.len() ==> (#[trigger] entries[i].0).wf() && entries[i].1.wf())
                && (forall|i: int, j: int|
                0 <= i < j < entries.len() ==> #[trigger] entries[i].0 != #[trigger] entries[j].0),
            TermV::ByteList { bytes } => bytes.len() <= 0xffff,
        }
    }
}

// ---------------------------------------------------------------------------
// Facts about the view functions
// ---------------------------------------------------------------------------
/// The view of a term sequence keeps its length and views each element.
pub broadcast proof fn lemma_terms_view_len(ts: Seq<Term>)
    ensures
        (#[trigger] terms_view(ts)).len() == ts.len(),
        forall|i: int| 0 <= i < ts.len() ==> terms_view(ts)[i] == ts[i]@,
{
}

/// The view of an entry sequence keeps its length and views each entry.
pub broadcast proof fn lemma_pairs_view_len(ps: Seq<(Term, Term)>)
    ensures
        (#[trigger] pairs_view(ps)).len() == ps.len(),
        forall|i: int| 0 <= i < ps.len() ==> pairs_view(ps)[i] == (ps[i].0@, ps[i].1@),
{
}

/// Well-formedness of every term of a sequence.
pub open spec fn terms_wf(es: Seq<TermV>) -> bool {
    forall|i: int| 0 <= i < es.len() ==> (#[trigger] es[i]).wf()
}

/// Well-formedness of every key and value of an entry sequence.
pub open spec fn pairs_wf(ps: Seq<(TermV, TermV)>) -> bool {
    forall|i: int| 0 <= i < ps.len() ==> (#[trigger] ps[i]).0.wf() && ps[i].1.wf()
}

/// An element-wise copy of a byte vector.
pub fn copy_bytes(v: &Vec<u8>) -> (r: Vec<u8>)
    ensures
        r@ == v@,
{
    let mut r: Vec<u8> = Vec::new();
    let mut i: usize = 0;
    while i < v.len()
        invariant
            i <= v@.len(),
            r@ == v@.take(i as int),
        decreases v@.len() - i,
    {
        r.push(v[i]);
        proof {
            assert(v@.take(i as int).push(v@[i as int]) =~= v@.take(i + 1));
        }
        i += 1;
    }
    proof {
        assert(v@.take(v@.len() as int) =~= v@);
    }
    r
}

/// An element-wise copy of an id-word vector.
pub fn copy_u32s(v: &Vec<u32>) -> (r: Vec<u32>)
    ensures
        r@ == v@,
{
    let mut r: Vec<u32> = Vec::new();
    let mut i: usize = 0;
    while i < v.len()
        invariant
            i <= v@.len(),
            r@ == v@.take(i as int),
        decreases v@.len() - i,
    {
        r.push(v[i]);
        proof {
            assert(v@.take(i as int).push(v@[i as int]) =~= v@.take(i + 1));
        }
        i += 1;
    }
    proof {
        assert(v@.take(v@.len() as int) =~= v@);
    }
    r
}

// ---------------------------------------------------------------------------
// Constructors and basic operations
// ---------------------------------------------------------------------------
impl List {
    /// The canonical empty list.
    pub fn nil() -> (r: List)
        ensures
            r@ == Seq::<TermV>::empty(),
    {
        let r = List { elements: Vec::new() };
        proof {
            assert(terms_view(r.elements@) =~= Seq::<TermV>::empty());
        }
        r
    }

    /// True of the canonical empty list.
    pub fn is_nil(&self) -> (r: bool)
        ensures
            r == (self@.len() == 0),
    {
        proof {
            lemma_terms_view_len(self.elements@);
        }
        self.elements.len() == 0
    }
}


// ---------------------------------------------------------------------------
// Deep equality
// ---------------------------------------------------------------------------
/// Element-wise equality of two byte vectors.
pub fn eq_bytes(a: &Vec<u8>, b: &Vec<u8>) -> (r: bool)
    ensures
        r == (a@ == b@),
{
    if a.len() != b.len() {
        return false;
    }
    let mut i: usize = 0;
    while i < a.len()
        invariant
            i <= a@.len(),
            a@.len() == b@.len(),
            forall|j: int| 0 <= j < i ==> a@[j] == b@[j],
        decreases a@.len() - i,
    {
        if a[i] != b[i] {
            return false;
        }
        i += 1;
    }
    proof {
        assert(a@ =~= b@);
    }
    true
}

/// Element-wise equality of two id-word vectors.
pub fn eq_u32s(a: &Vec<u32>, b: &Vec<u32>) -> (r: bool)
    ensures
        r == (a@ == b@),
{
    if a.len() != b.len() {
        return false;
    }
    let mut i: usize = 0;
    while i < a.len()
        invariant
            i <= a@.len(),
            a@.len() == b@.len(),
            forall|j: int| 0 <= j < i ==> a@[j] == b@[j],
        decreases a@.len() - i,
    {
        if a[i] != b[i] {
            return false;
        }
        i += 1;
    }
    proof {
        assert(a@ =~= b@);
    }
    true
}

/// Equality of two atoms, by name.
pub fn atom_eq(a: &Atom, b: &Atom) -> (r: bool)
    ensures
        r == (a@ == b@),
{
    a.name == b.name
}

/// Equality of two process identifiers.
pub fn pid_eq(a: &Pid, b: &Pid) -> (r: bool)
    ensures
        r == (a@ == b@),
{
    atom_eq(&a.node, &b.node) && a.id == b.id && a.serial == b.serial && a.creation == b.creation
}

/// Structural equality of two terms, by their mathematical views.
pub fn term_eq(a: &Term, b: &Term) -> (r: bool)
    ensures
        r ==> a@ == b@,
        !r ==> a@ != b@,
    decreases *a,
{
    match (a, b) {
        (Term::Atom(x), Term::Atom(y)) => atom_eq(x, y),
        (Term::FixInteger(x), Term::FixInteger(y)) => x.value == y.value,
        (Term::BigInteger(x), Term::BigInteger(y)) => x.negative == y.negative && eq_bytes(
            &x.magnitude,
            &y.magnitude,
        ),
        (Term::Float(x), Term::Float(y)) => x.bits == y.bits,
        (Term::Pid(x), Term::Pid(y)) => pid_eq(x, y),
        (Term::Port(x), Term::Port(y)) => atom_eq(&x.node, &y.node) && x.id == y.id && x.creation
            == y.creation,
        (Term::Reference(x), Term::Reference(y)) => atom_eq(&x.node, &y.node) && eq_u32s(
            &x.id,
            &y.id,
        ) && x.creation == y.creation,
        (Term::ExternalFun(x), Term::ExternalFun(y)) => atom_eq(&x.module, &y.module) && atom_eq(
            &x.function,
            &y.function,
        ) && x.arity == y.arity,
        (Term::InternalFun(x), Term::InternalFun(y)) => {
            proof {
                reveal_with_fuel(term_view, 2);
            }
            match (x, y) {
            (
                InternalFun::Old { module, pid, free_vars, index, uniq },
                InternalFun::Old {
                    module: module2,
                    pid: pid2,
                    free_vars: free_vars2,
                    index: index2,
                    uniq: uniq2,
                },
            ) => atom_eq(module, module2) && pid_eq(pid, pid2) && *index == *index2 && *uniq
                == *uniq2 && terms_eq(free_vars, free_vars2),
            (
                InternalFun::New { module, arity, pid, free_vars, index, uniq, old_index, old_uniq },
                InternalFun::New {
                    module: module2,
                    arity: arity2,
                    pid: pid2,
                    free_vars: free_vars2,
                    index: index2,
                    uniq: uniq2,
                    old_index: old_index2,
                    old_uniq: old_uniq2,
                },
            ) => atom_eq(module, module2) && *arity == *arity2 && pid_eq(pid, pid2) && *index
                == *index2 && eq_bytes(uniq, uniq2) && *old_index == *old_index2 && *old_uniq
                == *old_uniq2 && terms_eq(free_vars, free_vars2),
            _ => false,
            }
        },
        (Term::Binary(x), Term::Binary(y)) => eq_bytes(&x.bytes, &y.bytes),
        (Term::BitBinary(x), Term::BitBinary(y)) => x.tail_bits_size == y.tail_bits_size
            && eq_bytes(&x.bytes, &y.bytes),
        (Term::List(x), Term::List(y)) => terms_eq(&x.elements, &y.elements),
        (Term::ImproperList(x), Term::ImproperList(y)) => terms_eq(&x.elements, &y.elements)
            && term_eq(&x.last, &y.last),
        (Term::Tuple(x), Term::Tuple(y)) => terms_eq(&x.elements, &y.elements),
        (Term::MapTerm(x), Term::MapTerm(y)) => pairs_eq(&x.entries, &y.entries),
        (Term::ByteList(x), Term::ByteList(y)) => eq_bytes(&x.bytes, &y.bytes),
        _ => false,
    }
}

/// Element-wise equality of two term vectors, by views.
pub fn terms_eq(a: &Vec<Term>, b: &Vec<Term>) -> (r: bool)
    ensures
        r == (terms_view(a@) == terms_view(b@)),
    decreases *a,
{
    proof {
        lemma_terms_view_len(a@);
        lemma_terms_view_len(b@);
    }
    if a.len() != b.len() {
        proof {
            assert(terms_view(a@).len() != terms_view(b@).len());
        }
        return false;
    }
    let mut i: usize = 0;
    while i < a.len()
        invariant
            i <= a@.len(),
            a@.len() == b@.len(),
            terms_view(a@).len() == a@.len(),
            terms_view(b@).len() == b@.len(),
            forall|j: int| 0 <= j < a@.len() ==> terms_view(a@)[j] == term_view(#[trigger] a@[j]),
            forall|j: int| 0 <= j < b@.len() ==> terms_view(b@)[j] == term_view(#[trigger] b@[j]),
            forall|j: int| 0 <= j < i ==> terms_view(a@)[j] == terms_view(b@)[j],
        decreases a@.len() - i,
    {
        if !term_eq(&a[i], &b[i]) {
            proof {
                assert(terms_view(a@)[i as int] != terms_view(b@)[i as int]);
            }
            return false;
        }
        i += 1;
    }
    proof {
        assert(terms_view(a@) =~= terms_view(b@));
    }
    true
}

/// Element-wise equality of two entry vectors, by views.
pub fn pairs_eq(a: &Vec<(Term, Term)>, b: &Vec<(Term, Term)>) -> (r: bool)
    ensures
        r == (pairs_view(a@) == pairs_view(b@)),
    decreases *a,
{
    proof {
        lemma_pairs_view_len(a@);
        lemma_pairs_view_len(b@);
    }
    if a.len() != b.len() {
        proof {
            assert(pairs_view(a@).len() != pairs_view(b@).len());
        }
        return false;
    }
    let mut i: usize = 0;
    while i < a.len()
        invariant
            i <= a@.len(),
            a@.len() == b@.len(),
            pairs_view(a@).len() == a@.len(),
            pairs_view(b@).len() == b@.len(),
            forall|j: int|
                0 <= j < a@.len() ==> #[trigger] pairs_view(a@)[j] == (
                    term_view(a@[j].0),
                    term_view(a@[j].1),
                ),
            forall|j: int|
                0 <= j < b@.len() ==> #[trigger] pairs_view(b@)[j] == (
                    term_view(b@[j].0),
                    term_view(b@[j].1),
                ),
            forall|j: int| 0 <= j < i ==> pairs_view(a@)[j] == pairs_view(b@)[j],
        decreases a@.len() - i,
    {
        let pa = &a[i];
        let pb = &b[i];
        if !(term_eq(&pa.0, &pb.0) && term_eq(&pa.1, &pb.1)) {
            proof {
                assert(pairs_view(a@)[i as int] != pairs_view(b@)[i as int]);
            }
            return false;
        }
        i += 1;
    }
    proof {
        assert(pairs_view(a@) =~= pairs_view(b@));
    }
    true
}
} // verus!
