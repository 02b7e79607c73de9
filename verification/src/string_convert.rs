//! Convenience conversions from string-like values to the two text-carrying
//! terms.
use crate::terms::{Atom, ByteList};
use vstd::prelude::*;

verus! {

use vstd::string::StrSliceExecFns;
use vstd::utf8::encode_utf8;

/// String-like values convert to an atom named by the text, or to a compact
/// byte-string term holding the text's UTF-8 bytes.
pub trait Convert: View<V = Seq<char>> + Sized {
    /// An atom named by this text.
    fn to_atom(self) -> (r: Atom)
        ensures
            r@ == self@,
    ;

    /// A byte-string term holding this text's UTF-8 bytes.
    fn to_byte_list(self) -> (r: ByteList)
        ensures
            r@ == encode_utf8(self@),
    ;
}

impl Convert for String {
    fn to_atom(self) -> (r: Atom) {
        Atom { name: self }
    }

    fn to_byte_list(self) -> (r: ByteList) {
        ByteList { bytes: self.as_str().as_bytes_vec() }
    }
}

impl Convert for &str {
    fn to_atom(self) -> (r: Atom) {
        Atom { name: self.to_owned() }
    }

    fn to_byte_list(self) -> (r: ByteList) {
        ByteList { bytes: self.as_bytes_vec() }
    }
}

} // verus!
