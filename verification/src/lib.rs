//! A verified codec for a tagged, self-describing binary term format:
//! structured values (atoms, integers, floats, lists, tuples, maps, binaries,
//! process identifiers, references, function closures) are encoded to and
//! decoded from a byte stream whose layout is fixed by the wire format.
#![allow(unused_imports)]

pub mod terms;
pub mod wire;
pub mod codec_common;
pub mod decoder;
pub mod encoder;
pub mod string_convert;
pub mod laws;
