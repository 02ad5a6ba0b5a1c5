//! Fixed-width and variable-width unsigned-integer identifiers for a
//! distributed-hash-table addressing scheme: a decoder from decimal or
//! hexadecimal text to big-endian bytes, and bit-level prefix matching.

pub mod identifier;
pub mod node_id;
