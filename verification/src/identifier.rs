//! The variable-width identifier: an unsigned integer of any length, held as
//! a heap-allocated bit vector and compared bit by bit, most significant bit
//! of the first byte first. Its one query, prefix matching, is the building
//! block for routing-table bucket membership.

use bitvec::order::Msb0;
use bitvec::vec::BitVec;
use vstd::prelude::*;

verus! {

/// A heap-allocated sequence of bits, most significant bit of each byte
/// first. It wraps bitvec's bit-vector behind a boundary Verus does not look
/// into; the stored bits are reached only through `bit_content` and the
/// methods below.
#[verifier::external_body]
#[derive(Debug)]
pub struct BitBuffer {
    value: BitVec<u8, Msb0>,
}

/// The sequence of bits a buffer holds, in traversal order.
pub uninterp spec fn bit_content(v: BitBuffer) -> Seq<bool>;

/// Bit `j` of byte `b`, counting from the most significant bit.
pub open spec fn byte_bit(b: u8, j: int) -> bool
    recommends
        0 <= j < 8,
{
    (b >> ((7 - j) as u8)) & 1 == 1
}

/// The bytes of `bytes` reinterpreted as one bit sequence, most significant
/// bit of each byte first.
pub open spec fn bits_of_bytes(bytes: Seq<u8>) -> Seq<bool> {
    Seq::new(bytes.len() * 8, |i: int| byte_bit(bytes[i / 8], i % 8))
}

impl BitBuffer {
    /// Relies on `BitVec::<u8, Msb0>::from_slice`: the new vector covers
    /// exactly the bits of the slice's bytes, most significant bit of each
    /// byte first. The length bound keeps the slice under the bit-vector
    /// capacity, above which `from_slice` panics.
    #[verifier::external_body]
    pub fn from_slice(id: &[u8]) -> (r: BitBuffer)
        requires
            id@.len() <= usize::MAX / 64,
        ensures
            bit_content(r) == bits_of_bytes(id@),
    {
        BitBuffer { value: BitVec::<u8, Msb0>::from_slice(id) }
    }

    /// Relies on `BitVec::len`: the number of bits the vector holds.
    #[verifier::external_body]
    pub fn len(&self) -> (r: usize)
        ensures
            r == bit_content(*self).len(),
    {
        self.value.len()
    }

    /// Relies on bitvec's range indexing and bit-sequence equality: the
    /// first `n` bits of `self`, compared index by index against all bits of
    /// `other`.
    #[verifier::external_body]
    fn prefix_eq(&self, n: usize, other: &BitBuffer) -> (r: bool)
        requires
            n <= bit_content(*self).len(),
        ensures
            r == (bit_content(*self).subrange(0, n as int) == bit_content(*other)),
    {
        self.value[0..n] == other.value
    }

    /// Relies on bitvec's bit-sequence equality: equal lengths and, at each
    /// index, equal bit values.
    #[verifier::external_body]
    fn bits_eq(&self, other: &BitBuffer) -> (r: bool)
        ensures
            r == (bit_content(*self) == bit_content(*other)),
    {
        self.value == other.value
    }
}

impl PartialEq for BitBuffer {
    /// Two buffers are equal exactly when their bit sequences are equal.
    fn eq(&self, other: &BitBuffer) -> bool {
        self.bits_eq(other)
    }
}

impl vstd::std_specs::cmp::PartialEqSpecImpl for BitBuffer {
    open spec fn obeys_eq_spec() -> bool {
        true
    }

    open spec fn eq_spec(&self, other: &BitBuffer) -> bool {
        bit_content(*self) == bit_content(*other)
    }
}

/// An unsigned integer identifier of variable length, heap allocated.
#[derive(Debug)]
pub struct Identifier {
    value: BitBuffer,
}

/// Why raw bytes could not be made into an `Identifier`.
#[derive(Debug, PartialEq)]
pub enum IdentifierError {
    /// The byte sequence does not denote an identifier.
    InvalidValue(String),
}

impl View for Identifier {
    type V = Seq<bool>;

    closed spec fn view(&self) -> Seq<bool> {
        bit_content(self.value)
    }
}

impl Identifier {
    /// Wraps a non-empty byte sequence as an identifier; its bits are the
    /// bytes' bits, most significant first.
    pub fn new(id: &[u8]) -> (r: Result<Identifier, IdentifierError>)
        requires
            id@.len() <= usize::MAX / 64,
        ensures
            match r {
                Ok(ident) => id@.len() > 0 && ident@ == bits_of_bytes(id@),
                Err(IdentifierError::InvalidValue(m)) => id@.len() == 0 && m@
                    == "The ID cannot be nothing."@,
            },
    {
        if id.len() == 0 {
            return Err(IdentifierError::InvalidValue("The ID cannot be nothing.".to_owned()));
        }
        Ok(Identifier { value: BitBuffer::from_slice(id) })
    }

    /// Read-only access to the underlying bit sequence.
    pub fn get_id(&self) -> (r: &BitBuffer)
        ensures
            bit_content(*r) == self@,
    {
        &self.value
    }

    /// Does `self`'s whole bit sequence stand at the front of `other`'s?
    /// True exactly when `self` is no longer than `other` and the first
    /// `self@.len()` bits of `other` equal `self`'s bits; a longer pattern
    /// never matches a shorter subject.
    pub fn is_match(&self, other: &Identifier) -> (r: bool)
        ensures
            r == (self@.len() <= other@.len() && other@.subrange(0, self@.len() as int) == self@),
    {
        let prefix_length = self.value.len();
        if prefix_length <= other.value.len() {
            return other.value.prefix_eq(prefix_length, &self.value);
        }
        false
    }
}

impl PartialEq for Identifier {
    /// Two identifiers are equal exactly when their bit sequences are equal.
    fn eq(&self, other: &Identifier) -> bool {
        self.value.bits_eq(&other.value)
    }
}

impl vstd::std_specs::cmp::PartialEqSpecImpl for Identifier {
    open spec fn obeys_eq_spec() -> bool {
        true
    }

    open spec fn eq_spec(&self, other: &Identifier) -> bool {
        self@ == other@
    }
}

/// Identifiers built from the same bit content compare equal: equality is
/// exactly equality of the bit sequences, so building an identifier twice
/// from one byte sequence yields identifiers that `==` reports equal.
pub proof fn lemma_equal_bits_compare_equal(a: &Identifier, b: &Identifier)
    requires
        a@ == b@,
    ensures
        vstd::std_specs::cmp::PartialEqSpec::eq_spec(a, b),
{
}

} // verus!
