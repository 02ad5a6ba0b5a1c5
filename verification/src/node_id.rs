//! The fixed-width node identifier: a 160-bit unsigned number decoded from
//! decimal or hexadecimal text into a 20-byte big-endian buffer.
//!
//! Conversion uses a carry-splitting emission: digits are accumulated into a
//! running value, and bytes are peeled off by repeatedly subtracting 255 while
//! the accumulator exceeds 255, each subtraction writing a 255 byte one
//! position further left; whatever remains at the end becomes the next,
//! most-significant byte. A value is therefore representable exactly when it
//! is at most 20 * 255 = 5100, and decoding anything larger is rejected as out
//! of range.

use vstd::prelude::*;
use vstd::string::StrSliceExecFns;

verus! {

/// A 160-bit node identifier, as 20 big-endian bytes.
#[derive(Debug)]
pub struct NodeId(pub [u8; 20]);

/// Why a string could not be decoded into a `NodeId`.
#[derive(Debug, PartialEq)]
pub enum IdError {
    /// The decoded magnitude does not fit the carry-splitting emission's
    /// 20-byte capacity.
    ValueOutOfRange(String),
    /// The input does not denote an unsigned integer in the requested base.
    InvalidValue(String),
}

/// The largest value whose carry-splitting emission fits in 20 bytes:
/// 19 bytes of 255 plus a final remainder byte of 255.
pub const MAX_DECODED_VALUE: u64 = 5100;

/// Is `c` an ASCII decimal digit?
pub open spec fn is_dec_digit(c: char) -> bool {
    '0' <= c && c <= '9'
}

/// Numeric value of an ASCII decimal digit.
pub open spec fn dec_digit_val(c: char) -> nat
    recommends
        is_dec_digit(c),
{
    (c as int - '0' as int) as nat
}

/// Every character of `s` is an ASCII decimal digit.
pub open spec fn all_dec_digits(s: Seq<char>) -> bool {
    forall|i: int| 0 <= i < s.len() ==> is_dec_digit(s[i])
}

/// `s` with every comma (thousands separator) removed.
pub open spec fn strip_commas(s: Seq<char>) -> Seq<char>
    decreases s.len(),
{
    if s.len() == 0 {
        Seq::empty()
    } else if s.last() == ',' {
        strip_commas(s.drop_last())
    } else {
        strip_commas(s.drop_last()).push(s.last())
    }
}

/// The number denoted by a sequence of decimal digits, most significant first.
pub open spec fn dec_value(s: Seq<char>) -> nat
    recommends
        all_dec_digits(s),
    decreases s.len(),
{
    if s.len() == 0 {
        0
    } else {
        dec_value(s.drop_last()) * 10 + dec_digit_val(s.last())
    }
}

/// How many 255 bytes the carry-splitting emission writes for value `v`.
pub open spec fn emitted_count(v: nat) -> nat {
    if v == 0 {
        0
    } else {
        (((v - 1) / 255)) as nat
    }
}

/// The final accumulator remainder written as the most-significant byte.
pub open spec fn trailing_byte(v: nat) -> nat {
    (v - 255 * emitted_count(v)) as nat
}

/// The 20-byte big-endian buffer the carry-splitting emission produces for
/// value `v`: bytes of 255 from index 19 leftward, then the remainder.
pub open spec fn node_bytes(v: nat) -> Seq<u8>
    recommends
        v <= MAX_DECODED_VALUE,
{
    Seq::new(
        20,
        |i: int|
            if i > 19 - emitted_count(v) {
                255u8
            } else if i == 19 - emitted_count(v) && v > 0 {
                trailing_byte(v) as u8
            } else {
                0u8
            },
    )
}

/// Accumulator value capped just above the largest decodable value, as the
/// saturating scan of the digits computes it.
pub open spec fn sat_cap(v: nat) -> nat {
    if v > 5101 {
        5101
    } else {
        v
    }
}

/// Is `c` an ASCII hexadecimal digit, either case?
pub open spec fn is_hex_digit(c: char) -> bool {
    ('0' <= c && c <= '9') || ('A' <= c && c <= 'F') || ('a' <= c && c <= 'f')
}

/// Numeric value of an ASCII hexadecimal digit.
pub open spec fn hex_digit_val(c: char) -> nat
    recommends
        is_hex_digit(c),
{
    if '0' <= c && c <= '9' {
        (c as int - '0' as int) as nat
    } else if 'A' <= c && c <= 'F' {
        (c as int - 'A' as int + 10) as nat
    } else {
        (c as int - 'a' as int + 10) as nat
    }
}

/// The number denoted by a sequence of hexadecimal digits, most significant
/// first.
pub open spec fn hex_value(s: Seq<char>) -> nat
    recommends
        forall|i: int| 0 <= i < s.len() ==> is_hex_digit(s[i]),
    decreases s.len(),
{
    if s.len() == 0 {
        0
    } else {
        hex_value(s.drop_last()) * 16 + hex_digit_val(s.last())
    }
}

/// `s` is a well-formed hexadecimal spelling: a `0x` or `0X` header followed
/// by one or more hexadecimal digits.
pub open spec fn is_hex_format(s: Seq<char>) -> bool {
    s.len() >= 3 && s[0] == '0' && (s[1] == 'x' || s[1] == 'X') && (forall|i: int|
        2 <= i < s.len() ==> is_hex_digit(s[i]))
}

/// Relies on `regex::Regex::is_match` with the anchored pattern
/// `^0[xX][0-9A-Fa-f]+$`: a haystack matches exactly when the whole of it is
/// a `0x` or `0X` header followed by one or more hexadecimal digits.
#[verifier::external_body]
fn hex_format_matches(s: &str) -> (r: bool)
    ensures
        r == is_hex_format(s@),
{
    let re = regex::Regex::new("^0[xX][0-9A-Fa-f]+$").unwrap();
    re.is_match(s)
}

/// Strips the two-character base header (such as `0x`) off the front of a
/// string; a string of fewer than two characters is stripped to nothing.
pub fn remove_hex_header(hex_string: &str) -> (r: &str)
    ensures
        hex_string@.len() >= 2 ==> r@ == hex_string@.subrange(2, hex_string@.len() as int),
        hex_string@.len() < 2 ==> r@ == Seq::<char>::empty(),
{
    let n = hex_string.unicode_len();
    if n >= 2 {
        hex_string.substring_char(2, n)
    } else {
        let r = hex_string.substring_char(n, n);
        proof {
            assert(hex_string@.subrange(n as int, n as int) =~= Seq::<char>::empty());
        }
        r
    }
}

/// Stripping commas from a prefix of `s` yields a prefix of stripping them
/// from all of `s`.
proof fn lemma_strip_commas_prefix(s: Seq<char>, i: int)
    requires
        0 <= i <= s.len(),
    ensures
        strip_commas(s.subrange(0, i)).is_prefix_of(strip_commas(s)),
    decreases s.len() - i,
{
    if i == s.len() {
        assert(s.subrange(0, i) =~= s);
    } else {
        let p = s.subrange(0, i);
        let q = s.subrange(0, i + 1);
        assert(q.drop_last() =~= p);
        lemma_strip_commas_prefix(s, i + 1);
        let sp = strip_commas(p);
        let sq = strip_commas(q);
        let ss = strip_commas(s);
        assert(sp.is_prefix_of(sq)) by {
            if q.last() == ',' {
                assert(sq == sp);
            } else {
                assert(sq == sp.push(q.last()));
                assert(sp =~= sq.subrange(0, sp.len() as int));
            }
        }
        assert forall|j: int| 0 <= j < sp.len() implies sp[j] == ss[j] by {
            assert(sp[j] == sq[j]);
            assert(sq[j] == ss[j]);
        }
        assert(sp =~= ss.subrange(0, sp.len() as int));
    }
}

impl NodeId {
    /// Decodes a base-10 textual number, with optional comma separators, into
    /// a 160-bit identifier.
    pub fn from_number(number: &str) -> (r: Result<NodeId, IdError>)
        ensures
            ({
                let cleaned = strip_commas(number@);
                match r {
                    Ok(id) => cleaned.len() > 0 && all_dec_digits(cleaned) && dec_value(cleaned)
                        <= MAX_DECODED_VALUE && id.0@ == node_bytes(dec_value(cleaned)),
                    Err(IdError::InvalidValue(m)) => (cleaned.len() == 0 || !all_dec_digits(
                        cleaned,
                    )) && m@ == "The input string is invalid."@,
                    Err(IdError::ValueOutOfRange(m)) => cleaned.len() > 0 && all_dec_digits(cleaned)
                        && dec_value(cleaned) > MAX_DECODED_VALUE && m@
                        == "The value is to large!"@,
                }
            }),
    {
        let n = number.unicode_len();
        let mut i: usize = 0;
        let mut value: u64 = 0;
        let mut seen_digit: bool = false;
        while i < n
            invariant
                n == number@.len(),
                i <= n,
                all_dec_digits(strip_commas(number@.subrange(0, i as int))),
                seen_digit == (strip_commas(number@.subrange(0, i as int)).len() > 0),
                value == sat_cap(dec_value(strip_commas(number@.subrange(0, i as int)))),
            decreases n - i,
        {
            let c = number.get_char(i);
            let ghost pref = number@.subrange(0, i as int);
            let ghost pref2 = number@.subrange(0, i as int + 1);
            proof {
                assert(pref2.drop_last() =~= pref);
                assert(pref2.last() == c);
            }
            if c == ',' {
                proof {
                    assert(strip_commas(pref2) == strip_commas(pref));
                }
            } else {
                let u = c as u32;
                if 48 <= u && u <= 57 {
                    let d = (u - 48) as u64;
                    seen_digit = true;
                    proof {
                        assert(strip_commas(pref2) == strip_commas(pref).push(c));
                        assert(strip_commas(pref2).drop_last() =~= strip_commas(pref));
                        assert(dec_value(strip_commas(pref2)) == dec_value(strip_commas(pref)) * 10
                            + dec_digit_val(c));
                        assert(sat_cap(dec_value(strip_commas(pref2))) == if sat_cap(
                            dec_value(strip_commas(pref)),
                        ) * 10 + dec_digit_val(c) > 5101 {
                            5101nat
                        } else {
                            sat_cap(dec_value(strip_commas(pref))) * 10 + dec_digit_val(c)
                        });
                    }
                    value = if value * 10 + d > 5101 {
                        5101
                    } else {
                        value * 10 + d
                    };
                } else {
                    proof {
                        assert(strip_commas(pref2) == strip_commas(pref).push(c));
                        lemma_strip_commas_prefix(number@, i as int + 1);
                        let sp = strip_commas(pref2);
                        let ss = strip_commas(number@);
                        assert(sp[sp.len() - 1] == ss[sp.len() - 1]);
                        assert(!is_dec_digit(ss[sp.len() - 1]));
                    }
                    return Err(IdError::InvalidValue("The input string is invalid.".to_owned()));
                }
            }
            i += 1;
        }
        proof {
            assert(number@.subrange(0, n as int) =~= number@);
        }
        if !seen_digit {
            return Err(IdError::InvalidValue("The input string is invalid.".to_owned()));
        }
        if value > MAX_DECODED_VALUE {
            return Err(IdError::ValueOutOfRange("The value is to large!".to_owned()));
        }
        Ok(NodeId(emit_bytes(value)))
    }

    /// Decodes a hexadecimal textual number of the form `0x####` (either case
    /// of header and digits) into a 160-bit identifier.
    pub fn from_hex(hex_number: &str) -> (r: Result<NodeId, IdError>)
        ensures
            ({
                let digits = hex_number@.subrange(2, hex_number@.len() as int);
                match r {
                    Ok(id) => is_hex_format(hex_number@) && hex_value(digits) <= MAX_DECODED_VALUE
                        && id.0@ == node_bytes(hex_value(digits)),
                    Err(IdError::InvalidValue(m)) => !is_hex_format(hex_number@) && m@
                        == "The input is not a valid hex string."@,
                    Err(IdError::ValueOutOfRange(m)) => is_hex_format(hex_number@) && hex_value(
                        digits,
                    ) > MAX_DECODED_VALUE && m@ == "The value is to large!"@,
                }
            }),
    {
        if !hex_format_matches(hex_number) {
            return Err(IdError::InvalidValue("The input is not a valid hex string.".to_owned()));
        }
        let number_string = remove_hex_header(hex_number);
        let m = number_string.unicode_len();
        let mut i: usize = 0;
        let mut value: u64 = 0;
        while i < m
            invariant
                is_hex_format(hex_number@),
                number_string@ == hex_number@.subrange(2, hex_number@.len() as int),
                m == number_string@.len(),
                i <= m,
                value == sat_cap(hex_value(number_string@.subrange(0, i as int))),
            decreases m - i,
        {
            let c = number_string.get_char(i);
            proof {
                assert(number_string@[i as int] == hex_number@[i as int + 2]);
                assert(is_hex_digit(c));
                assert(number_string@.subrange(0, i as int + 1).drop_last() =~= number_string@
                    .subrange(0, i as int));
                assert(number_string@.subrange(0, i as int + 1).last() == c);
            }
            let u = c as u32;
            let d: u64 = if u >= 97 {
                (u - 87) as u64
            } else if u >= 65 {
                (u - 55) as u64
            } else {
                (u - 48) as u64
            };
            proof {
                assert(d == hex_digit_val(c));
                let prev = hex_value(number_string@.subrange(0, i as int));
                let next = hex_value(number_string@.subrange(0, i as int + 1));
                assert(next == prev * 16 + hex_digit_val(c));
                assert(sat_cap(next) == if sat_cap(prev) * 16 + hex_digit_val(c) > 5101 {
                    5101nat
                } else {
                    sat_cap(prev) * 16 + hex_digit_val(c)
                });
            }
            value = if value * 16 + d > 5101 {
                5101
            } else {
                value * 16 + d
            };
            i += 1;
        }
        proof {
            assert(number_string@.subrange(0, m as int) =~= number_string@);
        }
        if value > MAX_DECODED_VALUE {
            return Err(IdError::ValueOutOfRange("The value is to large!".to_owned()));
        }
        Ok(NodeId(emit_bytes(value)))
    }
}

impl PartialEq for NodeId {
    /// Two identifiers are equal exactly when their 20 bytes are equal.
    fn eq(&self, other: &NodeId) -> bool {
        let mut i: usize = 0;
        while i < 20
            invariant
                i <= 20,
                forall|k: int| 0 <= k < i ==> self.0@[k] == other.0@[k],
            decreases 20 - i,
        {
            if self.0[i] != other.0[i] {
                return false;
            }
            i += 1;
        }
        proof {
            assert(self.0@ =~= other.0@);
        }
        true
    }
}

impl vstd::std_specs::cmp::PartialEqSpecImpl for NodeId {
    open spec fn obeys_eq_spec() -> bool {
        true
    }

    open spec fn eq_spec(&self, other: &NodeId) -> bool {
        self.0@ == other.0@
    }
}

/// Reading a byte sequence back as the big-endian number it spells.
pub open spec fn be_value(bytes: Seq<u8>) -> nat
    decreases bytes.len(),
{
    if bytes.len() == 0 {
        0
    } else {
        be_value(bytes.drop_last()) * 256 + bytes.last() as nat
    }
}

proof fn lemma_be_value_all_zero(bytes: Seq<u8>)
    requires
        forall|i: int| 0 <= i < bytes.len() ==> bytes[i] == 0,
    ensures
        be_value(bytes) == 0,
    decreases bytes.len(),
{
    if bytes.len() > 0 {
        lemma_be_value_all_zero(bytes.drop_last());
    }
}

/// Round trip through decimal, for values that fit one byte: the decoded
/// buffer, read back as a big-endian integer, is exactly the number the
/// digits denote. (A larger value is emitted as a run of 255 bytes, whose
/// big-endian reading is not the value itself, so the round trip stops at
/// 255.)
pub proof fn lemma_single_byte_round_trip(s: Seq<char>)
    requires
        all_dec_digits(s),
        s.len() > 0,
        dec_value(s) <= 255,
    ensures
        be_value(node_bytes(dec_value(s))) == dec_value(s),
{
    let v = dec_value(s);
    assert(emitted_count(v) == 0);
    let b = node_bytes(v);
    lemma_be_value_all_zero(b.drop_last());
    assert(b.last() == v as u8);
}

/// A hexadecimal and a decimal spelling of one number decode alike: with
/// equal numeric values, the in-range test and the emitted 20-byte buffer of
/// `from_hex` and `from_number` coincide.
pub proof fn lemma_hex_decimal_agree(dec: Seq<char>, hex: Seq<char>)
    requires
        dec_value(strip_commas(dec)) == hex_value(hex.subrange(2, hex.len() as int)),
    ensures
        (dec_value(strip_commas(dec)) <= MAX_DECODED_VALUE) == (hex_value(
            hex.subrange(2, hex.len() as int),
        ) <= MAX_DECODED_VALUE),
        node_bytes(dec_value(strip_commas(dec))) == node_bytes(
            hex_value(hex.subrange(2, hex.len() as int)),
        ),
{
}

/// Decoding the same string twice yields identifiers that compare equal: the
/// decoder's contract pins the bytes to one image of the input, and equality
/// is exactly byte equality.
pub proof fn lemma_decode_deterministic(a: &NodeId, b: &NodeId)
    requires
        a.0@ == b.0@,
    ensures
        vstd::std_specs::cmp::PartialEqSpec::eq_spec(a, b),
{
}

/// Comma grouping separators do not affect decoding: every clause of
/// `from_number`'s contract reads its input only through `strip_commas`.
pub proof fn lemma_comma_insensitive(s1: Seq<char>, s2: Seq<char>)
    requires
        strip_commas(s1) == strip_commas(s2),
    ensures
        (strip_commas(s1).len() > 0 && all_dec_digits(strip_commas(s1)) && dec_value(
            strip_commas(s1),
        ) <= MAX_DECODED_VALUE) == (strip_commas(s2).len() > 0 && all_dec_digits(strip_commas(s2))
            && dec_value(strip_commas(s2)) <= MAX_DECODED_VALUE),
        node_bytes(dec_value(strip_commas(s1))) == node_bytes(dec_value(strip_commas(s2))),
{
}

/// Writes `value` into a 20-byte buffer by the carry-splitting emission: while
/// the accumulator exceeds 255, a 255 byte is placed at the current index,
/// moving leftward; the remainder becomes the most-significant byte.
fn emit_bytes(value: u64) -> (r: [u8; 20])
    requires
        value <= MAX_DECODED_VALUE,
    ensures
        r@ == node_bytes(value as nat),
{
    let mut arr: [u8; 20] = [0; 20];
    let mut temp: u64 = value;
    let mut id_arr_idx: usize = 19;
    while temp > 255
        invariant
            value <= MAX_DECODED_VALUE,
            id_arr_idx <= 19,
            value == temp + 255 * (19 - id_arr_idx),
            value > 0 ==> temp >= 1,
            forall|k: int|
                0 <= k < 20 ==> arr@[k] == (if k > id_arr_idx as int {
                    255u8
                } else {
                    0u8
                }),
        decreases temp,
    {
        proof {
            assert(id_arr_idx >= 1);
        }
        arr[id_arr_idx] = 255;
        temp = temp - 255;
        id_arr_idx = id_arr_idx - 1;
    }
    let ghost k = (19 - id_arr_idx) as nat;
    if temp > 0 {
        proof {
            vstd::arithmetic::div_mod::lemma_fundamental_div_mod_converse(
                value as int - 1,
                255,
                k as int,
                temp as int - 1,
            );
            assert(emitted_count(value as nat) == k);
            assert(trailing_byte(value as nat) == temp);
        }
        arr[id_arr_idx] = temp as u8;
        proof {
            assert(arr@ =~= node_bytes(value as nat));
        }
    } else {
        proof {
            assert(value == 0 && k == 0);
            assert(arr@ =~= node_bytes(value as nat));
        }
    }
    arr
}

} // verus!
