//! UIDs under the root `2.25`, built from the value of a UUID.
use vstd::prelude::*;
use vstd::string::StringExecFns;
use vstd::utf8::{
    decode_utf8, encode_utf8, encode_utf8_decode_utf8, encode_utf8_valid_utf8, is_ascii_chars,
    is_ascii_chars_encode_utf8, valid_utf8,
};

use crate::decimal::{
    append_decimal, ascii_bytes, decimal, is_digit, lemma_decimal_len, lemma_decimal_shape,
    pow10, push_decimal,
};

verus! {

/// The sixteen bytes of a UUID, in the order in which the UUID is written.
#[derive(Clone, Copy, Debug)]
pub struct UuidBytes {
    pub bytes: [u8; 16],
}

/// The unsigned integer that `b` holds with its first byte least significant.
pub open spec fn le_nat(b: Seq<u8>) -> nat
    decreases b.len(),
{
    if b.len() == 0 {
        0
    } else {
        b[0] as nat + 256 * le_nat(b.drop_first())
    }
}

impl UuidBytes {
    /// The UUID read as one little-endian unsigned integer.
    pub open spec fn value(self) -> nat {
        le_nat(self.bytes@)
    }

    /// The UUID of the given bytes.
    pub fn from_bytes(bytes: [u8; 16]) -> (r: UuidBytes)
        ensures
            r.bytes == bytes,
    {
        UuidBytes { bytes }
    }
}

/// A version 4 UUID: version nibble 4, variant bits `10`.
pub open spec fn is_version4(u: UuidBytes) -> bool {
    &&& u.bytes@[6] & 0xf0 == 0x40
    &&& u.bytes@[8] & 0xc0 == 0x80
}

/// The root under which every UID here stands, with its separating dot.
pub open spec fn uid_root() -> Seq<char> {
    seq!['2', '.', '2', '5', '.']
}

/// The UID of the integer `n`: the root, then `n` in decimal.
pub open spec fn uid_text(n: nat) -> Seq<char> {
    uid_root() + decimal(n)
}

/// The bytes that a sink receives for the UID of `n`.
pub open spec fn uid_bytes(n: nat) -> Seq<u8> {
    ascii_bytes(uid_text(n))
}

/// The shape `2.25.` followed by one to thirty-nine decimal digits.
pub open spec fn is_dicom_uid(s: Seq<char>) -> bool {
    &&& 6 <= s.len() <= 44
    &&& s.subrange(0, 5) == uid_root()
    &&& forall|i: int| 5 <= i < s.len() ==> is_digit(#[trigger] s[i])
}

/// Relies on `uuid::Uuid::to_u128_le`: the sixteen bytes read as one
/// little-endian integer (`from_bytes` only stores them).
#[verifier::external_body]
fn to_u128_le(bytes: [u8; 16]) -> (r: u128)
    ensures
        r as nat == le_nat(bytes@),
{
    uuid::Uuid::from_bytes(bytes).to_u128_le()
}

/// Relies on `uuid::Uuid::new_v4`: random bytes whose version nibble is 4
/// and whose variant bits are `10`.
#[verifier::external_body]
fn new_v4() -> (r: UuidBytes)
    ensures
        is_version4(r),
{
    UuidBytes { bytes: uuid::Uuid::new_v4().into_bytes() }
}

/// The UID of the 128-bit value `v`.
pub fn uid_from_u128(v: u128) -> (r: String)
    ensures
        r@ == uid_text(v as nat),
{
    proof {
        reveal_strlit("2.25.");
    }
    let mut s = String::from_str("2.25.");
    append_decimal(v, &mut s);
    s
}

/// Appends the bytes of the UID of `v` to `to`.
fn push_uid(v: u128, to: &mut Vec<u8>)
    ensures
        final(to)@ == old(to)@ + uid_bytes(v as nat),
{
    // the ASCII bytes of "2.25."
    to.push(50u8);
    to.push(46u8);
    to.push(50u8);
    to.push(53u8);
    to.push(46u8);
    push_decimal(v, to);
    proof {
        assert(ascii_bytes(uid_root()) =~= seq![50u8, 46u8, 50u8, 53u8, 46u8]);
        assert(uid_bytes(v as nat) =~= ascii_bytes(uid_root()) + ascii_bytes(decimal(v as nat)));
        assert(to@ =~= old(to)@ + uid_bytes(v as nat));
    }
}

/// The UID derived from `uuid`.
pub fn new_uid(uuid: UuidBytes) -> (r: String)
    ensures
        r@ == uid_text(uuid.value()),
{
    uid_from_u128(to_u128_le(uuid.bytes))
}

/// Appends the bytes of the UID derived from `uuid` to `to`.
pub fn new_uid_to(uuid: UuidBytes, to: &mut Vec<u8>)
    ensures
        final(to)@ == old(to)@ + uid_bytes(uuid.value()),
{
    push_uid(to_u128_le(uuid.bytes), to);
}

/// The UID derived from a fresh random version 4 UUID.
pub fn gen_uid() -> (r: String)
    ensures
        exists|u: UuidBytes| is_version4(u) && r@ == uid_text(#[trigger] u.value()),
        is_dicom_uid(r@),
        9 <= r@.len() <= 44,
{
    let u = new_v4();
    let v = to_u128_le(u.bytes);
    let r = uid_from_u128(v);
    proof {
        lemma_uid_format(v);
        lemma_version4_value(u);
    }
    r
}

/// Appends the bytes of the UID derived from a fresh random version 4 UUID
/// to `to`.
pub fn gen_uid_to(to: &mut Vec<u8>)
    ensures
        exists|u: UuidBytes|
            is_version4(u) && final(to)@ == old(to)@ + uid_bytes(#[trigger] u.value()),
        final(to)@.len() > old(to)@.len(),
        9 <= final(to)@.len() - old(to)@.len() <= 44,
{
    let u = new_v4();
    let v = to_u128_le(u.bytes);
    push_uid(v, to);
    proof {
        assert(v as nat == u.value());
        lemma_uid_format(v);
        lemma_version4_value(u);
        assert(uid_bytes(v as nat).len() == uid_text(v as nat).len());
    }
}

/// A byte other than zero at position `k` makes the little-endian value
/// positive.
proof fn lemma_le_nat_positive(b: Seq<u8>, k: int)
    requires
        0 <= k < b.len(),
        b[k] > 0,
    ensures
        le_nat(b) >= 1,
    decreases k,
{
    if k > 0 {
        lemma_le_nat_positive(b.drop_first(), k - 1);
    }
}

/// A version 4 UUID has a value of at least `2^16`, so its UID holds at
/// least nine characters.
proof fn lemma_version4_value(u: UuidBytes)
    requires
        is_version4(u),
    ensures
        u.value() >= 65536,
        uid_text(u.value()).len() >= 9,
{
    let b = u.bytes@;
    let b6 = b[6];
    assert(b6 & 0xf0 == 0x40 ==> b6 > 0) by (bit_vector);
    let r1 = b.drop_first();
    let r2 = r1.drop_first();
    assert(r2[4] == b6);
    lemma_le_nat_positive(r2, 4);
    assert(le_nat(b) == b[0] as nat + 256 * le_nat(r1));
    assert(le_nat(r1) == r1[0] as nat + 256 * le_nat(r2));
    let (x, y) = (le_nat(r1), le_nat(r2));
    assert(x >= 256 * y && y >= 1 ==> 256 * x >= 65536) by (nonlinear_arith);
    reveal_with_fuel(pow10, 5);
    lemma_decimal_len(u.value(), 4);
}

/// Every 128-bit value has a UID of the shape `2.25.` and one to
/// thirty-nine digits, whose first digit is `0` only for the value zero.
pub proof fn lemma_uid_format(v: u128)
    ensures
        is_dicom_uid(uid_text(v as nat)),
        uid_text(v as nat)[5] == '0' <==> v == 0,
{
    let n = v as nat;
    lemma_decimal_shape(n);
    reveal_with_fuel(pow10, 40);
    assert(pow10(39) == 1000000000000000000000000000000000000000nat);
    lemma_decimal_len(n, 39);
    let t = uid_text(n);
    assert(t.subrange(0, 5) =~= uid_root());
    assert forall|i: int| 5 <= i < t.len() implies is_digit(#[trigger] t[i]) by {
        assert(t[i] == decimal(n)[i - 5]);
    }
}

/// Encoding the same UUID twice gives the same UID.
pub proof fn lemma_uid_deterministic(a: UuidBytes, b: UuidBytes)
    requires
        a.bytes == b.bytes,
    ensures
        uid_text(a.value()) == uid_text(b.value()),
        uid_bytes(a.value()) == uid_bytes(b.value()),
{
}

/// The bytes written to a sink are valid UTF-8 and decode to the UID
/// string of the same value.
pub proof fn lemma_sink_bytes_decode(n: nat)
    ensures
        valid_utf8(uid_bytes(n)),
        decode_utf8(uid_bytes(n)) == uid_text(n),
{
    let t = uid_text(n);
    lemma_decimal_shape(n);
    assert(is_ascii_chars(t)) by {
        assert forall|i: int| 0 <= i < t.len() implies '\0' <= #[trigger] t[i] <= '\u{7f}' by {
            if i >= 5 {
                assert(t[i] == decimal(n)[i - 5]);
            }
        }
    }
    is_ascii_chars_encode_utf8(t);
    assert(encode_utf8(t) =~= uid_bytes(n));
    encode_utf8_valid_utf8(t);
    encode_utf8_decode_utf8(t);
}

} // verus!
