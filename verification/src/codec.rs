//! Canonical byte encodings for group elements and scalars.
//!
//! A first-group point encodes as 64 bytes: the big-endian affine
//! x-coordinate, then the big-endian affine y-coordinate. A second-group
//! point encodes as 128 bytes, its extension-field coordinates split into
//! 32-byte big-endian limbs in the order (x imaginary, x real,
//! y imaginary, y real), the layout the external verifying contract
//! expects. A scalar encodes as 32 bytes big-endian. Decoding rejects any
//! other length and does not itself check curve membership: that is the
//! caller's explicit, separate step.

use vstd::prelude::*;
use crate::curve::{
    fq_from_be_bytes, fq_to_be_bytes, fr_to_be_bytes, fr_val, g1_coords, g1_from_coords, g1_ident, g1_of, g1_x,
    g1_y, g2_coords, g2_from_coords, g2_ident, g2_of, g2_x0, g2_x1, g2_y0, g2_y1,
    FirstGroupElement, Scalar, SecondGroupElement,
};
use crate::field::{be_bytes, be_val, lemma_be_bytes_len, lemma_be_bytes_val, q_mod};
use vstd::arithmetic::power::pow;
use vstd::arithmetic::div_mod::lemma_small_mod;
use vstd::slice::slice_subrange;
use tiny_keccak::{Hasher, Keccak};

verus! {

/// Failures of the byte codec.
#[derive(Debug, PartialEq, Eq, Clone, Copy)]
pub enum CodecError {
    /// The input's length matches no encoding this codec produces.
    MalformedEncoding,
}

/// The 32-byte digest that the fixed hash assigns to a byte sequence.
pub uninterp spec fn keccak_of(s: Seq<u8>) -> Seq<u8>;

/// Relies on tiny_keccak's Keccak-256: a 32-byte digest that depends on
/// the input bytes alone.
#[verifier::external_body]
pub fn keccak256(bytes: &[u8]) -> (r: [u8; 32])
    ensures
        r@ == keccak_of(bytes@),
        r@.len() == 32,
{
    let mut output = [0u8; 32];
    let mut hasher = Keccak::v256();
    hasher.update(bytes);
    hasher.finalize(&mut output);
    output
}

/// The 64-byte encoding of a first-group point.
pub open spec fn ser_g1(p: FirstGroupElement) -> Seq<u8> {
    be_bytes(g1_x(p), 32) + be_bytes(g1_y(p), 32)
}

/// The 128-byte encoding of a second-group point: each coordinate's
/// imaginary limb precedes its real limb.
pub open spec fn ser_g2(p: SecondGroupElement) -> Seq<u8> {
    be_bytes(g2_x1(p), 32) + be_bytes(g2_x0(p), 32) + be_bytes(g2_y1(p), 32) + be_bytes(
        g2_y0(p),
        32,
    )
}

/// Encode a first-group point: affine x then affine y, big-endian.
pub fn serialize_g1(p: &FirstGroupElement) -> (r: Vec<u8>)
    ensures
        r@ == ser_g1(*p),
        r@.len() == 64,
        0 <= g1_x(*p) < q_mod() && 0 <= g1_y(*p) < q_mod(),
        !g1_ident(*p) ==> g1_of(g1_x(*p), g1_y(*p)) == *p,
{
    let coords = g1_coords(p);
    let mut out = fq_to_be_bytes(&coords.0);
    let mut tail = fq_to_be_bytes(&coords.1);
    out.append(&mut tail);
    proof {
        lemma_be_bytes_len(g1_x(*p), 32);
        lemma_be_bytes_len(g1_y(*p), 32);
    }
    out
}

/// Encode a second-group point in the contract's limb order.
pub fn serialize_g2(p: &SecondGroupElement) -> (r: Vec<u8>)
    ensures
        r@ == ser_g2(*p),
        r@.len() == 128,
        0 <= g2_x0(*p) < q_mod() && 0 <= g2_x1(*p) < q_mod(),
        0 <= g2_y0(*p) < q_mod() && 0 <= g2_y1(*p) < q_mod(),
        !g2_ident(*p) ==> g2_of(g2_x0(*p), g2_x1(*p), g2_y0(*p), g2_y1(*p)) == *p,
{
    let coords = g2_coords(p);
    let mut out = fq_to_be_bytes(&coords.1);
    let mut xr = fq_to_be_bytes(&coords.0);
    let mut yi = fq_to_be_bytes(&coords.3);
    let mut yr = fq_to_be_bytes(&coords.2);
    out.append(&mut xr);
    out.append(&mut yi);
    out.append(&mut yr);
    proof {
        lemma_be_bytes_len(g2_x0(*p), 32);
        lemma_be_bytes_len(g2_x1(*p), 32);
        lemma_be_bytes_len(g2_y0(*p), 32);
        lemma_be_bytes_len(g2_y1(*p), 32);
    }
    out
}

/// Encode a scalar as 32 big-endian bytes, the numeric form the external
/// verifying contract consumes.
pub fn serialize_fr(element: &Scalar) -> (r: [u8; 32])
    ensures
        r@ == be_bytes(fr_val(*element), 32),
{
    let v = fr_to_be_bytes(element);
    let mut out = [0u8; 32];
    let mut i: usize = 0;
    while i < 32
        invariant
            0 <= i <= 32,
            v@ == be_bytes(fr_val(*element), 32),
            v@.len() == 32,
            forall|j: int| 0 <= j < i ==> out@[j] == v@[j],
        decreases 32 - i,
    {
        out[i] = v[i];
        i = i + 1;
    }
    proof {
        assert(out@ =~= v@);
    }
    out
}

/// Decode a 64-byte encoding into a first-group point: the two limbs are
/// read big-endian and reduced modulo the base-field prime; any other
/// length is malformed. Curve membership is not checked here.
pub fn contract_bytes_to_g1(b: &[u8]) -> (r: Result<FirstGroupElement, CodecError>)
    ensures
        r is Ok <==> b@.len() == 64,
        b@.len() != 64 ==> r == Err::<FirstGroupElement, CodecError>(
            CodecError::MalformedEncoding,
        ),
        b@.len() == 64 ==> r == Ok::<FirstGroupElement, CodecError>(
            g1_of(be_val(b@.subrange(0, 32)) % q_mod(), be_val(b@.subrange(32, 64)) % q_mod()),
        ),
{
    if b.len() != 64 {
        return Err(CodecError::MalformedEncoding);
    }
    let x = fq_from_be_bytes(slice_subrange(b, 0, 32));
    let y = fq_from_be_bytes(slice_subrange(b, 32, 64));
    Ok(g1_from_coords(&x, &y))
}

/// Decode a 128-byte encoding into a second-group point, undoing the
/// (imaginary, real) limb order; any other length is malformed. Curve
/// membership is not checked here.
pub fn contract_bytes_to_g2(b: &[u8]) -> (r: Result<SecondGroupElement, CodecError>)
    ensures
        r is Ok <==> b@.len() == 128,
        b@.len() != 128 ==> r == Err::<SecondGroupElement, CodecError>(
            CodecError::MalformedEncoding,
        ),
        b@.len() == 128 ==> r == Ok::<SecondGroupElement, CodecError>(
            g2_of(
                be_val(b@.subrange(32, 64)) % q_mod(),
                be_val(b@.subrange(0, 32)) % q_mod(),
                be_val(b@.subrange(96, 128)) % q_mod(),
                be_val(b@.subrange(64, 96)) % q_mod(),
            ),
        ),
{
    if b.len() != 128 {
        return Err(CodecError::MalformedEncoding);
    }
    let x1 = fq_from_be_bytes(slice_subrange(b, 0, 32));
    let x0 = fq_from_be_bytes(slice_subrange(b, 32, 64));
    let y1 = fq_from_be_bytes(slice_subrange(b, 64, 96));
    let y0 = fq_from_be_bytes(slice_subrange(b, 96, 128));
    Ok(g2_from_coords(&x0, &x1, &y0, &y1))
}

/// The base-field prime is below `256^32`, so a coordinate's 32-byte
/// encoding reads back to the coordinate itself.
proof fn lemma_limb_round_trip(x: int)
    requires
        0 <= x < q_mod(),
    ensures
        be_val(be_bytes(x, 32)) % q_mod() == x,
{
    assert(pow(256, 32) == 115792089237316195423570985008687907853269984665640564039457584007913129639936int) by {
        reveal_with_fuel(pow, 33);
    }
    lemma_be_bytes_val(x, 32);
    lemma_small_mod(x as nat, q_mod() as nat);
}

/// Round trip of the first-group codec: decoding the encoding of any
/// point other than the identity yields the point back. The hypotheses
/// are exactly what `serialize_g1` ensures of a non-identity point and
/// what `contract_bytes_to_g1` ensures of a 64-byte input.
pub proof fn lemma_g1_round_trip(p: FirstGroupElement, enc: Seq<u8>)
    requires
        enc == ser_g1(p),
        0 <= g1_x(p) < q_mod(),
        0 <= g1_y(p) < q_mod(),
        g1_of(g1_x(p), g1_y(p)) == p,
    ensures
        g1_of(be_val(enc.subrange(0, 32)) % q_mod(), be_val(enc.subrange(32, 64)) % q_mod())
            == p,
{
    lemma_be_bytes_len(g1_x(p), 32);
    lemma_be_bytes_len(g1_y(p), 32);
    assert(enc.subrange(0, 32) =~= be_bytes(g1_x(p), 32));
    assert(enc.subrange(32, 64) =~= be_bytes(g1_y(p), 32));
    lemma_limb_round_trip(g1_x(p));
    lemma_limb_round_trip(g1_y(p));
}

/// Round trip of the second-group codec, stated as for the first group.
pub proof fn lemma_g2_round_trip(p: SecondGroupElement, enc: Seq<u8>)
    requires
        enc == ser_g2(p),
        0 <= g2_x0(p) < q_mod(),
        0 <= g2_x1(p) < q_mod(),
        0 <= g2_y0(p) < q_mod(),
        0 <= g2_y1(p) < q_mod(),
        g2_of(g2_x0(p), g2_x1(p), g2_y0(p), g2_y1(p)) == p,
    ensures
        g2_of(
            be_val(enc.subrange(32, 64)) % q_mod(),
            be_val(enc.subrange(0, 32)) % q_mod(),
            be_val(enc.subrange(96, 128)) % q_mod(),
            be_val(enc.subrange(64, 96)) % q_mod(),
        ) == p,
{
    lemma_be_bytes_len(g2_x0(p), 32);
    lemma_be_bytes_len(g2_x1(p), 32);
    lemma_be_bytes_len(g2_y0(p), 32);
    lemma_be_bytes_len(g2_y1(p), 32);
    assert(enc.subrange(0, 32) =~= be_bytes(g2_x1(p), 32));
    assert(enc.subrange(32, 64) =~= be_bytes(g2_x0(p), 32));
    assert(enc.subrange(64, 96) =~= be_bytes(g2_y1(p), 32));
    assert(enc.subrange(96, 128) =~= be_bytes(g2_y0(p), 32));
    lemma_limb_round_trip(g2_x0(p));
    lemma_limb_round_trip(g2_x1(p));
    lemma_limb_round_trip(g2_y0(p));
    lemma_limb_round_trip(g2_y1(p));
}

/// The hexadecimal digit (lower case) for a value below sixteen.
pub open spec fn hex_digit(n: u8) -> u8 {
    if n < 10 {
        (48 + n) as u8
    } else {
        (87 + n) as u8
    }
}

/// The ASCII text `0x` followed by two lower-case hexadecimal digits for
/// each byte.
pub open spec fn hex_ascii(s: Seq<u8>) -> Seq<u8>
    decreases s.len(),
{
    if s.len() == 0 {
        seq![48u8, 120u8]
    } else {
        hex_ascii(s.drop_last()) + seq![hex_digit(s.last() / 16), hex_digit(s.last() % 16)]
    }
}

proof fn lemma_hex_ascii_len(s: Seq<u8>)
    ensures
        hex_ascii(s).len() == 2 * s.len() + 2,
        forall|i: int| 0 <= i < hex_ascii(s).len() ==> hex_ascii(s)[i] < 128,
    decreases s.len(),
{
    if s.len() > 0 {
        lemma_hex_ascii_len(s.drop_last());
    }
}

/// Relies on String::from_utf8 on bytes that are all ASCII, where it
/// cannot fail: the string whose characters are the given code points.
#[verifier::external_body]
fn ascii_to_string(v: Vec<u8>) -> (r: String)
    requires
        forall|i: int| 0 <= i < v@.len() ==> v@[i] < 128,
    ensures
        r@ == v@.map(|_i: int, b: u8| b as char),
{
    String::from_utf8(v).unwrap()
}

/// Render bytes as `0x`-prefixed lower-case hexadecimal text.
pub fn encode_bytes_hex(bytes: &[u8]) -> (r: String)
    ensures
        r@ == hex_ascii(bytes@).map(|_i: int, b: u8| b as char),
        r@.len() == 2 * bytes@.len() + 2,
{
    let ghost gs = bytes@;
    let mut out: Vec<u8> = Vec::new();
    out.push(48);
    out.push(120);
    assert(out@ =~= hex_ascii(gs.subrange(0, 0)));
    let mut i: usize = 0;
    while i < bytes.len()
        invariant
            0 <= i <= gs.len(),
            gs == bytes@,
            out@ == hex_ascii(gs.subrange(0, i as int)),
        decreases gs.len() - i,
    {
        let b = bytes[i];
        out.push(if b / 16 < 10 { 48 + b / 16 } else { 87 + b / 16 });
        out.push(if b % 16 < 10 { 48 + b % 16 } else { 87 + b % 16 });
        proof {
            let pre = gs.subrange(0, i as int);
            let cur = gs.subrange(0, i + 1);
            assert(cur.drop_last() =~= pre);
            assert(cur.last() == gs[i as int]);
            assert(out@ =~= hex_ascii(cur));
        }
        i = i + 1;
    }
    proof {
        assert(gs.subrange(0, gs.len() as int) =~= gs);
        lemma_hex_ascii_len(gs);
    }
    ascii_to_string(out)
}

} // verus!
