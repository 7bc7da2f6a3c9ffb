//! Arithmetic in the scalar field of BN254, as mathematical integers.
//!
//! Group elements are modelled by their discrete logarithms, which live in
//! the scalar field; every contract of the protocol is stated over the
//! operations defined here.

use vstd::prelude::*;
use vstd::arithmetic::power::{pow, lemma_pow_adds, lemma_pow_distributes, lemma_pow_mod_noop, lemma1_pow};
use vstd::arithmetic::div_mod::{
    lemma_mod_twice, lemma_mod_bound, lemma_add_mod_noop, lemma_mul_mod_noop_general,
    lemma_small_mod, lemma_mod_multiples_basic,
};
use vstd::arithmetic::mul::{lemma_mul_is_distributive_add, lemma_mul_is_associative, lemma_mul_is_commutative};

verus! {

/// Order of the BN254 scalar field (the prime `r`); also the order of both
/// curve groups and of the pairing's target subgroup.
pub open spec fn r_mod() -> int {
    21888242871839275222246405745257275088548364400416034343698204186575808495617int
}

/// Order of the BN254 base field (the prime `q`): coordinates of curve
/// points are residues modulo this prime.
pub open spec fn q_mod() -> int {
    21888242871839275222246405745257275088696311157297823662689037894645226208583int
}

/// A canonical scalar-field residue.
pub open spec fn in_field(a: int) -> bool {
    0 <= a < r_mod()
}

/// Addition in the scalar field.
pub open spec fn fadd(a: int, b: int) -> int {
    (a + b) % r_mod()
}

/// Multiplication in the scalar field.
pub open spec fn fmul(a: int, b: int) -> int {
    (a * b) % r_mod()
}

/// Exponentiation in the scalar field.
pub open spec fn fpow(b: int, e: nat) -> int {
    pow(b, e) % r_mod()
}

pub proof fn lemma_fadd_in_field(a: int, b: int)
    ensures
        in_field(fadd(a, b)),
{
    lemma_mod_bound(a + b, r_mod());
}

pub proof fn lemma_fmul_in_field(a: int, b: int)
    ensures
        in_field(fmul(a, b)),
{
    lemma_mod_bound(a * b, r_mod());
}

/// Reducing an already-canonical residue changes nothing.
pub proof fn lemma_field_id(a: int)
    requires
        in_field(a),
    ensures
        a % r_mod() == a,
{
    lemma_small_mod(a as nat, r_mod() as nat);
}

/// The first power is the base itself, reduced.
pub proof fn lemma_fpow_one(b: int)
    ensures
        fpow(b, 1) == b % r_mod(),
{
    reveal_with_fuel(pow, 2);
}

/// Raising one to any power yields one.
pub proof fn lemma_fpow_of_one(e: nat)
    ensures
        fpow(1, e) == 1,
{
    lemma1_pow(e);
    lemma_small_mod(1nat, r_mod() as nat);
}

/// Multiplication may be computed on reduced operands: products are
/// congruent whenever the factors are.
pub proof fn lemma_fmul_congruent(a: int, b: int)
    ensures
        fmul(a % r_mod(), b) == fmul(a, b),
        fmul(a, b % r_mod()) == fmul(a, b),
{
    lemma_mul_mod_noop_general(a, b, r_mod());
}

pub proof fn lemma_fmul_comm(a: int, b: int)
    ensures
        fmul(a, b) == fmul(b, a),
{
    lemma_mul_is_commutative(a, b);
}

pub proof fn lemma_fmul_assoc(a: int, b: int, c: int)
    ensures
        fmul(fmul(a, b), c) == fmul(a, fmul(b, c)),
{
    lemma_mul_mod_noop_general(a * b, c, r_mod());
    lemma_mul_mod_noop_general(a, b * c, r_mod());
    lemma_mul_is_associative(a, b, c);
}

/// Multiplication distributes over addition in the field.
pub proof fn lemma_fmul_distrib(a: int, b: int, c: int)
    ensures
        fmul(fadd(a, b), c) == fadd(fmul(a, c), fmul(b, c)),
{
    lemma_mul_mod_noop_general(a + b, c, r_mod());
    lemma_mul_is_distributive_add(c, a, b);
    assert((a + b) * c == a * c + b * c) by {
        lemma_mul_is_commutative(a + b, c);
        lemma_mul_is_commutative(a, c);
        lemma_mul_is_commutative(b, c);
    }
    lemma_add_mod_noop(a * c, b * c, r_mod());
}

/// Addition may be computed on reduced operands.
pub proof fn lemma_fadd_congruent(a: int, b: int)
    ensures
        fadd(a % r_mod(), b) == fadd(a, b),
        fadd(a, b % r_mod()) == fadd(a, b),
{
    lemma_add_mod_noop(a, b, r_mod());
    lemma_mod_twice(a, r_mod());
    lemma_mod_twice(b, r_mod());
    lemma_add_mod_noop(a % r_mod(), b, r_mod());
    lemma_add_mod_noop(a, b % r_mod(), r_mod());
}

/// Stepping a running power: multiplying by the base once more raises the
/// exponent by one.
pub proof fn lemma_fpow_step(b: int, e: nat)
    ensures
        fmul(b, fpow(b, e)) == fpow(b, (e + 1) as nat),
{
    assert(pow(b, (e + 1) as nat) == pow(b, e) * b) by {
        reveal_with_fuel(pow, 1);
        lemma_pow_adds(b, e, 1);
        reveal_with_fuel(pow, 2);
    }
    lemma_fmul_congruent(b, pow(b, e));
    lemma_mul_is_commutative(b, pow(b, e));
}

/// Powers of a product split into products of powers, all in the field.
pub proof fn lemma_fpow_of_fmul(s: int, t: int, e: nat)
    ensures
        fpow(fmul(s, t), e) == fmul(fpow(s, e), fpow(t, e)),
{
    lemma_pow_mod_noop(s * t, e, r_mod());
    lemma_pow_distributes(s, t, e);
    lemma_mul_mod_noop_general(pow(s, e), pow(t, e), r_mod());
}

/// The integer a byte sequence denotes when read big-endian.
pub open spec fn be_val(s: Seq<u8>) -> int
    decreases s.len(),
{
    if s.len() == 0 {
        0
    } else {
        be_val(s.drop_last()) * 256 + s.last()
    }
}

/// The `len`-byte big-endian encoding of an integer (of its residue
/// modulo `256^len`).
pub open spec fn be_bytes(n: int, len: nat) -> Seq<u8>
    decreases len,
{
    if len == 0 {
        Seq::empty()
    } else {
        be_bytes(n / 256, (len - 1) as nat).push((n % 256) as u8)
    }
}

pub proof fn lemma_be_bytes_len(n: int, len: nat)
    ensures
        be_bytes(n, len).len() == len,
    decreases len,
{
    if len > 0 {
        lemma_be_bytes_len(n / 256, (len - 1) as nat);
    }
}

/// Reading back the big-endian encoding of a nonnegative integer below
/// `256^len` recovers it.
pub proof fn lemma_be_bytes_val(n: int, len: nat)
    requires
        0 <= n < pow(256, len),
    ensures
        be_val(be_bytes(n, len)) == n,
    decreases len,
{
    if len == 0 {
        reveal_with_fuel(pow, 1);
    } else {
        let prefix = be_bytes(n / 256, (len - 1) as nat);
        lemma_be_bytes_len(n / 256, (len - 1) as nat);
        assert(be_bytes(n, len).drop_last() =~= prefix);
        assert(0 <= n / 256 < pow(256, (len - 1) as nat)) by {
            reveal_with_fuel(pow, 1);
            assert(pow(256, len) == 256 * pow(256, (len - 1) as nat));
            vstd::arithmetic::div_mod::lemma_div_pos_is_pos(n, 256);
            vstd::arithmetic::div_mod::lemma_multiply_divide_lt(n, 256, pow(256, (len - 1) as nat));
        }
        lemma_be_bytes_val(n / 256, (len - 1) as nat);
        assert(0 <= n % 256 < 256) by {
            lemma_mod_bound(n, 256);
        }
        assert(be_val(be_bytes(n, len)) == (n / 256) * 256 + n % 256);
        vstd::arithmetic::div_mod::lemma_fundamental_div_mod(n, 256);
        assert((n / 256) * 256 == 256 * (n / 256)) by {
            lemma_mul_is_commutative(n / 256, 256);
        }
    }
}

/// The verification equation of the discrete-log proof holds for an honest
/// transcript: committing with randomness `z`, responding with `z + c*t`,
/// and exponentiating the base by `t` satisfies the verifier's check for
/// every challenge `c`.
pub proof fn lemma_schnorr_complete(d: int, t: int, z: int, c: int)
    ensures
        fmul(d, fadd(z, fmul(c, t))) == fadd(fmul(fmul(d, t), c), fmul(d, z)),
{
    // Left side: d * (z + c*t) reduced.
    assert(fmul(d, fadd(z, fmul(c, t))) == (d * z + d * (c * t)) % r_mod()) by {
        lemma_fmul_congruent(d, z + (c * t) % r_mod());
        lemma_fadd_congruent(z, c * t);
        lemma_fmul_congruent(d, z + c * t);
        lemma_mul_is_distributive_add(d, z, c * t);
    }
    // Right side: (d*t)*c + d*z reduced.
    assert(fadd(fmul(fmul(d, t), c), fmul(d, z)) == (d * t * c + d * z) % r_mod()) by {
        lemma_mul_mod_noop_general(d * t, c, r_mod());
        lemma_add_mod_noop(d * t * c, d * z, r_mod());
        lemma_mod_twice(d * t * c, r_mod());
        lemma_mod_twice(d * z, r_mod());
        lemma_add_mod_noop((d * t * c) % r_mod(), d * z, r_mod());
        lemma_add_mod_noop(d * t * c, (d * z) % r_mod(), r_mod());
    }
    assert(d * z + d * (c * t) == d * t * c + d * z) by (nonlinear_arith);
}

/// Adding `r - 1` times a canonical residue is subtracting it: the sum
/// vanishes exactly when the two residues are equal. This is the basis
/// of the product-of-pairings reformulation, which multiplies by the
/// pairing of the negated generator instead of comparing two pairings.
pub proof fn lemma_neg_cancel_iff(a: int, b: int)
    requires
        in_field(a),
        in_field(b),
    ensures
        fadd(a, fmul(b, r_mod() - 1)) == 0 <==> a == b,
{
    lemma_fadd_congruent(a, b * (r_mod() - 1));
    assert(a + b * (r_mod() - 1) == (a - b) + b * r_mod()) by (nonlinear_arith);
    assert(fadd(a, fmul(b, r_mod() - 1)) == ((a - b) + b * r_mod()) % r_mod());
    assert(((a - b) + b * r_mod()) % r_mod() == (a - b) % r_mod()) by {
        lemma_mod_multiples_basic(b, r_mod());
        lemma_add_mod_noop(a - b, b * r_mod(), r_mod());
        lemma_mod_twice(a - b, r_mod());
    }
    if a == b {
        lemma_small_mod(0nat, r_mod() as nat);
    } else if a > b {
        lemma_small_mod((a - b) as nat, r_mod() as nat);
    } else {
        vstd::arithmetic::div_mod::lemma_fundamental_div_mod_converse_mod(
            a - b,
            r_mod(),
            -1,
            a - b + r_mod(),
        );
    }
}

} // verus!
