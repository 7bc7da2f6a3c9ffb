//! Trusted bindings to the BN254 pairing library.
//!
//! Each group or field value of the outside library is carried in an opaque
//! struct of this crate (the library's generic point and field types cannot
//! be declared to the verifier, their generics being bound by the library's
//! own traits). The model gives every group element a discrete logarithm
//! with respect to its group's fixed generator, an integer residue in the
//! scalar field. Group operations are stated as scalar-field arithmetic on
//! those logarithms, which holds of points that lie on their curve and in
//! the prime-order subgroup (`g1_wfp`, `g2_wfp`); BN254's first group has
//! cofactor one, so there the subgroup check excludes nothing beyond the
//! curve check. Affine coordinates appear only where the codec needs them,
//! as residues modulo the base-field prime.

use vstd::prelude::*;
use crate::field::{fadd, fmul, r_mod, q_mod};
use ark_bn254::{Bn254, Fq, Fq12, Fr, G1Affine, G1Projective, G2Affine, G2Projective};
use ark_ec::{AffineCurve, PairingEngine, ProjectiveCurve};
use ark_ff::{BigInteger, One, PrimeField, Zero};

verus! {

/// An element of the scalar field.
#[verifier::external_body]
pub struct Scalar {
    pub(crate) inner: Fr,
}

/// An element of the base field: an affine coordinate of a curve point.
#[verifier::external_body]
pub struct BaseFieldElement {
    pub(crate) inner: Fq,
}

/// A point of the first group, in the projective representation the
/// library favours for repeated scalar multiplication.
#[verifier::external_body]
pub struct FirstGroupElement {
    pub(crate) inner: G1Projective,
}

/// A point of the second group, on the twist curve over the quadratic
/// extension field.
#[verifier::external_body]
pub struct SecondGroupElement {
    pub(crate) inner: G2Projective,
}

/// An element of the pairing's target group.
#[verifier::external_body]
pub struct TargetElement {
    pub(crate) inner: Fq12,
}

/// The residue a scalar-field element holds, in `[0, r)`.
pub uninterp spec fn fr_val(x: Scalar) -> int;

/// The residue a base-field element holds, in `[0, q)`.
pub uninterp spec fn fq_val(x: BaseFieldElement) -> int;

/// Discrete logarithm of a first-group point with respect to the fixed
/// generator of the first group.
pub uninterp spec fn g1_log(p: FirstGroupElement) -> int;

/// Discrete logarithm of a second-group point with respect to the fixed
/// generator of the second group.
pub uninterp spec fn g2_log(p: SecondGroupElement) -> int;

/// Discrete logarithm of a target-group element with respect to the
/// pairing of the two generators.
pub uninterp spec fn gt_log(x: TargetElement) -> int;

/// Whether a first-group point lies on its curve.
pub uninterp spec fn g1_on_curve(p: FirstGroupElement) -> bool;

/// Whether a first-group point lies in the prime-order subgroup, granted
/// it lies on the curve.
pub uninterp spec fn g1_in_subgroup(p: FirstGroupElement) -> bool;

/// Whether a second-group point lies on the twist curve.
pub uninterp spec fn g2_on_curve(p: SecondGroupElement) -> bool;

/// Whether a second-group point lies in the prime-order subgroup, granted
/// it lies on the curve.
pub uninterp spec fn g2_in_subgroup(p: SecondGroupElement) -> bool;

/// Whether a target-group element lies in the subgroup of pairing values.
pub uninterp spec fn gt_in_subgroup(x: TargetElement) -> bool;

/// Whether a first-group point is the group identity.
pub uninterp spec fn g1_ident(p: FirstGroupElement) -> bool;

/// Whether a second-group point is the group identity.
pub uninterp spec fn g2_ident(p: SecondGroupElement) -> bool;

/// Affine x-coordinate of a first-group point, as a base-field residue.
pub uninterp spec fn g1_x(p: FirstGroupElement) -> int;

/// Affine y-coordinate of a first-group point, as a base-field residue.
pub uninterp spec fn g1_y(p: FirstGroupElement) -> int;

/// Real part of the affine x-coordinate of a second-group point.
pub uninterp spec fn g2_x0(p: SecondGroupElement) -> int;

/// Imaginary part of the affine x-coordinate of a second-group point.
pub uninterp spec fn g2_x1(p: SecondGroupElement) -> int;

/// Real part of the affine y-coordinate of a second-group point.
pub uninterp spec fn g2_y0(p: SecondGroupElement) -> int;

/// Imaginary part of the affine y-coordinate of a second-group point.
pub uninterp spec fn g2_y1(p: SecondGroupElement) -> int;

/// The first-group point with the given affine coordinates.
pub uninterp spec fn g1_of(x: int, y: int) -> FirstGroupElement;

/// The second-group point with the given affine coordinates, each
/// extension-field coordinate split into real and imaginary residues.
pub uninterp spec fn g2_of(x0: int, x1: int, y0: int, y1: int) -> SecondGroupElement;

/// A well-formed first-group point: on the curve and in the prime-order
/// subgroup, so that its discrete logarithm determines it.
pub open spec fn g1_wfp(p: FirstGroupElement) -> bool {
    g1_on_curve(p) && g1_in_subgroup(p)
}

/// A well-formed second-group point.
pub open spec fn g2_wfp(p: SecondGroupElement) -> bool {
    g2_on_curve(p) && g2_in_subgroup(p)
}

/// Every point of a first-group sequence is well-formed.
pub open spec fn g1_all_wf(v: Seq<FirstGroupElement>) -> bool {
    forall|i: int| 0 <= i < v.len() ==> g1_wfp(#[trigger] v[i])
}

/// Every point of a second-group sequence is well-formed.
pub open spec fn g2_all_wf(v: Seq<SecondGroupElement>) -> bool {
    forall|i: int| 0 <= i < v.len() ==> g2_wfp(#[trigger] v[i])
}

/// The discrete logarithms of a first-group sequence, element by element.
pub open spec fn g1_logs(v: Seq<FirstGroupElement>) -> Seq<int> {
    v.map(|_i: int, p: FirstGroupElement| g1_log(p))
}

/// Relies on the scalar being plain data: a copy of it.
#[verifier::external_body]
pub(crate) fn fr_clone(x: &Scalar) -> (r: Scalar)
    ensures
        r == *x,
{
    Scalar { inner: x.inner }
}

/// Relies on ark_bn254's fixed generator of the first group: well-formed,
/// not the identity, and of discrete logarithm one by definition.
#[verifier::external_body]
pub fn g1_generator() -> (r: FirstGroupElement)
    ensures
        g1_wfp(r),
        g1_log(r) == 1,
        !g1_ident(r),
{
    FirstGroupElement { inner: G1Affine::prime_subgroup_generator().into_projective() }
}

/// Relies on ark_bn254's fixed generator of the second group.
#[verifier::external_body]
pub fn g2_generator() -> (r: SecondGroupElement)
    ensures
        g2_wfp(r),
        g2_log(r) == 1,
        !g2_ident(r),
{
    SecondGroupElement { inner: G2Affine::prime_subgroup_generator().into_projective() }
}

/// Relies on Zero::zero: the identity of the first group, of discrete
/// logarithm zero.
#[verifier::external_body]
pub fn g1_identity() -> (r: FirstGroupElement)
    ensures
        g1_wfp(r),
        g1_ident(r),
        g1_log(r) == 0,
{
    FirstGroupElement { inner: G1Projective::zero() }
}

/// Relies on Zero::zero for the second group.
#[verifier::external_body]
pub fn g2_identity() -> (r: SecondGroupElement)
    ensures
        g2_wfp(r),
        g2_ident(r),
        g2_log(r) == 0,
{
    SecondGroupElement { inner: G2Projective::zero() }
}

/// Relies on the library's negation of the affine y-coordinate: the
/// inverse of the second-group generator, of discrete logarithm `r - 1`.
#[verifier::external_body]
pub(crate) fn g2_generator_neg() -> (r: SecondGroupElement)
    ensures
        g2_wfp(r),
        g2_log(r) == r_mod() - 1,
{
    let g = G2Affine::prime_subgroup_generator();
    SecondGroupElement { inner: G2Affine::new(g.x, -g.y, false).into_projective() }
}

/// Relies on ProjectiveCurve::mul by the canonical representation of the
/// scalar: it multiplies the discrete logarithm in the scalar field and
/// stays in the subgroup.
#[verifier::external_body]
pub fn g1_mul(p: &FirstGroupElement, s: &Scalar) -> (r: FirstGroupElement)
    ensures
        g1_wfp(*p) ==> g1_wfp(r) && g1_log(r) == fmul(g1_log(*p), fr_val(*s)),
{
    FirstGroupElement { inner: p.inner.mul(s.inner.into_repr()) }
}

/// Relies on ProjectiveCurve::mul for the second group.
#[verifier::external_body]
pub fn g2_mul(p: &SecondGroupElement, s: &Scalar) -> (r: SecondGroupElement)
    ensures
        g2_wfp(*p) ==> g2_wfp(r) && g2_log(r) == fmul(g2_log(*p), fr_val(*s)),
{
    SecondGroupElement { inner: p.inner.mul(s.inner.into_repr()) }
}

/// Relies on the group law: addition of points adds discrete logarithms.
#[verifier::external_body]
pub fn g1_add(a: &FirstGroupElement, b: &FirstGroupElement) -> (r: FirstGroupElement)
    ensures
        g1_wfp(*a) && g1_wfp(*b) ==> g1_wfp(r) && g1_log(r) == fadd(g1_log(*a), g1_log(*b)),
{
    FirstGroupElement { inner: a.inner + b.inner }
}

/// Relies on the library's point equality, which compares the represented
/// affine points; on subgroup points it coincides with equality of
/// discrete logarithms.
#[verifier::external_body]
pub fn g1_eq(a: &FirstGroupElement, b: &FirstGroupElement) -> (r: bool)
    ensures
        r == (*a == *b),
        g1_wfp(*a) && g1_wfp(*b) ==> (r <==> g1_log(*a) == g1_log(*b)),
{
    a.inner == b.inner
}

/// Relies on the library's point equality for the second group.
#[verifier::external_body]
pub fn g2_eq(a: &SecondGroupElement, b: &SecondGroupElement) -> (r: bool)
    ensures
        r == (*a == *b),
        g2_wfp(*a) && g2_wfp(*b) ==> (r <==> g2_log(*a) == g2_log(*b)),
{
    a.inner == b.inner
}

/// Relies on Zero::is_zero: detects the identity, the point of discrete
/// logarithm zero.
#[verifier::external_body]
pub(crate) fn g1_is_zero(p: &FirstGroupElement) -> (r: bool)
    ensures
        r == g1_ident(*p),
        g1_wfp(*p) ==> (r <==> g1_log(*p) == 0),
{
    p.inner.is_zero()
}

/// Relies on GroupAffine::is_on_curve, applied to the affine form.
#[verifier::external_body]
pub(crate) fn g1_check_on_curve(p: &FirstGroupElement) -> (r: bool)
    ensures
        r == g1_on_curve(*p),
{
    p.inner.into_affine().is_on_curve()
}

/// Relies on GroupAffine::is_in_correct_subgroup_assuming_on_curve.
#[verifier::external_body]
pub(crate) fn g1_check_subgroup(p: &FirstGroupElement) -> (r: bool)
    ensures
        r == g1_in_subgroup(*p),
{
    p.inner.into_affine().is_in_correct_subgroup_assuming_on_curve()
}

/// Relies on GroupAffine::is_on_curve for the twist curve.
#[verifier::external_body]
pub(crate) fn g2_check_on_curve(p: &SecondGroupElement) -> (r: bool)
    ensures
        r == g2_on_curve(*p),
{
    p.inner.into_affine().is_on_curve()
}

/// Relies on GroupAffine::is_in_correct_subgroup_assuming_on_curve for the
/// second group, where the cofactor is nontrivial.
#[verifier::external_body]
pub(crate) fn g2_check_subgroup(p: &SecondGroupElement) -> (r: bool)
    ensures
        r == g2_in_subgroup(*p),
{
    p.inner.into_affine().is_in_correct_subgroup_assuming_on_curve()
}

/// Relies on ProjectiveCurve::into_affine: the affine coordinates of a
/// point. A point other than the identity is determined by them; the
/// library represents the identity by the affine pair `(0, 1)`.
#[verifier::external_body]
pub(crate) fn g1_coords(p: &FirstGroupElement) -> (r: (BaseFieldElement, BaseFieldElement))
    ensures
        fq_val(r.0) == g1_x(*p) && fq_val(r.1) == g1_y(*p),
        0 <= fq_val(r.0) < q_mod() && 0 <= fq_val(r.1) < q_mod(),
        !g1_ident(*p) ==> *p == g1_of(fq_val(r.0), fq_val(r.1)),
        g1_ident(*p) ==> fq_val(r.0) == 0 && fq_val(r.1) == 1,
{
    let a = p.inner.into_affine();
    (BaseFieldElement { inner: a.x }, BaseFieldElement { inner: a.y })
}

/// Relies on ProjectiveCurve::into_affine for the second group; the
/// extension-field coordinates are handed out as
/// `(x real, x imaginary, y real, y imaginary)`.
#[verifier::external_body]
pub(crate) fn g2_coords(p: &SecondGroupElement) -> (r: (
    BaseFieldElement,
    BaseFieldElement,
    BaseFieldElement,
    BaseFieldElement,
))
    ensures
        fq_val(r.0) == g2_x0(*p) && fq_val(r.1) == g2_x1(*p),
        fq_val(r.2) == g2_y0(*p) && fq_val(r.3) == g2_y1(*p),
        0 <= fq_val(r.0) < q_mod() && 0 <= fq_val(r.1) < q_mod(),
        0 <= fq_val(r.2) < q_mod() && 0 <= fq_val(r.3) < q_mod(),
        !g2_ident(*p) ==> *p == g2_of(fq_val(r.0), fq_val(r.1), fq_val(r.2), fq_val(r.3)),
{
    let a = p.inner.into_affine();
    (
        BaseFieldElement { inner: a.x.c0 },
        BaseFieldElement { inner: a.x.c1 },
        BaseFieldElement { inner: a.y.c0 },
        BaseFieldElement { inner: a.y.c1 },
    )
}

/// Relies on GroupAffine::new without membership checks, as the codec
/// demands: the point with the given affine coordinates, on the curve or
/// not.
#[verifier::external_body]
pub(crate) fn g1_from_coords(x: &BaseFieldElement, y: &BaseFieldElement) -> (r:
    FirstGroupElement)
    ensures
        r == g1_of(fq_val(*x), fq_val(*y)),
{
    FirstGroupElement { inner: G1Affine::new(x.inner, y.inner, false).into_projective() }
}

/// Relies on GroupAffine::new for the twist curve, the extension-field
/// coordinates assembled from `(x real, x imaginary, y real, y imaginary)`.
#[verifier::external_body]
pub(crate) fn g2_from_coords(
    x0: &BaseFieldElement,
    x1: &BaseFieldElement,
    y0: &BaseFieldElement,
    y1: &BaseFieldElement,
) -> (r: SecondGroupElement)
    ensures
        r == g2_of(fq_val(*x0), fq_val(*x1), fq_val(*y0), fq_val(*y1)),
{
    let x = ark_bn254::Fq2::new(x0.inner, x1.inner);
    let y = ark_bn254::Fq2::new(y0.inner, y1.inner);
    SecondGroupElement { inner: G2Affine::new(x, y, false).into_projective() }
}

/// Relies on UniformRand over the thread-local cryptographic generator: a
/// scalar-field element; nothing is promised of it beyond its range.
#[verifier::external_body]
pub fn fr_rand() -> (r: Scalar)
    ensures
        0 <= fr_val(r) < r_mod(),
{
    let rng = &mut ark_std::rand::thread_rng();
    Scalar { inner: ark_std::UniformRand::rand(rng) }
}

/// Relies on scalar-field addition.
#[verifier::external_body]
pub(crate) fn fr_add(a: &Scalar, b: &Scalar) -> (r: Scalar)
    ensures
        fr_val(r) == fadd(fr_val(*a), fr_val(*b)),
{
    Scalar { inner: a.inner + b.inner }
}

/// Relies on scalar-field multiplication.
#[verifier::external_body]
pub(crate) fn fr_mul(a: &Scalar, b: &Scalar) -> (r: Scalar)
    ensures
        fr_val(r) == fmul(fr_val(*a), fr_val(*b)),
{
    Scalar { inner: a.inner * b.inner }
}

/// Relies on PrimeField::from_be_bytes_mod_order: the bytes read as a
/// big-endian integer, reduced modulo the scalar-field prime.
#[verifier::external_body]
pub(crate) fn fr_from_be_bytes(b: &[u8]) -> (r: Scalar)
    ensures
        fr_val(r) == crate::field::be_val(b@) % r_mod(),
        0 <= fr_val(r) < r_mod(),
{
    Scalar { inner: Fr::from_be_bytes_mod_order(b) }
}

/// Relies on PrimeField::from_be_bytes_mod_order for the base field.
#[verifier::external_body]
pub(crate) fn fq_from_be_bytes(b: &[u8]) -> (r: BaseFieldElement)
    ensures
        fq_val(r) == crate::field::be_val(b@) % q_mod(),
        0 <= fq_val(r) < q_mod(),
{
    BaseFieldElement { inner: Fq::from_be_bytes_mod_order(b) }
}

/// Relies on into_repr/to_bytes_be: the canonical big-endian bytes of
/// the residue, thirty-two of them with leading zeros.
#[verifier::external_body]
pub(crate) fn fq_to_be_bytes(x: &BaseFieldElement) -> (r: Vec<u8>)
    ensures
        r@ == crate::field::be_bytes(fq_val(*x), 32),
        r@.len() == 32,
{
    x.inner.into_repr().to_bytes_be()
}

/// Relies on into_repr/to_bytes_be for the scalar field.
#[verifier::external_body]
pub(crate) fn fr_to_be_bytes(x: &Scalar) -> (r: Vec<u8>)
    ensures
        r@ == crate::field::be_bytes(fr_val(*x), 32),
        r@.len() == 32,
{
    x.inner.into_repr().to_bytes_be()
}

/// Relies on the bilinearity of Bn254::pairing: the discrete logarithm of
/// the output, with respect to the pairing of the two generators, is the
/// product of the inputs' discrete logarithms. Well-formed inputs are
/// demanded: the library's final exponentiation unwraps an inverse that
/// can be absent when an off-curve point drives the Miller value to
/// zero, so only checked points may be paired.
#[verifier::external_body]
pub(crate) fn pairing(p: &FirstGroupElement, q: &SecondGroupElement) -> (r: TargetElement)
    requires
        g1_wfp(*p),
        g2_wfp(*q),
    ensures
        gt_in_subgroup(r) && gt_log(r) == fmul(g1_log(*p), g2_log(*q)),
{
    TargetElement { inner: Bn254::pairing(p.inner, q.inner) }
}

/// Relies on target-group multiplication: it adds discrete logarithms.
#[verifier::external_body]
pub(crate) fn gt_mul(a: &TargetElement, b: &TargetElement) -> (r: TargetElement)
    ensures
        gt_in_subgroup(*a) && gt_in_subgroup(*b) ==> gt_in_subgroup(r) && gt_log(r) == fadd(
            gt_log(*a),
            gt_log(*b),
        ),
{
    TargetElement { inner: a.inner * b.inner }
}

/// Relies on field equality in the target group; on subgroup elements it
/// coincides with equality of discrete logarithms, the pairing being
/// non-degenerate.
#[verifier::external_body]
pub(crate) fn gt_eq(a: &TargetElement, b: &TargetElement) -> (r: bool)
    ensures
        r == (*a == *b),
        gt_in_subgroup(*a) && gt_in_subgroup(*b) ==> (r <==> gt_log(*a) == gt_log(*b)),
{
    a.inner == b.inner
}

/// Relies on One::one: the target group's identity, of discrete logarithm
/// zero.
#[verifier::external_body]
pub(crate) fn gt_one() -> (r: TargetElement)
    ensures
        gt_in_subgroup(r),
        gt_log(r) == 0,
{
    TargetElement { inner: Fq12::one() }
}

/// The explicit membership check for untrusted first-group points, the
/// codec's decoder leaving it to its callers: on the curve and in the
/// prime-order subgroup.
pub fn g1_is_valid(p: &FirstGroupElement) -> (r: bool)
    ensures
        r == g1_wfp(*p),
{
    g1_check_on_curve(p) && g1_check_subgroup(p)
}

/// The explicit membership check for untrusted second-group points.
pub fn g2_is_valid(p: &SecondGroupElement) -> (r: bool)
    ensures
        r == g2_wfp(*p),
{
    g2_check_on_curve(p) && g2_check_subgroup(p)
}

/// A uniformly random first-group point, as the generator raised to a
/// fresh random scalar.
pub fn rand_g1() -> (r: FirstGroupElement)
    ensures
        g1_wfp(r),
{
    let tau = fr_rand();
    let gen = g1_generator();
    g1_mul(&gen, &tau)
}

} // verus!
