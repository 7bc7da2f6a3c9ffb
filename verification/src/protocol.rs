//! The update-and-proof protocol: deriving a new power sequence from a
//! freshly sampled secret, the Fiat-Shamir proof of correct
//! exponentiation, and its verification by a discrete-log consistency
//! check and a batched pairing check.
//!
//! Contracts are stated over the discrete logarithms of the points
//! involved. A parameter set is consistent with a cumulative secret `s`
//! when its element at index `i` is the generator raised to the
//! `(i+1)`-th power of `s` (`params_consistent`); an update by a fresh
//! secret `t` carries a set consistent with `s` to one consistent with
//! `s * t`, and the proof it emits passes verification — the lemmas at
//! the end of this module state exactly that.

use vstd::prelude::*;
use crate::codec::{keccak_of, ser_g1, serialize_g1, keccak256};
use crate::curve::{
    fr_add, fr_clone, fr_from_be_bytes, fr_mul, fr_rand, fr_val, g1_add, g1_all_wf, g1_check_on_curve,
    g1_check_subgroup, g1_eq, g1_generator, g1_ident, g1_is_zero, g1_log, g1_logs, g1_mul,
    g1_is_valid, g1_wfp, g2_all_wf, g2_check_on_curve, g2_check_subgroup, g2_generator,
    g2_generator_neg, g2_is_valid,
    g2_log, g2_mul, g2_wfp, gt_eq, gt_mul, gt_one, pairing,
    FirstGroupElement, Scalar, SecondGroupElement,
};
use crate::field::{
    be_val, fadd, fmul, fpow, in_field, lemma_neg_cancel_iff,
    lemma_fadd_in_field, lemma_field_id, lemma_fmul_assoc, lemma_fmul_comm,
    lemma_fmul_congruent, lemma_fmul_distrib, lemma_fmul_in_field, lemma_fpow_of_fmul,
    lemma_fpow_of_one, lemma_fpow_one, lemma_fpow_step, lemma_schnorr_complete, r_mod,
};
use vstd::array::array_as_slice;

verus! {

/// A contribution to the ceremony: the updated power sequences together
/// with the discrete-log proof that they were derived from the previous
/// ones by a single secret exponent.
pub struct Proof {
    /// The updated first-group sequence.
    pub g1s: Vec<FirstGroupElement>,
    /// The updated second-group sequence.
    pub g2s: Vec<SecondGroupElement>,
    /// The commitment to the hiding randomness.
    pub pi1: FirstGroupElement,
    /// The response scalar binding the commitment to the secret.
    pub pi2: Scalar,
}

/// Rejections of a claimed update.
#[derive(Debug, PartialEq, Eq, Clone, Copy)]
pub enum VerificationError {
    /// A claimed point fails the on-curve or subgroup-order check.
    CurveMembershipError,
    /// The discrete-log consistency equation does not hold.
    DiscreteLogMismatch,
    /// The batched pairing equation does not hold for the drawn
    /// combination.
    PairingCheckFailed,
    /// The first updated element is the group identity.
    DegenerateProof,
}

/// Fatal internal failures of the updater.
#[derive(Debug, PartialEq, Eq, Clone, Copy)]
pub enum UpdateError {
    /// A locally derived point failed its own curve or subgroup check,
    /// which breaks a curve-library invariant.
    InternalConsistency,
}

/// The challenge scalar of the Fiat-Shamir transform: the digest of the
/// three points' encodings, read big-endian and reduced into the scalar
/// field. Both prover and verifier compute it; none transmits it.
pub open spec fn challenge_val(
    prev: FirstGroupElement,
    curr: FirstGroupElement,
    comm: FirstGroupElement,
) -> int {
    be_val(keccak_of(ser_g1(prev) + ser_g1(curr) + ser_g1(comm))) % r_mod()
}

/// Hash the encodings of the previous first element, the updated first
/// element and the commitment: the transcript digest from which the
/// challenge is derived. Deterministic: the result is a function of the
/// three points alone.
pub fn hash_randomness(
    prev_g1: &FirstGroupElement,
    curr_g1: &FirstGroupElement,
    pi1: &FirstGroupElement,
) -> (r: [u8; 32])
    ensures
        r@ == keccak_of(ser_g1(*prev_g1) + ser_g1(*curr_g1) + ser_g1(*pi1)),
{
    let mut concat = serialize_g1(prev_g1);
    let mut mid = serialize_g1(curr_g1);
    let mut tail = serialize_g1(pi1);
    concat.append(&mut mid);
    concat.append(&mut tail);
    keccak256(concat.as_slice())
}

/// The challenge as a scalar.
fn challenge_scalar(
    prev: &FirstGroupElement,
    curr: &FirstGroupElement,
    comm: &FirstGroupElement,
) -> (r: Scalar)
    ensures
        fr_val(r) == challenge_val(*prev, *curr, *comm),
        0 <= fr_val(r) < r_mod(),
{
    let h = hash_randomness(prev, curr, comm);
    fr_from_be_bytes(array_as_slice(&h))
}

/// The parameter set at ceremony genesis: every element is its group's
/// generator, the zeroth power sequence of the empty secret product.
pub fn init_params(num_g1: usize, num_g2: usize) -> (r: (
    Vec<FirstGroupElement>,
    Vec<SecondGroupElement>,
))
    ensures
        r.0@.len() == num_g1,
        r.1@.len() == num_g2,
        forall|i: int|
            0 <= i < num_g1 ==> g1_wfp(#[trigger] r.0@[i]) && g1_log(r.0@[i]) == 1 && !g1_ident(
                r.0@[i],
            ),
        forall|i: int|
            0 <= i < num_g2 ==> g2_wfp(#[trigger] r.1@[i]) && g2_log(r.1@[i]) == 1,
{
    let mut g1s: Vec<FirstGroupElement> = Vec::with_capacity(num_g1);
    let mut g2s: Vec<SecondGroupElement> = Vec::with_capacity(num_g2);
    while g1s.len() < num_g1
        invariant
            g1s@.len() <= num_g1,
            forall|i: int|
                0 <= i < g1s@.len() ==> g1_wfp(#[trigger] g1s@[i]) && g1_log(g1s@[i]) == 1
                    && !g1_ident(g1s@[i]),
        decreases num_g1 - g1s@.len(),
    {
        g1s.push(g1_generator());
    }
    while g2s.len() < num_g2
        invariant
            g2s@.len() <= num_g2,
            forall|i: int|
                0 <= i < g2s@.len() ==> g2_wfp(#[trigger] g2s@[i]) && g2_log(g2s@[i]) == 1,
        decreases num_g2 - g2s@.len(),
    {
        g2s.push(g2_generator());
    }
    (g1s, g2s)
}

/// What an update by secret `t` with hiding randomness `z` does: each
/// element is raised to the running power of `t`, the commitment is the
/// previous first element raised to `z`, and the response answers the
/// challenge on the transcript. The clauses about discrete logarithms of
/// the updated elements hold whenever the previous elements were
/// well-formed; the updated elements are well-formed in any case, the
/// updater having checked each.
pub open spec fn update_rel(
    prev_g1s: Seq<FirstGroupElement>,
    prev_g2s: Seq<SecondGroupElement>,
    p: Proof,
    t: int,
    z: int,
) -> bool {
    &&& p.g1s@.len() == prev_g1s.len()
    &&& p.g2s@.len() == prev_g2s.len()
    &&& g1_all_wf(p.g1s@)
    &&& g2_all_wf(p.g2s@)
    &&& g1_wfp(p.pi1)
    &&& (g1_all_wf(prev_g1s) ==> forall|i: int|
        0 <= i < prev_g1s.len() ==> g1_log(#[trigger] p.g1s@[i]) == fmul(
            g1_log(prev_g1s[i]),
            fpow(t, (i + 1) as nat),
        ))
    &&& (g2_all_wf(prev_g2s) ==> forall|i: int|
        0 <= i < prev_g2s.len() ==> g2_log(#[trigger] p.g2s@[i]) == fmul(
            g2_log(prev_g2s[i]),
            fpow(t, (i + 1) as nat),
        ))
    &&& (g1_wfp(prev_g1s[0]) ==> g1_log(p.pi1) == fmul(g1_log(prev_g1s[0]), z))
    &&& fr_val(p.pi2) == fadd(z, fmul(challenge_val(prev_g1s[0], p.g1s@[0], p.pi1), t))
}

/// Derive the updated parameter set and its proof from the given secret
/// exponent and hiding randomness. Each derived point is defensively
/// checked to lie on its curve and in its subgroup; a failure there
/// breaks a curve-library invariant and is returned as fatal. On
/// well-formed input the derivation never fails.
pub fn apply_update(
    prev_g1s: &[FirstGroupElement],
    prev_g2s: &[SecondGroupElement],
    tau: &Scalar,
    z: &Scalar,
) -> (r: Result<Proof, UpdateError>)
    requires
        prev_g1s@.len() >= 1,
        0 <= fr_val(*tau) < r_mod(),
    ensures
        g1_all_wf(prev_g1s@) && g2_all_wf(prev_g2s@) ==> r is Ok,
        r is Ok ==> update_rel(prev_g1s@, prev_g2s@, r.unwrap(), fr_val(*tau), fr_val(*z)),
{
    let ghost t = fr_val(*tau);
    let n1 = prev_g1s.len();
    let n2 = prev_g2s.len();
    let mut g1s: Vec<FirstGroupElement> = Vec::with_capacity(n1);
    let mut g2s: Vec<SecondGroupElement> = Vec::with_capacity(n2);

    let mut running = fr_clone(tau);
    proof {
        lemma_fpow_one(t);
        lemma_field_id(t);
    }
    let mut i: usize = 0;
    while i < n1
        invariant
            0 <= i <= n1,
            n1 == prev_g1s@.len(),
            g1s@.len() == i,
            0 <= fr_val(*tau) < r_mod(),
            t == fr_val(*tau),
            fr_val(running) == fpow(t, (i + 1) as nat),
            g1_all_wf(g1s@),
            g1_all_wf(prev_g1s@) ==> forall|j: int|
                0 <= j < i ==> g1_log(#[trigger] g1s@[j]) == fmul(
                    g1_log(prev_g1s@[j]),
                    fpow(t, (j + 1) as nat),
                ),
        decreases n1 - i,
    {
        let next = g1_mul(&prev_g1s[i], &running);
        if !g1_check_on_curve(&next) || !g1_check_subgroup(&next) {
            return Err(UpdateError::InternalConsistency);
        }
        g1s.push(next);
        running = fr_mul(tau, &running);
        proof {
            lemma_fpow_step(t, (i + 1) as nat);
        }
        i = i + 1;
    }

    let mut running2 = fr_clone(tau);
    proof {
        lemma_fpow_one(t);
        lemma_field_id(t);
    }
    let mut k: usize = 0;
    while k < n2
        invariant
            0 <= k <= n2,
            n2 == prev_g2s@.len(),
            g2s@.len() == k,
            0 <= fr_val(*tau) < r_mod(),
            t == fr_val(*tau),
            fr_val(running2) == fpow(t, (k + 1) as nat),
            g2_all_wf(g2s@),
            g2_all_wf(prev_g2s@) ==> forall|j: int|
                0 <= j < k ==> g2_log(#[trigger] g2s@[j]) == fmul(
                    g2_log(prev_g2s@[j]),
                    fpow(t, (j + 1) as nat),
                ),
        decreases n2 - k,
    {
        let next = g2_mul(&prev_g2s[k], &running2);
        if !g2_check_on_curve(&next) || !g2_check_subgroup(&next) {
            return Err(UpdateError::InternalConsistency);
        }
        g2s.push(next);
        running2 = fr_mul(tau, &running2);
        proof {
            lemma_fpow_step(t, (k + 1) as nat);
        }
        k = k + 1;
    }

    let pi1 = g1_mul(&prev_g1s[0], z);
    if !g1_check_on_curve(&pi1) || !g1_check_subgroup(&pi1) {
        return Err(UpdateError::InternalConsistency);
    }
    let c = challenge_scalar(&prev_g1s[0], &g1s[0], &pi1);
    let ct = fr_mul(&c, tau);
    let pi2 = fr_add(z, &ct);
    Ok(Proof { g1s, g2s, pi1, pi2 })
}

/// One contribution: sample a fresh secret exponent and hiding
/// randomness from the system's cryptographic source, derive the updated
/// sequences, and emit the proof. Both secrets are dropped when this
/// returns. On a well-formed previous set the update never fails.
pub fn run_update(
    init_g1s: &[FirstGroupElement],
    init_g2s: &[SecondGroupElement],
) -> (r: Result<Proof, UpdateError>)
    requires
        init_g1s@.len() >= 1,
    ensures
        g1_all_wf(init_g1s@) && g2_all_wf(init_g2s@) ==> r is Ok,
        r is Ok ==> exists|t: int, z: int|
            in_field(t) && in_field(z) && update_rel(init_g1s@, init_g2s@, r.unwrap(), t, z),
{
    let tau = fr_rand();
    let z = fr_rand();
    let r = apply_update(init_g1s, init_g2s, &tau, &z);
    proof {
        if r is Ok {
            assert(in_field(fr_val(tau)) && in_field(fr_val(z)) && update_rel(
                init_g1s@,
                init_g2s@,
                r.unwrap(),
                fr_val(tau),
                fr_val(z),
            ));
        }
    }
    r
}

/// The verification equation of the discrete-log proof of knowledge: the
/// previous first element raised to the response equals the updated
/// first element raised to the challenge, plus the commitment.
pub open spec fn schnorr_holds(
    prev0: FirstGroupElement,
    curr0: FirstGroupElement,
    pi1: FirstGroupElement,
    pi2: Scalar,
) -> bool {
    fmul(g1_log(prev0), fr_val(pi2)) == fadd(
        fmul(g1_log(curr0), challenge_val(prev0, curr0, pi1)),
        g1_log(pi1),
    )
}

/// The first `m` logarithms are the consecutive powers of `e`: element
/// `i` is the generator raised to `e^(i+1)`.
pub open spec fn chain_consistent(ds: Seq<int>, e: int, m: int) -> bool {
    forall|i: int| 0 <= i < m ==> ds[i] == fpow(e, (i + 1) as nat)
}

/// The points the verifier's contract speaks of: the claimed elements,
/// the first second-group element, the commitment and the previous first
/// element, all on their curves and in their subgroups.
pub open spec fn verify_inputs_wf(p: Proof, prev: Seq<FirstGroupElement>) -> bool {
    &&& g1_all_wf(p.g1s@)
    &&& g2_wfp(p.g2s@[0])
    &&& g1_wfp(p.pi1)
    &&& g1_wfp(prev[0])
}

/// The left combination of the batched check after `k` added terms: the
/// generator weighted by the first combiner, then element `i` weighted
/// by combiner `i+1`.
pub open spec fn lhs_fold(ds: Seq<int>, rhos: Seq<int>, k: int) -> int
    decreases k,
{
    if k <= 0 {
        fmul(1, rhos[0])
    } else {
        fadd(lhs_fold(ds, rhos, k - 1), fmul(ds[k - 1], rhos[k]))
    }
}

/// The right combination after `k` added terms: element `i` weighted by
/// combiner `i`, one index behind the left combination.
pub open spec fn rhs_fold(ds: Seq<int>, rhos: Seq<int>, k: int) -> int
    decreases k,
{
    if k <= 0 {
        fmul(ds[0], rhos[0])
    } else {
        fadd(rhs_fold(ds, rhos, k - 1), fmul(ds[k], rhos[k]))
    }
}

proof fn lemma_folds_in_field(ds: Seq<int>, rhos: Seq<int>, k: int)
    ensures
        in_field(lhs_fold(ds, rhos, k)),
        in_field(rhs_fold(ds, rhos, k)),
    decreases k,
{
    if k <= 0 {
        lemma_fmul_in_field(1, rhos[0]);
        lemma_fmul_in_field(ds[0], rhos[0]);
    } else {
        lemma_folds_in_field(ds, rhos, k - 1);
        lemma_fadd_in_field(lhs_fold(ds, rhos, k - 1), fmul(ds[k - 1], rhos[k]));
        lemma_fadd_in_field(rhs_fold(ds, rhos, k - 1), fmul(ds[k], rhos[k]));
    }
}

/// Completeness of the batched check: on a consistent chain the two
/// combinations agree after pairing, whatever combiners were drawn. The
/// index shift cancels because multiplying element `i` by `e` yields
/// element `i+1`.
proof fn lemma_batch_complete(ds: Seq<int>, rhos: Seq<int>, e: int, k: int)
    requires
        0 <= k,
        chain_consistent(ds, e, k + 1),
    ensures
        fmul(lhs_fold(ds, rhos, k), e) == rhs_fold(ds, rhos, k),
    decreases k,
{
    if k == 0 {
        lemma_fpow_one(e);
        assert(fmul(1, rhos[0]) == rhos[0] % r_mod());
        lemma_fmul_congruent(rhos[0], e);
        lemma_fmul_comm(rhos[0], e);
        lemma_fmul_congruent(e, rhos[0]);
    } else {
        lemma_batch_complete(ds, rhos, e, k - 1);
        lemma_fmul_distrib(lhs_fold(ds, rhos, k - 1), fmul(ds[k - 1], rhos[k]), e);
        lemma_fpow_step(e, k as nat);
        lemma_fmul_assoc(ds[k - 1], rhos[k], e);
        lemma_fmul_comm(rhos[k], e);
        lemma_fmul_assoc(ds[k - 1], e, rhos[k]);
        lemma_fmul_comm(ds[k - 1], e);
    }
}

/// The batched pairing check for one given draw of combiners: form the
/// left combination (the generator weighted by the first combiner, then
/// element `i` weighted by combiner `i+1`, stopping one short) and the
/// right combination (element `i` weighted by combiner `i`), pair them
/// against the claimed second-group element and the generator, and test
/// equality both directly and in the product-of-pairings form that the
/// on-chain primitive forces. Accepts exactly when the two combinations
/// agree after pairing, for the given combiners.
pub fn batch_pairing_check(
    g1s: &[FirstGroupElement],
    g2_first: &SecondGroupElement,
    rho: &[Scalar],
) -> (r: bool)
    requires
        g1s@.len() >= 2,
        rho@.len() == g1s@.len() - 1,
        g1_all_wf(g1s@),
        g2_wfp(*g2_first),
    ensures
        r <==> fmul(
            lhs_fold(g1_logs(g1s@), rho@.map(|_i: int, x: Scalar| fr_val(x)), g1s@.len() - 2),
            g2_log(*g2_first),
        ) == rhs_fold(g1_logs(g1s@), rho@.map(|_i: int, x: Scalar| fr_val(x)), g1s@.len() - 2),
{
    let ghost ds = g1_logs(g1s@);
    let ghost rv = rho@.map(|_i: int, x: Scalar| fr_val(x));
    let ghost e = g2_log(*g2_first);
    let n = g1s.len();

    let gen = g1_generator();
    let mut lhs_sum = g1_mul(&gen, &rho[0]);
    let mut i: usize = 0;
    while i < n - 2
        invariant
            0 <= i <= n - 2,
            n == g1s@.len(),
            n >= 2,
            rho@.len() == n - 1,
            rv == rho@.map(|_i: int, x: Scalar| fr_val(x)),
            ds == g1_logs(g1s@),
            g1_all_wf(g1s@),
            g1_wfp(lhs_sum) && g1_log(lhs_sum) == lhs_fold(ds, rv, i as int),
        decreases n - 2 - i,
    {
        let term = g1_mul(&g1s[i], &rho[i + 1]);
        lhs_sum = g1_add(&lhs_sum, &term);
        i = i + 1;
    }
    let pair_lhs = pairing(&lhs_sum, g2_first);

    let mut rhs_sum = g1_mul(&g1s[0], &rho[0]);
    let mut j: usize = 1;
    while j < n - 1
        invariant
            1 <= j <= n - 1,
            n == g1s@.len(),
            n >= 2,
            rho@.len() == n - 1,
            rv == rho@.map(|_i: int, x: Scalar| fr_val(x)),
            ds == g1_logs(g1s@),
            g1_all_wf(g1s@),
            g1_wfp(rhs_sum) && g1_log(rhs_sum) == rhs_fold(ds, rv, j - 1),
        decreases n - 1 - j,
    {
        let term = g1_mul(&g1s[j], &rho[j]);
        rhs_sum = g1_add(&rhs_sum, &term);
        j = j + 1;
    }
    let g2gen = g2_generator();
    let pair_rhs = pairing(&rhs_sum, &g2gen);
    let ok_direct = gt_eq(&pair_lhs, &pair_rhs);

    // The product-of-pairings reformulation the on-chain primitive
    // forces: multiply by the pairing against the negated generator and
    // compare with the identity. It agrees with the direct comparison.
    let g2neg = g2_generator_neg();
    let pair_neg = pairing(&rhs_sum, &g2neg);
    let prod = gt_mul(&pair_lhs, &pair_neg);
    let one = gt_one();
    let ok_product = gt_eq(&prod, &one);

    let ghost lv = lhs_fold(ds, rv, n - 2);
    let ghost rvv = rhs_fold(ds, rv, n - 2);
    proof {
        lemma_folds_in_field(ds, rv, n - 2);
        lemma_field_id(rvv);
        lemma_fmul_in_field(lv, e);
        lemma_neg_cancel_iff(fmul(lv, e), rvv);
    }
    ok_direct && ok_product
}

/// Check a claimed update against the previous first-group sequence:
/// non-degeneracy of the first element, curve and subgroup membership of
/// every claimed point, the discrete-log consistency equation, and the
/// batched pairing equation over freshly drawn combiners. All must pass.
///
/// The contract: an identity first element is rejected as
/// `DegenerateProof` whatever the other fields hold; after that,
/// `CurveMembershipError` comes exactly when a claimed point fails its
/// membership check, so no unchecked point ever reaches a pairing; on
/// well-formed points (the previous first element included), failing the
/// discrete-log equation is exactly `DiscreteLogMismatch`; a consistent
/// chain that passes it is accepted, and `PairingCheckFailed` is
/// returned only when some drawn combination separates the two pairing
/// sides — so only for chains that are not consistent. The outcome for
/// each single draw is fixed by `batch_pairing_check`, which this
/// function calls on the combiners it samples; an inconsistent chain may
/// still pass for an unlucky draw, with probability bounded by the
/// Schwartz-Zippel argument, which is beyond this contract.
pub fn verify_proof(proof: &Proof, prev_g1s: &[FirstGroupElement]) -> (r: Result<
    (),
    VerificationError,
>)
    requires
        proof.g1s@.len() >= 2,
        proof.g2s@.len() >= 1,
        prev_g1s@.len() >= 1,
    ensures
        ({
            let ds = g1_logs(proof.g1s@);
            let e = g2_log(proof.g2s@[0]);
            let m = proof.g1s@.len() - 1;
            let pwf = g1_all_wf(proof.g1s@) && g2_wfp(proof.g2s@[0]) && g1_wfp(proof.pi1);
            let sch = schnorr_holds(prev_g1s@[0], proof.g1s@[0], proof.pi1, proof.pi2);
            &&& (g1_ident(proof.g1s@[0]) ==> r == Err::<(), VerificationError>(
                VerificationError::DegenerateProof,
            ))
            &&& (pwf ==> (r == Err::<(), VerificationError>(VerificationError::DegenerateProof)
                <==> g1_log(proof.g1s@[0]) == 0))
            &&& (!g1_ident(proof.g1s@[0]) ==> (r == Err::<(), VerificationError>(
                VerificationError::CurveMembershipError,
            ) <==> !pwf))
            &&& (pwf && g1_wfp(prev_g1s@[0]) && g1_log(proof.g1s@[0]) != 0 ==> {
                &&& (r == Err::<(), VerificationError>(VerificationError::DiscreteLogMismatch)
                    <==> !sch)
                &&& (r is Ok ==> sch)
                &&& (sch && chain_consistent(ds, e, m) ==> r is Ok)
                &&& (r == Err::<(), VerificationError>(VerificationError::PairingCheckFailed)
                    ==> !chain_consistent(ds, e, m))
                &&& (r is Ok ==> exists|rv: Seq<int>|
                    #![auto]
                    rv.len() == m && fmul(lhs_fold(ds, rv, m - 1), e) == rhs_fold(ds, rv, m - 1))
                &&& (r == Err::<(), VerificationError>(VerificationError::PairingCheckFailed)
                    ==> exists|rv: Seq<int>|
                    #![auto]
                    rv.len() == m && fmul(lhs_fold(ds, rv, m - 1), e) != rhs_fold(ds, rv, m - 1))
            })
        }),
{
    let ghost ds = g1_logs(proof.g1s@);
    let ghost e = g2_log(proof.g2s@[0]);
    let n = proof.g1s.len();

    // Non-degeneracy first: an identity first element is rejected
    // whatever the other fields hold.
    if g1_is_zero(&proof.g1s[0]) {
        return Err(VerificationError::DegenerateProof);
    }

    // Membership of every claimed point, so that nothing unchecked
    // reaches a pairing.
    let mut idx: usize = 0;
    while idx < n
        invariant
            0 <= idx <= n,
            n == proof.g1s@.len(),
            !g1_ident(proof.g1s@[0]),
            g1_wfp(proof.g1s@[0]) ==> g1_log(proof.g1s@[0]) != 0,
            forall|j: int| 0 <= j < idx ==> g1_wfp(#[trigger] proof.g1s@[j]),
        decreases n - idx,
    {
        if !g1_is_valid(&proof.g1s[idx]) {
            return Err(VerificationError::CurveMembershipError);
        }
        idx = idx + 1;
    }
    if !g2_is_valid(&proof.g2s[0]) {
        return Err(VerificationError::CurveMembershipError);
    }
    if !g1_is_valid(&proof.pi1) {
        return Err(VerificationError::CurveMembershipError);
    }

    // Discrete-log consistency.
    let lhs = g1_mul(&prev_g1s[0], &proof.pi2);
    let c = challenge_scalar(&prev_g1s[0], &proof.g1s[0], &proof.pi1);
    let curr_c = g1_mul(&proof.g1s[0], &c);
    let rhs = g1_add(&curr_c, &proof.pi1);
    if !g1_eq(&lhs, &rhs) {
        return Err(VerificationError::DiscreteLogMismatch);
    }

    // Batched pairing consistency: draw one fresh combiner for each
    // element but the first, and check that draw.
    let mut rho: Vec<Scalar> = Vec::with_capacity(n - 1);
    while rho.len() < n - 1
        invariant
            rho@.len() <= n - 1,
            n == proof.g1s@.len(),
            n >= 2,
            !g1_ident(proof.g1s@[0]),
            g1_wfp(proof.g1s@[0]) ==> g1_log(proof.g1s@[0]) != 0,
            g1_all_wf(proof.g1s@),
            g2_wfp(proof.g2s@[0]),
            g1_wfp(proof.pi1),
            g1_wfp(prev_g1s@[0]) ==> schnorr_holds(
                prev_g1s@[0],
                proof.g1s@[0],
                proof.pi1,
                proof.pi2,
            ),
        decreases n - 1 - rho@.len(),
    {
        rho.push(fr_rand());
    }
    let ghost rv = rho@.map(|_i: int, x: Scalar| fr_val(x));
    let ok = batch_pairing_check(proof.g1s.as_slice(), &proof.g2s[0], rho.as_slice());
    proof {
        if chain_consistent(ds, e, n - 1) {
            lemma_batch_complete(ds, rv, e, n - 2);
            assert(ok);
        }
        if !ok {
            assert(exists|w: Seq<int>|
                #![auto]
                w.len() == n - 1 && fmul(lhs_fold(ds, w, n - 2), e) != rhs_fold(
                    ds,
                    w,
                    n - 2,
                )) by {
                assert(rv.len() == n - 1 && fmul(lhs_fold(ds, rv, n - 2), e) != rhs_fold(
                    ds,
                    rv,
                    n - 2,
                ));
            }
        } else {
            assert(exists|w: Seq<int>|
                #![auto]
                w.len() == n - 1 && fmul(lhs_fold(ds, w, n - 2), e) == rhs_fold(
                    ds,
                    w,
                    n - 2,
                )) by {
                assert(rv.len() == n - 1 && fmul(lhs_fold(ds, rv, n - 2), e) == rhs_fold(
                    ds,
                    rv,
                    n - 2,
                ));
            }
        }
    }
    if !ok {
        return Err(VerificationError::PairingCheckFailed);
    }
    Ok(())
}

/// A parameter set's structural invariant: element `i` of each sequence
/// is its group's generator raised to the `(i+1)`-th power of the
/// cumulative secret `s`.
pub open spec fn params_consistent(
    g1s: Seq<FirstGroupElement>,
    g2s: Seq<SecondGroupElement>,
    s: int,
) -> bool {
    &&& forall|i: int| 0 <= i < g1s.len() ==> g1_log(#[trigger] g1s[i]) == fpow(s, (i + 1) as nat)
    &&& forall|i: int| 0 <= i < g2s.len() ==> g2_log(#[trigger] g2s[i]) == fpow(s, (i + 1) as nat)
}

/// The genesis set, all generators, is consistent with the empty secret
/// product, one.
pub proof fn lemma_genesis_consistent(g1s: Seq<FirstGroupElement>, g2s: Seq<SecondGroupElement>)
    requires
        forall|i: int| 0 <= i < g1s.len() ==> g1_log(#[trigger] g1s[i]) == 1,
        forall|i: int| 0 <= i < g2s.len() ==> g2_log(#[trigger] g2s[i]) == 1,
    ensures
        params_consistent(g1s, g2s, 1),
{
    assert forall|i: int| 0 <= i < g1s.len() implies g1_log(#[trigger] g1s[i]) == fpow(
        1,
        (i + 1) as nat,
    ) by {
        lemma_fpow_of_one((i + 1) as nat);
    }
    assert forall|i: int| 0 <= i < g2s.len() implies g2_log(#[trigger] g2s[i]) == fpow(
        1,
        (i + 1) as nat,
    ) by {
        lemma_fpow_of_one((i + 1) as nat);
    }
}

/// An honest update of a consistent parameter set verifies: the emitted
/// proof satisfies the discrete-log equation, its whole chain is
/// consistent — so the batched pairing check accepts it for every draw
/// of combiners — and its first element is not the identity; and the
/// updated set is again consistent, with cumulative secret `s * t`, so
/// that further updates chain. The one family of inputs left out is a
/// fresh secret that cancels the cumulative product (`s * t` a multiple
/// of the group order), on which the update degenerates.
pub proof fn lemma_update_verifies(
    prev_g1s: Seq<FirstGroupElement>,
    prev_g2s: Seq<SecondGroupElement>,
    p: Proof,
    s: int,
    t: int,
    z: int,
)
    requires
        prev_g1s.len() >= 1,
        prev_g2s.len() >= 1,
        g1_all_wf(prev_g1s),
        g2_all_wf(prev_g2s),
        in_field(s),
        in_field(t),
        params_consistent(prev_g1s, prev_g2s, s),
        update_rel(prev_g1s, prev_g2s, p, t, z),
        fmul(s, t) != 0,
    ensures
        schnorr_holds(prev_g1s[0], p.g1s@[0], p.pi1, p.pi2),
        chain_consistent(g1_logs(p.g1s@), g2_log(p.g2s@[0]), p.g1s@.len() as int),
        g1_log(p.g1s@[0]) != 0,
        params_consistent(p.g1s@, p.g2s@, fmul(s, t)),
{
    let sp = fmul(s, t);
    lemma_fmul_in_field(s, t);

    // The updated sequences are the powers of the product secret.
    assert forall|i: int| 0 <= i < p.g1s@.len() implies g1_log(#[trigger] p.g1s@[i]) == fpow(
        sp,
        (i + 1) as nat,
    ) by {
        assert(g1_log(prev_g1s[i]) == fpow(s, (i + 1) as nat));
        lemma_fpow_of_fmul(s, t, (i + 1) as nat);
    }
    assert forall|i: int| 0 <= i < p.g2s@.len() implies g2_log(#[trigger] p.g2s@[i]) == fpow(
        sp,
        (i + 1) as nat,
    ) by {
        assert(g2_log(prev_g2s[i]) == fpow(s, (i + 1) as nat));
        lemma_fpow_of_fmul(s, t, (i + 1) as nat);
    }

    // The chain is consistent with exponent e = the first second-group
    // logarithm, which equals the product secret.
    lemma_fpow_one(sp);
    lemma_field_id(sp);
    assert(g2_log(p.g2s@[0]) == sp);
    assert forall|i: int| 0 <= i < p.g1s@.len() implies g1_logs(p.g1s@)[i] == fpow(
        sp,
        (i + 1) as nat,
    ) by {
        assert(g1_logs(p.g1s@)[i] == g1_log(p.g1s@[i]));
    }

    // The discrete-log equation, by the completeness of the proof of
    // knowledge.
    lemma_fpow_one(s);
    lemma_field_id(s);
    assert(g1_log(prev_g1s[0]) == s);
    lemma_fpow_one(t);
    lemma_field_id(t);
    assert(g1_log(p.g1s@[0]) == fmul(s, t)) by {
        lemma_fmul_congruent(s, t);
    }
    let c = challenge_val(prev_g1s[0], p.g1s@[0], p.pi1);
    lemma_schnorr_complete(s, t, z, c);
}

/// Chained contributions: starting from the genesis set of generators,
/// a first update and then a second update of its output each satisfy
/// the verifier's acceptance conditions against their immediate
/// predecessor, provided neither fresh secret (nor their product)
/// cancels the cumulative exponent.
pub proof fn lemma_chained_updates_verify(
    g1s: Seq<FirstGroupElement>,
    g2s: Seq<SecondGroupElement>,
    p1: Proof,
    p2: Proof,
    t1: int,
    z1: int,
    t2: int,
    z2: int,
)
    requires
        g1s.len() >= 1,
        g2s.len() >= 1,
        g1_all_wf(g1s),
        g2_all_wf(g2s),
        forall|i: int| 0 <= i < g1s.len() ==> g1_log(#[trigger] g1s[i]) == 1,
        forall|i: int| 0 <= i < g2s.len() ==> g2_log(#[trigger] g2s[i]) == 1,
        in_field(t1),
        in_field(t2),
        update_rel(g1s, g2s, p1, t1, z1),
        update_rel(p1.g1s@, p1.g2s@, p2, t2, z2),
        t1 != 0,
        fmul(t1, t2) != 0,
    ensures
        schnorr_holds(g1s[0], p1.g1s@[0], p1.pi1, p1.pi2),
        chain_consistent(g1_logs(p1.g1s@), g2_log(p1.g2s@[0]), p1.g1s@.len() as int),
        g1_log(p1.g1s@[0]) != 0,
        schnorr_holds(p1.g1s@[0], p2.g1s@[0], p2.pi1, p2.pi2),
        chain_consistent(g1_logs(p2.g1s@), g2_log(p2.g2s@[0]), p2.g1s@.len() as int),
        g1_log(p2.g1s@[0]) != 0,
{
    lemma_genesis_consistent(g1s, g2s);
    assert(fmul(1, t1) == t1) by {
        lemma_field_id(t1);
    }
    lemma_update_verifies(g1s, g2s, p1, 1, t1, z1);
    lemma_fmul_in_field(1, t1);
    lemma_update_verifies(p1.g1s@, p1.g2s@, p2, t1, t2, z2);
}

} // verus!
