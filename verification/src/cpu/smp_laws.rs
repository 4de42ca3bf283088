//! Which processors are up, and which are let go.

use vstd::prelude::*;

use crate::cpu::smp::Cpu;

verus! {

proof fn lemma_mask_small(up: Seq<bool>, n: int)
    requires
        0 <= n <= up.len(),
    ensures
        0 <= crate::cpu::smp::mask_of(up, n) < vstd::arithmetic::power2::pow2(n as nat),
    decreases n,
{
    vstd::arithmetic::power2::lemma_pow2_pos(n as nat);
    if n > 0 {
        lemma_mask_small(up, n - 1);
        vstd::arithmetic::power2::lemma_pow2_unfold(n as nat);
    }
}

/// The mask of the processors that are up: bit `j` is set exactly where
/// processor `j` is up, and no bit behind them.
#[verifier::spinoff_prover]
pub proof fn law_mask_has_a_bit_for_each(up: Seq<bool>, n: int, j: int)
    requires
        0 <= j < n <= up.len(),
    ensures
        crate::cpu::smp::mask_of(up, n) / (vstd::arithmetic::power2::pow2(j as nat) as int) % 2 == if up[j] {
            1int
        } else {
            0int
        },
        0 <= crate::cpu::smp::mask_of(up, n) < vstd::arithmetic::power2::pow2(n as nat),
    decreases n,
{
    lemma_mask_small(up, n);
    lemma_mask_small(up, n - 1);
    let a = crate::cpu::smp::mask_of(up, n - 1);
    let p = vstd::arithmetic::power2::pow2(j as nat) as int;
    let q = vstd::arithmetic::power2::pow2((n - 1) as nat) as int;
    let b = if up[n - 1] {
        1int
    } else {
        0int
    };
    vstd::arithmetic::power2::lemma_pow2_pos(j as nat);
    assert(crate::cpu::smp::mask_of(up, n) == a + b * q) by (nonlinear_arith)
        requires
            crate::cpu::smp::mask_of(up, n) == a + (if up[n - 1] {
                q
            } else {
                0
            }),
            b == (if up[n - 1] {
                1int
            } else {
                0int
            }),
    ;
    if j < n - 1 {
        law_mask_has_a_bit_for_each(up, n - 1, j);
        let t = vstd::arithmetic::power2::pow2((n - 2 - j) as nat) as int;
        vstd::arithmetic::power2::lemma_pow2_adds(j as nat, (n - 1 - j) as nat);
        vstd::arithmetic::power2::lemma_pow2_unfold((n - 1 - j) as nat);
        let u = 2 * t * b;
        assert(a + b * q == u * p + a) by (nonlinear_arith)
            requires
                q == p * (2 * t),
                u == 2 * t * b,
        ;
        vstd::arithmetic::div_mod::lemma_hoist_over_denominator(a, u, p as nat);
        let h = t * b;
        assert(u == 2 * h) by (nonlinear_arith)
            requires
                u == 2 * t * b,
                h == t * b,
        ;
    } else {
        assert((a + b * q) / q == b) by (nonlinear_arith)
            requires
                0 <= a < q,
                0 <= b <= 1,
        ;
    }
}

/// The processors that are let go: each one named in the list but the first,
/// by its own identifier, and under the index that it has in the table.
#[verifier::spinoff_prover]
pub proof fn law_released_processors(cpus: Seq<Cpu>, ids: Seq<u32>, bsp: u32, k: int)
    requires
        0 <= k <= ids.len(),
        cpus.len() <= usize::MAX,
    ensures
        ({
            let r = crate::cpu::smp::to_release(cpus, ids, bsp, k);
            &&& forall|p: int|
                0 <= p < r.len() ==> (#[trigger] r[p]).0 < cpus.len() && cpus[r[p].0 as int].lapic_id == r[p].1 && r[p].1
                    != bsp && ids.contains(r[p].1)
            &&& forall|t: int, c: int|
                0 <= t < k && #[trigger] ids[t] != bsp && 0 <= c < cpus.len() && (#[trigger] cpus[c]).lapic_id == ids[t]
                    ==> exists|p: int| 0 <= p < r.len() && (#[trigger] r[p]).1 == ids[t]
        }),
    decreases k,
{
    if k > 0 {
        law_released_processors(cpus, ids, bsp, k - 1);
        let v = crate::cpu::smp::to_release(cpus, ids, bsp, k - 1);
        let r = crate::cpu::smp::to_release(cpus, ids, bsp, k);
        let id = ids[k - 1];
        let f = crate::cpu::smp::has_id(id);
        crate::seqs::lemma_first_from(cpus, f, 0);
        assert forall|p: int| 0 <= p < v.len() implies r[p] == #[trigger] v[p] by {}
        assert forall|t: int, c: int|
            0 <= t < k && #[trigger] ids[t] != bsp && 0 <= c < cpus.len() && (#[trigger] cpus[c]).lapic_id == ids[t] implies exists|
            p: int,
        | 0 <= p < r.len() && (#[trigger] r[p]).1 == ids[t] by {
            if t < k - 1 {
                let p = choose|p: int| 0 <= p < v.len() && (#[trigger] v[p]).1 == ids[t];
                assert(r[p] == v[p]);
            } else {
                assert(f(cpus[c]));
                assert(crate::seqs::first(cpus, f) is Some);
                assert(r[r.len() - 1].1 == ids[t]);
            }
        }
    }
}

} // verus!
