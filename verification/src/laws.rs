//! Properties of the metrics and filters, stated and proved as theorems.

use vstd::prelude::*;

use crate::hw::{BladeV, ProcessorV, SystemV};
use crate::metrics::{blade_cores, blade_price, blade_ram, blade_threads, lemma_sum_concat,
    proc_base_fma_term, proc_turbo_fma_term, total_cores, total_price, total_ram, total_threads};
use crate::search::{passes_memory_filter, pool_inv, SearchConfig};

verus! {

/// Metric additivity: when a system's blade list is the concatenation of
/// two systems' blade lists and all three share one chassis price, the
/// total price is the two totals less the chassis price counted once, and
/// memory bytes, cores and threads add exactly.
pub proof fn lemma_metric_additivity(sa: SystemV, sb: SystemV, sc: SystemV)
    requires
        sc.blades == sa.blades + sb.blades,
        sa.price == sc.price,
        sb.price == sc.price,
    ensures
        total_price(sc) == total_price(sa) + total_price(sb) - sc.price,
        total_ram(sc) == total_ram(sa) + total_ram(sb),
        total_cores(sc) == total_cores(sa) + total_cores(sb),
        total_threads(sc) == total_threads(sa) + total_threads(sb),
{
    lemma_sum_concat(sa.blades, sb.blades, |b: BladeV| blade_price(b));
    lemma_sum_concat(sa.blades, sb.blades, |b: BladeV| blade_ram(b));
    lemma_sum_concat(sa.blades, sb.blades, |b: BladeV| blade_cores(b));
    lemma_sum_concat(sa.blades, sb.blades, |b: BladeV| blade_threads(b));
}

/// Throughput zero-default: a processor with all AVX-512 fields absent
/// contributes exactly zero to the base and the turbo FMA throughput,
/// whatever its other fields hold.
pub proof fn lemma_throughput_zero_default(p: ProcessorV)
    requires
        p.avx512_rate is None,
        p.avx512_turbo_rate is None,
        p.avx512_fma_units is None,
    ensures
        proc_base_fma_term(p) == 0,
        proc_turbo_fma_term(p) == 0,
{
}

/// The memory filter in its ratio form: a system with at least one thread
/// passes exactly when its RAM per thread reaches the floor.
pub proof fn lemma_memory_filter_division_form(s: SystemV, min_bpt: int)
    requires
        total_threads(s) > 0,
    ensures
        passes_memory_filter(s, min_bpt) == (total_ram(s) / total_threads(s) >= min_bpt),
{
    let r = total_ram(s);
    let t = total_threads(s);
    vstd::arithmetic::div_mod::lemma_fundamental_div_mod(r, t);
    vstd::arithmetic::div_mod::lemma_mod_bound(r, t);
    if r >= t * min_bpt {
        assert(r / t >= min_bpt) by (nonlinear_arith)
            requires
                r == t * (r / t) + r % t,
                0 <= r % t < t,
                r >= t * min_bpt,
                t > 0,
        ;
    } else {
        assert(r / t < min_bpt) by (nonlinear_arith)
            requires
                r == t * (r / t) + r % t,
                0 <= r % t < t,
                r < t * min_bpt,
                t > 0,
        ;
    }
}

/// Deduplication: however many times a structurally identical system was
/// offered across any number of rounds, a pool holding the invariant
/// retains at most one copy of it.
pub proof fn lemma_dedup_single_copy(pool: Seq<SystemV>, cfg: SearchConfig, s: SystemV)
    requires
        pool_inv(pool, cfg),
    ensures
        pool.to_multiset().count(s) <= 1,
{
    pool.lemma_multiset_has_no_duplicates();
    if pool.to_multiset().count(s) > 0 {
        assert(pool.to_multiset().contains(s));
    }
}

} // verus!
