//! Derived metrics over a fully assembled `System`: total price, installed
//! memory, core and thread counts, a core-weighted clock sum, and the two
//! AVX-512 FMA throughput estimates.
//!
//! Every metric is an exact integer: prices in US cents, clocks in MHz,
//! throughput in MFLOPS. The FMA formulas multiply cores by the AVX-512
//! clock, by 16 single-precision lanes of one 512-bit unit, by 2 operations
//! per fused multiply-add, and by the number of FMA units; an absent clock or
//! unit count contributes zero.

use vstd::prelude::*;
use vstd::arithmetic::mul::{lemma_mul_inequality, lemma_mul_nonnegative, lemma_mul_upper_bound};

use crate::hw::{BladeV, MemoryV, Motherboard, MotherboardV, Processor, ProcessorV, System,
    SystemV};

verus! {

/// Sum of `f` over all elements of a sequence.
pub open spec fn sum_int<T>(s: Seq<T>, f: spec_fn(T) -> int) -> int
    decreases s.len(),
{
    if s.len() == 0 {
        0
    } else {
        f(s.first()) + sum_int(s.drop_first(), f)
    }
}

/// Summing over a concatenation splits into the two parts.
pub proof fn lemma_sum_concat<T>(a: Seq<T>, b: Seq<T>, f: spec_fn(T) -> int)
    ensures
        sum_int(a + b, f) == sum_int(a, f) + sum_int(b, f),
    decreases a.len(),
{
    if a.len() == 0 {
        assert(a + b =~= b);
    } else {
        assert((a + b).first() == a.first());
        assert((a + b).drop_first() =~= a.drop_first() + b);
        lemma_sum_concat(a.drop_first(), b, f);
    }
}

/// Appending one element adds its term to the sum.
pub proof fn lemma_sum_push<T>(s: Seq<T>, x: T, f: spec_fn(T) -> int)
    ensures
        sum_int(s.push(x), f) == sum_int(s, f) + f(x),
{
    let single = seq![x];
    assert(s.push(x) =~= s + single);
    lemma_sum_concat(s, single, f);
    assert(single.drop_first() =~= Seq::<T>::empty());
    assert(sum_int(Seq::<T>::empty(), f) == 0);
    assert(single.first() == x);
    assert(sum_int(single, f) == f(x) + sum_int(single.drop_first(), f));
}

/// One loop step: the sum over a prefix grows by the next element's term.
pub proof fn lemma_sum_take_step<T>(s: Seq<T>, i: int, f: spec_fn(T) -> int)
    requires
        0 <= i < s.len(),
    ensures
        sum_int(s.take(i + 1), f) == sum_int(s.take(i), f) + f(s[i]),
{
    assert(s.take(i + 1) =~= s.take(i).push(s[i]));
    lemma_sum_push(s.take(i), s[i], f);
}

/// A sum of terms from `[0, hi]` lies in `[0, len * hi]`.
pub proof fn lemma_sum_bounds<T>(s: Seq<T>, f: spec_fn(T) -> int, hi: int)
    requires
        0 <= hi,
        forall|i: int| 0 <= i < s.len() ==> 0 <= #[trigger] f(s[i]) <= hi,
    ensures
        0 <= sum_int(s, f) <= s.len() * hi,
    decreases s.len(),
{
    if s.len() == 0 {
    } else {
        assert(forall|i: int| 0 <= i < s.drop_first().len()
            ==> 0 <= #[trigger] f(s.drop_first()[i]) <= hi) by {
            assert(forall|i: int| 0 <= i < s.drop_first().len()
                ==> #[trigger] s.drop_first()[i] == s[i + 1]);
        }
        lemma_sum_bounds(s.drop_first(), f, hi);
        assert(0 <= f(s.first()) <= hi);
        assert((s.len() - 1) * hi + hi == s.len() * hi) by (nonlinear_arith);
    }
}

/// An absent optional quantity counts as zero.
pub open spec fn opt0(o: Option<int>) -> int {
    match o {
        Option::Some(v) => v,
        Option::None => 0,
    }
}

/// Core-weighted base clock of one processor, in MHz times cores.
pub open spec fn proc_clock_term(p: ProcessorV) -> int {
    p.clock_rate * p.cores
}

/// Base AVX-512 FMA throughput of one processor, in MFLOPS:
/// cores x clock x 16 lanes x 2 operations x FMA units, zero when a field
/// is absent.
pub open spec fn proc_base_fma_term(p: ProcessorV) -> int {
    p.cores * opt0(p.avx512_rate) * 32 * opt0(p.avx512_fma_units)
}

/// All-core-turbo AVX-512 FMA throughput of one processor, in MFLOPS.
pub open spec fn proc_turbo_fma_term(p: ProcessorV) -> int {
    p.cores * opt0(p.avx512_turbo_rate) * 32 * opt0(p.avx512_fma_units)
}

/// Price of a populated motherboard: board plus processors plus DIMMs.
pub open spec fn mb_price(m: MotherboardV) -> int {
    m.price + sum_int(m.processors, |p: ProcessorV| p.price)
        + sum_int(m.memory, |x: MemoryV| x.price)
}

/// Installed bytes on one motherboard.
pub open spec fn mb_ram(m: MotherboardV) -> int {
    sum_int(m.memory, |x: MemoryV| x.size)
}

/// Cores on one motherboard.
pub open spec fn mb_cores(m: MotherboardV) -> int {
    sum_int(m.processors, |p: ProcessorV| p.cores)
}

/// Threads on one motherboard.
pub open spec fn mb_threads(m: MotherboardV) -> int {
    sum_int(m.processors, |p: ProcessorV| p.threads)
}

/// Core-weighted clock sum on one motherboard.
pub open spec fn mb_clock(m: MotherboardV) -> int {
    sum_int(m.processors, |p: ProcessorV| proc_clock_term(p))
}

/// Base AVX-512 FMA throughput of one motherboard, in MFLOPS.
pub open spec fn mb_base_fma(m: MotherboardV) -> int {
    sum_int(m.processors, |p: ProcessorV| proc_base_fma_term(p))
}

/// Turbo AVX-512 FMA throughput of one motherboard, in MFLOPS.
pub open spec fn mb_turbo_fma(m: MotherboardV) -> int {
    sum_int(m.processors, |p: ProcessorV| proc_turbo_fma_term(p))
}

/// Price contributed by one assembled blade: blade plus its motherboard.
pub open spec fn blade_price(b: BladeV) -> int {
    b.price + mb_price(b.motherboard->Some_0)
}

/// Installed bytes of one assembled blade.
pub open spec fn blade_ram(b: BladeV) -> int {
    mb_ram(b.motherboard->Some_0)
}

/// Cores of one assembled blade.
pub open spec fn blade_cores(b: BladeV) -> int {
    mb_cores(b.motherboard->Some_0)
}

/// Threads of one assembled blade.
pub open spec fn blade_threads(b: BladeV) -> int {
    mb_threads(b.motherboard->Some_0)
}

/// Core-weighted clock sum of one assembled blade.
pub open spec fn blade_clock(b: BladeV) -> int {
    mb_clock(b.motherboard->Some_0)
}

/// Base AVX-512 FMA throughput of one assembled blade, in MFLOPS.
pub open spec fn blade_base_fma(b: BladeV) -> int {
    mb_base_fma(b.motherboard->Some_0)
}

/// Turbo AVX-512 FMA throughput of one assembled blade, in MFLOPS.
pub open spec fn blade_turbo_fma(b: BladeV) -> int {
    mb_turbo_fma(b.motherboard->Some_0)
}

/// Total price of a system in US cents: chassis plus every blade's parts.
pub open spec fn total_price(s: SystemV) -> int {
    s.price + sum_int(s.blades, |b: BladeV| blade_price(b))
}

/// Total installed memory of a system, in bytes.
pub open spec fn total_ram(s: SystemV) -> int {
    sum_int(s.blades, |b: BladeV| blade_ram(b))
}

/// Total cores of a system.
pub open spec fn total_cores(s: SystemV) -> int {
    sum_int(s.blades, |b: BladeV| blade_cores(b))
}

/// Total threads of a system.
pub open spec fn total_threads(s: SystemV) -> int {
    sum_int(s.blades, |b: BladeV| blade_threads(b))
}

/// Core-weighted clock sum of a system, in MHz times cores.
pub open spec fn total_clock(s: SystemV) -> int {
    sum_int(s.blades, |b: BladeV| blade_clock(b))
}

/// Base AVX-512 FMA throughput of a system, in MFLOPS.
pub open spec fn total_base_fma(s: SystemV) -> int {
    sum_int(s.blades, |b: BladeV| blade_base_fma(b))
}

/// Turbo AVX-512 FMA throughput of a system, in MFLOPS.
pub open spec fn total_turbo_fma(s: SystemV) -> int {
    sum_int(s.blades, |b: BladeV| blade_turbo_fma(b))
}

/// Bounds on every per-board metric of a well-formed motherboard: at most
/// 255 processors and 255 DIMMs, each field fitting its machine type.
pub proof fn lemma_mb_bounds(m: MotherboardV)
    requires
        m.wf(),
    ensures
        0 <= mb_price(m) <= 0x1fe_ffff_ffff_ffff_fe01,
        0 <= mb_ram(m) <= 0xfe_ffff_ffff_ffff_ff01,
        0 <= mb_cores(m) <= 0xfe_ffff_ff01,
        0 <= mb_threads(m) <= 0xfe_ffff_ff01,
        0 <= mb_clock(m) <= 0xfe_ffff_ff00_ffff_ff01_0000_00ff,
        0 <= mb_base_fma(m) <= 0x1f_c01f_ffe0_3fdf_ffe0_3fe0_001f_c020,
        0 <= mb_turbo_fma(m) <= 0x1f_c01f_ffe0_3fdf_ffe0_3fe0_001f_c020,
{
    let u64m: int = 0xffff_ffff_ffff_ffff;
    let u32m: int = 0xffff_ffff;
    let fmab: int = 0x1fdf_ffff_e01f_ffff_e020_0000_1fe0;
    let np = m.processors.len() as int;
    let nm = m.memory.len() as int;

    let fpp = |p: ProcessorV| p.price;
    assert forall|i: int| 0 <= i < np implies 0 <= #[trigger] fpp(m.processors[i]) <= u64m by {
        assert(m.processors[i].wf());
    }
    lemma_sum_bounds(m.processors, fpp, u64m);
    lemma_mul_inequality(np, 255, u64m);
    assert(255 * u64m == 0xfe_ffff_ffff_ffff_ff01);

    let fmp = |x: MemoryV| x.price;
    assert forall|i: int| 0 <= i < nm implies 0 <= #[trigger] fmp(m.memory[i]) <= u64m by {
        assert(m.memory[i].wf());
    }
    lemma_sum_bounds(m.memory, fmp, u64m);
    lemma_mul_inequality(nm, 255, u64m);

    let fsz = |x: MemoryV| x.size;
    assert forall|i: int| 0 <= i < nm implies 0 <= #[trigger] fsz(m.memory[i]) <= u64m by {
        assert(m.memory[i].wf());
    }
    lemma_sum_bounds(m.memory, fsz, u64m);

    let fco = |p: ProcessorV| p.cores;
    assert forall|i: int| 0 <= i < np implies 0 <= #[trigger] fco(m.processors[i]) <= u32m by {
        assert(m.processors[i].wf());
    }
    lemma_sum_bounds(m.processors, fco, u32m);
    lemma_mul_inequality(np, 255, u32m);
    assert(255 * u32m == 0xfe_ffff_ff01);

    let fth = |p: ProcessorV| p.threads;
    assert forall|i: int| 0 <= i < np implies 0 <= #[trigger] fth(m.processors[i]) <= u32m by {
        assert(m.processors[i].wf());
    }
    lemma_sum_bounds(m.processors, fth, u32m);

    let fcl = |p: ProcessorV| proc_clock_term(p);
    assert forall|i: int| 0 <= i < np implies
        0 <= #[trigger] fcl(m.processors[i]) <= 0xffff_fffe_ffff_ffff_0000_0001 by {
        let p = m.processors[i];
        assert(p.wf());
        lemma_mul_nonnegative(p.clock_rate, p.cores);
        lemma_mul_upper_bound(p.clock_rate, u64m, p.cores, u32m);
        assert(u64m * u32m == 0xffff_fffe_ffff_ffff_0000_0001) by (nonlinear_arith)
            requires u64m == 0xffff_ffff_ffff_ffff, u32m == 0xffff_ffff;
    }
    lemma_sum_bounds(m.processors, fcl, 0xffff_fffe_ffff_ffff_0000_0001);
    lemma_mul_inequality(np, 255, 0xffff_fffe_ffff_ffff_0000_0001);
    assert(255 * 0xffff_fffe_ffff_ffff_0000_0001 == 0xfe_ffff_ff00_ffff_ff01_0000_00ff)
        by (nonlinear_arith);

    let fbf = |p: ProcessorV| proc_base_fma_term(p);
    assert forall|i: int| 0 <= i < np implies 0 <= #[trigger] fbf(m.processors[i]) <= fmab by {
        let p = m.processors[i];
        assert(p.wf());
        lemma_fma_term_bound(p.cores, opt0(p.avx512_rate), opt0(p.avx512_fma_units));
    }
    lemma_sum_bounds(m.processors, fbf, fmab);
    lemma_mul_inequality(np, 255, fmab);
    assert(255 * fmab == 0x1f_c01f_ffe0_3fdf_ffe0_3fe0_001f_c020);

    let ftf = |p: ProcessorV| proc_turbo_fma_term(p);
    assert forall|i: int| 0 <= i < np implies 0 <= #[trigger] ftf(m.processors[i]) <= fmab by {
        let p = m.processors[i];
        assert(p.wf());
        lemma_fma_term_bound(p.cores, opt0(p.avx512_turbo_rate), opt0(p.avx512_fma_units));
    }
    lemma_sum_bounds(m.processors, ftf, fmab);
    lemma_mul_inequality(np, 255, fmab);
}

/// One processor's FMA term is bounded by the product of its field bounds.
proof fn lemma_fma_term_bound(cores: int, rate: int, units: int)
    requires
        0 <= cores <= 0xffff_ffff,
        0 <= rate <= 0xffff_ffff_ffff_ffff,
        0 <= units <= 255,
    ensures
        0 <= cores * rate <= 0xffff_fffe_ffff_ffff_0000_0001,
        0 <= cores * rate * 32 <= 0x1f_ffff_ffdf_ffff_ffe0_0000_0020,
        0 <= cores * rate * 32 * units <= 0x1fdf_ffff_e01f_ffff_e020_0000_1fe0,
{
    lemma_mul_nonnegative(cores, rate);
    lemma_mul_upper_bound(cores, 0xffff_ffff, rate, 0xffff_ffff_ffff_ffff);
    assert(0xffff_ffff * 0xffff_ffff_ffff_ffff == 0xffff_fffe_ffff_ffff_0000_0001)
        by (nonlinear_arith);
    lemma_mul_inequality(cores * rate, 0xffff_fffe_ffff_ffff_0000_0001, 32);
    assert(0xffff_fffe_ffff_ffff_0000_0001 * 32 == 0x1f_ffff_ffdf_ffff_ffe0_0000_0020)
        by (nonlinear_arith);
    lemma_mul_nonnegative(cores * rate, 32);
    lemma_mul_upper_bound(cores * rate * 32, 0x1f_ffff_ffdf_ffff_ffe0_0000_0020, units, 255);
    assert(0x1f_ffff_ffdf_ffff_ffe0_0000_0020 * 255 == 0x1fdf_ffff_e01f_ffff_e020_0000_1fe0)
        by (nonlinear_arith);
    lemma_mul_nonnegative(cores * rate * 32, units);
}

impl Motherboard {
    /// Price of the populated board in cents: board, processors, DIMMs.
    #[verifier::loop_isolation(false)]
    pub fn price_total(&self) -> (r: u128)
        requires
            self@.wf(),
        ensures
            r == mb_price(self@),
    {
        let ghost fpp = |p: ProcessorV| p.price;
        let ghost fmp = |x: MemoryV| x.price;
        let mut acc: u128 = self.price as u128;
        proof {
            assert(self@.processors.take(0) =~= Seq::<ProcessorV>::empty());
        }
        let np = self.processors.len();
        proof {
            assert(self@.processors.len() == self.processors@.len());
            assert(np <= 255);
        }
        for i in 0..np
            invariant
                np == self.processors.len(),
                self@.wf(),
                acc == self@.price + sum_int(self@.processors.take(i as int), fpp),
                acc <= (1 + i) * 0xffff_ffff_ffff_ffff,
        {
            proof {
                assert(self@.processors[i as int].wf());
                lemma_sum_take_step(self@.processors, i as int, fpp);
                assert(fpp(self@.processors[i as int]) == self@.processors[i as int].price);
                assert(self.processors[i as int]@ == self@.processors[i as int]);
            }
            acc = acc + self.processors[i].price as u128;
        }
        proof {
            assert(self@.processors.take(np as int) =~= self@.processors);
            assert(self@.memory.take(0) =~= Seq::<MemoryV>::empty());
        }
        let nm = self.memory.len();
        proof {
            assert(self@.memory.len() == self.memory@.len());
            assert(nm <= 255);
        }
        for i in 0..nm
            invariant
                nm == self.memory.len(),
                self@.wf(),
                acc == self@.price + sum_int(self@.processors, fpp)
                    + sum_int(self@.memory.take(i as int), fmp),
                acc <= (256 + i) * 0xffff_ffff_ffff_ffff,
        {
            proof {
                assert(self@.memory[i as int].wf());
                lemma_sum_take_step(self@.memory, i as int, fmp);
                assert(fmp(self@.memory[i as int]) == self@.memory[i as int].price);
                assert(self.memory[i as int]@ == self@.memory[i as int]);
            }
            acc = acc + self.memory[i].price as u128;
        }
        proof {
            assert(self@.memory.take(nm as int) =~= self@.memory);
        }
        acc
    }

    /// Installed bytes on this board.
    #[verifier::loop_isolation(false)]
    pub fn ram_total(&self) -> (r: u128)
        requires
            self@.wf(),
        ensures
            r == mb_ram(self@),
    {
        let ghost fsz = |x: MemoryV| x.size;
        let mut acc: u128 = 0;
        proof {
            assert(self@.memory.take(0) =~= Seq::<MemoryV>::empty());
        }
        let nm = self.memory.len();
        proof {
            assert(self@.memory.len() == self.memory@.len());
            assert(nm <= 255);
        }
        for i in 0..nm
            invariant
                acc == sum_int(self@.memory.take(i as int), fsz),
                acc <= i * 0xffff_ffff_ffff_ffff,
        {
            proof {
                assert(self@.memory[i as int].wf());
                lemma_sum_take_step(self@.memory, i as int, fsz);
            }
            acc = acc + self.memory[i].size as u128;
        }
        proof {
            assert(self@.memory.take(nm as int) =~= self@.memory);
        }
        acc
    }

    /// Cores socketed on this board.
    #[verifier::loop_isolation(false)]
    pub fn cores_total(&self) -> (r: u64)
        requires
            self@.wf(),
        ensures
            r == mb_cores(self@),
    {
        let ghost fco = |p: ProcessorV| p.cores;
        let mut acc: u64 = 0;
        proof {
            assert(self@.processors.take(0) =~= Seq::<ProcessorV>::empty());
        }
        let np = self.processors.len();
        proof {
            assert(self@.processors.len() == self.processors@.len());
            assert(np <= 255);
        }
        for i in 0..np
            invariant
                acc == sum_int(self@.processors.take(i as int), fco),
                acc <= i * 0xffff_ffff,
        {
            proof {
                assert(self@.processors[i as int].wf());
                lemma_sum_take_step(self@.processors, i as int, fco);
            }
            acc = acc + self.processors[i].cores as u64;
        }
        proof {
            assert(self@.processors.take(np as int) =~= self@.processors);
        }
        acc
    }

    /// Threads socketed on this board.
    #[verifier::loop_isolation(false)]
    pub fn threads_total(&self) -> (r: u64)
        requires
            self@.wf(),
        ensures
            r == mb_threads(self@),
    {
        let ghost fth = |p: ProcessorV| p.threads;
        let mut acc: u64 = 0;
        proof {
            assert(self@.processors.take(0) =~= Seq::<ProcessorV>::empty());
        }
        let np = self.processors.len();
        proof {
            assert(self@.processors.len() == self.processors@.len());
            assert(np <= 255);
        }
        for i in 0..np
            invariant
                acc == sum_int(self@.processors.take(i as int), fth),
                acc <= i * 0xffff_ffff,
        {
            proof {
                assert(self@.processors[i as int].wf());
                lemma_sum_take_step(self@.processors, i as int, fth);
            }
            acc = acc + self.processors[i].threads as u64;
        }
        proof {
            assert(self@.processors.take(np as int) =~= self@.processors);
        }
        acc
    }

    /// Core-weighted clock sum of this board.
    #[verifier::loop_isolation(false)]
    pub fn clock_total(&self) -> (r: u128)
        requires
            self@.wf(),
        ensures
            r == mb_clock(self@),
    {
        let ghost fcl = |p: ProcessorV| proc_clock_term(p);
        let mut acc: u128 = 0;
        proof {
            assert(self@.processors.take(0) =~= Seq::<ProcessorV>::empty());
        }
        let np = self.processors.len();
        proof {
            assert(self@.processors.len() == self.processors@.len());
            assert(np <= 255);
        }
        for i in 0..np
            invariant
                acc == sum_int(self@.processors.take(i as int), fcl),
                acc <= i * 0xffff_fffe_ffff_ffff_0000_0001,
        {
            let p = &self.processors[i];
            proof {
                assert(self@.processors[i as int].wf());
                lemma_mul_nonnegative(p.clock_rate as int, p.cores as int);
                lemma_mul_upper_bound(p.clock_rate as int, 0xffff_ffff_ffff_ffff,
                    p.cores as int, 0xffff_ffff);
                assert(0xffff_ffff_ffff_ffff * 0xffff_ffff == 0xffff_fffe_ffff_ffff_0000_0001)
                    by (nonlinear_arith);
                lemma_sum_take_step(self@.processors, i as int, fcl);
            }
            acc = acc + (p.clock_rate as u128) * (p.cores as u128);
        }
        proof {
            assert(self@.processors.take(np as int) =~= self@.processors);
        }
        acc
    }

    /// Base AVX-512 FMA throughput of this board, in MFLOPS.
    #[verifier::loop_isolation(false)]
    pub fn base_fma_total(&self) -> (r: u128)
        requires
            self@.wf(),
        ensures
            r == mb_base_fma(self@),
    {
        let ghost fbf = |p: ProcessorV| proc_base_fma_term(p);
        let mut acc: u128 = 0;
        proof {
            assert(self@.processors.take(0) =~= Seq::<ProcessorV>::empty());
        }
        let np = self.processors.len();
        proof {
            assert(self@.processors.len() == self.processors@.len());
            assert(np <= 255);
        }
        for i in 0..np
            invariant
                acc == sum_int(self@.processors.take(i as int), fbf),
                acc <= i * 0x1fdf_ffff_e01f_ffff_e020_0000_1fe0,
        {
            proof {
                assert(self@.processors[i as int].wf());
                lemma_sum_take_step(self@.processors, i as int, fbf);
            }
            let term = proc_base_fma_mflops(&self.processors[i]);
            acc = acc + term;
        }
        proof {
            assert(self@.processors.take(np as int) =~= self@.processors);
        }
        acc
    }

    /// All-core-turbo AVX-512 FMA throughput of this board, in MFLOPS.
    #[verifier::loop_isolation(false)]
    pub fn turbo_fma_total(&self) -> (r: u128)
        requires
            self@.wf(),
        ensures
            r == mb_turbo_fma(self@),
    {
        let ghost ftf = |p: ProcessorV| proc_turbo_fma_term(p);
        let mut acc: u128 = 0;
        proof {
            assert(self@.processors.take(0) =~= Seq::<ProcessorV>::empty());
        }
        let np = self.processors.len();
        proof {
            assert(self@.processors.len() == self.processors@.len());
            assert(np <= 255);
        }
        for i in 0..np
            invariant
                acc == sum_int(self@.processors.take(i as int), ftf),
                acc <= i * 0x1fdf_ffff_e01f_ffff_e020_0000_1fe0,
        {
            proof {
                assert(self@.processors[i as int].wf());
                lemma_sum_take_step(self@.processors, i as int, ftf);
            }
            let term = proc_turbo_fma_mflops(&self.processors[i]);
            acc = acc + term;
        }
        proof {
            assert(self@.processors.take(np as int) =~= self@.processors);
        }
        acc
    }
}

/// Base AVX-512 FMA term of one processor, in MFLOPS; zero when the AVX-512
/// clock or the unit count is absent.
fn proc_base_fma_mflops(p: &Processor) -> (r: u128)
    requires
        p@.wf(),
    ensures
        r == proc_base_fma_term(p@),
        r <= 0x1fdf_ffff_e01f_ffff_e020_0000_1fe0,
{
    let rate: u64 = match p.avx512_rate {
        Option::Some(v) => v,
        Option::None => 0,
    };
    let units: u8 = match p.avx512_fma_units {
        Option::Some(v) => v,
        Option::None => 0,
    };
    proof {
        lemma_fma_term_bound(p.cores as int, rate as int, units as int);
    }
    (p.cores as u128) * (rate as u128) * 32 * (units as u128)
}

/// All-core-turbo AVX-512 FMA term of one processor, in MFLOPS; zero when
/// the AVX-512 turbo clock or the unit count is absent.
fn proc_turbo_fma_mflops(p: &Processor) -> (r: u128)
    requires
        p@.wf(),
    ensures
        r == proc_turbo_fma_term(p@),
        r <= 0x1fdf_ffff_e01f_ffff_e020_0000_1fe0,
{
    let rate: u64 = match p.avx512_turbo_rate {
        Option::Some(v) => v,
        Option::None => 0,
    };
    let units: u8 = match p.avx512_fma_units {
        Option::Some(v) => v,
        Option::None => 0,
    };
    proof {
        lemma_fma_term_bound(p.cores as int, rate as int, units as int);
    }
    (p.cores as u128) * (rate as u128) * 32 * (units as u128)
}

impl System {
    /// Total price of the system in US cents: chassis, blades, boards,
    /// processors and DIMMs.
    #[verifier::loop_isolation(false)]
    pub fn price(&self) -> (r: u128)
        requires
            self@.valid(),
        ensures
            r == total_price(self@),
    {
        let ghost fb = |b: BladeV| blade_price(b);
        let mut acc: u128 = self.price as u128;
        proof {
            assert(self@.blades.take(0) =~= Seq::<BladeV>::empty());
            assert(self@.blades.len() == self.blades@.len());
        }
        let n = self.blades.len();
        for i in 0..n
            invariant
                acc == self@.price + sum_int(self@.blades.take(i as int), fb),
                acc <= (1 + 512 * i) * 0xffff_ffff_ffff_ffff,
        {
            proof {
                assert(self@.blades[i as int].wf());
                assert(self@.blades[i as int].motherboard is Some);
                lemma_mb_bounds(self@.blades[i as int].motherboard->Some_0);
                lemma_sum_take_step(self@.blades, i as int, fb);
            }
            let blade = &self.blades[i];
            let mbp = blade.motherboard.as_ref().unwrap().price_total();
            acc = acc + blade.price as u128 + mbp;
        }
        proof {
            assert(self@.blades.take(n as int) =~= self@.blades);
        }
        acc
    }

    /// Number of bytes of RAM installed across all blades.
    #[verifier::loop_isolation(false)]
    pub fn ram(&self) -> (r: u128)
        requires
            self@.valid(),
        ensures
            r == total_ram(self@),
    {
        let ghost fb = |b: BladeV| blade_ram(b);
        let mut acc: u128 = 0;
        proof {
            assert(self@.blades.take(0) =~= Seq::<BladeV>::empty());
            assert(self@.blades.len() == self.blades@.len());
        }
        let n = self.blades.len();
        for i in 0..n
            invariant
                acc == sum_int(self@.blades.take(i as int), fb),
                acc <= i * 0xfe_ffff_ffff_ffff_ff01,
        {
            proof {
                assert(self@.blades[i as int].wf());
                assert(self@.blades[i as int].motherboard is Some);
                lemma_mb_bounds(self@.blades[i as int].motherboard->Some_0);
                lemma_sum_take_step(self@.blades, i as int, fb);
            }
            acc = acc + self.blades[i].motherboard.as_ref().unwrap().ram_total();
        }
        proof {
            assert(self@.blades.take(n as int) =~= self@.blades);
        }
        acc
    }

    /// Number of processor cores installed across all blades.
    #[verifier::loop_isolation(false)]
    pub fn cores(&self) -> (r: u64)
        requires
            self@.valid(),
        ensures
            r == total_cores(self@),
    {
        let ghost fb = |b: BladeV| blade_cores(b);
        let mut acc: u64 = 0;
        proof {
            assert(self@.blades.take(0) =~= Seq::<BladeV>::empty());
            assert(self@.blades.len() == self.blades@.len());
        }
        let n = self.blades.len();
        for i in 0..n
            invariant
                acc == sum_int(self@.blades.take(i as int), fb),
                acc <= i * 0xfe_ffff_ff01,
        {
            proof {
                assert(self@.blades[i as int].wf());
                assert(self@.blades[i as int].motherboard is Some);
                lemma_mb_bounds(self@.blades[i as int].motherboard->Some_0);
                lemma_sum_take_step(self@.blades, i as int, fb);
            }
            acc = acc + self.blades[i].motherboard.as_ref().unwrap().cores_total();
        }
        proof {
            assert(self@.blades.take(n as int) =~= self@.blades);
        }
        acc
    }

    /// Number of hardware threads installed across all blades.
    #[verifier::loop_isolation(false)]
    pub fn threads(&self) -> (r: u64)
        requires
            self@.valid(),
        ensures
            r == total_threads(self@),
    {
        let ghost fb = |b: BladeV| blade_threads(b);
        let mut acc: u64 = 0;
        proof {
            assert(self@.blades.take(0) =~= Seq::<BladeV>::empty());
            assert(self@.blades.len() == self.blades@.len());
        }
        let n = self.blades.len();
        for i in 0..n
            invariant
                acc == sum_int(self@.blades.take(i as int), fb),
                acc <= i * 0xfe_ffff_ff01,
        {
            proof {
                assert(self@.blades[i as int].wf());
                assert(self@.blades[i as int].motherboard is Some);
                lemma_mb_bounds(self@.blades[i as int].motherboard->Some_0);
                lemma_sum_take_step(self@.blades, i as int, fb);
            }
            acc = acc + self.blades[i].motherboard.as_ref().unwrap().threads_total();
        }
        proof {
            assert(self@.blades.take(n as int) =~= self@.blades);
        }
        acc
    }

    /// Core-weighted sum of base clock rates, in MHz times cores; dividing
    /// by the core count recovers a core-weighted mean clock.
    #[verifier::loop_isolation(false)]
    pub fn clock_rate(&self) -> (r: u128)
        requires
            self@.valid(),
        ensures
            r == total_clock(self@),
    {
        let ghost fb = |b: BladeV| blade_clock(b);
        let mut acc: u128 = 0;
        proof {
            assert(self@.blades.take(0) =~= Seq::<BladeV>::empty());
            assert(self@.blades.len() == self.blades@.len());
        }
        let n = self.blades.len();
        for i in 0..n
            invariant
                acc == sum_int(self@.blades.take(i as int), fb),
                acc <= i * 0xfe_ffff_ff00_ffff_ff01_0000_00ff,
        {
            proof {
                assert(self@.blades[i as int].wf());
                assert(self@.blades[i as int].motherboard is Some);
                lemma_mb_bounds(self@.blades[i as int].motherboard->Some_0);
                lemma_sum_take_step(self@.blades, i as int, fb);
            }
            acc = acc + self.blades[i].motherboard.as_ref().unwrap().clock_total();
        }
        proof {
            assert(self@.blades.take(n as int) =~= self@.blades);
        }
        acc
    }

    /// Peak single-precision AVX-512 FMA throughput at the base AVX-512
    /// clock, in MFLOPS.
    #[verifier::loop_isolation(false)]
    pub fn sp_float_fma_mflops(&self) -> (r: u128)
        requires
            self@.valid(),
        ensures
            r == total_base_fma(self@),
    {
        let ghost fb = |b: BladeV| blade_base_fma(b);
        let mut acc: u128 = 0;
        proof {
            assert(self@.blades.take(0) =~= Seq::<BladeV>::empty());
            assert(self@.blades.len() == self.blades@.len());
        }
        let n = self.blades.len();
        for i in 0..n
            invariant
                acc == sum_int(self@.blades.take(i as int), fb),
                acc <= i * 0x1f_c01f_ffe0_3fdf_ffe0_3fe0_001f_c020,
        {
            proof {
                assert(self@.blades[i as int].wf());
                assert(self@.blades[i as int].motherboard is Some);
                lemma_mb_bounds(self@.blades[i as int].motherboard->Some_0);
                lemma_sum_take_step(self@.blades, i as int, fb);
            }
            acc = acc + self.blades[i].motherboard.as_ref().unwrap().base_fma_total();
        }
        proof {
            assert(self@.blades.take(n as int) =~= self@.blades);
        }
        acc
    }

    /// Peak single-precision AVX-512 FMA throughput at the all-core turbo
    /// AVX-512 clock, in MFLOPS.
    #[verifier::loop_isolation(false)]
    pub fn turbo_sp_float_fma_mflops(&self) -> (r: u128)
        requires
            self@.valid(),
        ensures
            r == total_turbo_fma(self@),
    {
        let ghost fb = |b: BladeV| blade_turbo_fma(b);
        let mut acc: u128 = 0;
        proof {
            assert(self@.blades.take(0) =~= Seq::<BladeV>::empty());
            assert(self@.blades.len() == self.blades@.len());
        }
        let n = self.blades.len();
        for i in 0..n
            invariant
                acc == sum_int(self@.blades.take(i as int), fb),
                acc <= i * 0x1f_c01f_ffe0_3fdf_ffe0_3fe0_001f_c020,
        {
            proof {
                assert(self@.blades[i as int].wf());
                assert(self@.blades[i as int].motherboard is Some);
                lemma_mb_bounds(self@.blades[i as int].motherboard->Some_0);
                lemma_sum_take_step(self@.blades, i as int, fb);
            }
            acc = acc + self.blades[i].motherboard.as_ref().unwrap().turbo_fma_total();
        }
        proof {
            assert(self@.blades.take(n as int) =~= self@.blades);
        }
        acc
    }
}

} // verus!
