//! The search-and-rank loop's core: feasibility filters, deduplication into
//! an accumulating pool, exact performance-per-dollar ranking, and truncation
//! to a bounded leaderboard.
//!
//! The caller draws candidates from an external source and hands them in
//! batches to `Leaderboard::round`; everything decided about a candidate is
//! decided here and verified.

use vstd::prelude::*;
use vstd::pervasive::VecAdditionalExecFns;
use vstd::arithmetic::mul::{lemma_mul_nonnegative, lemma_mul_upper_bound};

use crate::hw::{System, SystemV};
use crate::metrics::{total_price, total_ram, total_threads, total_turbo_fma};

verus! {

/// Number of candidates drawn per round.
pub const DEFAULT_BATCH_SIZE: usize = 100000;

/// Number of retained leaderboard entries after each round.
pub const DEFAULT_LEADERBOARD_SIZE: usize = 50;

/// Floor on installed bytes per hardware thread: 4 GiB.
pub const DEFAULT_MIN_BYTES_PER_THREAD: u64 = 4 * 1024 * 1024 * 1024;

/// Ceiling on the total system price: $35,000, in cents.
pub const DEFAULT_MAX_PRICE_CENTS: u64 = 3500000;

/// Tunable constants of the search loop.
#[derive(Clone, Copy, Debug, PartialEq, Eq, Structural)]
pub struct SearchConfig {
    /// Candidates drawn per round.
    pub batch_size: usize,
    /// Entries kept after each round's truncation.
    pub leaderboard_size: usize,
    /// Floor on installed bytes per hardware thread.
    pub min_bytes_per_thread: u64,
    /// Ceiling on the total system price, in cents.
    pub max_price_cents: u64,
}

impl SearchConfig {
    /// The standard configuration: 100,000 draws per round, 50 retained
    /// entries, 4 GiB per thread, $35,000 ceiling.
    pub fn standard() -> (c: SearchConfig)
        ensures
            c.batch_size == DEFAULT_BATCH_SIZE,
            c.leaderboard_size == DEFAULT_LEADERBOARD_SIZE,
            c.min_bytes_per_thread == DEFAULT_MIN_BYTES_PER_THREAD,
            c.max_price_cents == DEFAULT_MAX_PRICE_CENTS,
    {
        SearchConfig {
            batch_size: DEFAULT_BATCH_SIZE,
            leaderboard_size: DEFAULT_LEADERBOARD_SIZE,
            min_bytes_per_thread: DEFAULT_MIN_BYTES_PER_THREAD,
            max_price_cents: DEFAULT_MAX_PRICE_CENTS,
        }
    }
}

/// The mathematical values of a pool of systems.
pub open spec fn views_of(s: Seq<System>) -> Seq<SystemV> {
    s.map_values(|x: System| x@)
}

/// The memory-density filter: at least `min_bpt` bytes of RAM per hardware
/// thread. A system without threads is rejected.
pub open spec fn passes_memory_filter(s: SystemV, min_bpt: int) -> bool {
    total_threads(s) > 0 && total_ram(s) >= total_threads(s) * min_bpt
}

/// The budget filter: total price at most `max_price` cents.
pub open spec fn passes_price_filter(s: SystemV, max_price: int) -> bool {
    total_price(s) <= max_price
}

/// A candidate worth keeping: valid, memory-dense enough, within budget.
pub open spec fn feasible(s: SystemV, cfg: SearchConfig) -> bool {
    &&& s.valid()
    &&& passes_memory_filter(s, cfg.min_bytes_per_thread as int)
    &&& passes_price_filter(s, cfg.max_price_cents as int)
}

/// Whether a structurally identical system is already in the pool.
pub open spec fn in_pool(pool: Seq<SystemV>, s: SystemV) -> bool {
    pool.contains(s)
}

/// The pool's running invariant: every entry is feasible and no two entries
/// are structurally identical.
pub open spec fn pool_inv(pool: Seq<SystemV>, cfg: SearchConfig) -> bool {
    &&& forall|i: int| 0 <= i < pool.len() ==> feasible(#[trigger] pool[i], cfg)
    &&& pool.no_duplicates()
}

/// What became of one candidate.
#[derive(Clone, Copy, Debug, PartialEq, Eq, Structural)]
pub enum Verdict {
    /// Appended to the pool.
    Added,
    /// Not valid: a blade without a motherboard, an overfull chassis, or a
    /// part breaking its own invariant; the candidate source broke its
    /// contract and the candidate is rejected rather than crashing the loop.
    Malformed,
    /// Less than the configured bytes of RAM per hardware thread.
    BelowMemoryFloor,
    /// Total price above the configured ceiling.
    OverBudget,
    /// Structurally identical to a pool entry.
    Duplicate,
}

/// Appending a system appends its value to the pool's value.
proof fn lemma_views_push(s: Seq<System>, x: System)
    ensures
        views_of(s.push(x)) == views_of(s).push(x@),
{
    assert(views_of(s.push(x)) =~= views_of(s).push(x@));
}

/// Whether `s` is structurally identical to some pool entry.
fn pool_contains(pool: &Vec<System>, s: &System) -> (r: bool)
    ensures
        r == in_pool(views_of(pool@), s@),
{
    for i in 0..pool.len()
        invariant
            forall|k: int| 0 <= k < i ==> views_of(pool@)[k] != s@,
    {
        if pool[i].deep_eq(s) {
            proof {
                assert(views_of(pool@)[i as int] == s@);
            }
            return true;
        }
    }
    proof {
        if views_of(pool@).contains(s@) {
            let k = choose|k: int| 0 <= k < views_of(pool@).len()
                && views_of(pool@)[k] == s@;
            assert(views_of(pool@)[k] != s@);
        }
    }
    false
}

/// Considers one candidate for the pool: rejects it if malformed, too
/// memory-starved, over budget, or already present; appends it otherwise.
/// Returns what happened, each verdict exactly characterised.
pub fn push_candidate(pool: &mut Vec<System>, cand: System, cfg: &SearchConfig) -> (v: Verdict)
    ensures
        v == Verdict::Added ==> views_of(final(pool)@) == views_of(old(pool)@).push(cand@),
        v != Verdict::Added ==> final(pool)@ == old(pool)@,
        (v == Verdict::Malformed) <==> !cand@.valid(),
        (v == Verdict::BelowMemoryFloor) <==> (cand@.valid() && !passes_memory_filter(
            cand@, cfg.min_bytes_per_thread as int)),
        (v == Verdict::OverBudget) <==> (cand@.valid() && passes_memory_filter(
            cand@, cfg.min_bytes_per_thread as int) && !passes_price_filter(
            cand@, cfg.max_price_cents as int)),
        (v == Verdict::Duplicate) <==> (feasible(cand@, *cfg) && in_pool(
            views_of(old(pool)@), cand@)),
        (v == Verdict::Added) <==> (feasible(cand@, *cfg) && !in_pool(
            views_of(old(pool)@), cand@)),
        pool_inv(views_of(old(pool)@), *cfg) ==> pool_inv(views_of(final(pool)@), *cfg),
{
    if !cand.is_valid() {
        return Verdict::Malformed;
    }
    let thr = cand.threads();
    let ram = cand.ram();
    proof {
        lemma_mul_nonnegative(thr as int, cfg.min_bytes_per_thread as int);
        lemma_mul_upper_bound(thr as int, 0xffff_ffff_ffff_ffff,
            cfg.min_bytes_per_thread as int, 0xffff_ffff_ffff_ffff);
        assert(0xffff_ffff_ffff_ffff * 0xffff_ffff_ffff_ffff
            == 0xffff_ffff_ffff_fffe_0000_0000_0000_0001) by (nonlinear_arith);
    }
    if thr == 0 || ram < (thr as u128) * (cfg.min_bytes_per_thread as u128) {
        return Verdict::BelowMemoryFloor;
    }
    let price = cand.price();
    if price > cfg.max_price_cents as u128 {
        return Verdict::OverBudget;
    }
    if pool_contains(pool, &cand) {
        return Verdict::Duplicate;
    }
    let ghost old_views = views_of(pool@);
    let ghost cv = cand@;
    pool.push(cand);
    proof {
        lemma_views_push(old(pool)@, cand);
        assert(views_of(pool@) == old_views.push(cv));
        if pool_inv(old_views, *cfg) {
            assert forall|i: int| 0 <= i < views_of(pool@).len() implies feasible(
                #[trigger] views_of(pool@)[i], *cfg) by {
                if i < old_views.len() {
                    assert(views_of(pool@)[i] == old_views[i]);
                } else {
                    assert(views_of(pool@)[i] == cv);
                }
            }
            assert(views_of(pool@).no_duplicates()) by {
                assert(forall|i: int, j: int| 0 <= i < j < views_of(pool@).len()
                    ==> views_of(pool@)[i] != views_of(pool@)[j]) by {
                    assert(!old_views.contains(cv));
                }
            }
        }
    }
    Verdict::Added
}

/// The values of a batch of optional candidates.
pub open spec fn opt_views_of(s: Seq<Option<System>>) -> Seq<Option<SystemV>> {
    s.map_values(|o: Option<System>| match o {
        Option::Some(x) => Option::Some(x@),
        Option::None => Option::None,
    })
}

/// Whether a candidate would be appended: feasible and not yet present.
pub open spec fn should_add(pool: Seq<SystemV>, s: SystemV, cfg: SearchConfig) -> bool {
    feasible(s, cfg) && !in_pool(pool, s)
}

/// The pool after one batch, candidates considered in draw order; an empty
/// draw is a skip.
pub open spec fn pool_after_batch(
    pool: Seq<SystemV>,
    batch: Seq<Option<SystemV>>,
    cfg: SearchConfig,
) -> Seq<SystemV>
    decreases batch.len(),
{
    if batch.len() == 0 {
        pool
    } else {
        let next = match batch.first() {
            Option::Some(s) => if should_add(pool, s, cfg) {
                pool.push(s)
            } else {
                pool
            },
            Option::None => pool,
        };
        pool_after_batch(next, batch.drop_first(), cfg)
    }
}

/// Runs one batch of drawn candidates through the filters and the
/// deduplication, appending the survivors to the pool in draw order.
#[verifier::loop_isolation(false)]
pub fn process_batch(pool: &mut Vec<System>, batch: Vec<Option<System>>, cfg: &SearchConfig)
    ensures
        views_of(final(pool)@) == pool_after_batch(
            views_of(old(pool)@), opt_views_of(batch@), *cfg),
        pool_inv(views_of(old(pool)@), *cfg) ==> pool_inv(views_of(final(pool)@), *cfg),
{
    let ghost orig_pool = views_of(pool@);
    let ghost bviews = opt_views_of(batch@);
    proof {
        assert(bviews.skip(0) =~= bviews);
    }
    let mut batch = batch;
    let n = batch.len();
    for i in 0..n
        invariant
            batch.len() == n,
            opt_views_of(batch@).skip(i as int) == bviews.skip(i as int),
            pool_after_batch(orig_pool, bviews, *cfg) == pool_after_batch(
                views_of(pool@), bviews.skip(i as int), *cfg),
            pool_inv(orig_pool, *cfg) ==> pool_inv(views_of(pool@), *cfg),
    {
        let ghost pre_pool = views_of(pool@);
        let ghost rem = bviews.skip(i as int);
        proof {
            assert(rem.first() == bviews[i as int]);
            assert(rem.drop_first() =~= bviews.skip(i as int + 1));
            assert(opt_views_of(batch@)[i as int] == bviews[i as int]);
        }
        let mut slot: Option<System> = Option::None;
        batch.set_and_swap(i, &mut slot);
        proof {
            assert(opt_views_of(batch@).skip(i as int + 1) =~= bviews.skip(i as int + 1));
        }
        match slot {
            Option::Some(cand) => {
                proof {
                    assert(bviews[i as int] == Option::Some(cand@));
                }
                let v = push_candidate(pool, cand, cfg);
                proof {
                    if v == Verdict::Added {
                        assert(views_of(pool@) == pre_pool.push(bviews[i as int]->Some_0));
                    } else {
                        assert(views_of(pool@) =~= pre_pool);
                    }
                }
            },
            Option::None => {
                proof {
                    assert(bviews[i as int] is None);
                }
            },
        }
    }
    proof {
        assert(bviews.skip(n as int) =~= Seq::<Option<SystemV>>::empty());
    }
}

/// The exact ranking order: ascending turbo throughput per dollar, compared
/// as rational numbers by cross-multiplication. A free system with any
/// throughput ranks above everything.
pub open spec fn score_le(a: SystemV, b: SystemV) -> bool {
    total_turbo_fma(a) * total_price(b) <= total_turbo_fma(b) * total_price(a)
}

/// If the quotient of `ta / pa` is smaller than that of `tb / pb`, the
/// fraction is strictly smaller.
proof fn lemma_ratio_quotient_lt(ta: int, pa: int, tb: int, pb: int, qa: int, ra: int,
    qb: int, rb: int)
    requires
        pa > 0,
        pb > 0,
        ta == qa * pa + ra,
        0 <= ra < pa,
        tb == qb * pb + rb,
        0 <= rb < pb,
        qa < qb,
    ensures
        ta * pb < tb * pa,
{
    assert(ta * pb < tb * pa) by (nonlinear_arith)
        requires
            pa > 0,
            pb > 0,
            ta == qa * pa + ra,
            0 <= ra < pa,
            tb == qb * pb + rb,
            0 <= rb,
            qa + 1 <= qb,
    {
        assert(ta * pb == qa * pa * pb + ra * pb);
        assert(ta * pb < (qa + 1) * pa * pb);
        assert((qa + 1) * pa * pb <= qb * pa * pb);
        assert(qb * pb * pa <= tb * pa);
    }
}

/// With equal quotients, comparing the fractions is comparing the
/// remainders' cross-products.
proof fn lemma_ratio_same_quotient(ta: int, pa: int, tb: int, pb: int, q: int, ra: int, rb: int)
    requires
        pa > 0,
        pb > 0,
        ta == q * pa + ra,
        tb == q * pb + rb,
    ensures
        (ta * pb <= tb * pa) == (ra * pb <= rb * pa),
{
    assert(ta * pb - tb * pa == ra * pb - rb * pa) by (nonlinear_arith)
        requires
            ta == q * pa + ra,
            tb == q * pb + rb,
    ;
}

/// Compares `ta / pa <= tb / pb` exactly, as rationals, without overflow:
/// equal quotients reduce the comparison to the remainders, whose
/// cross-products fit in `u128` because prices fit in `u64`.
fn ratio_le(ta: u128, pa: u128, tb: u128, pb: u128) -> (r: bool)
    requires
        pa <= u64::MAX,
        pb <= u64::MAX,
    ensures
        r == (ta * pb <= tb * pa),
{
    if pa == 0 && pb == 0 {
        proof {
            assert(ta * 0 == 0);
            assert(tb * 0 == 0);
        }
        true
    } else if pa == 0 {
        proof {
            assert(tb * 0 == 0);
            lemma_mul_nonnegative(ta as int, pb as int);
            if ta > 0 {
                vstd::arithmetic::mul::lemma_mul_strictly_positive(ta as int, pb as int);
            }
        }
        ta == 0
    } else if pb == 0 {
        proof {
            assert(ta * 0 == 0);
            lemma_mul_nonnegative(tb as int, pa as int);
        }
        true
    } else {
        let qa = ta / pa;
        let ra = ta % pa;
        let qb = tb / pb;
        let rb = tb % pb;
        proof {
            vstd::arithmetic::div_mod::lemma_fundamental_div_mod(ta as int, pa as int);
            vstd::arithmetic::div_mod::lemma_fundamental_div_mod(tb as int, pb as int);
            vstd::arithmetic::div_mod::lemma_mod_bound(ta as int, pa as int);
            vstd::arithmetic::div_mod::lemma_mod_bound(tb as int, pb as int);
        }
        proof {
            assert(pa * (ta as int / pa as int) == (ta as int / pa as int) * pa)
                by (nonlinear_arith);
            assert(pb * (tb as int / pb as int) == (tb as int / pb as int) * pb)
                by (nonlinear_arith);
        }
        if qa != qb {
            proof {
                if qa < qb {
                    lemma_ratio_quotient_lt(ta as int, pa as int, tb as int, pb as int,
                        qa as int, ra as int, qb as int, rb as int);
                } else {
                    lemma_ratio_quotient_lt(tb as int, pb as int, ta as int, pa as int,
                        qb as int, rb as int, qa as int, ra as int);
                }
            }
            qa < qb
        } else {
            proof {
                lemma_mul_nonnegative(ra as int, pb as int);
                lemma_mul_upper_bound(ra as int, 0xffff_ffff_ffff_ffff, pb as int,
                    0xffff_ffff_ffff_ffff);
                lemma_mul_nonnegative(rb as int, pa as int);
                lemma_mul_upper_bound(rb as int, 0xffff_ffff_ffff_ffff, pa as int,
                    0xffff_ffff_ffff_ffff);
                assert(0xffff_ffff_ffff_ffff * 0xffff_ffff_ffff_ffff
                    == 0xffff_ffff_ffff_fffe_0000_0000_0000_0001) by (nonlinear_arith);
                lemma_ratio_same_quotient(ta as int, pa as int, tb as int, pb as int,
                    qa as int, ra as int, rb as int);
            }
            ra * pb <= rb * pa
        }
    }
}

/// Pool entries the ranking phase can handle: valid systems whose total
/// price fits in a `u64` (every feasible system qualifies).
pub open spec fn sortable(pool: Seq<SystemV>) -> bool {
    forall|i: int| 0 <= i < pool.len() ==> (#[trigger] pool[i]).valid()
        && total_price(pool[i]) <= u64::MAX
}

/// Adjacent entries are in ascending turbo-throughput-per-dollar order.
pub open spec fn ranked(s: Seq<SystemV>) -> bool {
    forall|i: int| 0 <= i < s.len() - 1 ==> score_le(s[i], #[trigger] s[i + 1])
}

/// The first `m` entries are in ascending order.
pub open spec fn ranked_to(s: Seq<SystemV>, m: int) -> bool {
    forall|i: int| 0 <= i < m - 1 ==> score_le(s[i], #[trigger] s[i + 1])
}

/// Ascending turbo-throughput-per-dollar comparison of two systems.
fn system_score_le(a: &System, b: &System) -> (r: bool)
    requires
        a@.valid(),
        b@.valid(),
        total_price(a@) <= u64::MAX,
        total_price(b@) <= u64::MAX,
    ensures
        r == score_le(a@, b@),
{
    let ta = a.turbo_sp_float_fma_mflops();
    let pa = a.price();
    let tb = b.turbo_sp_float_fma_mflops();
    let pb = b.price();
    ratio_le(ta, pa, tb, pb)
}

/// Removing an element removes its value from the pool's value.
proof fn lemma_views_remove(s: Seq<System>, i: int)
    requires
        0 <= i < s.len(),
    ensures
        views_of(s.remove(i)) == views_of(s).remove(i),
{
    assert(views_of(s.remove(i)) =~= views_of(s).remove(i));
}

/// Inserting an element inserts its value into the pool's value.
proof fn lemma_views_insert(s: Seq<System>, i: int, x: System)
    requires
        0 <= i <= s.len(),
    ensures
        views_of(s.insert(i, x)) == views_of(s).insert(i, x@),
{
    assert(views_of(s.insert(i, x)) =~= views_of(s).insert(i, x@));
}

/// Inserting anywhere adds one copy to the multiset of entries.
proof fn lemma_insert_to_multiset<T>(s: Seq<T>, i: int, x: T)
    requires
        0 <= i <= s.len(),
    ensures
        s.insert(i, x).to_multiset() == s.to_multiset().insert(x),
{
    broadcast use vstd::seq_lib::group_to_multiset_ensures;

    let left = s.take(i);
    let right = s.skip(i);
    assert(s.insert(i, x) =~= left.push(x) + right);
    vstd::seq_lib::lemma_multiset_commutative(left.push(x), right);
    assert(s =~= left + right);
    vstd::seq_lib::lemma_multiset_commutative(left, right);
    assert(left.push(x).to_multiset() =~= left.to_multiset().insert(x));
    assert(s.insert(i, x).to_multiset() =~= s.to_multiset().insert(x));
}

/// Finds the position at which the entry at `at` belongs among the first
/// `upto` entries: the lowest index whose successors all rank strictly
/// above it, which keeps the sort stable.
#[verifier::loop_isolation(false)]
fn find_pos(pool: &Vec<System>, upto: usize, at: usize) -> (j: usize)
    requires
        upto <= at < pool@.len(),
        sortable(views_of(pool@)),
    ensures
        j <= upto,
        forall|k: int| j <= k < upto ==> score_le(views_of(pool@)[at as int],
            #[trigger] views_of(pool@)[k]),
        j > 0 ==> score_le(views_of(pool@)[j - 1], views_of(pool@)[at as int]),
{
    let ghost views = views_of(pool@);
    let mut j: usize = upto;
    let mut stop = false;
    while !stop
        invariant
            j <= upto,
            forall|k: int| j <= k < upto ==> score_le(views[at as int], #[trigger] views[k]),
            stop ==> (j == 0 || score_le(views[j - 1], views[at as int])),
        decreases (if stop { 0int } else { j + 1 }),
    {
        if j == 0 {
            stop = true;
        } else {
            proof {
                assert(views[j - 1] == pool@[j - 1]@);
                assert(views[at as int] == pool@[at as int]@);
            }
            if system_score_le(&pool[j - 1], &pool[at]) {
                stop = true;
            } else {
                proof {
                    assert(score_le(views[at as int], views[j - 1]));
                }
                j = j - 1;
            }
        }
    }
    j
}

/// Sorts the pool ascending by exact turbo-throughput-per-dollar with a
/// stable insertion sort: a permutation of the input in ranked order.
#[verifier::loop_isolation(false)]
#[verifier::rlimit(100)]
pub fn rank_pool(pool: &mut Vec<System>)
    requires
        sortable(views_of(old(pool)@)),
    ensures
        final(pool)@.len() == old(pool)@.len(),
        views_of(final(pool)@).to_multiset() == views_of(old(pool)@).to_multiset(),
        ranked(views_of(final(pool)@)),
        sortable(views_of(final(pool)@)),
{
    broadcast use vstd::seq_lib::group_to_multiset_ensures;

    let ghost orig = views_of(pool@);
    let n = pool.len();
    if n == 0 {
        return;
    }
    let mut i: usize = 1;
    while i < n
        invariant
            1 <= i <= n,
            pool.len() == n,
            views_of(pool@).to_multiset() == orig.to_multiset(),
            sortable(views_of(pool@)),
            ranked_to(views_of(pool@), i as int),
        decreases n - i,
    {
        let ghost pexec = pool@;
        let ghost pre = views_of(pool@);
        let j = find_pos(pool, i, i);
        let x = pool.remove(i);
        proof {
            lemma_views_remove(pexec, i as int);
        }
        let ghost rest = views_of(pool@);
        let ghost jj = j as int;
        proof {
            assert(x@ == pre[i as int]);
            assert(forall|k: int| 0 <= k < i ==> rest[k] == pre[k]);
            assert(forall|k: int| jj <= k < i ==> score_le(x@, #[trigger] rest[k]));
            assert(jj > 0 ==> score_le(rest[jj - 1], x@));
        }
        let ghost ii = i as int;
        let ghost pexec2 = pool@;
        pool.insert(j, x);
        proof {
            lemma_views_insert(pexec2, jj, x);
            let now = views_of(pool@);
            assert(now == rest.insert(jj, x@));
            lemma_insert_to_multiset(rest, jj, x@);
            assert(pre.remove(ii).to_multiset() =~= pre.to_multiset().remove(pre[ii]));
            assert(rest.to_multiset() == pre.to_multiset().remove(pre[ii]));
            assert(pre.to_multiset().contains(pre[ii]));
            assert(now.to_multiset() =~= pre.to_multiset());
            assert forall|k: int| 0 <= k < ii implies score_le(now[k], #[trigger] now[k + 1]) by {
                if k + 1 < jj {
                    assert(score_le(pre[k], #[trigger] pre[k + 1]));
                    assert(now[k] == rest[k] && rest[k] == pre[k]);
                    assert(now[k + 1] == rest[k + 1] && rest[k + 1] == pre[k + 1]);
                } else if k + 1 == jj {
                    assert(now[k] == rest[k]);
                    assert(now[k + 1] == x@);
                    assert(score_le(rest[jj - 1], x@));
                } else if k == jj {
                    assert(now[k] == x@);
                    assert(now[k + 1] == rest[jj]);
                    assert(score_le(x@, rest[jj]));
                } else {
                    let m = k - 1;
                    assert(score_le(pre[m], pre[m + 1]));
                    assert(now[k] == rest[k - 1] && rest[k - 1] == pre[k - 1]);
                    assert(now[k + 1] == rest[k] && rest[k] == pre[k]);
                }
            }
            assert(ranked_to(views_of(pool@), ii + 1));
            assert forall|k: int| 0 <= k < n implies (#[trigger] now[k]).valid()
                && total_price(now[k]) <= u64::MAX by {
                if k < jj {
                    assert(now[k] == rest[k]);
                } else if k == jj {
                    assert(now[k] == x@ && x@ == pre[ii]);
                } else {
                    assert(now[k] == rest[k - 1]);
                }
            }
        }
        i = i + 1;
    }
}

/// Keeps only the highest-ranked `keep` entries (the tail of an ascending
/// sort); a no-op when the pool is no larger than that.
pub fn truncate_pool(pool: &mut Vec<System>, keep: usize)
    ensures
        final(pool)@.len() == (if old(pool)@.len() <= keep {
            old(pool)@.len() as int
        } else {
            keep as int
        }),
        old(pool)@.len() <= keep ==> final(pool)@ == old(pool)@,
        old(pool)@.len() > keep ==> views_of(final(pool)@) == views_of(old(pool)@).skip(
            old(pool)@.len() - keep),
{
    if pool.len() > keep {
        let cut = pool.len() - keep;
        let tail = pool.split_off(cut);
        let ghost pre = views_of(pool@);
        *pool = tail;
        proof {
            assert(views_of(pool@) =~= views_of(old(pool)@).skip(
                old(pool)@.len() - keep as int));
        }
    }
}

/// A permutation of a pool satisfying the invariant satisfies it too.
proof fn lemma_perm_preserves_pool_inv(a: Seq<SystemV>, b: Seq<SystemV>, cfg: SearchConfig)
    requires
        a.to_multiset() == b.to_multiset(),
        pool_inv(a, cfg),
    ensures
        pool_inv(b, cfg),
{
    broadcast use vstd::seq_lib::group_to_multiset_ensures;

    assert forall|i: int| 0 <= i < b.len() implies feasible(#[trigger] b[i], cfg) by {
        assert(b.contains(b[i]));
        assert(b.to_multiset().count(b[i]) > 0);
        assert(a.contains(b[i]));
        let j = choose|j: int| 0 <= j < a.len() && a[j] == b[i];
        assert(feasible(a[j], cfg));
    }
    a.lemma_multiset_has_no_duplicates();
    b.lemma_multiset_has_no_duplicates_conv();
}

/// The accumulating, deduplicated pool of feasible candidates together with
/// its configuration; after each round it holds at most `leaderboard_size`
/// systems in ascending turbo-throughput-per-dollar order.
pub struct Leaderboard {
    pool: Vec<System>,
    config: SearchConfig,
}

impl View for Leaderboard {
    type V = Seq<SystemV>;

    closed spec fn view(&self) -> Seq<SystemV> {
        views_of(self.pool@)
    }
}

impl Leaderboard {
    /// The configuration this leaderboard was created with.
    pub closed spec fn spec_config(&self) -> SearchConfig {
        self.config
    }

    /// The leaderboard's invariant: every entry feasible, no two identical.
    pub open spec fn wf(&self) -> bool {
        pool_inv(self@, self.spec_config())
    }

    /// An empty leaderboard under the given configuration.
    pub fn new(config: SearchConfig) -> (lb: Leaderboard)
        ensures
            lb.wf(),
            lb@ == Seq::<SystemV>::empty(),
            lb.spec_config() == config,
    {
        let lb = Leaderboard { pool: Vec::new(), config };
        proof {
            assert(views_of(lb.pool@) =~= Seq::<SystemV>::empty());
        }
        lb
    }

    /// The configuration in use.
    pub fn config(&self) -> (c: SearchConfig)
        ensures
            c == self.spec_config(),
    {
        self.config
    }

    /// Number of retained systems.
    pub fn len(&self) -> (n: usize)
        ensures
            n == self@.len(),
    {
        self.pool.len()
    }

    /// The retained system at index `i`; after a round, index 0 ranks
    /// lowest and the last index highest.
    pub fn get(&self, i: usize) -> (s: &System)
        requires
            i < self@.len(),
        ensures
            s@ == self@[i as int],
    {
        &self.pool[i]
    }

    /// One round of the search: run a batch of drawn candidates through the
    /// filters and the deduplication, rank the whole pool ascending by
    /// exact turbo throughput per dollar, and keep only the top
    /// `leaderboard_size` entries.
    pub fn round(&mut self, batch: Vec<Option<System>>)
        requires
            old(self).wf(),
        ensures
            final(self).wf(),
            final(self).spec_config() == old(self).spec_config(),
            ranked(final(self)@),
            final(self)@.len() == (if pool_after_batch(old(self)@, opt_views_of(batch@),
                old(self).spec_config()).len() <= old(self).spec_config().leaderboard_size {
                pool_after_batch(old(self)@, opt_views_of(batch@),
                    old(self).spec_config()).len() as int
            } else {
                old(self).spec_config().leaderboard_size as int
            }),
            forall|i: int| 0 <= i < final(self)@.len() ==> pool_after_batch(old(self)@,
                opt_views_of(batch@), old(self).spec_config()).contains(
                #[trigger] final(self)@[i]),
            exists|sorted: Seq<SystemV>|
                #![auto]
                sorted.to_multiset() == pool_after_batch(old(self)@, opt_views_of(batch@),
                    old(self).spec_config()).to_multiset()
                && ranked(sorted)
                && final(self)@ == sorted.skip(sorted.len() - final(self)@.len()),
    {
        let ghost cfg = self.config;
        let ghost bviews = opt_views_of(batch@);
        let ghost mid = pool_after_batch(views_of(self.pool@), bviews, cfg);
        let cfgc = self.config;
        process_batch(&mut self.pool, batch, &cfgc);
        proof {
            assert(views_of(self.pool@) == mid);
            assert(pool_inv(mid, cfg));
            assert forall|i: int| 0 <= i < mid.len() implies (#[trigger] mid[i]).valid()
                && total_price(mid[i]) <= u64::MAX by {
                assert(feasible(mid[i], cfg));
            }
        }
        rank_pool(&mut self.pool);
        let ghost sorted = views_of(self.pool@);
        proof {
            lemma_perm_preserves_pool_inv(mid, sorted, cfg);
            broadcast use vstd::seq_lib::group_to_multiset_ensures;

            assert forall|i: int| 0 <= i < sorted.len() implies mid.contains(
                #[trigger] sorted[i]) by {
                assert(sorted.contains(sorted[i]));
                assert(sorted.to_multiset().count(sorted[i]) > 0);
            }
        }
        truncate_pool(&mut self.pool, cfgc.leaderboard_size);
        proof {
            let kept = views_of(self.pool@);
            let c = sorted.len() - kept.len();
            assert(forall|i: int| 0 <= i < kept.len() ==> #[trigger] kept[i] == sorted[c + i]);
            assert forall|i: int| 0 <= i < kept.len() - 1 implies score_le(kept[i],
                #[trigger] kept[i + 1]) by {
                let m = c + i;
                assert(score_le(sorted[m], sorted[m + 1]));
            }
            assert forall|i: int| 0 <= i < kept.len() implies feasible(#[trigger] kept[i],
                cfg) by {
                assert(feasible(sorted[c + i], cfg));
            }
            assert(kept.no_duplicates()) by {
                assert forall|i: int, j: int| 0 <= i < j < kept.len() implies
                    kept[i] != kept[j] by {
                    assert(sorted[c + i] != sorted[c + j]);
                }
            }
            assert forall|i: int| 0 <= i < kept.len() implies mid.contains(
                #[trigger] kept[i]) by {
                assert(mid.contains(sorted[c + i]));
            }
            assert(sorted.skip(0) =~= sorted);
            assert(sorted.to_multiset() == mid.to_multiset() && ranked(sorted)
                && kept == sorted.skip(sorted.len() - kept.len()));
        }
    }
}

} // verus!
