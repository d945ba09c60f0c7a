use hwsearch::hw::{Blade, BladeType, Memory, MemoryType, Motherboard, MotherboardFormFactor,
    Processor, ProcessorType, System};
use hwsearch::search::{Leaderboard, SearchConfig, Verdict, push_candidate,
    DEFAULT_BATCH_SIZE, DEFAULT_LEADERBOARD_SIZE, DEFAULT_MAX_PRICE_CENTS,
    DEFAULT_MIN_BYTES_PER_THREAD};

const GIB: u64 = 1024 * 1024 * 1024;

/// A single-blade system: `ram_gib` of memory, 8 cores / 16 threads, the
/// given AVX-512 turbo clock in MHz, and the given chassis price in cents
/// on top of fixed part prices.
fn build_system(name: &str, chassis_cents: u64, ram_gib: u64, turbo_mhz: u64) -> System {
    let p = Processor {
        manufacturer: String::from("Intel"),
        name: String::from("Xeon Test 8C"),
        price: 50000,
        clock_rate: 2500,
        turbo_rate: Some(3200),
        avx512_rate: Some(1500),
        avx512_turbo_rate: Some(turbo_mhz),
        cores: 8,
        threads: 16,
        avx512_fma_units: Some(2),
        typ: ProcessorType::XeonScalableV2_FCLGA3647,
        scalability: 2,
        mem_support: MemoryType::DDR4_2933,
        mem_channels: 6,
    };
    let m = Memory {
        manufacturer: String::from("Samsung"),
        name: String::from("Test DIMM"),
        price: 15000,
        typ: MemoryType::DDR4_2933,
        size: ram_gib * GIB,
    };
    let mb = Motherboard {
        manufacturer: String::from("Supermicro"),
        name: String::from("Test Board"),
        price: 10000,
        form_factor: MotherboardFormFactor::B11SPE,
        proc_support: ProcessorType::XeonScalableV2_FCLGA3647,
        scalability: 2,
        memory_sockets: 12,
        dimms_per_channel: 1,
        processors: vec![p],
        memory: vec![m],
    };
    let b = Blade {
        manufacturer: String::from("Supermicro"),
        name: String::from("Test Blade"),
        price: 15000,
        blade_type: BladeType::Standalone,
        mb_form_factor: vec![MotherboardFormFactor::B11SPE],
        motherboard: Some(mb),
    };
    System {
        manufacturer: String::from("Supermicro"),
        name: String::from(name),
        price: chassis_cents,
        blade_type: BladeType::Standalone,
        num_blades: 1,
        blades: vec![b],
    }
}

/// Fixed non-chassis part prices of `build_system`, in cents.
const PARTS_CENTS: u64 = 15000 + 10000 + 50000 + 15000;

fn standard() -> SearchConfig {
    SearchConfig::standard()
}

#[test]
fn standard_config_values() {
    let c = standard();
    assert_eq!(c.batch_size, 100000);
    assert_eq!(c.leaderboard_size, 50);
    assert_eq!(c.min_bytes_per_thread, 4 * GIB);
    assert_eq!(c.max_price_cents, 3500000);
    assert_eq!(c.batch_size, DEFAULT_BATCH_SIZE);
    assert_eq!(c.leaderboard_size, DEFAULT_LEADERBOARD_SIZE);
    assert_eq!(c.min_bytes_per_thread, DEFAULT_MIN_BYTES_PER_THREAD);
    assert_eq!(c.max_price_cents, DEFAULT_MAX_PRICE_CENTS);
}

#[test]
fn scenario_system_fails_the_memory_filter() {
    // 32 GiB over 16 threads is 2 GiB per thread: below the 4 GiB floor.
    let cfg = standard();
    let mut pool: Vec<System> = Vec::new();
    let v = push_candidate(&mut pool, build_system("scenario", 10000, 32, 2000), &cfg);
    assert_eq!(v, Verdict::BelowMemoryFloor);
    assert!(pool.is_empty());
}

#[test]
fn memory_filter_boundary() {
    let cfg = standard();
    let mut pool: Vec<System> = Vec::new();
    // exactly 4 GiB per thread passes
    let v = push_candidate(&mut pool, build_system("exact", 10000, 64, 2000), &cfg);
    assert_eq!(v, Verdict::Added);
    // one byte less per 16 threads fails
    let mut starved = build_system("starved", 10000, 64, 2000);
    starved.blades[0].motherboard.as_mut().unwrap().memory[0].size = 64 * GIB - 1;
    let v = push_candidate(&mut pool, starved, &cfg);
    assert_eq!(v, Verdict::BelowMemoryFloor);
    assert_eq!(pool.len(), 1);
}

#[test]
fn price_filter_boundary() {
    let cfg = standard();
    let mut pool: Vec<System> = Vec::new();
    // total exactly at the $35,000 ceiling passes
    let at_limit = build_system("at limit", 3500000 - PARTS_CENTS, 64, 2000);
    assert_eq!(at_limit.price(), 3500000);
    let v = push_candidate(&mut pool, at_limit, &cfg);
    assert_eq!(v, Verdict::Added);
    // one cent over is rejected
    let over = build_system("over", 3500000 - PARTS_CENTS + 1, 64, 2000);
    let v = push_candidate(&mut pool, over, &cfg);
    assert_eq!(v, Verdict::OverBudget);
    assert_eq!(pool.len(), 1);
}

#[test]
fn malformed_candidate_is_rejected_not_fatal() {
    let cfg = standard();
    let mut pool: Vec<System> = Vec::new();
    let mut bare = build_system("bare", 10000, 64, 2000);
    bare.blades[0].motherboard = None;
    let v = push_candidate(&mut pool, bare, &cfg);
    assert_eq!(v, Verdict::Malformed);
    assert!(pool.is_empty());
}

#[test]
fn duplicate_is_rejected() {
    let cfg = standard();
    let mut pool: Vec<System> = Vec::new();
    let v = push_candidate(&mut pool, build_system("twin", 10000, 64, 2000), &cfg);
    assert_eq!(v, Verdict::Added);
    let v = push_candidate(&mut pool, build_system("twin", 10000, 64, 2000), &cfg);
    assert_eq!(v, Verdict::Duplicate);
    assert_eq!(pool.len(), 1);
}

#[test]
fn duplicates_across_rounds_leave_one_copy() {
    let mut lb = Leaderboard::new(standard());
    lb.round(vec![Some(build_system("twin", 10000, 64, 2000))]);
    assert_eq!(lb.len(), 1);
    lb.round(vec![Some(build_system("twin", 10000, 64, 2000))]);
    assert_eq!(lb.len(), 1);
    lb.round(vec![Some(build_system("other", 20000, 64, 2000))]);
    assert_eq!(lb.len(), 2);
}

#[test]
fn empty_draws_are_skipped() {
    let mut lb = Leaderboard::new(standard());
    lb.round(vec![None, Some(build_system("one", 10000, 64, 2000)), None, None]);
    assert_eq!(lb.len(), 1);
    lb.round(vec![None, None]);
    assert_eq!(lb.len(), 1);
}

#[test]
fn truncation_is_a_no_op_on_a_small_pool() {
    let mut lb = Leaderboard::new(standard());
    let batch = vec![
        Some(build_system("a", 10000, 64, 2000)),
        Some(build_system("b", 20000, 64, 2000)),
        Some(build_system("c", 30000, 64, 2000)),
    ];
    lb.round(batch);
    assert_eq!(lb.len(), 3);
}

#[test]
fn leaderboard_is_bounded() {
    let mut cfg = standard();
    cfg.leaderboard_size = 2;
    let mut lb = Leaderboard::new(cfg);
    let batch = vec![
        Some(build_system("a", 10000, 64, 1000)),
        Some(build_system("b", 11000, 64, 2000)),
        Some(build_system("c", 12000, 64, 3000)),
        Some(build_system("d", 13000, 64, 1500)),
    ];
    lb.round(batch);
    assert_eq!(lb.len(), 2);
}

#[test]
fn ranking_is_ascending_by_turbo_throughput_per_dollar() {
    let mut lb = Leaderboard::new(standard());
    // same price, different turbo clocks: ratio order is clock order
    let batch = vec![
        Some(build_system("mid", 10000, 64, 2000)),
        Some(build_system("slow", 10000, 64, 1000)),
        Some(build_system("fast", 10000, 64, 3000)),
    ];
    lb.round(batch);
    assert_eq!(lb.len(), 3);
    assert_eq!(lb.get(0).name, "slow");
    assert_eq!(lb.get(1).name, "mid");
    assert_eq!(lb.get(2).name, "fast");
    // adjacent ratios are non-decreasing
    for i in 0..lb.len() - 1 {
        let a = lb.get(i);
        let b = lb.get(i + 1);
        assert!(a.turbo_sp_float_fma_mflops() * b.price()
            <= b.turbo_sp_float_fma_mflops() * a.price());
    }
}

#[test]
fn the_best_survive_truncation() {
    let mut cfg = standard();
    cfg.leaderboard_size = 2;
    let mut lb = Leaderboard::new(cfg);
    let batch = vec![
        Some(build_system("worst", 10000, 64, 500)),
        Some(build_system("best", 10000, 64, 3000)),
        Some(build_system("weak", 10000, 64, 800)),
        Some(build_system("good", 10000, 64, 2500)),
    ];
    lb.round(batch);
    assert_eq!(lb.len(), 2);
    assert_eq!(lb.get(0).name, "good");
    assert_eq!(lb.get(1).name, "best");
}

#[test]
fn pool_accumulates_across_rounds() {
    let mut cfg = standard();
    cfg.leaderboard_size = 3;
    let mut lb = Leaderboard::new(cfg);
    lb.round(vec![
        Some(build_system("a", 10000, 64, 1000)),
        Some(build_system("b", 10000, 64, 2000)),
    ]);
    assert_eq!(lb.len(), 2);
    lb.round(vec![
        Some(build_system("c", 10000, 64, 3000)),
        Some(build_system("d", 10000, 64, 1500)),
    ]);
    // four seen so far, three retained, the weakest dropped
    assert_eq!(lb.len(), 3);
    assert_eq!(lb.get(0).name, "d");
    assert_eq!(lb.get(1).name, "b");
    assert_eq!(lb.get(2).name, "c");
}

#[test]
fn free_system_ranks_above_everything() {
    // a zero-price system's ratio is infinite: it sorts last (highest)
    let mut lb = Leaderboard::new(standard());
    let mut free = build_system("free", 0, 64, 1000);
    free.blades[0].price = 0;
    free.blades[0].motherboard.as_mut().unwrap().price = 0;
    free.blades[0].motherboard.as_mut().unwrap().processors[0].price = 0;
    free.blades[0].motherboard.as_mut().unwrap().memory[0].price = 0;
    assert_eq!(free.price(), 0);
    lb.round(vec![
        Some(build_system("paid", 10000, 64, 3000)),
        Some(free),
    ]);
    assert_eq!(lb.len(), 2);
    assert_eq!(lb.get(0).name, "paid");
    assert_eq!(lb.get(1).name, "free");
}
