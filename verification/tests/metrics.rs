use hwsearch::hw::{Blade, BladeType, Memory, MemoryClass, MemoryType, Motherboard,
    MotherboardFormFactor, Processor, ProcessorType, System};

const GIB: u64 = 1024 * 1024 * 1024;

fn test_processor() -> Processor {
    Processor {
        manufacturer: String::from("Intel"),
        name: String::from("Xeon Test 8C"),
        price: 50000,
        clock_rate: 2500,
        turbo_rate: Some(3200),
        avx512_rate: None,
        avx512_turbo_rate: Some(2000),
        cores: 8,
        threads: 16,
        avx512_fma_units: Some(2),
        typ: ProcessorType::XeonScalable_FCLGA3647,
        scalability: 2,
        mem_support: MemoryType::DDR4_2667,
        mem_channels: 6,
    }
}

fn test_dimm(size: u64) -> Memory {
    Memory {
        manufacturer: String::from("Samsung"),
        name: String::from("Test DIMM"),
        price: 15000,
        typ: MemoryType::DDR4_2667,
        size,
    }
}

fn test_motherboard(processors: Vec<Processor>, memory: Vec<Memory>) -> Motherboard {
    Motherboard {
        manufacturer: String::from("Supermicro"),
        name: String::from("Test Board"),
        price: 10000,
        form_factor: MotherboardFormFactor::B11SPE,
        proc_support: ProcessorType::XeonScalable_FCLGA3647,
        scalability: 2,
        memory_sockets: 12,
        dimms_per_channel: 1,
        processors,
        memory,
    }
}

fn test_blade(motherboard: Option<Motherboard>) -> Blade {
    Blade {
        manufacturer: String::from("Supermicro"),
        name: String::from("Test Blade"),
        price: 15000,
        blade_type: BladeType::Standalone,
        mb_form_factor: vec![MotherboardFormFactor::B11SPE],
        motherboard,
    }
}

/// One chassis, one blade, one board, one 8C/16T processor with a 2.0 GHz
/// AVX-512 turbo clock and 2 FMA units, one 32 GiB DIMM; $1000 all told.
fn scenario_system() -> System {
    let mb = test_motherboard(vec![test_processor()], vec![test_dimm(32 * GIB)]);
    System {
        manufacturer: String::from("Supermicro"),
        name: String::from("Test Chassis"),
        price: 10000,
        blade_type: BladeType::Standalone,
        num_blades: 1,
        blades: vec![test_blade(Some(mb))],
    }
}

#[test]
fn scenario_counts() {
    let s = scenario_system();
    assert!(s.is_valid());
    assert_eq!(s.cores(), 8);
    assert_eq!(s.threads(), 16);
    assert_eq!(s.ram(), 32 * GIB as u128);
}

#[test]
fn scenario_price_is_one_thousand_dollars() {
    let s = scenario_system();
    // 10000 + 15000 + 10000 + 50000 + 15000 cents
    assert_eq!(s.price(), 100000);
    assert_eq!(s.price() as f64 / 100.0, 1000.0);
}

#[test]
fn scenario_turbo_gflops() {
    let s = scenario_system();
    // 8 cores x 2000 MHz x 16 lanes x 2 ops x 2 units = 1,024,000 MFLOPS
    assert_eq!(s.turbo_sp_float_fma_mflops(), 1024000);
    assert_eq!(s.turbo_sp_float_fma_mflops() as f64 / 1000.0, 1024.0);
}

#[test]
fn scenario_base_gflops_zero_without_base_clock() {
    let s = scenario_system();
    assert_eq!(s.sp_float_fma_mflops(), 0);
}

#[test]
fn scenario_ratio() {
    let s = scenario_system();
    let gflops = s.turbo_sp_float_fma_mflops() as f64 / 1000.0;
    let dollars = s.price() as f64 / 100.0;
    assert_eq!(gflops / dollars, 1.024);
}

#[test]
fn clock_rate_is_core_weighted() {
    let s = scenario_system();
    assert_eq!(s.clock_rate(), 8 * 2500);
}

#[test]
fn throughput_zero_when_all_avx512_fields_absent() {
    let mut p = test_processor();
    p.avx512_rate = None;
    p.avx512_turbo_rate = None;
    p.avx512_fma_units = None;
    let mb = test_motherboard(vec![p], vec![test_dimm(32 * GIB)]);
    let mut s = scenario_system();
    s.blades = vec![test_blade(Some(mb))];
    assert_eq!(s.sp_float_fma_mflops(), 0);
    assert_eq!(s.turbo_sp_float_fma_mflops(), 0);
    assert_eq!(s.cores(), 8);
}

#[test]
fn throughput_zero_when_fma_units_absent() {
    let mut p = test_processor();
    p.avx512_rate = Some(1800);
    p.avx512_fma_units = None;
    let mb = test_motherboard(vec![p], vec![test_dimm(32 * GIB)]);
    let mut s = scenario_system();
    s.blades = vec![test_blade(Some(mb))];
    assert_eq!(s.sp_float_fma_mflops(), 0);
    assert_eq!(s.turbo_sp_float_fma_mflops(), 0);
}

#[test]
fn metrics_add_across_blades() {
    let one = scenario_system();
    let mut two = scenario_system();
    let mb_a = test_motherboard(vec![test_processor()], vec![test_dimm(32 * GIB)]);
    let mut mb_b = test_motherboard(
        vec![test_processor(), test_processor()],
        vec![test_dimm(16 * GIB)],
    );
    mb_b.price = 20000;
    two.num_blades = 2;
    two.blades = vec![test_blade(Some(mb_a)), test_blade(Some(mb_b))];
    let mut only_b = scenario_system();
    let mb_b2 = {
        let mut m = test_motherboard(
            vec![test_processor(), test_processor()],
            vec![test_dimm(16 * GIB)],
        );
        m.price = 20000;
        m
    };
    only_b.blades = vec![test_blade(Some(mb_b2))];
    // chassis price counted once
    assert_eq!(two.price(), one.price() + only_b.price() - 10000);
    assert_eq!(two.ram(), one.ram() + only_b.ram());
    assert_eq!(two.cores(), one.cores() + only_b.cores());
    assert_eq!(two.threads(), one.threads() + only_b.threads());
}

#[test]
fn memory_type_class_is_ddr4() {
    assert_eq!(MemoryType::DDR4_2133.class(), MemoryClass::DDR4);
    assert_eq!(MemoryType::DDR4_2400.class(), MemoryClass::DDR4);
    assert_eq!(MemoryType::DDR4_2667.class(), MemoryClass::DDR4);
    assert_eq!(MemoryType::DDR4_2933.class(), MemoryClass::DDR4);
}

#[test]
fn memory_type_speeds_are_ordered() {
    let speeds = [
        MemoryType::DDR4_2133.speed(),
        MemoryType::DDR4_2400.speed(),
        MemoryType::DDR4_2667.speed(),
        MemoryType::DDR4_2933.speed(),
    ];
    assert_eq!(speeds, [2133, 2400, 2667, 2933]);
    assert!(speeds.windows(2).all(|w| w[0] < w[1]));
}

#[test]
fn deep_eq_is_structural() {
    let a = scenario_system();
    let b = scenario_system();
    assert!(a.deep_eq(&b));
    let mut c = scenario_system();
    c.name = String::from("Other Chassis");
    assert!(!a.deep_eq(&c));
    let mut d = scenario_system();
    d.blades[0].motherboard.as_mut().unwrap().processors[0].cores = 4;
    assert!(!a.deep_eq(&d));
}

#[test]
fn validity_checks_the_composition() {
    let s = scenario_system();
    assert!(s.is_valid());

    // a blade without a motherboard is not fully assembled
    let mut bare = scenario_system();
    bare.blades = vec![test_blade(None)];
    assert!(!bare.is_valid());

    // more blades than slots
    let mut overfull = scenario_system();
    overfull.num_blades = 0;
    assert!(!overfull.is_valid());

    // more threads than cores is required, not the reverse
    let mut twisted = scenario_system();
    twisted.blades[0].motherboard.as_mut().unwrap().processors[0].threads = 4;
    assert!(!twisted.is_valid());

    // an installed board must be of a compatible form factor
    let mut mismatched = scenario_system();
    mismatched.blades[0].mb_form_factor = vec![MotherboardFormFactor::X11OPi];
    assert!(!mismatched.is_valid());
}
