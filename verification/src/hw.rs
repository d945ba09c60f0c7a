//! The hardware data model: tag enumerations for compatibility decisions and
//! immutable value records for processors, memory modules, motherboards,
//! blades, and whole systems.
//!
//! Prices are carried in US cents and clock rates in MHz so that every derived
//! metric is exact integer arithmetic. Each record has a mathematical view
//! (`View`), a well-formedness predicate mirroring the model's invariants, and
//! an executable deep structural equality used for deduplication.

use vstd::prelude::*;

verus! {

/// Processor families: socket layout together with the firmware generation,
/// which together decide whether a processor can sit in a motherboard.
#[allow(non_camel_case_types)]
#[derive(Clone, Copy, Debug, PartialEq, Eq, Structural)]
pub enum ProcessorType {
    XeonScalable_FCLGA3647,
    XeonScalableV2_FCLGA3647,
    XeonW_FCLGA3647,
    XeonW_FCLGA2066,
    XeonD_FCBGA2518,
}

/// Memory speed grades, ordered by their transfer rate.
#[allow(non_camel_case_types)]
#[derive(Clone, Copy, Debug, PartialEq, Eq, Structural)]
pub enum MemoryType {
    DDR4_2133,
    DDR4_2400,
    DDR4_2667,
    DDR4_2933,
}

/// Coarse memory technology families.
#[derive(Clone, Copy, Debug, PartialEq, Eq, Structural)]
pub enum MemoryClass {
    DDR4,
}

impl MemoryType {
    /// The transfer rate of this memory grade, in MT/s; gives the speed
    /// ordering of the grades.
    pub open spec fn spec_speed(self) -> u32 {
        match self {
            MemoryType::DDR4_2133 => 2133,
            MemoryType::DDR4_2400 => 2400,
            MemoryType::DDR4_2667 => 2667,
            MemoryType::DDR4_2933 => 2933,
        }
    }

    /// The transfer rate of this memory grade, in MT/s.
    pub fn speed(&self) -> (s: u32)
        ensures
            s == self.spec_speed(),
    {
        match self {
            MemoryType::DDR4_2133 => 2133,
            MemoryType::DDR4_2400 => 2400,
            MemoryType::DDR4_2667 => 2667,
            MemoryType::DDR4_2933 => 2933,
        }
    }

    /// The technology family a memory grade belongs to.
    pub open spec fn spec_class(self) -> MemoryClass {
        match self {
            MemoryType::DDR4_2133 => MemoryClass::DDR4,
            MemoryType::DDR4_2400 => MemoryClass::DDR4,
            MemoryType::DDR4_2667 => MemoryClass::DDR4,
            MemoryType::DDR4_2933 => MemoryClass::DDR4,
        }
    }

    /// Gets the class for this memory type.
    pub fn class(&self) -> (c: MemoryClass)
        ensures
            c == self.spec_class(),
    {
        match self {
            MemoryType::DDR4_2133 => MemoryClass::DDR4,
            MemoryType::DDR4_2400 => MemoryClass::DDR4,
            MemoryType::DDR4_2667 => MemoryClass::DDR4,
            MemoryType::DDR4_2933 => MemoryClass::DDR4,
        }
    }
}

/// Motherboard form factors; a blade lists the factors it can hold.
#[derive(Clone, Copy, Debug, PartialEq, Eq, Structural)]
pub enum MotherboardFormFactor {
    X11OPi,
    B11SRE,
    B11SPE,
    B11DPE,
    X11QPHp,
}

/// Blade chassis families; `Standalone` marks a complete server that is not
/// a blade at all.
#[derive(Clone, Copy, Debug, PartialEq, Eq, Structural)]
pub enum BladeType {
    /// This is not a blade.
    Standalone,
    SBE614E,
    SBE610J,
}

/// A processor. Prices are in US cents, clock rates in MHz; the AVX-512
/// clocks and the FMA-unit count are genuinely absent on parts without
/// AVX-512, and an absent field contributes zero to the throughput metrics.
pub struct Processor {
    /// Manufacturer of the hardware
    pub manufacturer: String,
    /// Name of the hardware/model number
    pub name: String,
    /// Price of the processor in US cents
    pub price: u64,
    /// Base clock rate in MHz
    pub clock_rate: u64,
    /// Maximum all-core turbo rate in MHz
    pub turbo_rate: Option<u64>,
    /// Minimum AVX-512 clock rate in MHz
    pub avx512_rate: Option<u64>,
    /// Maximum AVX-512 turbo rate on all cores, in MHz
    pub avx512_turbo_rate: Option<u64>,
    /// Number of cores
    pub cores: u32,
    /// Number of threads
    pub threads: u32,
    /// Number of AVX-512 FMA units
    pub avx512_fma_units: Option<u8>,
    /// The family of the processor, deciding which motherboards can socket it
    pub typ: ProcessorType,
    /// Number of processors of this model that can share a motherboard
    pub scalability: u8,
    /// Memory grade this processor drives
    pub mem_support: MemoryType,
    /// Number of memory channels
    pub mem_channels: u8,
}

/// A stick of RAM; price in US cents, capacity in bytes.
pub struct Memory {
    /// Manufacturer of the hardware
    pub manufacturer: String,
    /// Name of the hardware/model number
    pub name: String,
    /// Price of the DIMM in US cents
    pub price: u64,
    /// Speed grade of the memory
    pub typ: MemoryType,
    /// Size of the individual DIMM in bytes
    pub size: u64,
}

/// A motherboard carrying its socketed processors and installed DIMMs.
pub struct Motherboard {
    /// Manufacturer of the hardware
    pub manufacturer: String,
    /// Name of the hardware/model number
    pub name: String,
    /// Price of the motherboard in US cents
    pub price: u64,
    /// Form factor, deciding which blades can hold this board
    pub form_factor: MotherboardFormFactor,
    /// Processor family this board can socket
    pub proc_support: ProcessorType,
    /// Number of processor sockets
    pub scalability: u8,
    /// Number of memory sockets, divided evenly between the processors
    pub memory_sockets: u8,
    /// Number of DIMMs per memory channel
    pub dimms_per_channel: u8,
    /// Processors socketed on this board
    pub processors: Vec<Processor>,
    /// DIMMs installed on this board
    pub memory: Vec<Memory>,
}

/// A single blade of a larger blade server, or a complete standalone server.
/// The compatible form factors are kept as a duplicate-free list.
pub struct Blade {
    /// Manufacturer of the hardware
    pub manufacturer: String,
    /// Name of the hardware/model number
    pub name: String,
    /// Price of the blade in US cents
    pub price: u64,
    /// Chassis family this blade sockets into; `Standalone` if not a blade
    pub blade_type: BladeType,
    /// Motherboard form factors this blade can hold, without duplicates
    pub mb_form_factor: Vec<MotherboardFormFactor>,
    /// The motherboard that has been socketed, if any
    pub motherboard: Option<Motherboard>,
}

/// A chassis holding one or more blades.
pub struct System {
    /// Manufacturer of the hardware
    pub manufacturer: String,
    /// Name of the hardware/model number
    pub name: String,
    /// Price of the bare chassis in US cents
    pub price: u64,
    /// Family of blades this chassis accepts
    pub blade_type: BladeType,
    /// Number of blade slots
    pub num_blades: u8,
    /// Blades installed in this chassis
    pub blades: Vec<Blade>,
}

/// The mathematical value of an `Option<u64>`.
pub open spec fn opt_u64_view(o: Option<u64>) -> Option<int> {
    match o {
        Option::Some(v) => Option::Some(v as int),
        Option::None => Option::None,
    }
}

/// The mathematical value of an `Option<u8>`.
pub open spec fn opt_u8_view(o: Option<u8>) -> Option<int> {
    match o {
        Option::Some(v) => Option::Some(v as int),
        Option::None => Option::None,
    }
}

/// Mathematical value of a `Processor`.
#[verifier::ext_equal]
pub struct ProcessorV {
    pub manufacturer: Seq<char>,
    pub name: Seq<char>,
    pub price: int,
    pub clock_rate: int,
    pub turbo_rate: Option<int>,
    pub avx512_rate: Option<int>,
    pub avx512_turbo_rate: Option<int>,
    pub cores: int,
    pub threads: int,
    pub avx512_fma_units: Option<int>,
    pub typ: ProcessorType,
    pub scalability: int,
    pub mem_support: MemoryType,
    pub mem_channels: int,
}

/// Mathematical value of a `Memory`.
#[verifier::ext_equal]
pub struct MemoryV {
    pub manufacturer: Seq<char>,
    pub name: Seq<char>,
    pub price: int,
    pub typ: MemoryType,
    pub size: int,
}

/// Mathematical value of a `Motherboard`.
#[verifier::ext_equal]
pub struct MotherboardV {
    pub manufacturer: Seq<char>,
    pub name: Seq<char>,
    pub price: int,
    pub form_factor: MotherboardFormFactor,
    pub proc_support: ProcessorType,
    pub scalability: int,
    pub memory_sockets: int,
    pub dimms_per_channel: int,
    pub processors: Seq<ProcessorV>,
    pub memory: Seq<MemoryV>,
}

/// Mathematical value of a `Blade`.
#[verifier::ext_equal]
pub struct BladeV {
    pub manufacturer: Seq<char>,
    pub name: Seq<char>,
    pub price: int,
    pub blade_type: BladeType,
    pub mb_form_factor: Seq<MotherboardFormFactor>,
    pub motherboard: Option<MotherboardV>,
}

/// Mathematical value of a `System`.
#[verifier::ext_equal]
pub struct SystemV {
    pub manufacturer: Seq<char>,
    pub name: Seq<char>,
    pub price: int,
    pub blade_type: BladeType,
    pub num_blades: int,
    pub blades: Seq<BladeV>,
}

impl View for Processor {
    type V = ProcessorV;

    open spec fn view(&self) -> ProcessorV {
        ProcessorV {
            manufacturer: self.manufacturer@,
            name: self.name@,
            price: self.price as int,
            clock_rate: self.clock_rate as int,
            turbo_rate: opt_u64_view(self.turbo_rate),
            avx512_rate: opt_u64_view(self.avx512_rate),
            avx512_turbo_rate: opt_u64_view(self.avx512_turbo_rate),
            cores: self.cores as int,
            threads: self.threads as int,
            avx512_fma_units: opt_u8_view(self.avx512_fma_units),
            typ: self.typ,
            scalability: self.scalability as int,
            mem_support: self.mem_support,
            mem_channels: self.mem_channels as int,
        }
    }
}

impl View for Memory {
    type V = MemoryV;

    open spec fn view(&self) -> MemoryV {
        MemoryV {
            manufacturer: self.manufacturer@,
            name: self.name@,
            price: self.price as int,
            typ: self.typ,
            size: self.size as int,
        }
    }
}

impl View for Motherboard {
    type V = MotherboardV;

    open spec fn view(&self) -> MotherboardV {
        MotherboardV {
            manufacturer: self.manufacturer@,
            name: self.name@,
            price: self.price as int,
            form_factor: self.form_factor,
            proc_support: self.proc_support,
            scalability: self.scalability as int,
            memory_sockets: self.memory_sockets as int,
            dimms_per_channel: self.dimms_per_channel as int,
            processors: self.processors@.map_values(|p: Processor| p@),
            memory: self.memory@.map_values(|m: Memory| m@),
        }
    }
}

impl View for Blade {
    type V = BladeV;

    open spec fn view(&self) -> BladeV {
        BladeV {
            manufacturer: self.manufacturer@,
            name: self.name@,
            price: self.price as int,
            blade_type: self.blade_type,
            mb_form_factor: self.mb_form_factor@,
            motherboard: match self.motherboard {
                Option::Some(m) => Option::Some(m@),
                Option::None => Option::None,
            },
        }
    }
}

impl View for System {
    type V = SystemV;

    open spec fn view(&self) -> SystemV {
        SystemV {
            manufacturer: self.manufacturer@,
            name: self.name@,
            price: self.price as int,
            blade_type: self.blade_type,
            num_blades: self.num_blades as int,
            blades: self.blades@.map_values(|b: Blade| b@),
        }
    }
}

impl ProcessorV {
    /// The fields fit the machine types that carry them.
    pub open spec fn in_range(self) -> bool {
        &&& 0 <= self.price <= u64::MAX
        &&& 0 <= self.clock_rate <= u64::MAX
        &&& match self.turbo_rate {
            Option::Some(v) => 0 <= v <= u64::MAX,
            Option::None => true,
        }
        &&& match self.avx512_rate {
            Option::Some(v) => 0 <= v <= u64::MAX,
            Option::None => true,
        }
        &&& match self.avx512_turbo_rate {
            Option::Some(v) => 0 <= v <= u64::MAX,
            Option::None => true,
        }
        &&& 0 <= self.cores <= u32::MAX
        &&& 0 <= self.threads <= u32::MAX
        &&& match self.avx512_fma_units {
            Option::Some(v) => 0 <= v <= u8::MAX,
            Option::None => true,
        }
        &&& 0 <= self.scalability <= u8::MAX
        &&& 0 <= self.mem_channels <= u8::MAX
    }

    /// In range, and never fewer threads than cores.
    pub open spec fn wf(self) -> bool {
        self.in_range() && self.threads >= self.cores
    }
}

impl MemoryV {
    /// In range, and holding at least one byte.
    pub open spec fn wf(self) -> bool {
        &&& 0 <= self.price <= u64::MAX
        &&& 0 < self.size <= u64::MAX
    }
}

impl MotherboardV {
    /// The installed parts fit the board's sockets and are themselves
    /// well formed.
    pub open spec fn wf(self) -> bool {
        &&& 0 <= self.price <= u64::MAX
        &&& 0 <= self.scalability <= u8::MAX
        &&& 0 <= self.memory_sockets <= u8::MAX
        &&& 0 <= self.dimms_per_channel <= u8::MAX
        &&& self.processors.len() <= self.scalability
        &&& self.memory.len() <= self.memory_sockets
        &&& forall|i: int| 0 <= i < self.processors.len() ==> (#[trigger] self.processors[i]).wf()
        &&& forall|i: int| 0 <= i < self.memory.len() ==> (#[trigger] self.memory[i]).wf()
    }
}

impl BladeV {
    /// The compatible-form-factor list is a set (no duplicates), and an
    /// installed motherboard is well formed and of a compatible form factor.
    pub open spec fn wf(self) -> bool {
        &&& 0 <= self.price <= u64::MAX
        &&& self.mb_form_factor.no_duplicates()
        &&& match self.motherboard {
            Option::Some(m) => m.wf() && self.mb_form_factor.contains(m.form_factor),
            Option::None => true,
        }
    }
}

impl SystemV {
    /// The installed blades fit the chassis' slots, are of the blade family
    /// the chassis accepts, and are themselves well formed.
    pub open spec fn wf(self) -> bool {
        &&& 0 <= self.price <= u64::MAX
        &&& 0 <= self.num_blades <= u8::MAX
        &&& self.blades.len() <= self.num_blades
        &&& forall|i: int| 0 <= i < self.blades.len() ==> (#[trigger] self.blades[i]).wf()
        &&& forall|i: int| 0 <= i < self.blades.len()
            ==> (#[trigger] self.blades[i]).blade_type == self.blade_type
    }

    /// Every blade of the system carries a motherboard; the candidate source
    /// only hands out such systems.
    pub open spec fn fully_assembled(self) -> bool {
        forall|i: int| 0 <= i < self.blades.len()
            ==> (#[trigger] self.blades[i]).motherboard is Some
    }

    /// A system whose metrics are meaningful: well formed and fully
    /// assembled.
    pub open spec fn valid(self) -> bool {
        self.wf() && self.fully_assembled()
    }
}

impl Processor {
    /// Checks the processor's invariant.
    pub fn is_wf(&self) -> (r: bool)
        ensures
            r == self@.wf(),
    {
        self.threads >= self.cores
    }
}

impl Memory {
    /// Checks the DIMM's invariant.
    pub fn is_wf(&self) -> (r: bool)
        ensures
            r == self@.wf(),
    {
        self.size > 0
    }
}

impl Motherboard {
    /// Checks the motherboard's invariant, parts included.
    pub fn is_wf(&self) -> (r: bool)
        ensures
            r == self@.wf(),
    {
        if self.processors.len() > self.scalability as usize {
            return false;
        }
        if self.memory.len() > self.memory_sockets as usize {
            return false;
        }
        for i in 0..self.processors.len()
            invariant
                forall|k: int| 0 <= k < i ==> (#[trigger] self@.processors[k]).wf(),
        {
            if !self.processors[i].is_wf() {
                proof {
                    assert(!self@.processors[i as int].wf());
                }
                return false;
            }
        }
        for i in 0..self.memory.len()
            invariant
                forall|k: int| 0 <= k < i ==> (#[trigger] self@.memory[k]).wf(),
        {
            if !self.memory[i].is_wf() {
                proof {
                    assert(!self@.memory[i as int].wf());
                }
                return false;
            }
        }
        true
    }
}

impl Blade {
    /// Checks the blade's invariant, installed motherboard included.
    pub fn is_wf(&self) -> (r: bool)
        ensures
            r == self@.wf(),
    {
        for i in 0..self.mb_form_factor.len()
            invariant
                forall|k: int, l: int| 0 <= k < l < i ==>
                    #[trigger] self@.mb_form_factor[k] != #[trigger] self@.mb_form_factor[l],
        {
            for j in 0..i
                invariant
                    i < self.mb_form_factor.len(),
                    forall|k: int, l: int| 0 <= k < l < i ==>
                        #[trigger] self@.mb_form_factor[k] != #[trigger] self@.mb_form_factor[l],
                    forall|k: int| 0 <= k < j ==>
                        #[trigger] self@.mb_form_factor[k] != self@.mb_form_factor[i as int],
            {
                if self.mb_form_factor[j] == self.mb_form_factor[i] {
                    return false;
                }
            }
        }
        match &self.motherboard {
            Option::Some(m) => {
                if !m.is_wf() {
                    return false;
                }
                let mut found = false;
                for i in 0..self.mb_form_factor.len()
                    invariant
                        found == exists|k: int| 0 <= k < i
                            && self@.mb_form_factor[k] == m@.form_factor,
                {
                    if self.mb_form_factor[i] == m.form_factor {
                        found = true;
                    }
                }
                found
            },
            Option::None => true,
        }
    }
}

impl System {
    /// Checks the system's invariant, blades included.
    pub fn is_wf(&self) -> (r: bool)
        ensures
            r == self@.wf(),
    {
        if self.blades.len() > self.num_blades as usize {
            return false;
        }
        for i in 0..self.blades.len()
            invariant
                forall|k: int| 0 <= k < i ==> (#[trigger] self@.blades[k]).wf(),
                forall|k: int| 0 <= k < i
                    ==> (#[trigger] self@.blades[k]).blade_type == self@.blade_type,
        {
            if !self.blades[i].is_wf() {
                proof {
                    assert(!self@.blades[i as int].wf());
                }
                return false;
            }
            if !(self.blades[i].blade_type == self.blade_type) {
                proof {
                    assert(self@.blades[i as int].blade_type != self@.blade_type);
                }
                return false;
            }
        }
        true
    }

    /// Checks that every blade carries a motherboard.
    pub fn is_fully_assembled(&self) -> (r: bool)
        ensures
            r == self@.fully_assembled(),
    {
        for i in 0..self.blades.len()
            invariant
                forall|k: int| 0 <= k < i
                    ==> (#[trigger] self@.blades[k]).motherboard is Some,
        {
            if self.blades[i].motherboard.is_none() {
                proof {
                    assert(!(self@.blades[i as int].motherboard is Some));
                }
                return false;
            }
        }
        true
    }

    /// Checks validity: well formed and fully assembled.
    pub fn is_valid(&self) -> (r: bool)
        ensures
            r == self@.valid(),
    {
        self.is_wf() && self.is_fully_assembled()
    }
}

/// Equality of two optional `u64` fields, as their mathematical values.
fn opt_u64_eq(a: &Option<u64>, b: &Option<u64>) -> (r: bool)
    ensures
        r == (opt_u64_view(*a) == opt_u64_view(*b)),
{
    match (a, b) {
        (Option::Some(x), Option::Some(y)) => x == y,
        (Option::None, Option::None) => true,
        _ => false,
    }
}

/// Equality of two optional `u8` fields, as their mathematical values.
fn opt_u8_eq(a: &Option<u8>, b: &Option<u8>) -> (r: bool)
    ensures
        r == (opt_u8_view(*a) == opt_u8_view(*b)),
{
    match (a, b) {
        (Option::Some(x), Option::Some(y)) => x == y,
        (Option::None, Option::None) => true,
        _ => false,
    }
}

impl Processor {
    /// Deep structural equality: the two processors have the same
    /// mathematical value.
    pub fn deep_eq(&self, o: &Processor) -> (r: bool)
        ensures
            r == (self@ == o@),
    {
        let r = self.manufacturer == o.manufacturer && self.name == o.name
            && self.price == o.price && self.clock_rate == o.clock_rate
            && opt_u64_eq(&self.turbo_rate, &o.turbo_rate)
            && opt_u64_eq(&self.avx512_rate, &o.avx512_rate)
            && opt_u64_eq(&self.avx512_turbo_rate, &o.avx512_turbo_rate)
            && self.cores == o.cores && self.threads == o.threads
            && opt_u8_eq(&self.avx512_fma_units, &o.avx512_fma_units)
            && self.typ == o.typ && self.scalability == o.scalability
            && self.mem_support == o.mem_support
            && self.mem_channels == o.mem_channels;
        proof {
            if r {
                assert(self@ =~= o@);
            }
        }
        r
    }
}

impl Memory {
    /// Deep structural equality: the two DIMMs have the same mathematical
    /// value.
    pub fn deep_eq(&self, o: &Memory) -> (r: bool)
        ensures
            r == (self@ == o@),
    {
        let r = self.manufacturer == o.manufacturer && self.name == o.name
            && self.price == o.price && self.typ == o.typ && self.size == o.size;
        proof {
            if r {
                assert(self@ =~= o@);
            }
        }
        r
    }
}

/// Deep equality of two processor lists, element by element.
fn procs_eq(a: &Vec<Processor>, b: &Vec<Processor>) -> (r: bool)
    ensures
        r == (a@.map_values(|p: Processor| p@) =~= b@.map_values(|p: Processor| p@)),
{
    if a.len() != b.len() {
        proof {
            assert(a@.map_values(|p: Processor| p@).len() != b@.map_values(
                |p: Processor| p@).len());
        }
        return false;
    }
    for i in 0..a.len()
        invariant
            a.len() == b.len(),
            forall|k: int| 0 <= k < i ==> #[trigger] a@[k]@ == b@[k]@,
    {
        if !a[i].deep_eq(&b[i]) {
            proof {
                assert(a@.map_values(|p: Processor| p@)[i as int] != b@.map_values(
                    |p: Processor| p@)[i as int]);
            }
            return false;
        }
    }
    true
}

/// Deep equality of two DIMM lists, element by element.
fn mems_eq(a: &Vec<Memory>, b: &Vec<Memory>) -> (r: bool)
    ensures
        r == (a@.map_values(|m: Memory| m@) =~= b@.map_values(|m: Memory| m@)),
{
    if a.len() != b.len() {
        proof {
            assert(a@.map_values(|m: Memory| m@).len() != b@.map_values(
                |m: Memory| m@).len());
        }
        return false;
    }
    for i in 0..a.len()
        invariant
            a.len() == b.len(),
            forall|k: int| 0 <= k < i ==> #[trigger] a@[k]@ == b@[k]@,
    {
        if !a[i].deep_eq(&b[i]) {
            proof {
                assert(a@.map_values(|m: Memory| m@)[i as int] != b@.map_values(
                    |m: Memory| m@)[i as int]);
            }
            return false;
        }
    }
    true
}

/// Equality of two form-factor lists, element by element, order included.
fn ffs_eq(a: &Vec<MotherboardFormFactor>, b: &Vec<MotherboardFormFactor>) -> (r: bool)
    ensures
        r == (a@ =~= b@),
{
    if a.len() != b.len() {
        return false;
    }
    for i in 0..a.len()
        invariant
            a.len() == b.len(),
            forall|k: int| 0 <= k < i ==> #[trigger] a@[k] == b@[k],
    {
        if !(a[i] == b[i]) {
            return false;
        }
    }
    true
}

impl Motherboard {
    /// Deep structural equality: the two boards have the same mathematical
    /// value, installed parts included.
    pub fn deep_eq(&self, o: &Motherboard) -> (r: bool)
        ensures
            r == (self@ == o@),
    {
        let r = self.manufacturer == o.manufacturer && self.name == o.name
            && self.price == o.price && self.form_factor == o.form_factor
            && self.proc_support == o.proc_support
            && self.scalability == o.scalability
            && self.memory_sockets == o.memory_sockets
            && self.dimms_per_channel == o.dimms_per_channel
            && procs_eq(&self.processors, &o.processors)
            && mems_eq(&self.memory, &o.memory);
        proof {
            if r {
                assert(self@ =~= o@);
            }
        }
        r
    }
}

impl Blade {
    /// Deep structural equality: the two blades have the same mathematical
    /// value, installed motherboard included.
    pub fn deep_eq(&self, o: &Blade) -> (r: bool)
        ensures
            r == (self@ == o@),
    {
        let fields = self.manufacturer == o.manufacturer && self.name == o.name
            && self.price == o.price && self.blade_type == o.blade_type
            && ffs_eq(&self.mb_form_factor, &o.mb_form_factor);
        let mb = match (&self.motherboard, &o.motherboard) {
            (Option::Some(x), Option::Some(y)) => x.deep_eq(y),
            (Option::None, Option::None) => true,
            _ => false,
        };
        let r = fields && mb;
        proof {
            if r {
                assert(self@ =~= o@);
            }
        }
        r
    }
}

/// Deep equality of two blade lists, element by element.
fn blades_eq(a: &Vec<Blade>, b: &Vec<Blade>) -> (r: bool)
    ensures
        r == (a@.map_values(|x: Blade| x@) =~= b@.map_values(|x: Blade| x@)),
{
    if a.len() != b.len() {
        proof {
            assert(a@.map_values(|x: Blade| x@).len() != b@.map_values(
                |x: Blade| x@).len());
        }
        return false;
    }
    for i in 0..a.len()
        invariant
            a.len() == b.len(),
            forall|k: int| 0 <= k < i ==> #[trigger] a@[k]@ == b@[k]@,
    {
        if !a[i].deep_eq(&b[i]) {
            proof {
                assert(a@.map_values(|x: Blade| x@)[i as int] != b@.map_values(
                    |x: Blade| x@)[i as int]);
            }
            return false;
        }
    }
    true
}

impl System {
    /// Deep structural equality across the whole composition tree: the two
    /// systems have the same mathematical value. This is the equality the
    /// search pool deduplicates by.
    pub fn deep_eq(&self, o: &System) -> (r: bool)
        ensures
            r == (self@ == o@),
    {
        let r = self.manufacturer == o.manufacturer && self.name == o.name
            && self.price == o.price && self.blade_type == o.blade_type
            && self.num_blades == o.num_blades
            && blades_eq(&self.blades, &o.blades);
        proof {
            if r {
                assert(self@ =~= o@);
            }
        }
        r
    }
}

} // verus!
