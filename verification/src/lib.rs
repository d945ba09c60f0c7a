//! A verified model of a server-hardware search: immutable component records
//! (processors, memory, motherboards, blades, chassis), exact derived metrics
//! over fixed-point units (prices in cents, clock rates in MHz, throughput in
//! MFLOPS), and a search-and-rank loop that filters candidates, deduplicates
//! them, ranks them by exact turbo throughput per dollar, and keeps a bounded
//! leaderboard across an unbounded search.

pub mod hw;
pub mod laws;
pub mod metrics;
pub mod search;

pub use hw::{Blade, BladeType, Memory, MemoryClass, MemoryType, Motherboard,
    MotherboardFormFactor, Processor, ProcessorType, System};
pub use search::{Leaderboard, SearchConfig, Verdict};
