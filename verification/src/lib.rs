//! A tick-driven simulator of a single-CPU operating system with a fixed
//! pool of memory blocks.
//!
//! `records` holds the configuration and workload records and decodes them
//! from their fixed binary layouts. `os` holds the engine: the allocator that
//! admits waiting descriptors by first-fit placement, the dispatcher that
//! drives CPU and I/O bursts, and the clock loop that alternates the two.
#![allow(non_snake_case)]
#![allow(non_camel_case_types)]

pub mod records;
pub mod os;
