//! The engine: data model, allocator, dispatcher and clock loop.
//!
//! `structures` and `os` hold the data: the control block of a process, and
//! the machine with its clock, queues, table and memory map. `allocator`,
//! `dispatcher` and `clock` say what a pass of admission, a tick of dispatch
//! and a tick of the clock do, each as a function on the mathematical value
//! of the machine, and hold the code that does it. `report` lists the live
//! processes. `coherence` proves that every step keeps the invariant, and
//! `laws` states what follows for every run.
pub mod allocator;
pub mod clock;
pub mod coherence;
pub mod dispatcher;
pub mod laws;
pub mod order;
pub mod os;
pub mod queue;
pub mod report;
pub mod structures;
