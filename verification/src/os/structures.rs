//! The data that the engine keeps of each admitted process, and what it
//! reports of a run.
use crate::records::{ProcessData, ProcessDataView};
use vstd::prelude::*;

verus! {

/// The identity of an admitted process: a positive number, never issued twice
/// in a run.
pub type PID = i32;

/// The blocks of memory that a process holds: those from `.0` to `.1`, both
/// included. A range whose first block lies after its last holds no block.
#[derive(Clone, Copy, Debug, PartialEq, Eq, Structural)]
pub struct MemoryRange(pub i32, pub i32);

impl MemoryRange {
    /// Whether `block` belongs to the range.
    pub open spec fn holds(self, block: int) -> bool {
        self.0 <= block <= self.1
    }

    /// Whether the range has a block among those from `lo` to `hi`.
    pub open spec fn meets(self, lo: int, hi: int) -> bool {
        self.0 <= self.1 && lo <= hi && self.0 <= hi && lo <= self.1
    }

    /// Whether the two ranges have a block in common.
    pub open spec fn overlaps(self, other: MemoryRange) -> bool {
        self.meets(other.0 as int, other.1 as int)
    }

    /// The block numbers of the range, in ascending order.
    pub open spec fn block_seq(self) -> Seq<i32> {
        if self.0 <= self.1 {
            Seq::new((self.1 - self.0 + 1) as nat, |i: int| (self.0 + i) as i32)
        } else {
            Seq::empty()
        }
    }

    /// Lists the block numbers of the range in ascending order.
    pub fn blocks(&self) -> (list: Vec<i32>)
        ensures
            list@ == self.block_seq(),
    {
        let mut list: Vec<i32> = Vec::new();
        if self.0 > self.1 {
            return list;
        }
        let mut block: i32 = self.0;
        while block < self.1
            invariant
                self.0 <= block <= self.1,
                list@ == Seq::new((block - self.0) as nat, |i: int| (self.0 + i) as i32),
            decreases self.1 - block,
        {
            list.push(block);
            assert(list@ =~= Seq::new((block + 1 - self.0) as nat, |i: int| (self.0 + i) as i32));
            block = block + 1;
        }
        list.push(block);
        assert(list@ =~= self.block_seq());
        list
    }
}

/// Where a process stands in its life.
#[derive(Clone, Copy, Debug, PartialEq, Eq, Structural)]
pub enum State {
    /// Being placed in memory.
    Allocating,
    /// Waiting in the ready queue for the CPU.
    Ready,
    /// Holding the CPU.
    Executing,
    /// Waiting in the blocked queue for its I/O.
    Blocked,
    /// Out of bursts; the process has left the system.
    Done,
    Held,
}

/// `State` under its longer name.
pub type ProcessState = State;

/// What happened to a process.
#[derive(Clone, Copy, Debug, PartialEq, Eq, Structural)]
pub enum EventType {
    /// A descriptor was admitted into memory.
    Allocated,
    /// A descriptor needs more blocks than the machine has and was dropped.
    Flushed,
    /// The process got the CPU for the first time.
    Started,
    /// The CPU part of a burst ran out.
    Timeout,
    /// The I/O part of a burst ran out.
    IO,
    /// The process had no burst left and was removed.
    Finished,
}

/// One entry of the engine's event log.
#[derive(Debug, PartialEq, Eq)]
pub struct Event {
    pub kind: EventType,
    /// The tick at which it happened.
    pub time: i32,
    /// The process it happened to; 0 for a descriptor that never got a PID.
    pub pid: PID,
    /// The name of that process.
    pub name: String,
}

/// The mathematical value of an `Event`.
pub struct EventView {
    pub kind: EventType,
    pub time: i32,
    pub pid: PID,
    pub name: Seq<char>,
}

impl View for Event {
    type V = EventView;

    open spec fn view(&self) -> EventView {
        EventView { kind: self.kind, time: self.time, pid: self.pid, name: self.name@ }
    }
}

/// The process control block (PCB) of an admitted process.
#[derive(Debug)]
pub struct ProcessControlBlock {
    /// The descriptor; `info.run_info` holds the bursts not yet started.
    pub info: ProcessData,
    pub pid: PID,
    /// The tick at which the process was admitted.
    pub clk: i32,
    pub state: State,
    /// CPU units consumed so far.
    pub total_cpu: i32,
    /// I/O units consumed so far.
    pub total_ios: i32,
    /// The tick of the first execution; 0 until then.
    pub start_time: i32,
    pub end_time: i32,
    /// Where in memory the process lies.
    pub memory_map: MemoryRange,
}

/// The mathematical value of a `ProcessControlBlock`.
pub struct PcbView {
    pub info: ProcessDataView,
    pub pid: PID,
    pub clk: i32,
    pub state: State,
    pub total_cpu: i32,
    pub total_ios: i32,
    pub start_time: i32,
    pub end_time: i32,
    pub memory_map: MemoryRange,
}

impl View for ProcessControlBlock {
    type V = PcbView;

    open spec fn view(&self) -> PcbView {
        PcbView {
            info: self.info@,
            pid: self.pid,
            clk: self.clk,
            state: self.state,
            total_cpu: self.total_cpu,
            total_ios: self.total_ios,
            start_time: self.start_time,
            end_time: self.end_time,
            memory_map: self.memory_map,
        }
    }
}

impl PcbView {
    /// The state of a block whose placement is settled: `Ready` in place of
    /// `Allocating`, every other state as it is.
    pub open spec fn settled(self) -> PcbView {
        PcbView {
            state: if self.state == State::Allocating {
                State::Ready
            } else {
                self.state
            },
            ..self
        }
    }
}

impl ProcessControlBlock {
    /// Settles the process in memory: a block that was `Allocating` becomes
    /// `Ready`. Nothing else changes.
    pub fn allocate(&mut self)
        ensures
            final(self)@ == old(self)@.settled(),
            final(self).info == old(self).info,
    {
        match self.state {
            State::Allocating => {
                self.state = State::Ready;
            },
            _ => {},
        }
    }
}

/// One line of a report: what the engine shows of a live process.
#[derive(Debug, PartialEq, Eq)]
pub struct ProcessInfo {
    pub pid: PID,
    pub name: String,
    pub memory: MemoryRange,
    pub state: State,
}

/// The mathematical value of a `ProcessInfo`.
pub struct ProcessInfoView {
    pub pid: PID,
    pub name: Seq<char>,
    pub memory: MemoryRange,
    pub state: State,
}

impl View for ProcessInfo {
    type V = ProcessInfoView;

    open spec fn view(&self) -> ProcessInfoView {
        ProcessInfoView { pid: self.pid, name: self.name@, memory: self.memory, state: self.state }
    }
}

/// The live processes at one tick, in ascending order of PID.
#[derive(Debug, PartialEq, Eq)]
pub struct Snapshot {
    pub time: i32,
    pub rows: Vec<ProcessInfo>,
}

/// The mathematical value of a `Snapshot`.
pub struct SnapshotView {
    pub time: i32,
    pub rows: Seq<ProcessInfoView>,
}

impl View for Snapshot {
    type V = SnapshotView;

    open spec fn view(&self) -> SnapshotView {
        SnapshotView { time: self.time, rows: self.rows@.map_values(|row: ProcessInfo| row@) }
    }
}

} // verus!
