//! The state of a run: the virtual clock, the queues, the table of live
//! processes and the memory map.
use crate::os::allocator::{usable_block_size, Allocator};
use crate::os::clock::{
    clock_up, drained, lemma_clock_up, lemma_run, lemma_run_end, lemma_ticked,
    lemma_ticked_clock, report_due, reported, run, ticked, TickStatus,
};
use crate::os::coherence::{at_rest, coherent, lemma_alloc_pass_coherent};
use crate::os::dispatcher::{Dispatcher, DispatcherView};
use crate::os::queue::{remove_pid, without};
use crate::os::structures::{
    Event, EventType, EventView, MemoryRange, PcbView, ProcessControlBlock, Snapshot,
    SnapshotView, State, PID,
};
use crate::records::{OSParams, ProcessData, ProcessDataView};
use std::collections::{HashMap, VecDeque};
use vstd::prelude::*;

verus! {

broadcast use vstd::std_specs::hash::group_hash_axioms;

/// The simulated machine.
pub struct OS {
    /// The configuration; it stays as it is for the whole run.
    pub input_params: OSParams,
    /// Every descriptor of the workload.
    pub input_procs: Vec<ProcessData>,
    /// The admission queue: descriptors that wait for memory, oldest first.
    pub input_queue: VecDeque<ProcessData>,
    /// The number of descriptors of the workload.
    pub input_size: i32,
    /// The runaway ceiling: the clock does not run past it.
    pub clock_limit: i32,
    /// The live processes by PID.
    pub running_processes: HashMap<PID, ProcessControlBlock>,
    /// The virtual clock: the number of the current tick.
    pub master_clock: i32,
    /// The process that was last given the CPU; 0 before the first.
    pub current_pid: PID,
    /// The PID that the next admitted process gets.
    pub next_pid: PID,
    /// The blocks that each live process holds.
    pub memory_map: HashMap<PID, MemoryRange>,
    /// The processes that wait for their I/O, in the order in which they
    /// blocked.
    pub blocked_queue: VecDeque<PID>,
    /// The processes that wait for the CPU, next first.
    pub ready_queue: VecDeque<PID>,
    /// Everything that happened so far, oldest first.
    pub events: Vec<Event>,
    /// The periodic reports made so far, oldest first.
    pub snapshots: Vec<Snapshot>,
}

/// The mathematical value of an `OS`.
pub struct OsView {
    pub input_params: OSParams,
    pub input_procs: Seq<ProcessDataView>,
    pub input_queue: Seq<ProcessDataView>,
    pub input_size: i32,
    pub clock_limit: i32,
    pub running_processes: Map<PID, PcbView>,
    pub master_clock: i32,
    pub current_pid: PID,
    pub next_pid: PID,
    pub memory_map: Map<PID, MemoryRange>,
    pub blocked_queue: Seq<PID>,
    pub ready_queue: Seq<PID>,
    pub events: Seq<EventView>,
    pub snapshots: Seq<SnapshotView>,
}

impl View for OS {
    type V = OsView;

    open spec fn view(&self) -> OsView {
        OsView {
            input_params: self.input_params,
            input_procs: self.input_procs@.map_values(|d: ProcessData| d@),
            input_queue: self.input_queue@.map_values(|d: ProcessData| d@),
            input_size: self.input_size,
            clock_limit: self.clock_limit,
            running_processes: self.running_processes@.map_values(|b: ProcessControlBlock| b@),
            master_clock: self.master_clock,
            current_pid: self.current_pid,
            next_pid: self.next_pid,
            memory_map: self.memory_map@,
            blocked_queue: self.blocked_queue@,
            ready_queue: self.ready_queue@,
            events: self.events@.map_values(|e: Event| e@),
            snapshots: self.snapshots@.map_values(|s: Snapshot| s@),
        }
    }
}

impl OsView {
    /// Whether `pid` is a live process.
    pub open spec fn live(self, pid: PID) -> bool {
        self.running_processes.contains_key(pid)
    }

    /// What must hold of the live process `pid`.
    pub open spec fn pcb_ok(self, pid: PID) -> bool {
        let pcb = self.running_processes[pid];
        &&& self.memory_map.contains_key(pid)
        &&& pcb.pid == pid
        &&& 1 <= pid < self.next_pid
        &&& pcb.memory_map == self.memory_map[pid]
        &&& 1 <= pcb.memory_map.0
        &&& pcb.memory_map.1 <= self.input_params.mem_fix_total_blocks
        &&& pcb.state == State::Ready || pcb.state == State::Blocked || pcb.state
            == State::Executing
        &&& pcb.state == State::Ready <==> self.ready_queue.contains(pid)
        &&& pcb.state == State::Blocked <==> self.blocked_queue.contains(pid)
        &&& 0 <= pcb.total_cpu
        &&& 0 <= pcb.total_ios
        &&& pcb.total_cpu + pcb.total_ios <= self.master_clock
    }

    /// The invariant of the engine.
    ///
    /// The table and the memory map speak of the same processes, each under
    /// its own PID, which is positive and below the next to be issued. The
    /// ranges of two live processes share no block. A process is in the ready
    /// queue exactly when it is `Ready` and in the blocked queue exactly when
    /// it is `Blocked`, once at most; every other live process is
    /// `Executing`. The counters of a process never run ahead of the clock.
    pub open spec fn wf(self) -> bool {
        &&& 0 <= self.master_clock
        &&& 1 <= self.next_pid
        &&& self.next_pid + self.input_queue.len() <= i32::MAX
        &&& forall|pid: PID| #[trigger]
            self.memory_map.contains_key(pid) ==> self.running_processes.contains_key(pid)
        &&& forall|pid: PID| #[trigger]
            self.running_processes.contains_key(pid) ==> self.pcb_ok(pid)
        &&& forall|p: PID, q: PID|
            #![trigger self.memory_map.contains_key(p), self.memory_map.contains_key(q)]
            self.memory_map.contains_key(p) && self.memory_map.contains_key(q) && p != q
                ==> !self.memory_map[p].overlaps(self.memory_map[q])
        &&& self.ready_queue.no_duplicates()
        &&& self.blocked_queue.no_duplicates()
        &&& forall|i: int|
            0 <= i < self.ready_queue.len() ==> self.running_processes.contains_key(
                #[trigger] self.ready_queue[i],
            )
        &&& forall|i: int|
            0 <= i < self.blocked_queue.len() ==> self.running_processes.contains_key(
                #[trigger] self.blocked_queue[i],
            )
    }

    /// Whether no live process has used the current tick yet: every counter
    /// still has room for one more unit.
    pub open spec fn fresh(self) -> bool {
        forall|pid: PID| #[trigger]
            self.running_processes.contains_key(pid) ==> self.running_processes[pid].total_cpu
                + self.running_processes[pid].total_ios < self.master_clock
    }

    /// The machine with `kind` logged for the live process `pid` at the
    /// current tick.
    pub open spec fn logged(self, kind: EventType, pid: PID) -> OsView {
        OsView {
            events: self.events.push(
                EventView {
                    kind,
                    time: self.master_clock,
                    pid,
                    name: self.running_processes[pid].info.process_name,
                },
            ),
            ..self
        }
    }

    /// The machine with the control block of `pid` replaced by `pcb`.
    pub open spec fn with_block(self, pid: PID, pcb: PcbView) -> OsView {
        OsView { running_processes: self.running_processes.insert(pid, pcb), ..self }
    }

    /// The machine without the process `pid`: it is gone from the table,
    /// from the memory map and from both queues.
    pub open spec fn removed(self, pid: PID) -> OsView {
        OsView {
            running_processes: self.running_processes.remove(pid),
            memory_map: self.memory_map.remove(pid),
            ready_queue: without(self.ready_queue, pid),
            blocked_queue: without(self.blocked_queue, pid),
            ..self
        }
    }

    /// The machine with its whole workload put at the back of the admission
    /// queue.
    pub open spec fn seeded(self) -> OsView {
        OsView { input_queue: self.input_queue + self.input_procs, ..self }
    }

    /// Machines that agree in every field are the same machine.
    pub proof fn lemma_equal(self, other: OsView)
        requires
            self.input_params == other.input_params,
            self.input_procs =~= other.input_procs,
            self.input_queue =~= other.input_queue,
            self.input_size == other.input_size,
            self.clock_limit == other.clock_limit,
            self.running_processes =~= other.running_processes,
            self.master_clock == other.master_clock,
            self.current_pid == other.current_pid,
            self.next_pid == other.next_pid,
            self.memory_map =~= other.memory_map,
            self.blocked_queue =~= other.blocked_queue,
            self.ready_queue =~= other.ready_queue,
            self.events =~= other.events,
            self.snapshots =~= other.snapshots,
        ensures
            self == other,
    {
    }

    /// The engine before its first tick.
    pub open spec fn initial(
        params: OSParams,
        processes: Seq<ProcessDataView>,
        clock_limit: i32,
    ) -> OsView {
        OsView {
            input_params: params,
            input_procs: processes,
            input_queue: Seq::empty(),
            input_size: processes.len() as i32,
            clock_limit,
            running_processes: Map::empty(),
            master_clock: 0,
            current_pid: 0,
            next_pid: 1,
            memory_map: Map::empty(),
            blocked_queue: Seq::empty(),
            ready_queue: Seq::empty(),
            events: Seq::empty(),
            snapshots: Seq::empty(),
        }
    }
}

impl OS {
    /// The invariant of the engine, on the machine itself.
    pub open spec fn wf(&self) -> bool {
        self@.wf()
    }

    /// Sets up a machine for the given workload: clock at zero, nothing
    /// queued, nothing admitted, nothing reported.
    pub fn new(params: OSParams, processes: Vec<ProcessData>, clock_limit: i32) -> (os: OS)
        ensures
            os@ == OsView::initial(params, processes@.map_values(|d: ProcessData| d@), clock_limit),
            os.input_procs == processes,
            os.wf(),
            at_rest(os@),
    {
        let num_procs = processes.len();
        let os = OS {
            input_params: params,
            input_procs: processes,
            input_queue: VecDeque::new(),
            input_size: num_procs as i32,
            clock_limit,
            running_processes: HashMap::new(),
            master_clock: 0,
            current_pid: 0,
            next_pid: 1,
            memory_map: HashMap::new(),
            blocked_queue: VecDeque::new(),
            ready_queue: VecDeque::new(),
            events: Vec::new(),
            snapshots: Vec::new(),
        };
        proof {
            let target = OsView::initial(
                params,
                processes@.map_values(|d: ProcessData| d@),
                clock_limit,
            );
            os@.lemma_equal(target);
        }
        os
    }

    /// Removes the process `pid` from the machine: from both queues, from the
    /// memory map and from the table. A process that is not there leaves
    /// everything as it is.
    pub fn remove_process(&mut self, pid: PID)
        ensures
            final(self)@ == old(self)@.removed(pid),
    {
        remove_pid(&mut self.blocked_queue, pid);
        remove_pid(&mut self.ready_queue, pid);
        self.memory_map.remove(&pid);
        self.running_processes.remove(&pid);
        proof {
            let target = old(self)@.removed(pid);
            self@.lemma_equal(target);
        }
    }

    /// Whether a report is due at the current tick.
    fn report_due(&self) -> (due: bool)
        requires
            0 <= self.master_clock,
        ensures
            due == report_due(self@),
    {
        let every = self.input_params.every_n_units as i64;
        let interval = if every < 0 {
            -every
        } else {
            every
        };
        every != 0 && (self.master_clock as i64) % interval == 0
    }

    /// Runs one tick, as `ticked` says: moves the clock up; then, unless
    /// the clock is past its ceiling, lets the allocator make its pass and,
    /// unless that admitted anything, the dispatcher run its tick; then
    /// makes the report if one is due, and sees whether anything is left
    /// to do.
    pub fn tick(&mut self, dispatcher: &mut Dispatcher) -> (status: TickStatus)
        requires
            old(dispatcher).wf(old(self)),
            usable_block_size(old(self).input_params.mem_fix_block_size),
        ensures
            (final(dispatcher)@, final(self)@, status) == ticked(old(dispatcher)@, old(self)@),
            final(dispatcher).wf(final(self)),
            final(self).wf(),
    {
        proof {
            lemma_ticked(dispatcher@, self@);
        }
        if self.master_clock == i32::MAX {
            return TickStatus::Runaway;
        }
        self.master_clock = self.master_clock + 1;
        proof {
            lemma_clock_up(old(dispatcher)@, old(self)@);
            assert(self@ == clock_up(old(self)@));
        }
        if self.master_clock > self.clock_limit {
            return TickStatus::Runaway;
        }
        let ghost next = self@;
        let cycled = Allocator::allocate(self);
        proof {
            lemma_alloc_pass_coherent(dispatcher@, next);
        }
        if !cycled {
            dispatcher.dispatch(self);
        }
        if self.report_due() {
            let ghost before = self@;
            let report = self.snapshot();
            self.snapshots.push(report);
            proof {
                let target = reported(before);
                self@.lemma_equal(target);
            }
        }
        proof {
            assert(self@.running_processes.dom() =~= self.running_processes@.dom());
        }
        if self.running_processes.is_empty() && self.input_queue.len() == 0 {
            TickStatus::Finished
        } else {
            TickStatus::Running
        }
    }

    /// Starts the simulation and runs it to its end: puts the whole
    /// workload at the back of the admission queue, then runs tick after
    /// tick with a new dispatcher, as `run` says, until nothing is left to
    /// do or the clock passes its ceiling.
    ///
    /// The machine must be at rest, as a new one is, and the workload must
    /// leave room for a PID for each of its processes.
    pub fn start(&mut self) -> (status: TickStatus)
        requires
            at_rest(old(self)@),
            usable_block_size(old(self).input_params.mem_fix_block_size),
            old(self)@.next_pid + old(self)@.input_queue.len() + old(self)@.input_procs.len()
                <= i32::MAX,
        ensures
            (final(self)@, status) == (
                run(DispatcherView::initial(), old(self)@.seeded()).1,
                run(DispatcherView::initial(), old(self)@.seeded()).2,
            ),
            final(self).wf(),
            status != TickStatus::Running,
            status == TickStatus::Finished ==> drained(final(self)@),
    {
        let mut i: usize = 0;
        while i < self.input_procs.len()
            invariant
                i <= self.input_procs@.len(),
                self.input_procs == old(self).input_procs,
                self@ == (OsView {
                    input_queue: old(self)@.input_queue + old(self)@.input_procs.take(i as int),
                    ..old(self)@
                }),
            decreases self.input_procs@.len() - i,
        {
            let ghost before = self@;
            let process = self.input_procs[i].clone();
            self.input_queue.push_back(process);
            proof {
                let target = OsView {
                    input_queue: old(self)@.input_queue + old(self)@.input_procs.take(i as int + 1),
                    ..old(self)@
                };
                assert(process@ == old(self)@.input_procs[i as int]);
                assert(old(self)@.input_procs.take(i as int + 1) =~= old(self)@.input_procs.take(
                    i as int,
                ).push(process@));
                assert(self@.input_queue =~= before.input_queue.push(process@));
                self@.lemma_equal(target);
            }
            i += 1;
        }
        let mut dispatcher = Dispatcher::new();
        proof {
            assert(old(self)@.input_procs.take(i as int) =~= old(self)@.input_procs);
            assert(self@ == old(self)@.seeded());
            assert(coherent(dispatcher@, self@));
            lemma_run_end(dispatcher@, self@);
            lemma_run(dispatcher@, self@);
        }
        let ghost seeded = self@;
        let mut status = TickStatus::Running;
        loop
            invariant_except_break
                dispatcher.wf(self),
                usable_block_size(self.input_params.mem_fix_block_size),
                run(dispatcher@, self@) == run(DispatcherView::initial(), seeded),
            ensures
                (dispatcher@, self@, status) == run(DispatcherView::initial(), seeded),
            decreases self.clock_limit - self.master_clock,
        {
            proof {
                lemma_ticked_clock(dispatcher@, self@);
                lemma_ticked(dispatcher@, self@);
            }
            status = self.tick(&mut dispatcher);
            match status {
                TickStatus::Running => {},
                _ => {
                    break ;
                },
            }
        }
        status
    }
}

} // verus!
