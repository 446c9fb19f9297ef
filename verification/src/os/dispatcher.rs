//! Dispatch: one CPU runs the processes of the ready queue burst by burst,
//! while the blocked ones count down their I/O.
//!
//! In a tick the dispatcher first gives the CPU one unit of work. A process
//! in the middle of a burst goes on; else the front of the ready queue is
//! next. A process leaves the ready queue while it holds the CPU, and joins
//! it again at the back when its burst is over: the CPU goes round the
//! ready processes burst by burst. Then every process that was blocked when
//! the tick began does one unit of I/O. So no process uses the CPU and a
//! device in the same tick.
use crate::os::coherence::{
    coherent, io_ready, lemma_cpu_phase, lemma_dispatched, lemma_io_updated,
};
use crate::os::os::{OsView, OS};
use crate::os::queue::{remove_pid, without};
use crate::os::structures::{Event, EventType, PcbView, ProcessControlBlock, State, PID};
use crate::records::{IODeviceType, ProcessDataView, RunInfo};
use std::collections::{HashMap, VecDeque};
use vstd::prelude::*;

verus! {

broadcast use vstd::std_specs::hash::group_hash_axioms;

/// The dispatcher: who holds the CPU, and how far each I/O has come.
pub struct Dispatcher {
    /// The process that holds the CPU in the middle of a burst.
    pub current_process: Option<PID>,
    /// The burst that `current_process` executes: the CPU units that it has
    /// left, and the I/O that follows them.
    pub current_burst: RunInfo,
    /// The device of each blocked process and the I/O units that it has
    /// left.
    pub ios_to_go: HashMap<PID, (IODeviceType, i32)>,
}

/// The mathematical value of a `Dispatcher`.
pub struct DispatcherView {
    pub current_process: Option<PID>,
    pub current_burst: RunInfo,
    pub ios_to_go: Map<PID, (IODeviceType, i32)>,
}

impl View for Dispatcher {
    type V = DispatcherView;

    open spec fn view(&self) -> DispatcherView {
        DispatcherView {
            current_process: self.current_process,
            current_burst: self.current_burst,
            ios_to_go: self.ios_to_go@,
        }
    }
}

impl DispatcherView {
    /// A dispatcher that has dispatched nothing yet.
    pub open spec fn initial() -> DispatcherView {
        DispatcherView {
            current_process: None,
            current_burst: RunInfo {
                CPU_units: 0,
                IO_units: 0,
                IO_device_type: IODeviceType::Unknown,
            },
            ios_to_go: Map::empty(),
        }
    }
}

impl OsView {
    /// The machine after `pid` got the CPU: where it never ran before, the
    /// log says that it started, and the current tick is its start time.
    pub open spec fn started(self, pid: PID) -> OsView {
        let pcb = self.running_processes[pid];
        if pcb.start_time == 0 {
            self.logged(EventType::Started, pid).with_block(
                pid,
                PcbView { start_time: self.master_clock, ..pcb },
            )
        } else {
            self
        }
    }

    /// The machine after `pid` was found to have no burst left: the log says
    /// that it finished, the process is `Done` with the current tick as its
    /// end time, and with that it is removed.
    pub open spec fn finished(self, pid: PID) -> OsView {
        let pcb = self.running_processes[pid];
        self.logged(EventType::Finished, pid).with_block(
            pid,
            PcbView { state: State::Done, end_time: self.master_clock, ..pcb },
        ).removed(pid)
    }
}

/// The dispatcher and the machine after `pid` loaded its next burst: the
/// first of those it has left, which then is no longer among them.
pub open spec fn loaded(d: DispatcherView, os: OsView, pid: PID) -> (DispatcherView, OsView) {
    let pcb = os.running_processes[pid];
    let burst = pcb.info.run_info[0];
    (
        DispatcherView { current_process: Some(pid), current_burst: burst, ..d },
        os.with_block(
            pid,
            PcbView {
                info: ProcessDataView { run_info: pcb.info.run_info.drop_first(), ..pcb.info },
                ..pcb
            },
        ),
    )
}

/// The dispatcher and the machine after the CPU part of the burst of `pid`
/// ran out. The log says that it timed out, and the CPU is free. Where the
/// burst has I/O to do, the process is blocked and goes to the back of the
/// blocked queue with its device and countdown. Else it is ready and goes to
/// the back of the ready queue.
pub open spec fn timed_out(d: DispatcherView, os: OsView, pid: PID) -> (DispatcherView, OsView) {
    let os = os.logged(EventType::Timeout, pid);
    let pcb = os.running_processes[pid];
    if d.current_burst.IO_units > 0 {
        (
            DispatcherView {
                current_process: None,
                ios_to_go: d.ios_to_go.insert(
                    pid,
                    (d.current_burst.IO_device_type, d.current_burst.IO_units),
                ),
                ..d
            },
            OsView {
                blocked_queue: os.blocked_queue.push(pid),
                ..os.with_block(pid, PcbView { state: State::Blocked, ..pcb })
            },
        )
    } else {
        (
            DispatcherView { current_process: None, ..d },
            OsView {
                ready_queue: os.ready_queue.push(pid),
                ..os.with_block(pid, PcbView { state: State::Ready, ..pcb })
            },
        )
    }
}

/// The dispatcher and the machine after `pid`, whose burst is loaded, had
/// the CPU for this tick. Where the burst has CPU units left, the process
/// executes one: it is `Executing`, and its CPU counter goes up by one. Where
/// none is left then, it times out.
pub open spec fn cpu_updated(d: DispatcherView, os: OsView, pid: PID) -> (DispatcherView, OsView) {
    let pcb = os.running_processes[pid];
    let (d, os) = if d.current_burst.CPU_units > 0 {
        (
            DispatcherView {
                current_burst: RunInfo {
                    CPU_units: (d.current_burst.CPU_units - 1) as i32,
                    ..d.current_burst
                },
                ..d
            },
            os.with_block(
                pid,
                PcbView {
                    state: State::Executing,
                    total_cpu: (pcb.total_cpu + 1) as i32,
                    ..pcb
                },
            ),
        )
    } else {
        (d, os)
    };
    if d.current_burst.CPU_units <= 0 {
        timed_out(d, os, pid)
    } else {
        (d, os)
    }
}

/// The dispatcher and the machine after `pid` was given the CPU for this
/// tick. It starts if it never ran. In the middle of a burst it goes on with
/// it. Else it loads its next burst and begins it, or finishes where it has
/// none.
pub open spec fn executed(d: DispatcherView, os: OsView, pid: PID) -> (DispatcherView, OsView) {
    let os = os.started(pid);
    if d.current_process is Some {
        cpu_updated(d, os, pid)
    } else if os.running_processes[pid].info.run_info.len() > 0 {
        let (d, os) = loaded(d, os, pid);
        cpu_updated(d, os, pid)
    } else {
        (d, os.finished(pid))
    }
}

/// The process that gets the CPU in this tick, if any: the one in the
/// middle of a burst, else the front of the ready queue.
pub open spec fn selected(d: DispatcherView, os: OsView) -> Option<PID> {
    match d.current_process {
        Some(pid) => Some(pid),
        None => if os.ready_queue.len() > 0 {
            Some(os.ready_queue[0])
        } else {
            None
        },
    }
}

/// A queue after its front went to its back.
pub open spec fn rotated(queue: Seq<PID>) -> Seq<PID> {
    if queue.len() > 0 {
        queue.drop_first().push(queue[0])
    } else {
        queue
    }
}

/// The machine as the selected process finds it. Where the CPU was free,
/// the front of the ready queue went to the back of the queue and from
/// there to the CPU: it is the current process, and in no queue for as
/// long as it holds the CPU.
pub open spec fn selection(d: DispatcherView, os: OsView) -> OsView {
    if d.current_process is None && os.ready_queue.len() > 0 {
        OsView {
            ready_queue: rotated(os.ready_queue).drop_last(),
            current_pid: os.ready_queue[0],
            ..os
        }
    } else {
        os
    }
}

/// A queue that turns and then loses its back has lost its front.
pub proof fn lemma_rotated(queue: Seq<PID>)
    requires
        queue.len() > 0,
    ensures
        rotated(queue).drop_last() == queue.drop_first(),
        rotated(queue).last() == queue[0],
{
    assert(rotated(queue).drop_last() =~= queue.drop_first());
}

/// The dispatcher and the machine after the CPU did its work of this tick:
/// the selected process, if there is one, executes.
pub open spec fn cpu_phase(d: DispatcherView, os: OsView) -> (DispatcherView, OsView) {
    match selected(d, os) {
        Some(pid) => executed(d, selection(d, os), pid),
        None => (d, os),
    }
}

/// The dispatcher and the machine after the blocked process `pid` did one
/// unit of I/O: its I/O counter goes up by one and its countdown down by
/// one. Where the countdown is at zero then, the log says that the I/O is
/// complete, and the process is ready: it leaves the blocked queue and
/// goes to the back of the ready queue.
pub open spec fn io_updated(d: DispatcherView, os: OsView, pid: PID) -> (DispatcherView, OsView) {
    let pcb = os.running_processes[pid];
    let counted = PcbView { total_ios: (pcb.total_ios + 1) as i32, ..pcb };
    let (device, left) = d.ios_to_go[pid];
    if left - 1 <= 0 {
        let os = os.logged(EventType::IO, pid);
        (
            DispatcherView { ios_to_go: d.ios_to_go.remove(pid), ..d },
            OsView {
                blocked_queue: without(os.blocked_queue, pid),
                ready_queue: os.ready_queue.push(pid),
                ..os.with_block(pid, PcbView { state: State::Ready, ..counted })
            },
        )
    } else {
        (
            DispatcherView { ios_to_go: d.ios_to_go.insert(pid, (device, (left - 1) as i32)), ..d },
            os.with_block(pid, counted),
        )
    }
}

/// The dispatcher and the machine after each process of `pids` did one unit
/// of I/O, in that order.
pub open spec fn io_phase(d: DispatcherView, os: OsView, pids: Seq<PID>) -> (
    DispatcherView,
    OsView,
)
    decreases pids.len(),
{
    if pids.len() == 0 {
        (d, os)
    } else {
        let (d, os) = io_updated(d, os, pids[0]);
        io_phase(d, os, pids.drop_first())
    }
}

/// The dispatcher and the machine after one tick of dispatch: the CPU does
/// its work, then every process that was blocked before does one unit of
/// I/O.
pub open spec fn dispatched(d: DispatcherView, os: OsView) -> (DispatcherView, OsView) {
    let (after_d, after_os) = cpu_phase(d, os);
    io_phase(after_d, after_os, os.blocked_queue)
}

/// Writes `kind` for the live process `pid` into the log.
fn log_event(os: &mut OS, kind: EventType, pid: PID)
    requires
        old(os)@.running_processes.contains_key(pid),
    ensures
        final(os)@ == old(os)@.logged(kind, pid),
{
    let name = os.running_processes.get(&pid).unwrap().info.process_name.clone();
    os.events.push(Event { kind, time: os.master_clock, pid, name });
    proof {
        let target = old(os)@.logged(kind, pid);
        os@.lemma_equal(target);
    }
}

/// Takes the control block of the live process `pid` out of the table.
fn take_block(os: &mut OS, pid: PID) -> (pcb: ProcessControlBlock)
    requires
        old(os)@.running_processes.contains_key(pid),
    ensures
        pcb@ == old(os)@.running_processes[pid],
        final(os)@ == (OsView {
            running_processes: old(os)@.running_processes.remove(pid),
            ..old(os)@
        }),
{
    let pcb = os.running_processes.remove(&pid).unwrap();
    proof {
        let target = OsView {
            running_processes: old(os)@.running_processes.remove(pid),
            ..old(os)@
        };
        os@.lemma_equal(target);
    }
    pcb
}

/// Puts the control block `pcb` into the table under `pid`.
fn put_block(os: &mut OS, pid: PID, pcb: ProcessControlBlock)
    ensures
        final(os)@ == old(os)@.with_block(pid, pcb@),
{
    os.running_processes.insert(pid, pcb);
    proof {
        let target = old(os)@.with_block(pid, pcb@);
        os@.lemma_equal(target);
    }
}

/// Taking a block out and putting another in its place replaces it.
proof fn lemma_take_put(os: OsView, pid: PID, pcb: PcbView)
    ensures
        (OsView { running_processes: os.running_processes.remove(pid), ..os }).with_block(pid, pcb)
            == os.with_block(pid, pcb),
{
    assert(os.running_processes.remove(pid).insert(pid, pcb) =~= os.running_processes.insert(
        pid,
        pcb,
    ));
}

impl Dispatcher {
    /// Whether the dispatcher and the machine agree.
    pub open spec fn wf(&self, os: &OS) -> bool {
        coherent(self@, os@)
    }

    /// Makes a dispatcher that has dispatched nothing yet.
    pub fn new() -> (dispatcher: Dispatcher)
        ensures
            dispatcher@ == DispatcherView::initial(),
    {
        Dispatcher {
            current_process: None,
            current_burst: RunInfo {
                CPU_units: 0,
                IO_units: 0,
                IO_device_type: IODeviceType::Unknown,
            },
            ios_to_go: HashMap::new(),
        }
    }

    /// Finds the process that is next: the front of the ready queue, which
    /// goes to the back of the queue at once. There is none where the queue
    /// is empty.
    pub fn get_next_pid_FIFO(os: &mut OS) -> (next: Option<PID>)
        ensures
            old(os)@.ready_queue.len() == 0 ==> next is None,
            old(os)@.ready_queue.len() > 0 ==> next == Some(old(os)@.ready_queue[0]),
            final(os)@ == (OsView { ready_queue: rotated(old(os)@.ready_queue), ..old(os)@ }),
    {
        let next = os.ready_queue.pop_front();
        match next {
            Some(pid) => {
                os.ready_queue.push_back(pid);
            },
            None => {},
        }
        proof {
            let target = OsView { ready_queue: rotated(old(os)@.ready_queue), ..old(os)@ };
            os@.lemma_equal(target);
        }
        next
    }

    /// Marks the first execution of the live process `pid`, as `started`
    /// says.
    fn start_process(os: &mut OS, pid: PID)
        requires
            old(os)@.running_processes.contains_key(pid),
        ensures
            final(os)@ == old(os)@.started(pid),
    {
        if os.running_processes.get(&pid).unwrap().start_time == 0 {
            log_event(os, EventType::Started, pid);
            let mut pcb = take_block(os, pid);
            pcb.start_time = os.master_clock;
            put_block(os, pid, pcb);
            proof {
                lemma_take_put(
                    old(os)@.logged(EventType::Started, pid),
                    pid,
                    PcbView {
                        start_time: old(os)@.master_clock,
                        ..old(os)@.running_processes[pid]
                    },
                );
            }
        }
    }

    /// Ends the live process `pid`, as `finished` says.
    fn finish_process(os: &mut OS, pid: PID)
        requires
            old(os)@.running_processes.contains_key(pid),
        ensures
            final(os)@ == old(os)@.finished(pid),
    {
        log_event(os, EventType::Finished, pid);
        let mut pcb = take_block(os, pid);
        pcb.state = State::Done;
        pcb.end_time = os.master_clock;
        put_block(os, pid, pcb);
        proof {
            lemma_take_put(old(os)@.logged(EventType::Finished, pid), pid, pcb@);
        }
        os.remove_process(pid);
    }

    /// Loads the next burst of the live process `pid`, as `loaded` says.
    fn load_burst(&mut self, os: &mut OS, pid: PID)
        requires
            old(os)@.running_processes.contains_key(pid),
            old(os)@.running_processes[pid].info.run_info.len() > 0,
        ensures
            (final(self)@, final(os)@) == loaded(old(self)@, old(os)@, pid),
    {
        let mut pcb = take_block(os, pid);
        let burst = pcb.info.run_info.remove(0);
        put_block(os, pid, pcb);
        self.current_process = Some(pid);
        self.current_burst = burst;
        proof {
            let before = old(os)@.running_processes[pid];
            let after = PcbView {
                info: ProcessDataView { run_info: before.info.run_info.drop_first(), ..before.info },
                ..before
            };
            assert(pcb@.info.run_info =~= after.info.run_info);
            lemma_take_put(old(os)@, pid, after);
        }
    }

    /// Ends the CPU part of the burst of the live process `pid`, as
    /// `timed_out` says.
    fn timeout(&mut self, os: &mut OS, pid: PID)
        requires
            old(os)@.running_processes.contains_key(pid),
        ensures
            (final(self)@, final(os)@) == timed_out(old(self)@, old(os)@, pid),
    {
        log_event(os, EventType::Timeout, pid);
        let ghost logged = os@;
        let mut pcb = take_block(os, pid);
        self.current_process = None;
        if self.current_burst.IO_units > 0 {
            pcb.state = State::Blocked;
            put_block(os, pid, pcb);
            os.blocked_queue.push_back(pid);
            self.ios_to_go.insert(
                pid,
                (self.current_burst.IO_device_type, self.current_burst.IO_units),
            );
        } else {
            pcb.state = State::Ready;
            put_block(os, pid, pcb);
            os.ready_queue.push_back(pid);
        }
        proof {
            lemma_take_put(logged, pid, pcb@);
            let target = timed_out(old(self)@, old(os)@, pid).1;
            os@.lemma_equal(target);
        }
    }

    /// Gives the live process `pid`, whose burst is loaded, the CPU for this
    /// tick, as `cpu_updated` says: it executes one unit where the burst
    /// has one left, and times out where none is left then.
    fn update_cpu(&mut self, os: &mut OS, pid: PID)
        requires
            old(os)@.running_processes.contains_key(pid),
            old(os)@.running_processes[pid].total_cpu < i32::MAX,
        ensures
            (final(self)@, final(os)@) == cpu_updated(old(self)@, old(os)@, pid),
    {
        if self.current_burst.CPU_units > 0 {
            let mut pcb = take_block(os, pid);
            pcb.state = State::Executing;
            pcb.total_cpu = pcb.total_cpu + 1;
            put_block(os, pid, pcb);
            self.current_burst.CPU_units = self.current_burst.CPU_units - 1;
            proof {
                lemma_take_put(old(os)@, pid, pcb@);
            }
        }
        if self.current_burst.CPU_units <= 0 {
            self.timeout(os, pid);
        }
    }

    /// Gives the live process `pid` the CPU for this tick, as `executed`
    /// says.
    fn exec(&mut self, os: &mut OS, pid: PID)
        requires
            old(os)@.running_processes.contains_key(pid),
            old(os)@.running_processes[pid].total_cpu < i32::MAX,
        ensures
            (final(self)@, final(os)@) == executed(old(self)@, old(os)@, pid),
    {
        Self::start_process(os, pid);
        assert(os@.running_processes.contains_key(pid));
        if self.current_process.is_some() {
            self.update_cpu(os, pid);
        } else if os.running_processes.get(&pid).unwrap().info.run_info.len() > 0 {
            self.load_burst(os, pid);
            self.update_cpu(os, pid);
        } else {
            Self::finish_process(os, pid);
        }
    }

    /// Lets the blocked process `pid` do one unit of I/O, as `io_updated`
    /// says.
    fn update_io(&mut self, os: &mut OS, pid: PID)
        requires
            old(os)@.running_processes.contains_key(pid),
            old(os)@.running_processes[pid].total_ios < i32::MAX,
            old(self)@.ios_to_go.contains_key(pid),
            old(self)@.ios_to_go[pid].1 > i32::MIN,
        ensures
            (final(self)@, final(os)@) == io_updated(old(self)@, old(os)@, pid),
    {
        let (device, left) = *self.ios_to_go.get(&pid).unwrap();
        if left - 1 <= 0 {
            log_event(os, EventType::IO, pid);
            let ghost logged = os@;
            let mut pcb = take_block(os, pid);
            pcb.total_ios = pcb.total_ios + 1;
            pcb.state = State::Ready;
            put_block(os, pid, pcb);
            remove_pid(&mut os.blocked_queue, pid);
            os.ready_queue.push_back(pid);
            self.ios_to_go.remove(&pid);
            proof {
                lemma_take_put(logged, pid, pcb@);
                let target = io_updated(old(self)@, old(os)@, pid).1;
                os@.lemma_equal(target);
            }
        } else {
            let mut pcb = take_block(os, pid);
            pcb.total_ios = pcb.total_ios + 1;
            put_block(os, pid, pcb);
            self.ios_to_go.insert(pid, (device, left - 1));
            proof {
                lemma_take_put(old(os)@, pid, pcb@);
            }
        }
    }

    /// Lets each process of `pids` do one unit of I/O, in that order, as
    /// `io_phase` says.
    fn update_ios(&mut self, os: &mut OS, pids: &Vec<PID>)
        requires
            io_ready(old(self)@, old(os)@, pids@),
        ensures
            (final(self)@, final(os)@) == io_phase(old(self)@, old(os)@, pids@),
    {
        let mut i: usize = 0;
        assert(pids@.skip(0) =~= pids@);
        while i < pids.len()
            invariant
                i <= pids.len(),
                io_ready(self@, os@, pids@.skip(i as int)),
                io_phase(self@, os@, pids@.skip(i as int)) == io_phase(
                    old(self)@,
                    old(os)@,
                    pids@,
                ),
            decreases pids.len() - i,
        {
            proof {
                lemma_io_updated(self@, os@, pids@.skip(i as int));
                assert(pids@.skip(i as int).drop_first() =~= pids@.skip(i as int + 1));
            }
            self.update_io(os, pids[i]);
            i += 1;
        }
    }

    /// Runs one tick of dispatch, as `dispatched` says. The process in the
    /// middle of a burst, or else the front of the ready queue, gets the
    /// CPU, and is in no queue while it holds it. It starts if it never
    /// ran, loads its next burst if it has none loaded, executes one unit,
    /// and times out when the CPU part is used up, to block for its I/O or
    /// to go to the back of the ready queue. A process with no burst left
    /// finishes and is removed. Then every process that was blocked when
    /// the tick began does one unit of I/O, and is ready again when its
    /// countdown is at zero.
    pub fn dispatch(&mut self, os: &mut OS)
        requires
            old(self).wf(old(os)),
            old(os)@.fresh(),
        ensures
            (final(self)@, final(os)@) == dispatched(old(self)@, old(os)@),
            final(self).wf(final(os)),
            final(os).wf(),
    {
        let blocked = queue_pids(&os.blocked_queue);
        proof {
            lemma_cpu_phase(self@, os@);
            lemma_dispatched(self@, os@);
            match selected(self@, os@) {
                Some(pid) => {
                    if self@.current_process is None {
                        assert(os@.running_processes.contains_key(os@.ready_queue[0]));
                    }
                    assert(os@.pcb_ok(pid));
                },
                None => {},
            }
        }
        match self.current_process {
            Some(pid) => {
                self.exec(os, pid);
            },
            None => {
                match Self::get_next_pid_FIFO(os) {
                    Some(next_pid) => {
                        os.ready_queue.pop_back();
                        os.current_pid = next_pid;
                        proof {
                            os@.lemma_equal(selection(old(self)@, old(os)@));
                        }
                        self.exec(os, next_pid);
                    },
                    None => {
                        assert(os@ == old(os)@);
                    },
                }
            },
        }
        self.update_ios(os, &blocked);
    }
}

/// Lists the processes of `queue`, front first.
fn queue_pids(queue: &VecDeque<PID>) -> (pids: Vec<PID>)
    ensures
        pids@ == queue@,
{
    let mut pids: Vec<PID> = Vec::new();
    let mut i: usize = 0;
    while i < queue.len()
        invariant
            i <= queue@.len(),
            pids@ == queue@.take(i as int),
        decreases queue@.len() - i,
    {
        pids.push(queue[i]);
        proof {
            assert(queue@.take(i as int + 1) =~= queue@.take(i as int).push(queue@[i as int]));
        }
        i += 1;
    }
    proof {
        assert(queue@.take(i as int) =~= queue@);
    }
    pids
}

} // verus!
