//! The clock loop as a function of the dispatcher and the machine: what one
//! tick does, and what a run to the end does.
use crate::os::allocator::{alloc_pass, lemma_alloc_pass_frame, usable_block_size};
use crate::os::coherence::{coherent, lemma_alloc_pass_coherent, lemma_dispatched, same_frame};
use crate::os::dispatcher::{cpu_phase, dispatched, io_phase, io_updated, DispatcherView};
use crate::os::os::OsView;
use crate::os::report::snapshot_of;
use crate::os::structures::PID;
use vstd::prelude::*;

verus! {

/// How a tick left the run.
#[derive(Clone, Copy, Debug, PartialEq, Eq, Structural)]
pub enum TickStatus {
    /// There is more to do.
    Running,
    /// No process is live and none waits for admission.
    Finished,
    /// The clock went past its ceiling.
    Runaway,
}

/// The machine with its clock moved up by one.
pub open spec fn clock_up(os: OsView) -> OsView {
    OsView { master_clock: (os.master_clock + 1) as i32, ..os }
}

/// Whether a report is due at the current tick: the reporting interval is
/// not zero, and the clock is a multiple of it.
pub open spec fn report_due(os: OsView) -> bool {
    let every = os.input_params.every_n_units as int;
    every != 0 && os.master_clock as int % (if every < 0 {
        -every
    } else {
        every
    }) == 0
}

/// The machine after the report of the current tick, if one is due, was
/// added to its reports.
pub open spec fn reported(os: OsView) -> OsView {
    if report_due(os) {
        OsView { snapshots: os.snapshots.push(snapshot_of(os)), ..os }
    } else {
        os
    }
}

/// Whether nothing is left to do: no process is live and no descriptor
/// waits for admission.
pub open spec fn drained(os: OsView) -> bool {
    os.running_processes.dom() =~= Set::empty() && os.input_queue.len() == 0
}

/// The dispatcher, the machine and the status after one tick.
///
/// The clock goes up by one. If it is past the ceiling then, or cannot
/// count further, the run is a runaway and nothing else happens. Else the
/// allocator makes its pass. If it admitted anything, the tick is used
/// up; else the dispatcher runs its tick. Then a report is made if one is
/// due, and the run is finished if nothing is left to do.
pub open spec fn ticked(d: DispatcherView, os: OsView) -> (DispatcherView, OsView, TickStatus) {
    if os.master_clock >= i32::MAX {
        (d, os, TickStatus::Runaway)
    } else {
        let os = clock_up(os);
        if os.master_clock > os.clock_limit {
            (d, os, TickStatus::Runaway)
        } else {
            let (os, cycled) = alloc_pass(os);
            let (d, os) = if cycled {
                (d, os)
            } else {
                dispatched(d, os)
            };
            let os = reported(os);
            (
                d,
                os,
                if drained(os) {
                    TickStatus::Finished
                } else {
                    TickStatus::Running
                },
            )
        }
    }
}

/// The I/O of a tick leaves the clock and its ceiling alone.
proof fn lemma_io_phase_clock(d: DispatcherView, os: OsView, pids: Seq<PID>)
    ensures
        io_phase(d, os, pids).1.master_clock == os.master_clock,
        io_phase(d, os, pids).1.clock_limit == os.clock_limit,
    decreases pids.len(),
{
    if pids.len() > 0 {
        let (d1, mid) = io_updated(d, os, pids[0]);
        lemma_io_phase_clock(d1, mid, pids.drop_first());
    }
}

/// A tick that leaves the run going has moved the clock up by one, not
/// past the ceiling.
pub proof fn lemma_ticked_clock(d: DispatcherView, os: OsView)
    ensures
        ticked(d, os).1.clock_limit == os.clock_limit,
        ticked(d, os).2 == TickStatus::Running ==> ticked(d, os).1.master_clock == os.master_clock
            + 1 && ticked(d, os).1.master_clock <= os.clock_limit,
{
    if os.master_clock < i32::MAX {
        let next = clock_up(os);
        lemma_alloc_pass_frame(next);
        let (after, cycled) = alloc_pass(next);
        let (d1, mid) = cpu_phase(d, after);
        lemma_io_phase_clock(d1, mid, after.blocked_queue);
    }
}

/// The dispatcher, the machine and the status at the end of a run: after
/// the first tick that does not leave the run going.
pub open spec fn run(d: DispatcherView, os: OsView) -> (DispatcherView, OsView, TickStatus)
    decreases os.clock_limit - os.master_clock,
    via run_decreases
{
    let (d1, os1, status) = ticked(d, os);
    if status == TickStatus::Running {
        run(d1, os1)
    } else {
        (d1, os1, status)
    }
}

#[via_fn]
proof fn run_decreases(d: DispatcherView, os: OsView) {
    lemma_ticked_clock(d, os);
}

/// Moving the clock up keeps the agreement between the dispatcher and the
/// machine, and gives every process a tick to use.
pub proof fn lemma_clock_up(d: DispatcherView, os: OsView)
    requires
        coherent(d, os),
        os.master_clock < i32::MAX,
    ensures
        coherent(d, clock_up(os)),
        clock_up(os).fresh(),
{
    let next = clock_up(os);
    assert forall|pid: PID| #[trigger] next.running_processes.contains_key(pid) implies next.pcb_ok(
        pid,
    ) && next.running_processes[pid].total_cpu + next.running_processes[pid].total_ios
        < next.master_clock by {
        assert(os.pcb_ok(pid));
    }
}

/// A report changes nothing that the agreement between the dispatcher and
/// the machine speaks of.
pub proof fn lemma_reported(d: DispatcherView, os: OsView)
    requires
        coherent(d, os),
    ensures
        coherent(d, reported(os)),
{
}

/// A tick keeps the agreement between the dispatcher and the machine, and
/// with it the invariant of the machine. It leaves the configuration alone.
pub proof fn lemma_ticked(d: DispatcherView, os: OsView)
    requires
        coherent(d, os),
        usable_block_size(os.input_params.mem_fix_block_size),
    ensures
        coherent(ticked(d, os).0, ticked(d, os).1),
        ticked(d, os).1.input_params == os.input_params,
{
    if os.master_clock < i32::MAX {
        let next = clock_up(os);
        lemma_clock_up(d, os);
        if next.master_clock <= next.clock_limit {
            lemma_alloc_pass_coherent(d, next);
            lemma_alloc_pass_frame(next);
            let (after, cycled) = alloc_pass(next);
            if cycled {
                lemma_reported(d, after);
            } else {
                lemma_dispatched(d, after);
                let (d1, done) = dispatched(d, after);
                assert(same_frame(after, done));
                lemma_reported(d1, done);
            }
        }
    }
}

/// How a run ends: not still running. Where it finished, nothing is left
/// to do; where it ran away, the clock is past its ceiling or cannot count
/// further.
pub proof fn lemma_run_end(d: DispatcherView, os: OsView)
    ensures
        run(d, os).2 != TickStatus::Running,
        run(d, os).1.clock_limit == os.clock_limit,
        run(d, os).2 == TickStatus::Finished ==> drained(run(d, os).1),
        run(d, os).2 == TickStatus::Runaway ==> run(d, os).1.master_clock > os.clock_limit || run(
            d,
            os,
        ).1.master_clock == i32::MAX,
    decreases os.clock_limit - os.master_clock,
{
    lemma_ticked_clock(d, os);
    let (d1, os1, status) = ticked(d, os);
    if status == TickStatus::Running {
        lemma_run_end(d1, os1);
    }
}

/// A run keeps the agreement between the dispatcher and the machine, and
/// with it the invariant of the machine.
pub proof fn lemma_run(d: DispatcherView, os: OsView)
    requires
        coherent(d, os),
        usable_block_size(os.input_params.mem_fix_block_size),
    ensures
        coherent(run(d, os).0, run(d, os).1),
    decreases os.clock_limit - os.master_clock,
{
    lemma_ticked_clock(d, os);
    lemma_ticked(d, os);
    let (d1, os1, status) = ticked(d, os);
    if status == TickStatus::Running {
        lemma_run(d1, os1);
    }
}

} // verus!
