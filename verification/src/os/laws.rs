//! What holds of every run: the laws of the engine, each proved from the
//! definitions of the allocator, the dispatcher and the clock loop.
use crate::os::allocator::{
    admitted, alloc_pass, blocks_needed, flushed, lemma_admitted_wf, placed, placement,
    usable_block_size, AllocResult,
};
use crate::os::clock::{clock_up, lemma_clock_up, lemma_ticked, ticked};
use crate::os::coherence::{
    at_rest, coherent, lemma_alloc_pass_coherent, lemma_cpu_phase, lemma_dispatched,
    lemma_executed, lemma_io_phase,
};
use crate::os::dispatcher::{
    cpu_phase, dispatched, executed, io_phase, io_updated, lemma_rotated, selected, selection,
    DispatcherView,
};
use crate::os::os::OsView;
use crate::os::structures::{MemoryRange, State, PID};
use crate::records::{OSParams, ProcessDataView};
use vstd::prelude::*;

verus! {

/// The dispatcher and the machine after `ticks` ticks.
pub open spec fn after_ticks(d: DispatcherView, os: OsView, ticks: nat) -> (
    DispatcherView,
    OsView,
)
    decreases ticks,
{
    if ticks == 0 {
        (d, os)
    } else {
        let (d, os) = after_ticks(d, os, (ticks - 1) as nat);
        (ticked(d, os).0, ticked(d, os).1)
    }
}

/// A new machine is at rest, and still so with its workload queued.
pub proof fn lemma_initial_at_rest(
    params: OSParams,
    processes: Seq<ProcessDataView>,
    clock_limit: i32,
)
    requires
        processes.len() < i32::MAX,
    ensures
        at_rest(OsView::initial(params, processes, clock_limit)),
        at_rest(OsView::initial(params, processes, clock_limit).seeded()),
{
}

/// The agreement between the dispatcher and the machine, and with it the
/// invariant of the machine, holds after every tick.
pub proof fn lemma_coherent_at_every_tick(d: DispatcherView, os: OsView, ticks: nat)
    requires
        coherent(d, os),
        usable_block_size(os.input_params.mem_fix_block_size),
    ensures
        coherent(after_ticks(d, os, ticks).0, after_ticks(d, os, ticks).1),
        after_ticks(d, os, ticks).1.input_params == os.input_params,
    decreases ticks,
{
    if ticks > 0 {
        lemma_coherent_at_every_tick(d, os, (ticks - 1) as nat);
        let (d1, os1) = after_ticks(d, os, (ticks - 1) as nat);
        lemma_ticked(d1, os1);
    }
}

/// Disjoint memory: in a machine that keeps its invariant, no block
/// belongs to the ranges of two live processes.
pub proof fn lemma_ranges_disjoint(os: OsView, p: PID, q: PID, block: int)
    requires
        os.wf(),
        os.running_processes.contains_key(p),
        os.running_processes.contains_key(q),
        p != q,
    ensures
        !(os.running_processes[p].memory_map.holds(block)
            && os.running_processes[q].memory_map.holds(block)),
        os.memory_map[p] == os.running_processes[p].memory_map,
        os.memory_map[q] == os.running_processes[q].memory_map,
{
    assert(os.pcb_ok(p));
    assert(os.pcb_ok(q));
    assert(!os.memory_map[p].overlaps(os.memory_map[q]));
}

/// Disjoint memory at every tick: after any number of ticks from a state
/// in which the dispatcher and the machine agree, no block belongs to the
/// ranges of two live processes.
pub proof fn lemma_ranges_disjoint_at_every_tick(
    d: DispatcherView,
    os: OsView,
    ticks: nat,
    p: PID,
    q: PID,
    block: int,
)
    requires
        coherent(d, os),
        usable_block_size(os.input_params.mem_fix_block_size),
        after_ticks(d, os, ticks).1.running_processes.contains_key(p),
        after_ticks(d, os, ticks).1.running_processes.contains_key(q),
        p != q,
    ensures
        !(after_ticks(d, os, ticks).1.running_processes[p].memory_map.holds(block) && after_ticks(
            d,
            os,
            ticks,
        ).1.running_processes[q].memory_map.holds(block)),
{
    lemma_coherent_at_every_tick(d, os, ticks);
    lemma_ranges_disjoint(after_ticks(d, os, ticks).1, p, q, block);
}

/// Too big whatever is free: a request is too big exactly when it asks
/// for more blocks than the machine has; what is occupied plays no part.
pub proof fn lemma_too_big(memory: Map<PID, MemoryRange>, total: int, blocks: int)
    ensures
        placement(memory, total, blocks) == AllocResult::TooBig <==> blocks > total,
{
}

/// Too big is dropped: where the descriptor at the front of the admission
/// queue needs more blocks than the machine has, the allocator's pass
/// takes it out of the queue and does not put it back, whatever memory is
/// free. It admits nothing, logs the drop and ends there.
pub proof fn lemma_too_big_is_dropped(os: OsView)
    requires
        os.input_queue.len() > 0,
        blocks_needed(os, os.input_queue[0]) > os.input_params.mem_fix_total_blocks,
    ensures
        alloc_pass(os) == (
            flushed(
                OsView { input_queue: os.input_queue.drop_first(), ..os },
                os.input_queue[0],
            ),
            false,
        ),
        alloc_pass(os).0.input_queue == os.input_queue.drop_first(),
        alloc_pass(os).0.running_processes == os.running_processes,
        alloc_pass(os).0.memory_map == os.memory_map,
        alloc_pass(os).0.ready_queue == os.ready_queue,
{
}

/// One place at a time: in a machine that agrees with its dispatcher, a
/// live process is in the ready queue, or in the blocked queue, or holds
/// the CPU, and never two of these. In particular no process is
/// `Executing` and blocked at once.
pub proof fn lemma_one_place(d: DispatcherView, os: OsView, pid: PID)
    requires
        coherent(d, os),
        os.running_processes.contains_key(pid),
    ensures
        os.ready_queue.contains(pid) <==> os.running_processes[pid].state == State::Ready,
        os.blocked_queue.contains(pid) <==> os.running_processes[pid].state == State::Blocked,
        d.current_process == Some(pid) <==> os.running_processes[pid].state == State::Executing,
        os.ready_queue.contains(pid) || os.blocked_queue.contains(pid) || d.current_process
            == Some(pid),
        !(os.ready_queue.contains(pid) && os.blocked_queue.contains(pid)),
        !(os.ready_queue.contains(pid) && d.current_process == Some(pid)),
        !(os.blocked_queue.contains(pid) && d.current_process == Some(pid)),
{
    assert(os.pcb_ok(pid));
}

/// The I/O of a tick leaves alone every process that is not among those
/// that do it.
pub proof fn lemma_io_phase_others(d: DispatcherView, os: OsView, pids: Seq<PID>, pid: PID)
    requires
        !pids.contains(pid),
    ensures
        io_phase(d, os, pids).1.running_processes.contains_key(pid)
            == os.running_processes.contains_key(pid),
        io_phase(d, os, pids).1.running_processes[pid] == os.running_processes[pid],
    decreases pids.len(),
{
    if pids.len() > 0 {
        assert(pids.contains(pids[0]));
        let (d1, mid) = io_updated(d, os, pids[0]);
        assert forall|i: int| 0 <= i < pids.drop_first().len() implies pids.drop_first()[i]
            != pid by {
            assert(pids.contains(pids[i + 1]));
        }
        lemma_io_phase_others(d1, mid, pids.drop_first(), pid);
    }
}

/// CPU or I/O, not both: in one tick of dispatch no process uses the CPU
/// and does I/O. Of the two counters of a process that is live before
/// and after, one at least stays as it was.
pub proof fn lemma_cpu_or_io(d: DispatcherView, os: OsView, pid: PID)
    requires
        coherent(d, os),
        os.fresh(),
        os.running_processes.contains_key(pid),
        dispatched(d, os).1.running_processes.contains_key(pid),
    ensures
        dispatched(d, os).1.running_processes[pid].total_cpu == os.running_processes[pid].total_cpu
            || dispatched(d, os).1.running_processes[pid].total_ios
            == os.running_processes[pid].total_ios,
{
    lemma_cpu_phase(d, os);
    let (d1, mid) = cpu_phase(d, os);
    lemma_io_phase(d1, mid, os.blocked_queue);
    let after = dispatched(d, os).1;
    assert(after.running_processes[pid].total_cpu == mid.running_processes[pid].total_cpu);
    match selected(d, os) {
        Some(chosen) => {
            lemma_executed(d, os, chosen);
            assert((d1, mid) == executed(d, selection(d, os), chosen));
            if pid == chosen {
                lemma_io_phase_others(d1, mid, os.blocked_queue, pid);
            }
        },
        None => {},
    }
}

/// The allocator's pass issues PIDs from the next one upward: it never
/// lowers the next PID, and a process that it admitted has a PID that was
/// not issued before.
pub proof fn lemma_alloc_pass_pids(os: OsView, pid: PID)
    requires
        os.wf(),
        usable_block_size(os.input_params.mem_fix_block_size),
    ensures
        os.next_pid <= alloc_pass(os).0.next_pid,
        alloc_pass(os).0.running_processes.contains_key(pid) && !os.running_processes.contains_key(
            pid,
        ) ==> os.next_pid <= pid,
    decreases os.input_queue.len(),
{
    if os.input_queue.len() > 0 {
        let info = os.input_queue[0];
        let rest = OsView { input_queue: os.input_queue.drop_first(), ..os };
        assert(rest.wf());
        match placed(rest, info) {
            AllocResult::Allocated(range) => {
                lemma_admitted_wf(rest, info, range);
                lemma_alloc_pass_pids(admitted(rest, info, range), pid);
            },
            _ => {},
        }
    }
}

/// A tick of dispatch admits no one: who is live after it was live before.
pub proof fn lemma_dispatched_live(d: DispatcherView, os: OsView, pid: PID)
    requires
        coherent(d, os),
        os.fresh(),
    ensures
        dispatched(d, os).1.running_processes.contains_key(pid)
            ==> os.running_processes.contains_key(pid),
{
    lemma_cpu_phase(d, os);
    let (d1, mid) = cpu_phase(d, os);
    lemma_io_phase(d1, mid, os.blocked_queue);
    match selected(d, os) {
        Some(chosen) => {
            lemma_executed(d, os, chosen);
            assert((d1, mid) == executed(d, selection(d, os), chosen));
            if pid == chosen {
                if d.current_process is None {
                    assert(os.running_processes.contains_key(os.ready_queue[0]));
                }
            }
        },
        None => {},
    }
}

/// PIDs are not reused: a tick never lowers the next PID to issue, every
/// live process has a PID below it, and a process that is live after the
/// tick and was not before has a PID that was not yet issued.
pub proof fn lemma_pids_not_reused(d: DispatcherView, os: OsView, pid: PID)
    requires
        coherent(d, os),
        usable_block_size(os.input_params.mem_fix_block_size),
    ensures
        os.next_pid <= ticked(d, os).1.next_pid,
        os.running_processes.contains_key(pid) ==> pid < os.next_pid,
        ticked(d, os).1.running_processes.contains_key(pid) && !os.running_processes.contains_key(
            pid,
        ) ==> os.next_pid <= pid,
{
    if os.running_processes.contains_key(pid) {
        assert(os.pcb_ok(pid));
    }
    if os.master_clock < i32::MAX {
        let next = clock_up(os);
        lemma_clock_up(d, os);
        if next.master_clock <= next.clock_limit {
            lemma_alloc_pass_coherent(d, next);
            lemma_alloc_pass_pids(next, pid);
            let (after, cycled) = alloc_pass(next);
            if !cycled {
                lemma_dispatched(d, after);
                lemma_dispatched_live(d, after, pid);
            }
        }
    }
}

/// Round robin: where the CPU is free and no process is blocked, the
/// front of the ready queue gets the CPU. If its next burst has one unit
/// of CPU at most and no I/O, the process is at the back of the queue when
/// the tick is over, behind all that were behind it, and the CPU is free
/// for the next in line.
pub proof fn lemma_round_robin(d: DispatcherView, os: OsView)
    requires
        coherent(d, os),
        d.current_process is None,
        os.ready_queue.len() > 0,
        os.blocked_queue.len() == 0,
        os.running_processes[os.ready_queue[0]].info.run_info.len() > 0,
        os.running_processes[os.ready_queue[0]].info.run_info[0].CPU_units <= 1,
        os.running_processes[os.ready_queue[0]].info.run_info[0].IO_units <= 0,
    ensures
        dispatched(d, os).1.current_pid == os.ready_queue[0],
        dispatched(d, os).1.ready_queue == os.ready_queue.drop_first().push(os.ready_queue[0]),
        dispatched(d, os).0.current_process is None,
{
    lemma_rotated(os.ready_queue);
    assert(os.blocked_queue =~= Seq::empty());
}

} // verus!
