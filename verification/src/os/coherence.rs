//! The agreement between the dispatcher and the machine, and the proof that
//! a tick of dispatch keeps it.
use crate::os::allocator::{
    admitted, alloc_pass, flushed, lemma_admitted_wf, placed, usable_block_size, AllocResult,
};
use crate::os::dispatcher::{
    cpu_phase, cpu_updated, dispatched, executed, io_phase, io_updated, lemma_rotated, loaded,
    selected, selection, timed_out, DispatcherView,
};
use crate::os::os::OsView;
use crate::os::queue::{
    lemma_drop_first, lemma_push_contains, lemma_push_no_duplicates, lemma_without, without,
};
use crate::os::structures::{PcbView, State, PID};
use crate::records::{IODeviceType, RunInfo};
use vstd::prelude::*;

verus! {

/// Whether the dispatcher and the machine agree.
///
/// The machine keeps its invariant. The process that the dispatcher holds
/// for the CPU is live and `Executing` and has CPU units left in its burst,
/// and no other process is `Executing`. Every blocked process has a
/// countdown above zero.
pub open spec fn coherent(d: DispatcherView, os: OsView) -> bool {
    &&& os.wf()
    &&& match d.current_process {
        Some(pid) => {
            &&& os.running_processes.contains_key(pid)
            &&& os.running_processes[pid].state == State::Executing
            &&& d.current_burst.CPU_units > 0
        },
        None => true,
    }
    &&& forall|pid: PID| #[trigger]
        os.running_processes.contains_key(pid) && os.running_processes[pid].state
            == State::Executing ==> d.current_process == Some(pid)
    &&& forall|i: int|
        0 <= i < os.blocked_queue.len() ==> {
            &&& d.ios_to_go.contains_key(#[trigger] os.blocked_queue[i])
            &&& d.ios_to_go[os.blocked_queue[i]].1 > 0
        }
}

/// Whether the machine is at rest: it agrees with a dispatcher that has
/// dispatched nothing yet. It keeps its invariant, and every live process
/// is ready: none holds the CPU, and none waits for I/O.
pub open spec fn at_rest(os: OsView) -> bool {
    coherent(DispatcherView::initial(), os)
}

/// Whether the processes of `pids` can each do one unit of I/O: the
/// dispatcher and the machine agree, and each of `pids`, none named twice,
/// is blocked and has not used the current tick.
pub open spec fn io_ready(d: DispatcherView, os: OsView, pids: Seq<PID>) -> bool {
    &&& coherent(d, os)
    &&& pids.no_duplicates()
    &&& forall|i: int|
        0 <= i < pids.len() ==> {
            &&& os.blocked_queue.contains(#[trigger] pids[i])
            &&& os.running_processes[pids[i]].total_cpu + os.running_processes[pids[i]].total_ios
                < os.master_clock
        }
}

/// Whether `after` is `os` but for the process `pid` and the queues: the
/// configuration, the clock, the next PID, the length of the admission
/// queue, and the blocks and ranges of all other processes are the same.
pub open spec fn same_but(os: OsView, after: OsView, pid: PID) -> bool {
    &&& after.input_params == os.input_params
    &&& after.master_clock == os.master_clock
    &&& after.next_pid == os.next_pid
    &&& after.input_queue.len() == os.input_queue.len()
    &&& forall|other: PID|
        other != pid ==> (#[trigger] after.running_processes.contains_key(other)
            <==> os.running_processes.contains_key(other))
    &&& forall|other: PID|
        other != pid && #[trigger] os.running_processes.contains_key(other)
            ==> after.running_processes[other] == os.running_processes[other]
    &&& forall|other: PID|
        other != pid ==> (#[trigger] after.memory_map.contains_key(other)
            <==> os.memory_map.contains_key(other))
    &&& forall|other: PID|
        other != pid && #[trigger] os.memory_map.contains_key(other) ==> after.memory_map[other]
            == os.memory_map[other]
    &&& forall|other: PID|
        other != pid ==> (#[trigger] after.ready_queue.contains(other) <==> os.ready_queue.contains(
            other,
        ))
    &&& forall|other: PID|
        other != pid ==> (#[trigger] after.blocked_queue.contains(other)
            <==> os.blocked_queue.contains(other))
}

/// A machine that keeps its invariant still keeps it after a change to one
/// process, where the queues have no repetition and what the invariant
/// asks of that process holds.
pub proof fn lemma_wf_update(os: OsView, after: OsView, pid: PID)
    requires
        os.wf(),
        same_but(os, after, pid),
        after.ready_queue.no_duplicates(),
        after.blocked_queue.no_duplicates(),
        after.memory_map.contains_key(pid) <==> after.running_processes.contains_key(pid),
        after.ready_queue.contains(pid) ==> after.running_processes.contains_key(pid),
        after.blocked_queue.contains(pid) ==> after.running_processes.contains_key(pid),
        after.running_processes.contains_key(pid) ==> {
            &&& os.memory_map.contains_key(pid)
            &&& after.memory_map[pid] == os.memory_map[pid]
            &&& after.pcb_ok(pid)
        },
    ensures
        after.wf(),
{
    assert forall|other: PID| #[trigger]
        after.running_processes.contains_key(other) implies after.pcb_ok(other) by {
        if other != pid {
            assert(os.running_processes.contains_key(other));
            assert(os.pcb_ok(other));
            assert(after.ready_queue.contains(other) <==> os.ready_queue.contains(other));
            assert(after.blocked_queue.contains(other) <==> os.blocked_queue.contains(other));
            assert(os.memory_map.contains_key(other));
            assert(after.memory_map.contains_key(other));
        }
    }
    assert forall|other: PID| #[trigger]
        after.memory_map.contains_key(other) implies after.running_processes.contains_key(
        other,
    ) by {
        if other != pid {
            assert(os.memory_map.contains_key(other));
            assert(os.running_processes.contains_key(other));
        }
    }
    assert forall|p: PID, q: PID|
        #![trigger after.memory_map.contains_key(p), after.memory_map.contains_key(q)]
        after.memory_map.contains_key(p) && after.memory_map.contains_key(q) && p
            != q implies !after.memory_map[p].overlaps(after.memory_map[q]) by {
        assert(os.memory_map.contains_key(p));
        assert(os.memory_map.contains_key(q));
    }
    assert forall|i: int|
        0 <= i < after.ready_queue.len() implies after.running_processes.contains_key(
        #[trigger] after.ready_queue[i],
    ) by {
        let other = after.ready_queue[i];
        assert(after.ready_queue.contains(other));
        if other != pid {
            let j = choose|j: int| 0 <= j < os.ready_queue.len() && os.ready_queue[j] == other;
            assert(os.running_processes.contains_key(os.ready_queue[j]));
        }
    }
    assert forall|i: int|
        0 <= i < after.blocked_queue.len() implies after.running_processes.contains_key(
        #[trigger] after.blocked_queue[i],
    ) by {
        let other = after.blocked_queue[i];
        assert(after.blocked_queue.contains(other));
        if other != pid {
            let j = choose|j: int| 0 <= j < os.blocked_queue.len() && os.blocked_queue[j] == other;
            assert(os.running_processes.contains_key(os.blocked_queue[j]));
        }
    }
}

/// Whether `after` has the configuration, the clock, the ceiling, the next
/// PID, the workload, the admission queue and the reports of `os`:
/// everything that dispatch leaves alone.
pub open spec fn same_frame(os: OsView, after: OsView) -> bool {
    &&& after.input_params == os.input_params
    &&& after.input_procs == os.input_procs
    &&& after.input_queue == os.input_queue
    &&& after.input_size == os.input_size
    &&& after.clock_limit == os.clock_limit
    &&& after.master_clock == os.master_clock
    &&& after.next_pid == os.next_pid
    &&& after.snapshots == os.snapshots
}

/// Whether the machine keeps its invariant, no process but `pid` is
/// `Executing`, and every blocked process has a countdown above zero in
/// `ios`.
pub open spec fn calm(ios: Map<PID, (IODeviceType, i32)>, os: OsView, pid: PID) -> bool {
    &&& os.wf()
    &&& forall|other: PID|
        other != pid && #[trigger] os.running_processes.contains_key(other)
            ==> os.running_processes[other].state != State::Executing
    &&& forall|i: int|
        0 <= i < os.blocked_queue.len() ==> {
            &&& ios.contains_key(#[trigger] os.blocked_queue[i])
            &&& ios[os.blocked_queue[i]].1 > 0
        }
}

/// Whether `mid` is the machine `os` with the process `pid` on the CPU: the
/// process is live and in no queue, the other processes and the blocked
/// queue are as in `os`, and the counters of `pid` leave room for `spare`
/// more units in this tick.
pub open spec fn on_cpu(os: OsView, mid: OsView, pid: PID, spare: int) -> bool {
    &&& same_but(os, mid, pid)
    &&& mid.ready_queue.no_duplicates()
    &&& mid.blocked_queue == os.blocked_queue
    &&& !mid.ready_queue.contains(pid)
    &&& !mid.blocked_queue.contains(pid)
    &&& mid.running_processes.contains_key(pid)
    &&& os.running_processes.contains_key(pid)
    &&& mid.memory_map.contains_key(pid)
    &&& mid.memory_map[pid] == os.memory_map[pid]
    &&& mid.running_processes[pid].pid == pid
    &&& mid.running_processes[pid].memory_map == os.running_processes[pid].memory_map
    &&& 0 <= mid.running_processes[pid].total_cpu
    &&& 0 <= mid.running_processes[pid].total_ios
    &&& mid.running_processes[pid].total_ios == os.running_processes[pid].total_ios
    &&& mid.running_processes[pid].total_cpu + mid.running_processes[pid].total_ios + spare
        <= mid.master_clock
}

/// What a step of the CPU leaves behind: the dispatcher and the machine
/// agree, only `pid` and the queues differ from `os`, no process left the
/// blocked queue, and `pid` did no I/O.
pub open spec fn cpu_done(os: OsView, d: DispatcherView, after: OsView, pid: PID) -> bool {
    &&& coherent(d, after)
    &&& same_but(os, after, pid)
    &&& forall|other: PID|
        os.blocked_queue.contains(other) ==> #[trigger] after.blocked_queue.contains(other)
    &&& after.running_processes.contains_key(pid) ==> after.running_processes[pid].total_ios
        == os.running_processes[pid].total_ios
}

/// The end of a burst's CPU part keeps the agreement.
proof fn lemma_timed_out(d: DispatcherView, os: OsView, mid: OsView, pid: PID)
    requires
        calm(d.ios_to_go, os, pid),
        on_cpu(os, mid, pid, 0),
    ensures
        cpu_done(os, timed_out(d, mid, pid).0, timed_out(d, mid, pid).1, pid),
{
    let (d1, after) = timed_out(d, mid, pid);
    assert(os.pcb_ok(pid));
    lemma_push_contains(mid.ready_queue, pid);
    lemma_push_contains(mid.blocked_queue, pid);
    lemma_push_no_duplicates(mid.ready_queue, pid);
    lemma_push_no_duplicates(mid.blocked_queue, pid);
    assert(same_but(os, after, pid));
    assert(after.pcb_ok(pid));
    lemma_wf_update(os, after, pid);
    assert forall|other: PID| #[trigger]
        after.running_processes.contains_key(other) && after.running_processes[other].state
            == State::Executing implies d1.current_process == Some(other) by {
        if other != pid {
            assert(os.running_processes.contains_key(other));
        }
    }
    assert forall|i: int| 0 <= i < after.blocked_queue.len() implies {
        &&& d1.ios_to_go.contains_key(#[trigger] after.blocked_queue[i])
        &&& d1.ios_to_go[after.blocked_queue[i]].1 > 0
    } by {
        if i < os.blocked_queue.len() {
            assert(d.ios_to_go.contains_key(os.blocked_queue[i]));
            assert(os.blocked_queue.contains(os.blocked_queue[i]));
        }
    }
}

/// A unit of CPU work keeps the agreement.
proof fn lemma_cpu_updated(d: DispatcherView, os: OsView, mid: OsView, pid: PID)
    requires
        calm(d.ios_to_go, os, pid),
        on_cpu(os, mid, pid, 1),
        d.current_process == Some(pid),
    ensures
        cpu_done(os, cpu_updated(d, mid, pid).0, cpu_updated(d, mid, pid).1, pid),
{
    let pcb = mid.running_processes[pid];
    assert(os.pcb_ok(pid));
    if d.current_burst.CPU_units > 0 {
        let d2 = DispatcherView {
            current_burst: RunInfo {
                CPU_units: (d.current_burst.CPU_units - 1) as i32,
                ..d.current_burst
            },
            ..d
        };
        let mid2 = mid.with_block(
            pid,
            PcbView { state: State::Executing, total_cpu: (pcb.total_cpu + 1) as i32, ..pcb },
        );
        assert(on_cpu(os, mid2, pid, 0));
        if d2.current_burst.CPU_units <= 0 {
            lemma_timed_out(d2, os, mid2, pid);
        } else {
            assert(mid2.pcb_ok(pid));
            lemma_wf_update(os, mid2, pid);
            assert forall|other: PID| #[trigger]
                mid2.running_processes.contains_key(other) && mid2.running_processes[other].state
                    == State::Executing implies d2.current_process == Some(other) by {
                if other != pid {
                    assert(os.running_processes.contains_key(other));
                }
            }
            assert forall|i: int| 0 <= i < mid2.blocked_queue.len() implies {
                &&& d2.ios_to_go.contains_key(#[trigger] mid2.blocked_queue[i])
                &&& d2.ios_to_go[mid2.blocked_queue[i]].1 > 0
            } by {
                assert(d.ios_to_go.contains_key(os.blocked_queue[i]));
            }
        }
    } else {
        assert(on_cpu(os, mid, pid, 0));
        lemma_timed_out(d, os, mid, pid);
    }
}

/// Giving the selected process the CPU keeps the agreement, and leaves
/// the processes that were blocked before ready for their I/O.
pub proof fn lemma_executed(d: DispatcherView, os: OsView, pid: PID)
    requires
        coherent(d, os),
        os.fresh(),
        selected(d, os) == Some(pid),
    ensures
        cpu_done(
            os,
            executed(d, selection(d, os), pid).0,
            executed(d, selection(d, os), pid).1,
            pid,
        ),
        same_frame(os, executed(d, selection(d, os), pid).1),
        !os.blocked_queue.contains(pid),
{
    let chosen = selection(d, os);
    assert(os.running_processes.contains_key(pid)) by {
        if d.current_process is None {
            assert(os.running_processes.contains_key(os.ready_queue[0]));
        }
    }
    assert(os.pcb_ok(pid));
    assert(!os.blocked_queue.contains(pid)) by {
        if d.current_process is None {
            assert(os.ready_queue.contains(os.ready_queue[0]));
        }
    }
    assert(calm(d.ios_to_go, os, pid));
    if d.current_process is None {
        lemma_rotated(os.ready_queue);
        lemma_drop_first(os.ready_queue);
    }
    let begun = chosen.started(pid);
    assert(on_cpu(os, begun, pid, 1));
    if d.current_process is Some {
        lemma_cpu_updated(d, os, begun, pid);
    } else if begun.running_processes[pid].info.run_info.len() > 0 {
        let (d2, mid) = loaded(d, begun, pid);
        assert(on_cpu(os, mid, pid, 1));
        lemma_cpu_updated(d2, os, mid, pid);
    } else {
        let after = begun.finished(pid);
        lemma_without(begun.ready_queue, pid);
        lemma_without(begun.blocked_queue, pid);
        assert(without(begun.ready_queue, pid) =~= begun.ready_queue);
        assert(without(begun.blocked_queue, pid) =~= begun.blocked_queue);
        assert(same_but(os, after, pid));
        lemma_wf_update(os, after, pid);
        assert forall|other: PID| #[trigger]
            after.running_processes.contains_key(other) && after.running_processes[other].state
                == State::Executing implies d.current_process == Some(other) by {
            assert(os.running_processes.contains_key(other));
        }
        assert forall|i: int| 0 <= i < after.blocked_queue.len() implies {
            &&& d.ios_to_go.contains_key(#[trigger] after.blocked_queue[i])
            &&& d.ios_to_go[after.blocked_queue[i]].1 > 0
        } by {
            assert(d.ios_to_go.contains_key(os.blocked_queue[i]));
        }
    }
}

/// The CPU's work of a tick keeps the agreement, changes nothing outside
/// the processes and queues, and leaves the processes that were blocked
/// before ready for their I/O.
pub proof fn lemma_cpu_phase(d: DispatcherView, os: OsView)
    requires
        coherent(d, os),
        os.fresh(),
    ensures
        io_ready(cpu_phase(d, os).0, cpu_phase(d, os).1, os.blocked_queue),
        same_frame(os, cpu_phase(d, os).1),
{
    let (d1, after) = cpu_phase(d, os);
    match selected(d, os) {
        Some(pid) => {
            lemma_executed(d, os, pid);
            assert((d1, after) == executed(d, selection(d, os), pid));
            assert forall|i: int| 0 <= i < os.blocked_queue.len() implies {
                &&& after.blocked_queue.contains(#[trigger] os.blocked_queue[i])
                &&& after.running_processes[os.blocked_queue[i]].total_cpu
                    + after.running_processes[os.blocked_queue[i]].total_ios < after.master_clock
            } by {
                let other = os.blocked_queue[i];
                assert(os.blocked_queue.contains(other));
                assert(os.running_processes.contains_key(other));
                assert(other != pid);
            }
        },
        None => {
            assert forall|i: int| 0 <= i < os.blocked_queue.len() implies {
                &&& after.blocked_queue.contains(#[trigger] os.blocked_queue[i])
                &&& after.running_processes[os.blocked_queue[i]].total_cpu
                    + after.running_processes[os.blocked_queue[i]].total_ios < after.master_clock
            } by {
                let other = os.blocked_queue[i];
                assert(os.blocked_queue.contains(other));
                assert(os.running_processes.contains_key(other));
            }
        },
    }
}

/// A unit of I/O by the first of `pids` keeps the agreement, changes
/// nothing outside the processes and queues, and leaves the rest of `pids`
/// ready for theirs.
pub proof fn lemma_io_updated(d: DispatcherView, os: OsView, pids: Seq<PID>)
    requires
        io_ready(d, os, pids),
        pids.len() > 0,
    ensures
        os.running_processes.contains_key(pids[0]),
        os.running_processes[pids[0]].total_ios < i32::MAX,
        d.ios_to_go.contains_key(pids[0]),
        d.ios_to_go[pids[0]].1 > 0,
        io_ready(
            io_updated(d, os, pids[0]).0,
            io_updated(d, os, pids[0]).1,
            pids.drop_first(),
        ),
        same_frame(os, io_updated(d, os, pids[0]).1),
        cpu_kept(os, io_updated(d, os, pids[0]).1),
{
    let pid = pids[0];
    let rest = pids.drop_first();
    let (d1, after) = io_updated(d, os, pid);
    assert(os.blocked_queue.contains(pid));
    let at = choose|i: int| 0 <= i < os.blocked_queue.len() && os.blocked_queue[i] == pid;
    assert(os.running_processes.contains_key(os.blocked_queue[at]));
    assert(d.ios_to_go.contains_key(os.blocked_queue[at]));
    assert(os.pcb_ok(pid));
    lemma_push_contains(os.ready_queue, pid);
    lemma_push_no_duplicates(os.ready_queue, pid);
    lemma_without(os.blocked_queue, pid);
    assert(same_but(os, after, pid));
    assert(after.pcb_ok(pid));
    lemma_wf_update(os, after, pid);
    assert forall|other: PID| #[trigger]
        after.running_processes.contains_key(other) && after.running_processes[other].state
            == State::Executing implies d1.current_process == Some(other) by {
        if other != pid {
            assert(os.running_processes.contains_key(other));
        }
    }
    assert forall|i: int| 0 <= i < after.blocked_queue.len() implies {
        &&& d1.ios_to_go.contains_key(#[trigger] after.blocked_queue[i])
        &&& d1.ios_to_go[after.blocked_queue[i]].1 > 0
    } by {
        let other = after.blocked_queue[i];
        assert(after.blocked_queue.contains(other));
        if other != pid {
            assert(os.blocked_queue.contains(other));
            let j = choose|j: int| 0 <= j < os.blocked_queue.len() && os.blocked_queue[j] == other;
            assert(d.ios_to_go.contains_key(os.blocked_queue[j]));
        }
    }
    assert(coherent(d1, after));
    assert forall|i: int, j: int| 0 <= i < rest.len() && 0 <= j < rest.len() && i != j implies rest[i]
        != rest[j] by {
        assert(rest[i] == pids[i + 1] && rest[j] == pids[j + 1]);
    }
    assert forall|i: int| 0 <= i < rest.len() implies {
        &&& after.blocked_queue.contains(#[trigger] rest[i])
        &&& after.running_processes[rest[i]].total_cpu + after.running_processes[rest[i]].total_ios
            < after.master_clock
    } by {
        let other = rest[i];
        assert(other == pids[i + 1]);
        assert(other != pid);
        assert(os.blocked_queue.contains(other));
        let j = choose|j: int| 0 <= j < os.blocked_queue.len() && os.blocked_queue[j] == other;
        assert(os.running_processes.contains_key(os.blocked_queue[j]));
    }
    assert forall|other: PID| #[trigger]
        after.running_processes.contains_key(other) implies os.running_processes.contains_key(other)
        && after.running_processes[other].total_cpu == os.running_processes[other].total_cpu by {
        if other != pid {
            assert(os.running_processes.contains_key(other));
        }
    }
}

/// Whether the processes of `after` are live in `os` with the CPU counters
/// that they have in `after`.
pub open spec fn cpu_kept(os: OsView, after: OsView) -> bool {
    forall|pid: PID| #[trigger]
        after.running_processes.contains_key(pid) ==> os.running_processes.contains_key(pid)
            && after.running_processes[pid].total_cpu == os.running_processes[pid].total_cpu
}

/// The I/O of a tick keeps the agreement, changes nothing outside the
/// processes and queues, and touches no CPU counter.
pub proof fn lemma_io_phase(d: DispatcherView, os: OsView, pids: Seq<PID>)
    requires
        io_ready(d, os, pids),
    ensures
        coherent(io_phase(d, os, pids).0, io_phase(d, os, pids).1),
        same_frame(os, io_phase(d, os, pids).1),
        cpu_kept(os, io_phase(d, os, pids).1),
    decreases pids.len(),
{
    if pids.len() > 0 {
        lemma_io_updated(d, os, pids);
        let (d1, mid) = io_updated(d, os, pids[0]);
        lemma_io_phase(d1, mid, pids.drop_first());
        let (d2, after) = io_phase(d1, mid, pids.drop_first());
        assert forall|pid: PID| #[trigger]
            after.running_processes.contains_key(pid) implies os.running_processes.contains_key(pid)
            && after.running_processes[pid].total_cpu == os.running_processes[pid].total_cpu by {
            assert(mid.running_processes.contains_key(pid));
        }
    }
}

/// A tick of dispatch keeps the agreement between the dispatcher and the
/// machine, and with it the invariant of the machine. It changes nothing
/// outside the processes and the queues.
pub proof fn lemma_dispatched(d: DispatcherView, os: OsView)
    requires
        coherent(d, os),
        os.fresh(),
    ensures
        coherent(dispatched(d, os).0, dispatched(d, os).1),
        same_frame(os, dispatched(d, os).1),
{
    lemma_cpu_phase(d, os);
    let (d1, mid) = cpu_phase(d, os);
    lemma_io_phase(d1, mid, os.blocked_queue);
}

/// The allocator's pass keeps the agreement between the dispatcher and
/// the machine, and a machine whose processes have not used the current
/// tick stays so.
pub proof fn lemma_alloc_pass_coherent(d: DispatcherView, os: OsView)
    requires
        coherent(d, os),
        usable_block_size(os.input_params.mem_fix_block_size),
        os.fresh(),
        1 <= os.master_clock,
    ensures
        coherent(d, alloc_pass(os).0),
        alloc_pass(os).0.fresh(),
    decreases os.input_queue.len(),
{
    if os.input_queue.len() > 0 {
        let info = os.input_queue[0];
        let rest = OsView { input_queue: os.input_queue.drop_first(), ..os };
        assert(coherent(d, rest));
        assert(rest.fresh());
        match placed(rest, info) {
            AllocResult::Allocated(range) => {
                let after = admitted(rest, info, range);
                lemma_admitted_wf(rest, info, range);
                assert(!rest.running_processes.contains_key(rest.next_pid)) by {
                    if rest.running_processes.contains_key(rest.next_pid) {
                        assert(rest.pcb_ok(rest.next_pid));
                    }
                }
                assert(coherent(d, after));
                assert(after.fresh());
                lemma_alloc_pass_coherent(d, after);
            },
            AllocResult::TooBig => {
                assert(coherent(d, flushed(rest, info)));
                assert(flushed(rest, info).fresh());
            },
            AllocResult::NoSpace => {
                let after = OsView { input_queue: rest.input_queue.push(info), ..rest };
                assert(coherent(d, after));
                assert(after.fresh());
            },
        }
    }
}

} // verus!
