//! Admission: descriptors leave the admission queue for memory, oldest
//! first, each placed in the lowest run of free blocks that holds it.
use crate::os::os::{OsView, OS};
use crate::os::queue::{lemma_push_contains, lemma_push_no_duplicates};
use crate::os::structures::{
    Event, EventType, EventView, MemoryRange, PcbView, ProcessControlBlock, State, PID,
};
use crate::records::{ProcessData, ProcessDataView};
use std::collections::HashMap;
use vstd::arithmetic::div_mod::{lemma_div_nonincreasing, lemma_div_pos_is_pos};
use vstd::prelude::*;

verus! {

broadcast use vstd::std_specs::hash::group_hash_axioms;

/// How an attempt to place a descriptor ended.
#[derive(Clone, Copy, Debug, PartialEq, Eq, Structural)]
pub enum AllocResult {
    /// The machine could hold the descriptor, but no free run is long enough
    /// now.
    NoSpace,
    /// The descriptor needs more blocks than the machine has.
    TooBig,
    /// The descriptor was given these blocks.
    Allocated(MemoryRange),
}

/// The absolute value of `a`.
pub open spec fn abs(a: int) -> int {
    if a < 0 {
        -a
    } else {
        a
    }
}

/// The quotient of `a` by `b`, rounded toward zero: the quotient of the
/// absolute values, negative where the signs differ.
pub open spec fn trunc_div(a: int, b: int) -> int {
    let quotient = abs(a) / abs(b);
    if (a < 0) != (b < 0) {
        -quotient
    } else {
        quotient
    }
}

/// Whether a block size can be used: it is a thousand bytes or more, with
/// either sign. The allocator divides by the block size in thousands.
pub open spec fn usable_block_size(block_size: i32) -> bool {
    block_size <= -1000 || 1000 <= block_size
}

/// The number of blocks that a process of size `memsize` needs: its size
/// divided by the block size in thousands of bytes, both quotients rounded
/// toward zero.
pub open spec fn demand(memsize: i32, block_size: i32) -> int {
    trunc_div(memsize as int, trunc_div(block_size as int, 1000))
}

/// A demand is no larger in size than the memory size that it comes from.
pub proof fn lemma_demand_bounds(memsize: i32, block_size: i32)
    requires
        usable_block_size(block_size),
    ensures
        -0x8000_0000 <= demand(memsize, block_size) <= 0x8000_0000,
{
    let unit = trunc_div(block_size as int, 1000);
    assert(abs(block_size as int) / abs(1000) >= 1) by {
        assert(abs(1000) == 1000);
        assert(abs(block_size as int) >= 1000);
    }
    lemma_div_nonincreasing(abs(memsize as int), abs(unit));
    lemma_div_pos_is_pos(abs(memsize as int), abs(unit));
}

/// Whether no process holds a block among those from `lo` to `hi`.
pub open spec fn free_run(memory: Map<PID, MemoryRange>, lo: int, hi: int) -> bool {
    forall|pid: PID| memory.contains_key(pid) ==> !(#[trigger] memory[pid]).meets(lo, hi)
}

/// Whether `blocks` blocks can be placed from block `start` on: the run
/// begins at block 1 or later, ends within the machine's `total` blocks,
/// and is free.
pub open spec fn fits(memory: Map<PID, MemoryRange>, total: int, blocks: int, start: int) -> bool {
    &&& 1 <= start
    &&& start + blocks - 1 <= total
    &&& free_run(memory, start, start + blocks - 1)
}

/// Whether `start` is the lowest block from which `blocks` blocks can be
/// placed.
pub open spec fn first_fit(
    memory: Map<PID, MemoryRange>,
    total: int,
    blocks: int,
    start: int,
) -> bool {
    &&& fits(memory, total, blocks, start)
    &&& forall|lower: int| 1 <= lower < start ==> !fits(memory, total, blocks, lower)
}

/// Where a request for `blocks` blocks goes. It is too big where it asks
/// for more than `total`, whatever is free. Else it gets the lowest run
/// that fits, and finds no space where none does.
pub open spec fn placement(memory: Map<PID, MemoryRange>, total: int, blocks: int) -> AllocResult {
    if blocks > total {
        AllocResult::TooBig
    } else if exists|start: int| fits(memory, total, blocks, start) {
        let start = choose|start: int| first_fit(memory, total, blocks, start);
        AllocResult::Allocated(MemoryRange(start as i32, (start + blocks - 1) as i32))
    } else {
        AllocResult::NoSpace
    }
}

/// A request has one lowest fit at most.
pub proof fn lemma_first_fit_unique(
    memory: Map<PID, MemoryRange>,
    total: int,
    blocks: int,
    a: int,
    b: int,
)
    requires
        first_fit(memory, total, blocks, a),
        first_fit(memory, total, blocks, b),
    ensures
        a == b,
{
    if a < b {
        assert(!fits(memory, total, blocks, a));
    } else if b < a {
        assert(!fits(memory, total, blocks, b));
    }
}

/// A request that is not too big and has a lowest fit is placed there.
pub proof fn lemma_placement_at(
    memory: Map<PID, MemoryRange>,
    total: int,
    blocks: int,
    start: int,
)
    requires
        blocks <= total,
        first_fit(memory, total, blocks, start),
    ensures
        placement(memory, total, blocks) == AllocResult::Allocated(
            MemoryRange(start as i32, (start + blocks - 1) as i32),
        ),
{
    let chosen = choose|s: int| first_fit(memory, total, blocks, s);
    lemma_first_fit_unique(memory, total, blocks, start, chosen);
}

/// Among the starts from `from` to `upto` from which a request fits, if
/// there is any, one is the lowest.
proof fn lemma_lowest_fit(
    memory: Map<PID, MemoryRange>,
    total: int,
    blocks: int,
    from: int,
    upto: int,
)
    requires
        1 <= from <= upto,
        fits(memory, total, blocks, upto),
        forall|lower: int| 1 <= lower < from ==> !fits(memory, total, blocks, lower),
    ensures
        exists|start: int| first_fit(memory, total, blocks, start),
    decreases upto - from,
{
    if fits(memory, total, blocks, from) {
        assert(first_fit(memory, total, blocks, from));
    } else {
        lemma_lowest_fit(memory, total, blocks, from + 1, upto);
    }
}

/// What a placement that succeeds is: the range begins at the lowest start
/// that fits, has as many blocks as were asked for, and lies in the machine.
pub proof fn lemma_placement_allocated(
    memory: Map<PID, MemoryRange>,
    total: int,
    blocks: int,
    range: MemoryRange,
)
    requires
        i32::MIN <= total <= i32::MAX,
        -0x8000_0000 <= blocks,
        placement(memory, total, blocks) == AllocResult::Allocated(range),
    ensures
        first_fit(memory, total, blocks, range.0 as int),
        range.1 == range.0 + blocks - 1,
{
    let witness = choose|start: int| fits(memory, total, blocks, start);
    lemma_lowest_fit(memory, total, blocks, 1, witness);
    if blocks <= 0 {
        assert(fits(memory, total, blocks, 1));
    }
}

/// The number of blocks that the descriptor `info` needs on the machine `os`.
pub open spec fn blocks_needed(os: OsView, info: ProcessDataView) -> int {
    demand(info.process_memsize, os.input_params.mem_fix_block_size)
}

/// Where the descriptor `info` goes in the memory that is free in `os`.
pub open spec fn placed(os: OsView, info: ProcessDataView) -> AllocResult {
    placement(
        os.memory_map,
        os.input_params.mem_fix_total_blocks as int,
        blocks_needed(os, info),
    )
}

/// The control block that is made for a process that is admitted to
/// `range` now: it is `Allocating`, and has used no CPU and no I/O.
pub open spec fn new_block(os: OsView, info: ProcessDataView, range: MemoryRange) -> PcbView {
    PcbView {
        info,
        pid: os.next_pid,
        clk: os.master_clock,
        state: State::Allocating,
        total_cpu: 0,
        total_ios: 0,
        start_time: 0,
        end_time: 0,
        memory_map: range,
    }
}

/// The machine after the descriptor `info` was admitted to `range`: it has
/// the next PID, its range is in the memory map, its control block is made
/// and settled at once, so that it is `Ready`, it stands at the back of the
/// ready queue, and the log says that it was allocated.
pub open spec fn admitted(os: OsView, info: ProcessDataView, range: MemoryRange) -> OsView {
    OsView {
        next_pid: (os.next_pid + 1) as i32,
        memory_map: os.memory_map.insert(os.next_pid, range),
        ready_queue: os.ready_queue.push(os.next_pid),
        running_processes: os.running_processes.insert(
            os.next_pid,
            new_block(os, info, range).settled(),
        ),
        events: os.events.push(
            EventView {
                kind: EventType::Allocated,
                time: os.master_clock,
                pid: os.next_pid,
                name: info.process_name,
            },
        ),
        ..os
    }
}

/// The machine after an attempt to admit `info`: as `admitted` says where
/// the descriptor was placed, unchanged where it was not.
pub open spec fn after_alloc_one(os: OsView, info: ProcessDataView) -> OsView {
    match placed(os, info) {
        AllocResult::Allocated(range) => admitted(os, info, range),
        _ => os,
    }
}

/// The machine after the descriptor `info` was dropped for good: the log
/// says that it was flushed, and it is in no queue.
pub open spec fn flushed(os: OsView, info: ProcessDataView) -> OsView {
    OsView {
        events: os.events.push(
            EventView {
                kind: EventType::Flushed,
                time: os.master_clock,
                pid: 0,
                name: info.process_name,
            },
        ),
        ..os
    }
}

/// The machine after one pass over the admission queue, and whether the
/// pass admitted anything.
///
/// The pass takes the descriptors from the front, one by one. One that is
/// placed is admitted, and the pass goes on. One that is too big is dropped,
/// and one that finds no space goes to the back of the queue; either ends
/// the pass.
pub open spec fn alloc_pass(os: OsView) -> (OsView, bool)
    decreases os.input_queue.len(),
{
    if os.input_queue.len() == 0 {
        (os, false)
    } else {
        let info = os.input_queue[0];
        let rest = OsView { input_queue: os.input_queue.drop_first(), ..os };
        match placed(rest, info) {
            AllocResult::Allocated(range) => (alloc_pass(admitted(rest, info, range)).0, true),
            AllocResult::TooBig => (flushed(rest, info), false),
            AllocResult::NoSpace => (
                OsView { input_queue: rest.input_queue.push(info), ..rest },
                false,
            ),
        }
    }
}

/// The allocator's pass leaves the configuration, the clock and its
/// ceiling alone.
pub proof fn lemma_alloc_pass_frame(os: OsView)
    ensures
        alloc_pass(os).0.input_params == os.input_params,
        alloc_pass(os).0.master_clock == os.master_clock,
        alloc_pass(os).0.clock_limit == os.clock_limit,
    decreases os.input_queue.len(),
{
    if os.input_queue.len() > 0 {
        let info = os.input_queue[0];
        let rest = OsView { input_queue: os.input_queue.drop_first(), ..os };
        match placed(rest, info) {
            AllocResult::Allocated(range) => {
                lemma_alloc_pass_frame(admitted(rest, info, range));
            },
            _ => {},
        }
    }
}

/// Admission keeps the invariant of the engine.
pub proof fn lemma_admitted_wf(os: OsView, info: ProcessDataView, range: MemoryRange)
    requires
        os.wf(),
        os.next_pid + os.input_queue.len() < i32::MAX,
        usable_block_size(os.input_params.mem_fix_block_size),
        placed(os, info) == AllocResult::Allocated(range),
    ensures
        admitted(os, info, range).wf(),
{
    let after = admitted(os, info, range);
    let pid = os.next_pid;
    let total = os.input_params.mem_fix_total_blocks as int;
    lemma_demand_bounds(info.process_memsize, os.input_params.mem_fix_block_size);
    lemma_placement_allocated(os.memory_map, total, blocks_needed(os, info), range);
    assert(!os.live(pid)) by {
        if os.live(pid) {
            assert(os.pcb_ok(pid));
        }
    }
    assert(!os.ready_queue.contains(pid)) by {
        if os.ready_queue.contains(pid) {
            let i = choose|i: int| 0 <= i < os.ready_queue.len() && os.ready_queue[i] == pid;
            assert(os.live(os.ready_queue[i]));
        }
    }
    assert(!os.blocked_queue.contains(pid)) by {
        if os.blocked_queue.contains(pid) {
            let i = choose|i: int| 0 <= i < os.blocked_queue.len() && os.blocked_queue[i] == pid;
            assert(os.live(os.blocked_queue[i]));
        }
    }
    lemma_push_no_duplicates(os.ready_queue, pid);
    lemma_push_contains(os.ready_queue, pid);
    assert forall|p: PID| #[trigger] after.running_processes.contains_key(p) implies after.pcb_ok(
        p,
    ) by {
        if p != pid {
            assert(os.pcb_ok(p));
        }
    }
    assert forall|p: PID, q: PID|
        #![trigger after.memory_map.contains_key(p), after.memory_map.contains_key(q)]
        after.memory_map.contains_key(p) && after.memory_map.contains_key(q) && p
            != q implies !after.memory_map[p].overlaps(after.memory_map[q]) by {
        if p != pid && q != pid {
        } else if p == pid {
            assert(!os.memory_map[q].meets(range.0 as int, range.1 as int));
        } else {
            assert(!os.memory_map[p].meets(range.0 as int, range.1 as int));
        }
    }
    assert forall|i: int|
        0 <= i < after.ready_queue.len() implies after.running_processes.contains_key(
        #[trigger] after.ready_queue[i],
    ) by {
        if i < os.ready_queue.len() {
            assert(os.live(os.ready_queue[i]));
        }
    }
}

/// Computes the number of blocks that a process of size `memsize` needs.
pub fn block_demand(memsize: i32, block_size: i32) -> (blocks: i64)
    requires
        usable_block_size(block_size),
    ensures
        blocks == demand(memsize, block_size),
        -0x8000_0000 <= blocks <= 0x8000_0000,
{
    let unit: i64 = (block_size / 1000) as i64;
    let size: i64 = memsize as i64;
    let size_abs: i64 = if size < 0 {
        -size
    } else {
        size
    };
    let unit_abs: i64 = if unit < 0 {
        -unit
    } else {
        unit
    };
    proof {
        lemma_div_nonincreasing(size_abs as int, unit_abs as int);
        lemma_div_pos_is_pos(size_abs as int, unit_abs as int);
    }
    let quotient = size_abs / unit_abs;
    if (size < 0) != (unit < 0) {
        -quotient
    } else {
        quotient
    }
}

/// Looks for a process that holds a block among those from `lo` to `hi`.
fn find_overlap(memory: &HashMap<PID, MemoryRange>, lo: i64, hi: i64) -> (holder: Option<PID>)
    ensures
        match holder {
            Some(pid) => memory@.contains_key(pid) && memory@[pid].meets(lo as int, hi as int),
            None => free_run(memory@, lo as int, hi as int),
        },
{
    let mut holder: Option<PID> = None;
    for entry in it: memory.iter()
        invariant
            match holder {
                Some(pid) => memory@.contains_key(pid) && memory@[pid].meets(lo as int, hi as int),
                None => forall|i: int|
                    0 <= i < it.index() ==> !(*(#[trigger] it.seq()[i]).1).meets(
                        lo as int,
                        hi as int,
                    ),
            },
    {
        let (pid, range) = entry;
        if range.0 <= range.1 && lo <= hi && range.0 as i64 <= hi && lo <= range.1 as i64 {
            holder = Some(*pid);
        }
    }
    holder
}

pub struct Allocator;

impl Allocator {
    /// Decides where the descriptor `info` goes, as `placement` says, in
    /// the memory that is free now: the lowest run of free blocks that holds
    /// it. Changes nothing.
    pub fn check_memory(os: &OS, info: &ProcessData) -> (result: AllocResult)
        requires
            usable_block_size(os.input_params.mem_fix_block_size),
        ensures
            result == placed(os@, info@),
    {
        let blocks = block_demand(info.process_memsize, os.input_params.mem_fix_block_size);
        let total = os.input_params.mem_fix_total_blocks as i64;
        if blocks > total {
            return AllocResult::TooBig;
        }
        let ghost memory = os.memory_map@;
        let mut start: i64 = 1;
        while start + blocks - 1 <= total
            invariant
                1 <= start,
                blocks <= total,
                blocks <= 0 ==> start == 1,
                total == os.input_params.mem_fix_total_blocks,
                -0x8000_0000 <= blocks <= 0x8000_0000,
                start <= 0x8000_0000,
                memory == os.memory_map@,
                blocks == demand(info.process_memsize, os.input_params.mem_fix_block_size),
                forall|lower: int|
                    1 <= lower < start ==> !fits(memory, total as int, blocks as int, lower),
            decreases 0x8000_0001 - start,
        {
            match find_overlap(&os.memory_map, start, start + blocks - 1) {
                None => {
                    proof {
                        lemma_placement_at(memory, total as int, blocks as int, start as int);
                    }
                    return AllocResult::Allocated(
                        MemoryRange(start as i32, (start + blocks - 1) as i32),
                    );
                },
                Some(pid) => {
                    let range = os.memory_map.get(&pid).unwrap();
                    proof {
                        assert forall|lower: int| start <= lower <= range.1 implies !fits(
                            memory,
                            total as int,
                            blocks as int,
                            lower,
                        ) by {
                            assert(memory[pid].meets(lower, lower + blocks - 1));
                        }
                    }
                    start = range.1 as i64 + 1;
                },
            }
        }
        AllocResult::NoSpace
    }

    /// Tries to admit the descriptor `info`. Where it is placed, it gets
    /// the next PID, its range goes to the memory map, its control block to
    /// the table and its PID to the back of the ready queue, as `admitted`
    /// says. Where it is not, nothing changes.
    pub fn alloc_one(os: &mut OS, info: &ProcessData) -> (result: AllocResult)
        requires
            old(os).wf(),
            old(os)@.next_pid + old(os)@.input_queue.len() < i32::MAX,
            usable_block_size(old(os).input_params.mem_fix_block_size),
        ensures
            result == placed(old(os)@, info@),
            final(os)@ == after_alloc_one(old(os)@, info@),
            final(os).wf(),
    {
        let memory_range = match Self::check_memory(os, info) {
            AllocResult::Allocated(range) => range,
            AllocResult::NoSpace => {
                return AllocResult::NoSpace;
            },
            AllocResult::TooBig => {
                return AllocResult::TooBig;
            },
        };
        let pid = os.next_pid;
        os.next_pid = pid + 1;
        os.memory_map.insert(pid, memory_range);
        os.ready_queue.push_back(pid);
        let mut pcb = ProcessControlBlock {
            info: info.clone(),
            pid,
            clk: os.master_clock,
            state: State::Allocating,
            total_cpu: 0,
            total_ios: 0,
            start_time: 0,
            end_time: 0,
            memory_map: memory_range,
        };
        pcb.allocate();
        os.events.push(
            Event {
                kind: EventType::Allocated,
                time: os.master_clock,
                pid,
                name: info.process_name.clone(),
            },
        );
        os.running_processes.insert(pid, pcb);
        proof {
            let target = admitted(old(os)@, info@, memory_range);
            os@.lemma_equal(target);
            lemma_admitted_wf(old(os)@, info@, memory_range);
        }
        AllocResult::Allocated(memory_range)
    }

    /// Makes one pass over the admission queue, as `alloc_pass` says:
    /// admits descriptors from the front for as long as each is placed, and
    /// stops at the first that is not, which it drops where it is too big
    /// and sends to the back of the queue where it finds no space. Tells
    /// whether the pass admitted anything.
    pub fn allocate(os: &mut OS) -> (cycled: bool)
        requires
            old(os).wf(),
            usable_block_size(old(os).input_params.mem_fix_block_size),
        ensures
            (final(os)@, cycled) == alloc_pass(old(os)@),
            final(os).wf(),
    {
        let mut cycled = false;
        loop
            invariant_except_break
                os.wf(),
                usable_block_size(os.input_params.mem_fix_block_size),
                alloc_pass(old(os)@) == (alloc_pass(os@).0, cycled || alloc_pass(os@).1),
            ensures
                os.wf(),
                alloc_pass(old(os)@) == (os@, cycled),
            decreases os.input_queue@.len(),
        {
            let ghost before = os@;
            match os.input_queue.pop_front() {
                Some(info) => {
                    let ghost rest = os@;
                    proof {
                        assert(rest.input_queue =~= before.input_queue.drop_first());
                        assert(rest == (OsView {
                            input_queue: before.input_queue.drop_first(),
                            ..before
                        }));
                        assert(info@ == before.input_queue[0]);
                    }
                    match Self::alloc_one(os, &info) {
                        AllocResult::Allocated(_) => {
                            cycled = true;
                        },
                        AllocResult::TooBig => {
                            os.events.push(
                                Event {
                                    kind: EventType::Flushed,
                                    time: os.master_clock,
                                    pid: 0,
                                    name: info.process_name.clone(),
                                },
                            );
                            proof {
                                let target = flushed(rest, info@);
                                os@.lemma_equal(target);
                            }
                            break ;
                        },
                        AllocResult::NoSpace => {
                            os.input_queue.push_back(info);
                            proof {
                                let target = OsView {
                                    input_queue: rest.input_queue.push(info@),
                                    ..rest
                                };
                                os@.lemma_equal(target);
                            }
                            break ;
                        },
                    }
                },
                None => {
                    proof {
                        assert(os@.input_queue =~= before.input_queue);
                        assert(os@ == before);
                    }
                    break ;
                },
            }
        }
        cycled
    }
}

} // verus!
