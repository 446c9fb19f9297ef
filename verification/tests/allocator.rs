use os_sim::os::allocator::{block_demand, AllocResult, Allocator};
use os_sim::os::os::OS;
use os_sim::os::structures::{EventType, MemoryRange, ProcessControlBlock, State};
use os_sim::records::{Algorithm, IODeviceType, MemModel, OSParams, ProcessData, RunInfo};

fn machine(block_size: i32, total_blocks: i32) -> OSParams {
    OSParams {
        mem_model: MemModel::Fixed,
        pro_algorithm: Algorithm::FIFO,
        mem_fix_block_size: block_size,
        mem_fix_total_blocks: total_blocks,
        mem_var_maxsize: 0,
        mem_var_totsize: 0,
        pro_max_tasks: 0,
        init_quantum: 0,
        disk_units: 0,
        tape_units: 0,
        cdrom_units: 0,
        every_n_units: 0,
    }
}

fn job(name: &str, memsize: i32) -> ProcessData {
    ProcessData {
        process_priority: 0,
        process_memsize: memsize,
        run_info: vec![RunInfo { CPU_units: 1, IO_units: 0, IO_device_type: IODeviceType::Unknown }],
        process_name: String::from(name),
    }
}

/// A machine of `total_blocks` blocks of one unit each, in which the given
/// ranges are held by ready processes 1, 2, ...
fn occupied(total_blocks: i32, ranges: &[(i32, i32)]) -> OS {
    let mut os = OS::new(machine(1000, total_blocks), vec![], 1000);
    for (i, (first, last)) in ranges.iter().enumerate() {
        let pid = i as i32 + 1;
        let range = MemoryRange(*first, *last);
        os.memory_map.insert(pid, range);
        os.ready_queue.push_back(pid);
        os.running_processes.insert(
            pid,
            ProcessControlBlock {
                info: job("held", last - first + 1),
                pid,
                clk: 0,
                state: State::Ready,
                total_cpu: 0,
                total_ios: 0,
                start_time: 0,
                end_time: 0,
                memory_map: range,
            },
        );
        os.next_pid = pid + 1;
    }
    os
}

#[test]
fn demand_is_size_by_block_size_in_thousands() {
    assert_eq!(block_demand(5000, 1000), 5000);
    assert_eq!(block_demand(10, 2000), 5);
    assert_eq!(block_demand(6, 1000), 6);
    assert_eq!(block_demand(0, 1000), 0);
}

#[test]
fn demand_rounds_toward_zero() {
    assert_eq!(block_demand(5, 2000), 2);
    assert_eq!(block_demand(7, 4000), 1);
    assert_eq!(block_demand(3, 4000), 0);
    assert_eq!(block_demand(10, 2999), 5);
    assert_eq!(block_demand(10, 3000), 3);
    assert_eq!(block_demand(10, 1999), 10);
}

#[test]
fn demand_with_negative_numbers_rounds_toward_zero() {
    assert_eq!(block_demand(-5, 2000), -2);
    assert_eq!(block_demand(5, -2000), -2);
    assert_eq!(block_demand(-5, -2000), 2);
    assert_eq!(block_demand(-7, 2500), -3);
    assert_eq!(block_demand(7, -1999), -7);
    assert_eq!(block_demand(i32::MIN, -1000), 2_147_483_648);
    assert_eq!(block_demand(i32::MIN, 1000), -2_147_483_648);
    assert_eq!(block_demand(i32::MAX, i32::MAX), 1000);
    assert_eq!(block_demand(i32::MAX, 1000), 2_147_483_647);
}

#[test]
fn first_fit_takes_the_lowest_gap_that_is_wide_enough() {
    let os = occupied(10, &[(1, 3), (7, 9)]);
    assert_eq!(
        Allocator::check_memory(&os, &job("two", 2)),
        AllocResult::Allocated(MemoryRange(4, 5))
    );
}

#[test]
fn first_fit_fills_a_gap_exactly() {
    let os = occupied(10, &[(1, 3), (7, 9)]);
    assert_eq!(
        Allocator::check_memory(&os, &job("three", 3)),
        AllocResult::Allocated(MemoryRange(4, 6))
    );
}

#[test]
fn first_fit_uses_the_last_block() {
    let os = occupied(10, &[(1, 3), (4, 9)]);
    assert_eq!(
        Allocator::check_memory(&os, &job("one", 1)),
        AllocResult::Allocated(MemoryRange(10, 10))
    );
}

#[test]
fn first_fit_passes_gaps_that_are_too_narrow() {
    let os = occupied(20, &[(2, 3), (6, 7), (9, 10)]);
    assert_eq!(
        Allocator::check_memory(&os, &job("one", 1)),
        AllocResult::Allocated(MemoryRange(1, 1))
    );
    assert_eq!(
        Allocator::check_memory(&os, &job("two", 2)),
        AllocResult::Allocated(MemoryRange(4, 5))
    );
    assert_eq!(
        Allocator::check_memory(&os, &job("three", 3)),
        AllocResult::Allocated(MemoryRange(11, 13))
    );
    assert_eq!(
        Allocator::check_memory(&os, &job("ten", 10)),
        AllocResult::Allocated(MemoryRange(11, 20))
    );
}

#[test]
fn first_fit_never_covers_an_occupied_block() {
    let os = occupied(10, &[(3, 3)]);
    assert_eq!(
        Allocator::check_memory(&os, &job("three", 3)),
        AllocResult::Allocated(MemoryRange(4, 6))
    );
    assert_eq!(
        Allocator::check_memory(&os, &job("two", 2)),
        AllocResult::Allocated(MemoryRange(1, 2))
    );
}

#[test]
fn first_fit_does_not_depend_on_the_order_of_the_ranges() {
    let os = occupied(10, &[(7, 9), (1, 3)]);
    assert_eq!(
        Allocator::check_memory(&os, &job("two", 2)),
        AllocResult::Allocated(MemoryRange(4, 5))
    );
}

#[test]
fn empty_memory_is_filled_from_block_one() {
    let os = occupied(10, &[]);
    assert_eq!(
        Allocator::check_memory(&os, &job("five", 5)),
        AllocResult::Allocated(MemoryRange(1, 5))
    );
    assert_eq!(
        Allocator::check_memory(&os, &job("all", 10)),
        AllocResult::Allocated(MemoryRange(1, 10))
    );
}

#[test]
fn no_space_where_no_gap_is_wide_enough() {
    let os = occupied(10, &[(1, 3), (7, 9)]);
    assert_eq!(Allocator::check_memory(&os, &job("four", 4)), AllocResult::NoSpace);
    let full = occupied(10, &[(1, 10)]);
    assert_eq!(Allocator::check_memory(&full, &job("one", 1)), AllocResult::NoSpace);
    let half = occupied(10, &[(1, 5)]);
    assert_eq!(Allocator::check_memory(&half, &job("six", 6)), AllocResult::NoSpace);
    assert_eq!(
        Allocator::check_memory(&half, &job("five", 5)),
        AllocResult::Allocated(MemoryRange(6, 10))
    );
}

#[test]
fn too_big_whatever_is_free() {
    assert_eq!(Allocator::check_memory(&occupied(10, &[]), &job("big", 11)), AllocResult::TooBig);
    assert_eq!(
        Allocator::check_memory(&occupied(10, &[(1, 10)]), &job("big", 11)),
        AllocResult::TooBig
    );
    assert_eq!(
        Allocator::check_memory(&occupied(10, &[(4, 6)]), &job("big", i32::MAX)),
        AllocResult::TooBig
    );
    assert_eq!(
        Allocator::check_memory(&occupied(10, &[(1, 10)]), &job("fits", 10)),
        AllocResult::NoSpace
    );
}

#[test]
fn a_request_for_no_block_gets_an_empty_range() {
    assert_eq!(
        Allocator::check_memory(&occupied(10, &[(1, 10)]), &job("none", 0)),
        AllocResult::Allocated(MemoryRange(1, 0))
    );
    assert_eq!(
        Allocator::check_memory(&occupied(10, &[]), &job("less", -3)),
        AllocResult::Allocated(MemoryRange(1, -3))
    );
    assert!(MemoryRange(1, 0).blocks().is_empty());
}

#[test]
fn a_machine_without_blocks_holds_nothing() {
    assert_eq!(Allocator::check_memory(&occupied(0, &[]), &job("one", 1)), AllocResult::TooBig);
    assert_eq!(
        Allocator::check_memory(&occupied(0, &[]), &job("none", 0)),
        AllocResult::Allocated(MemoryRange(1, 0))
    );
}

#[test]
fn check_memory_uses_the_block_size() {
    let mut os = OS::new(machine(2000, 10), vec![], 100);
    os.memory_map.insert(1, MemoryRange(1, 3));
    assert_eq!(
        Allocator::check_memory(&os, &job("nine", 9)),
        AllocResult::Allocated(MemoryRange(4, 7))
    );
    assert_eq!(Allocator::check_memory(&os, &job("big", 22)), AllocResult::TooBig);
    assert_eq!(Allocator::check_memory(&os, &job("wide", 16)), AllocResult::NoSpace);
}

#[test]
fn alloc_one_admits_a_process() {
    let mut os = occupied(10, &[(1, 3), (7, 9)]);
    os.master_clock = 4;
    let result = Allocator::alloc_one(&mut os, &job("new", 2));
    assert_eq!(result, AllocResult::Allocated(MemoryRange(4, 5)));
    assert_eq!(os.next_pid, 4);
    assert_eq!(os.memory_map.get(&3), Some(&MemoryRange(4, 5)));
    assert_eq!(os.ready_queue.iter().copied().collect::<Vec<i32>>(), vec![1, 2, 3]);
    let pcb = os.running_processes.get(&3).unwrap();
    assert_eq!(pcb.pid, 3);
    assert_eq!(pcb.info, job("new", 2));
    assert_eq!(pcb.clk, 4);
    assert_eq!(pcb.state, State::Ready);
    assert_eq!(pcb.total_cpu, 0);
    assert_eq!(pcb.total_ios, 0);
    assert_eq!(pcb.start_time, 0);
    assert_eq!(pcb.end_time, 0);
    assert_eq!(pcb.memory_map, MemoryRange(4, 5));
    assert_eq!(os.events.len(), 1);
    assert_eq!(os.events[0].kind, EventType::Allocated);
    assert_eq!(os.events[0].time, 4);
    assert_eq!(os.events[0].pid, 3);
    assert_eq!(os.events[0].name, "new");
}

#[test]
fn alloc_one_changes_nothing_where_it_fails() {
    let mut os = occupied(10, &[(1, 3), (7, 9)]);
    assert_eq!(Allocator::alloc_one(&mut os, &job("wide", 4)), AllocResult::NoSpace);
    assert_eq!(Allocator::alloc_one(&mut os, &job("big", 11)), AllocResult::TooBig);
    assert_eq!(os.next_pid, 3);
    assert_eq!(os.running_processes.len(), 2);
    assert_eq!(os.memory_map.len(), 2);
    assert_eq!(os.ready_queue.len(), 2);
    assert!(os.events.is_empty());
}

#[test]
fn allocate_admits_from_the_front_while_there_is_room() {
    let mut os = OS::new(machine(1000, 10), vec![], 100);
    os.master_clock = 1;
    os.input_queue.push_back(job("a", 3));
    os.input_queue.push_back(job("b", 4));
    os.input_queue.push_back(job("c", 3));
    assert!(Allocator::allocate(&mut os));
    assert!(os.input_queue.is_empty());
    assert_eq!(os.memory_map.get(&1), Some(&MemoryRange(1, 3)));
    assert_eq!(os.memory_map.get(&2), Some(&MemoryRange(4, 7)));
    assert_eq!(os.memory_map.get(&3), Some(&MemoryRange(8, 10)));
    assert_eq!(os.ready_queue.iter().copied().collect::<Vec<i32>>(), vec![1, 2, 3]);
    assert_eq!(os.next_pid, 4);
    let names: Vec<&str> = os.events.iter().map(|event| event.name.as_str()).collect();
    assert_eq!(names, vec!["a", "b", "c"]);
    assert!(os.events.iter().all(|event| event.kind == EventType::Allocated && event.time == 1));
}

#[test]
fn allocate_on_an_empty_queue_admits_nothing() {
    let mut os = OS::new(machine(1000, 10), vec![], 100);
    assert!(!Allocator::allocate(&mut os));
    assert!(os.running_processes.is_empty());
    assert!(os.events.is_empty());
    assert_eq!(os.next_pid, 1);
}

#[test]
fn no_space_sends_the_descriptor_to_the_back_and_ends_the_pass() {
    let mut os = OS::new(machine(1000, 10), vec![], 100);
    os.input_queue.push_back(job("a", 6));
    os.input_queue.push_back(job("b", 5));
    os.input_queue.push_back(job("c", 2));
    assert!(Allocator::allocate(&mut os));
    assert_eq!(os.running_processes.len(), 1);
    assert_eq!(os.memory_map.get(&1), Some(&MemoryRange(1, 6)));
    let waiting: Vec<&str> =
        os.input_queue.iter().map(|info| info.process_name.as_str()).collect();
    assert_eq!(waiting, vec!["c", "b"]);
    assert_eq!(os.events.len(), 1);
}

#[test]
fn no_space_at_the_front_admits_nothing() {
    let mut os = occupied(10, &[(1, 6)]);
    os.input_queue.push_back(job("b", 5));
    os.input_queue.push_back(job("c", 2));
    assert!(!Allocator::allocate(&mut os));
    assert_eq!(os.running_processes.len(), 1);
    let waiting: Vec<&str> =
        os.input_queue.iter().map(|info| info.process_name.as_str()).collect();
    assert_eq!(waiting, vec!["c", "b"]);
    assert!(os.events.is_empty());
}

#[test]
fn too_big_is_dropped_and_ends_the_pass() {
    let mut os = OS::new(machine(1000, 10), vec![], 100);
    os.master_clock = 7;
    os.input_queue.push_back(job("huge", 11));
    os.input_queue.push_back(job("small", 2));
    assert!(!Allocator::allocate(&mut os));
    assert!(os.running_processes.is_empty());
    assert!(os.memory_map.is_empty());
    let waiting: Vec<&str> =
        os.input_queue.iter().map(|info| info.process_name.as_str()).collect();
    assert_eq!(waiting, vec!["small"]);
    assert_eq!(os.events.len(), 1);
    assert_eq!(os.events[0].kind, EventType::Flushed);
    assert_eq!(os.events[0].time, 7);
    assert_eq!(os.events[0].pid, 0);
    assert_eq!(os.events[0].name, "huge");
    assert_eq!(os.next_pid, 1);
}

#[test]
fn too_big_is_dropped_with_memory_full_or_empty() {
    for ranges in [vec![], vec![(1, 10)], vec![(3, 4)]] {
        let mut os = occupied(10, &ranges);
        let live = os.running_processes.len();
        os.input_queue.push_back(job("huge", 11));
        assert!(!Allocator::allocate(&mut os));
        assert!(os.input_queue.is_empty());
        assert_eq!(os.running_processes.len(), live);
        assert_eq!(os.events.len(), 1);
        assert_eq!(os.events[0].kind, EventType::Flushed);
    }
}

#[test]
fn too_big_after_an_admission_still_counts_as_a_cycle() {
    let mut os = OS::new(machine(1000, 10), vec![], 100);
    os.input_queue.push_back(job("ok", 2));
    os.input_queue.push_back(job("huge", 11));
    os.input_queue.push_back(job("later", 2));
    assert!(Allocator::allocate(&mut os));
    assert_eq!(os.running_processes.len(), 1);
    let waiting: Vec<&str> =
        os.input_queue.iter().map(|info| info.process_name.as_str()).collect();
    assert_eq!(waiting, vec!["later"]);
    let kinds: Vec<EventType> = os.events.iter().map(|event| event.kind).collect();
    assert_eq!(kinds, vec![EventType::Allocated, EventType::Flushed]);
}

#[test]
fn pids_count_up_and_are_not_reused() {
    let mut os = OS::new(machine(1000, 10), vec![], 100);
    os.input_queue.push_back(job("a", 2));
    os.input_queue.push_back(job("b", 2));
    assert!(Allocator::allocate(&mut os));
    os.remove_process(1);
    os.remove_process(2);
    assert!(os.running_processes.is_empty());
    os.input_queue.push_back(job("c", 2));
    assert!(Allocator::allocate(&mut os));
    assert!(os.running_processes.contains_key(&3));
    assert_eq!(os.memory_map.get(&3), Some(&MemoryRange(1, 2)));
    assert_eq!(os.next_pid, 4);
}

#[test]
fn admitted_ranges_do_not_overlap() {
    let mut os = OS::new(machine(1000, 50), vec![], 100);
    for size in [7, 3, 11, 1, 5, 9, 2, 4] {
        os.input_queue.push_back(job("p", size));
    }
    assert!(Allocator::allocate(&mut os));
    os.remove_process(2);
    os.remove_process(5);
    for size in [4, 3, 2] {
        os.input_queue.push_back(job("q", size));
    }
    assert!(Allocator::allocate(&mut os));
    let ranges: Vec<MemoryRange> = os.memory_map.values().copied().collect();
    for (i, a) in ranges.iter().enumerate() {
        assert!(1 <= a.0 && a.1 <= 50);
        for b in ranges.iter().skip(i + 1) {
            assert!(a.1 < b.0 || b.1 < a.0, "{:?} and {:?} overlap", a, b);
        }
    }
}
