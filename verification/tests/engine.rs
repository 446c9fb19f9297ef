use os_sim::os::clock::TickStatus;
use os_sim::os::dispatcher::Dispatcher;
use os_sim::os::os::OS;
use os_sim::os::structures::{EventType, MemoryRange, ProcessInfo, State};
use os_sim::records::{Algorithm, IODeviceType, MemModel, OSParams, ProcessData, RunInfo};

fn config(block_size: i32, total_blocks: i32, every_n_units: i32) -> OSParams {
    OSParams {
        mem_model: MemModel::Fixed,
        pro_algorithm: Algorithm::FIFO,
        mem_fix_block_size: block_size,
        mem_fix_total_blocks: total_blocks,
        mem_var_maxsize: 0,
        mem_var_totsize: 0,
        pro_max_tasks: 0,
        init_quantum: 5,
        disk_units: 1,
        tape_units: 1,
        cdrom_units: 1,
        every_n_units,
    }
}

fn program(name: &str, memsize: i32, bursts: &[(i32, i32)]) -> ProcessData {
    ProcessData {
        process_priority: 0,
        process_memsize: memsize,
        run_info: bursts
            .iter()
            .map(|(cpu, io)| RunInfo {
                CPU_units: *cpu,
                IO_units: *io,
                IO_device_type: IODeviceType::Tape,
            })
            .collect(),
        process_name: String::from(name),
    }
}

fn history(os: &OS) -> Vec<(EventType, i32, i32, &str)> {
    os.events
        .iter()
        .map(|event| (event.kind, event.time, event.pid, event.name.as_str()))
        .collect()
}

#[test]
fn new_machine_is_at_rest() {
    let workload = vec![program("a", 1, &[(1, 0)]), program("b", 2, &[])];
    let os = OS::new(config(1000, 10, 0), workload.clone(), 500);
    assert_eq!(os.input_params, config(1000, 10, 0));
    assert_eq!(os.input_procs, workload);
    assert!(os.input_queue.is_empty());
    assert_eq!(os.input_size, 2);
    assert_eq!(os.clock_limit, 500);
    assert!(os.running_processes.is_empty());
    assert_eq!(os.master_clock, 0);
    assert_eq!(os.current_pid, 0);
    assert_eq!(os.next_pid, 1);
    assert!(os.memory_map.is_empty());
    assert!(os.blocked_queue.is_empty());
    assert!(os.ready_queue.is_empty());
    assert!(os.events.is_empty());
    assert!(os.snapshots.is_empty());
}

#[test]
fn second_process_waits_for_the_memory_of_the_first() {
    let workload = vec![program("five", 5, &[(1, 0)]), program("six", 6, &[(1, 0)])];
    let mut os = OS::new(config(1000, 10, 0), workload, 100);
    for info in os.input_procs.clone() {
        os.input_queue.push_back(info);
    }
    let mut dispatcher = Dispatcher::new();

    assert_eq!(os.tick(&mut dispatcher), TickStatus::Running);
    assert_eq!(os.memory_map.get(&1), Some(&MemoryRange(1, 5)));
    assert_eq!(os.running_processes.len(), 1);
    assert_eq!(os.input_queue.len(), 1);
    assert_eq!(os.input_queue[0].process_name, "six");
    assert_eq!(os.running_processes.get(&1).unwrap().total_cpu, 0);

    assert_eq!(os.tick(&mut dispatcher), TickStatus::Running);
    assert_eq!(os.input_queue.len(), 1);
    assert_eq!(os.running_processes.len(), 1);
    assert_eq!(os.running_processes.get(&1).unwrap().total_cpu, 1);

    assert_eq!(os.tick(&mut dispatcher), TickStatus::Running);
    assert!(os.running_processes.is_empty());
    assert!(os.memory_map.is_empty());
    assert_eq!(os.input_queue.len(), 1);

    assert_eq!(os.tick(&mut dispatcher), TickStatus::Running);
    assert!(os.input_queue.is_empty());
    assert_eq!(os.memory_map.get(&2), Some(&MemoryRange(1, 6)));
    assert_eq!(os.running_processes.get(&2).unwrap().info.process_name, "six");
    assert_eq!(os.running_processes.get(&2).unwrap().clk, 4);

    assert_eq!(os.tick(&mut dispatcher), TickStatus::Running);
    assert_eq!(os.tick(&mut dispatcher), TickStatus::Finished);
    assert_eq!(os.master_clock, 6);
    assert_eq!(
        history(&os),
        vec![
            (EventType::Allocated, 1, 1, "five"),
            (EventType::Started, 2, 1, "five"),
            (EventType::Timeout, 2, 1, "five"),
            (EventType::Finished, 3, 1, "five"),
            (EventType::Allocated, 4, 2, "six"),
            (EventType::Started, 5, 2, "six"),
            (EventType::Timeout, 5, 2, "six"),
            (EventType::Finished, 6, 2, "six"),
        ]
    );
}

#[test]
fn start_runs_the_workload_to_its_end() {
    let workload = vec![program("five", 5, &[(1, 0)]), program("six", 6, &[(1, 0)])];
    let mut os = OS::new(config(1000, 10, 0), workload.clone(), 100);
    assert_eq!(os.start(), TickStatus::Finished);
    assert_eq!(os.master_clock, 6);
    assert!(os.running_processes.is_empty());
    assert!(os.memory_map.is_empty());
    assert!(os.input_queue.is_empty());
    assert!(os.ready_queue.is_empty());
    assert!(os.blocked_queue.is_empty());
    assert_eq!(os.input_procs, workload);
    assert_eq!(os.next_pid, 3);
    assert_eq!(
        history(&os),
        vec![
            (EventType::Allocated, 1, 1, "five"),
            (EventType::Started, 2, 1, "five"),
            (EventType::Timeout, 2, 1, "five"),
            (EventType::Finished, 3, 1, "five"),
            (EventType::Allocated, 4, 2, "six"),
            (EventType::Started, 5, 2, "six"),
            (EventType::Timeout, 5, 2, "six"),
            (EventType::Finished, 6, 2, "six"),
        ]
    );
}

#[test]
fn single_process_of_two_cpu_units_is_gone_after_four_ticks() {
    let mut os = OS::new(config(1000, 10, 0), vec![program("solo", 3, &[(2, 0)])], 100);
    assert_eq!(os.start(), TickStatus::Finished);
    assert_eq!(os.master_clock, 4);
    assert_eq!(
        history(&os),
        vec![
            (EventType::Allocated, 1, 1, "solo"),
            (EventType::Started, 2, 1, "solo"),
            (EventType::Timeout, 3, 1, "solo"),
            (EventType::Finished, 4, 1, "solo"),
        ]
    );
    assert!(os.running_processes.is_empty());
    assert!(os.memory_map.is_empty());
    assert!(os.ready_queue.is_empty());
    assert!(os.blocked_queue.is_empty());
}

#[test]
fn admission_uses_up_the_tick() {
    let mut os = OS::new(config(1000, 10, 0), vec![program("p", 1, &[(1, 0)])], 100);
    for info in os.input_procs.clone() {
        os.input_queue.push_back(info);
    }
    let mut dispatcher = Dispatcher::new();
    assert_eq!(os.tick(&mut dispatcher), TickStatus::Running);
    assert_eq!(os.master_clock, 1);
    let pcb = os.running_processes.get(&1).unwrap();
    assert_eq!(pcb.state, State::Ready);
    assert_eq!(pcb.total_cpu, 0);
    assert_eq!(pcb.start_time, 0);
    assert_eq!(dispatcher.current_process, None);
    assert_eq!(os.ready_queue.len(), 1);
}

#[test]
fn empty_workload_finishes_at_the_first_tick() {
    let mut os = OS::new(config(1000, 10, 0), vec![], 100);
    assert_eq!(os.start(), TickStatus::Finished);
    assert_eq!(os.master_clock, 1);
    assert!(os.events.is_empty());
}

#[test]
fn workload_of_a_process_that_is_too_big_finishes_without_it() {
    let workload = vec![program("huge", 11, &[(1, 0)]), program("ok", 2, &[(1, 0)])];
    let mut os = OS::new(config(1000, 10, 0), workload, 100);
    assert_eq!(os.start(), TickStatus::Finished);
    assert_eq!(
        history(&os),
        vec![
            (EventType::Flushed, 1, 0, "huge"),
            (EventType::Allocated, 2, 1, "ok"),
            (EventType::Started, 3, 1, "ok"),
            (EventType::Timeout, 3, 1, "ok"),
            (EventType::Finished, 4, 1, "ok"),
        ]
    );
    let flushed = os.events.iter().filter(|event| event.name == "huge").count();
    assert_eq!(flushed, 1);
}

#[test]
fn clock_past_its_ceiling_is_a_runaway() {
    let mut os = OS::new(config(1000, 10, 0), vec![program("long", 1, &[(50, 0)])], 10);
    assert_eq!(os.start(), TickStatus::Runaway);
    assert_eq!(os.master_clock, 11);
    assert_eq!(os.running_processes.get(&1).unwrap().total_cpu, 9);
    assert_eq!(os.running_processes.get(&1).unwrap().state, State::Executing);
}

#[test]
fn ceiling_is_the_last_tick_that_runs() {
    let mut os = OS::new(config(1000, 10, 0), vec![program("solo", 3, &[(2, 0)])], 4);
    assert_eq!(os.start(), TickStatus::Finished);
    assert_eq!(os.master_clock, 4);
    let mut os = OS::new(config(1000, 10, 0), vec![program("solo", 3, &[(2, 0)])], 3);
    assert_eq!(os.start(), TickStatus::Runaway);
    assert_eq!(os.master_clock, 4);
    assert!(os.running_processes.contains_key(&1));
}

#[test]
fn ceiling_of_zero_or_less_lets_no_tick_run() {
    for limit in [0, -1, i32::MIN] {
        let mut os = OS::new(config(1000, 10, 0), vec![program("p", 1, &[(1, 0)])], limit);
        assert_eq!(os.start(), TickStatus::Runaway);
        assert_eq!(os.master_clock, 1);
        assert!(os.running_processes.is_empty());
        assert_eq!(os.input_queue.len(), 1);
        assert!(os.events.is_empty());
    }
}

#[test]
fn clock_that_cannot_count_further_is_a_runaway() {
    let mut os = OS::new(config(1000, 10, 0), vec![], i32::MAX);
    os.master_clock = i32::MAX;
    let mut dispatcher = Dispatcher::new();
    assert_eq!(os.tick(&mut dispatcher), TickStatus::Runaway);
    assert_eq!(os.master_clock, i32::MAX);
}

#[test]
fn process_that_fits_beside_no_other_waits_until_memory_is_free() {
    let workload = vec![
        program("a", 4, &[(3, 0)]),
        program("b", 7, &[(1, 0)]),
        program("c", 2, &[(1, 0)]),
    ];
    let mut os = OS::new(config(1000, 10, 0), workload, 100);
    assert_eq!(os.start(), TickStatus::Finished);
    let admissions: Vec<(i32, i32, &str)> = os
        .events
        .iter()
        .filter(|event| event.kind == EventType::Allocated)
        .map(|event| (event.time, event.pid, event.name.as_str()))
        .collect();
    assert_eq!(admissions, vec![(1, 1, "a"), (2, 2, "c"), (9, 3, "b")]);
}

#[test]
fn reports_come_at_the_interval_in_order_of_pid() {
    let workload: Vec<ProcessData> =
        (0..40).map(|i| program(&format!("p{}", i), 1, &[(1, 0)])).collect();
    let mut os = OS::new(config(1000, 100, 3), workload, 1000);
    assert_eq!(os.start(), TickStatus::Finished);
    assert!(!os.snapshots.is_empty());
    for (i, report) in os.snapshots.iter().enumerate() {
        assert_eq!(report.time, 3 * (i as i32 + 1));
        for pair in report.rows.windows(2) {
            assert!(pair[0].pid < pair[1].pid);
        }
    }
    let first = &os.snapshots[0];
    assert_eq!(first.rows.len(), 40);
    assert_eq!(first.rows[39].pid, 40);
    assert_eq!(
        first.rows[0],
        ProcessInfo {
            pid: 1,
            name: String::from("p0"),
            memory: MemoryRange(1, 1),
            state: State::Ready,
        }
    );
    assert_eq!(os.master_clock, 81);
    assert_eq!(os.snapshots.len(), 27);
    assert_eq!(os.snapshots[14].rows.len(), 36);
    assert_eq!(os.snapshots[14].rows[0].pid, 5);
    assert!(os.snapshots[26].rows.is_empty());
}

#[test]
fn snapshot_lists_the_live_processes_in_order_of_pid() {
    let workload: Vec<ProcessData> =
        (0..60).map(|i| program(&format!("job{}", i), 1, &[(2, 1)])).collect();
    let mut os = OS::new(config(1000, 100, 0), workload, 1000);
    for info in os.input_procs.clone() {
        os.input_queue.push_back(info);
    }
    let mut dispatcher = Dispatcher::new();
    os.tick(&mut dispatcher);
    os.tick(&mut dispatcher);
    let report = os.snapshot();
    assert_eq!(report.time, 2);
    let pids: Vec<i32> = report.rows.iter().map(|row| row.pid).collect();
    assert_eq!(pids, (1..=60).collect::<Vec<i32>>());
    for row in &report.rows {
        let pcb = os.running_processes.get(&row.pid).unwrap();
        assert_eq!(row.name, pcb.info.process_name);
        assert_eq!(row.memory, pcb.memory_map);
        assert_eq!(row.memory, MemoryRange(row.pid, row.pid));
        assert_eq!(row.state, pcb.state);
    }
    assert_eq!(report.rows[0].state, State::Executing);
    assert_eq!(report.rows[1].state, State::Ready);
    assert!(os.snapshots.is_empty());
}

#[test]
fn snapshot_of_an_empty_machine_has_no_rows() {
    let os = OS::new(config(1000, 10, 0), vec![], 10);
    let report = os.snapshot();
    assert_eq!(report.time, 0);
    assert!(report.rows.is_empty());
}

#[test]
fn interval_of_zero_means_no_reports() {
    let mut os = OS::new(config(1000, 10, 0), vec![program("p", 1, &[(3, 2)])], 100);
    assert_eq!(os.start(), TickStatus::Finished);
    assert!(os.snapshots.is_empty());
}

#[test]
fn interval_of_one_reports_every_tick() {
    let mut os = OS::new(config(1000, 10, 1), vec![program("p", 1, &[(2, 0)])], 100);
    assert_eq!(os.start(), TickStatus::Finished);
    let times: Vec<i32> = os.snapshots.iter().map(|report| report.time).collect();
    assert_eq!(times, vec![1, 2, 3, 4]);
    let states: Vec<Vec<State>> = os
        .snapshots
        .iter()
        .map(|report| report.rows.iter().map(|row| row.state).collect())
        .collect();
    assert_eq!(
        states,
        vec![vec![State::Ready], vec![State::Executing], vec![State::Ready], vec![]]
    );
}

#[test]
fn negative_interval_counts_as_its_size() {
    let mut os = OS::new(config(1000, 10, -2), vec![program("p", 1, &[(4, 0)])], 100);
    assert_eq!(os.start(), TickStatus::Finished);
    let times: Vec<i32> = os.snapshots.iter().map(|report| report.time).collect();
    assert_eq!(times, vec![2, 4, 6]);
}

#[test]
fn starting_again_runs_the_workload_again() {
    let mut os = OS::new(config(1000, 10, 0), vec![program("p", 1, &[(1, 0)])], 100);
    assert_eq!(os.start(), TickStatus::Finished);
    assert_eq!(os.master_clock, 3);
    assert_eq!(os.start(), TickStatus::Finished);
    assert_eq!(os.master_clock, 6);
    let admissions: Vec<(i32, i32)> = os
        .events
        .iter()
        .filter(|event| event.kind == EventType::Allocated)
        .map(|event| (event.time, event.pid))
        .collect();
    assert_eq!(admissions, vec![(1, 1), (4, 2)]);
}

#[test]
fn memory_is_never_shared_during_a_run() {
    let workload = vec![
        program("a", 4, &[(2, 3), (1, 0)]),
        program("b", 3, &[(1, 1)]),
        program("c", 5, &[(3, 0)]),
        program("d", 2, &[(0, 2), (2, 0)]),
        program("e", 6, &[(1, 0)]),
        program("f", 1, &[]),
    ];
    let mut os = OS::new(config(1000, 10, 0), workload, 1000);
    for info in os.input_procs.clone() {
        os.input_queue.push_back(info);
    }
    let mut dispatcher = Dispatcher::new();
    let mut status = TickStatus::Running;
    while status == TickStatus::Running {
        status = os.tick(&mut dispatcher);
        let ranges: Vec<MemoryRange> = os.memory_map.values().copied().collect();
        for (i, a) in ranges.iter().enumerate() {
            assert!(1 <= a.0 && a.0 <= a.1 && a.1 <= 10);
            for b in ranges.iter().skip(i + 1) {
                assert!(a.1 < b.0 || b.1 < a.0);
            }
        }
        assert_eq!(os.memory_map.len(), os.running_processes.len());
    }
    assert_eq!(status, TickStatus::Finished);
}

#[test]
fn blocks_of_a_range() {
    assert_eq!(MemoryRange(4, 6).blocks(), vec![4, 5, 6]);
    assert_eq!(MemoryRange(1, 1).blocks(), vec![1]);
    assert_eq!(MemoryRange(-1, 1).blocks(), vec![-1, 0, 1]);
    assert_eq!(MemoryRange(5, 4).blocks(), Vec::<i32>::new());
    assert_eq!(MemoryRange(i32::MAX - 1, i32::MAX).blocks(), vec![i32::MAX - 1, i32::MAX]);
}
