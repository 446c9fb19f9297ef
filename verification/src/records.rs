//! Configuration and workload records, and their fixed binary layouts.
//!
//! Every integer of a record is four bytes, least significant byte first, in
//! two's complement. A name is eight bytes, padded at the end with NUL bytes.
use vstd::prelude::*;
use vstd::slice::slice_subrange;

verus! {

/// Length in bytes of a configuration record.
pub const PARAMS_RECORD_LEN: usize = 52;

/// Length in bytes of a workload record.
pub const PROCESS_RECORD_LEN: usize = 136;

/// Number of burst triples that a workload record has room for.
pub const BURST_SLOTS: usize = 10;

/// Length in bytes of a fixed name field.
pub const NAME_LEN: usize = 8;

/// How memory is handed out.
#[derive(Clone, Copy, Debug, PartialEq, Eq, Structural)]
pub enum MemModel {
    /// Memory is not managed.
    NoModel,
    /// Memory is a pool of blocks of one size.
    Fixed,
    /// Memory is cut to the size asked for.
    Variable,
    /// A code that stands for no model.
    Unknown,
}

/// The scheduling algorithm that the configuration names.
///
/// `FIFO` is first-in first-out, `IPRI` initial priority, `MLFQ` a
/// multi-level feedback queue. The engine schedules round-robin at burst
/// granularity whatever the tag says.
#[derive(Clone, Copy, Debug, PartialEq, Eq, Structural)]
pub enum Algorithm {
    FIFO,
    IPRI,
    MLFQ,
    Unknown,
}

/// The device that a burst's I/O goes to; `Unknown` where the burst names none.
#[derive(Clone, Copy, Debug, PartialEq, Eq, Structural)]
pub enum IODeviceType {
    Disk,
    Tape,
    CD,
    Unknown,
}

/// The configuration of a run.
#[derive(Clone, Copy, Debug, PartialEq, Eq, Structural)]
pub struct OSParams {
    pub mem_model: MemModel,
    pub pro_algorithm: Algorithm,
    /// Fixed model: number of bytes per block.
    pub mem_fix_block_size: i32,
    /// Fixed model: number of blocks.
    pub mem_fix_total_blocks: i32,
    /// Variable model: largest block size.
    pub mem_var_maxsize: i32,
    /// Variable model: total memory.
    pub mem_var_totsize: i32,
    /// Largest number of processes allowed.
    pub pro_max_tasks: i32,
    /// Default quantum size. The dispatcher preempts at the end of a CPU
    /// burst only, and does not read it.
    pub init_quantum: i32,
    pub disk_units: i32,
    pub tape_units: i32,
    pub cdrom_units: i32,
    /// Where not zero, the live processes are reported every so many ticks.
    pub every_n_units: i32,
}

/// One cycle of a process: so many units of CPU, then so many of I/O.
#[derive(Clone, Copy, Debug, PartialEq, Eq, Structural)]
pub struct RunInfo {
    pub CPU_units: i32,
    pub IO_units: i32,
    pub IO_device_type: IODeviceType,
}

/// What the workload says of one process.
#[derive(Debug, PartialEq, Eq)]
pub struct ProcessData {
    pub process_priority: i32,
    /// Memory that the load module needs, in thousands of bytes.
    pub process_memsize: i32,
    /// The bursts still to run, in the order in which they were declared.
    pub run_info: Vec<RunInfo>,
    pub process_name: String,
}

/// The mathematical value of a `ProcessData`.
pub struct ProcessDataView {
    pub process_priority: i32,
    pub process_memsize: i32,
    pub run_info: Seq<RunInfo>,
    pub process_name: Seq<char>,
}

impl View for ProcessData {
    type V = ProcessDataView;

    open spec fn view(&self) -> ProcessDataView {
        ProcessDataView {
            process_priority: self.process_priority,
            process_memsize: self.process_memsize,
            run_info: self.run_info@,
            process_name: self.process_name@,
        }
    }
}

impl Clone for ProcessData {
    fn clone(&self) -> (copy: Self)
        ensures
            copy@ == self@,
    {
        let mut run_info: Vec<RunInfo> = Vec::new();
        let mut i: usize = 0;
        while i < self.run_info.len()
            invariant
                i <= self.run_info.len(),
                run_info@ == self.run_info@.take(i as int),
            decreases self.run_info.len() - i,
        {
            run_info.push(self.run_info[i]);
            i += 1;
        }
        assert(self.run_info@.take(i as int) =~= self.run_info@);
        ProcessData {
            process_priority: self.process_priority,
            process_memsize: self.process_memsize,
            run_info,
            process_name: self.process_name.clone(),
        }
    }
}

/// `String::push` of the standard library appends the character `c` to
/// the end of `text`: the text is then what it was, followed by `c`.
pub assume_specification[ String::push ](text: &mut String, c: char)
    ensures
        final(text)@ == old(text)@.push(c),
;

/// The integer that four bytes hold: least significant byte first, two's
/// complement.
pub open spec fn le_i32(b: Seq<u8>) -> int
    recommends
        b.len() == 4,
{
    let unsigned = b[0] + 0x100 * b[1] + 0x1_0000 * b[2] + 0x100_0000 * b[3];
    if unsigned >= 0x8000_0000 {
        unsigned - 0x1_0000_0000
    } else {
        unsigned
    }
}

/// The integer field that starts at byte `at` of `data`.
pub open spec fn field(data: Seq<u8>, at: int) -> i32 {
    le_i32(data.subrange(at, at + 4)) as i32
}

/// Decodes the integer field that starts at byte `at`.
pub fn read_i32(data: &[u8], at: usize) -> (value: i32)
    requires
        at + 4 <= data@.len(),
    ensures
        value == field(data@, at as int),
{
    let unsigned: i64 = data[at] as i64 + 0x100 * (data[at + 1] as i64) + 0x1_0000 * (data[at
        + 2] as i64) + 0x100_0000 * (data[at + 3] as i64);
    if unsigned >= 0x8000_0000 {
        (unsigned - 0x1_0000_0000) as i32
    } else {
        unsigned as i32
    }
}

/// `name` without the NUL bytes at its end.
pub open spec fn strip_nuls(name: Seq<u8>) -> Seq<u8>
    decreases name.len(),
{
    if name.len() > 0 && name.last() == 0 {
        strip_nuls(name.drop_last())
    } else {
        name
    }
}

/// The text of a name field: one character for each byte that is left when
/// the NUL bytes at the end are gone.
pub open spec fn name_text(name: Seq<u8>) -> Seq<char> {
    strip_nuls(name).map_values(|b: u8| b as char)
}

/// The name field that starts at byte `at` of `data`.
pub open spec fn name_field(data: Seq<u8>, at: int) -> Seq<u8> {
    data.subrange(at, at + NAME_LEN as int)
}

/// Where the name field at `at` ends once its trailing NUL bytes are gone.
pub fn name_end(data: &[u8], at: usize) -> (end: usize)
    requires
        at + NAME_LEN <= data.len(),
    ensures
        end <= NAME_LEN,
        strip_nuls(name_field(data@, at as int)) == name_field(data@, at as int).take(end as int),
{
    let ghost name = name_field(data@, at as int);
    let mut end: usize = NAME_LEN;
    assert(name.take(end as int) =~= name);
    while end > 0 && data[at + end - 1] == 0
        invariant
            end <= NAME_LEN,
            at + NAME_LEN <= data.len(),
            name == name_field(data@, at as int),
            strip_nuls(name) == strip_nuls(name.take(end as int)),
        decreases end,
    {
        assert(name.take(end as int).drop_last() =~= name.take(end as int - 1));
        end -= 1;
    }
    end
}

/// Decodes the name field that starts at byte `at`.
pub fn read_name(data: &[u8], at: usize) -> (name: String)
    requires
        at + NAME_LEN <= data.len(),
    ensures
        name@ == name_text(name_field(data@, at as int)),
{
    let end = name_end(data, at);
    let ghost kept = name_field(data@, at as int).take(end as int);
    let mut name = String::new();
    let mut i: usize = 0;
    while i < end
        invariant
            i <= end <= NAME_LEN,
            at + NAME_LEN <= data.len(),
            kept == name_field(data@, at as int).take(end as int),
            name@ == kept.take(i as int).map_values(|b: u8| b as char),
        decreases end - i,
    {
        assert(kept.take(i as int + 1) =~= kept.take(i as int).push(data@[at + i]));
        name.push(data[at + i] as char);
        i += 1;
    }
    assert(kept.take(end as int) =~= kept);
    name
}

/// The memory model that a code stands for.
pub open spec fn mem_model_of(code: i32) -> MemModel {
    if code == 0 {
        MemModel::NoModel
    } else if code == 1 {
        MemModel::Fixed
    } else if code == 2 {
        MemModel::Variable
    } else {
        MemModel::Unknown
    }
}

/// The device that a code stands for.
pub open spec fn device_of(code: i32) -> IODeviceType {
    if code == 1 {
        IODeviceType::Disk
    } else if code == 2 {
        IODeviceType::Tape
    } else if code == 3 {
        IODeviceType::CD
    } else {
        IODeviceType::Unknown
    }
}

/// The algorithm that a name field names: `FIFO`, `IPRI` or `MLFQ` in ASCII,
/// and `Unknown` for every other text.
pub open spec fn algorithm_of(name: Seq<u8>) -> Algorithm {
    let text = strip_nuls(name);
    if text == seq![0x46u8, 0x49u8, 0x46u8, 0x4fu8] {
        Algorithm::FIFO
    } else if text == seq![0x49u8, 0x50u8, 0x52u8, 0x49u8] {
        Algorithm::IPRI
    } else if text == seq![0x4du8, 0x4cu8, 0x46u8, 0x51u8] {
        Algorithm::MLFQ
    } else {
        Algorithm::Unknown
    }
}

fn decode_mem_model(code: i32) -> (model: MemModel)
    ensures
        model == mem_model_of(code),
{
    match code {
        0 => MemModel::NoModel,
        1 => MemModel::Fixed,
        2 => MemModel::Variable,
        _ => MemModel::Unknown,
    }
}

fn decode_device(code: i32) -> (device: IODeviceType)
    ensures
        device == device_of(code),
{
    match code {
        1 => IODeviceType::Disk,
        2 => IODeviceType::Tape,
        3 => IODeviceType::CD,
        _ => IODeviceType::Unknown,
    }
}

/// Whether the name field at `at`, cut at `end`, is the four bytes given.
fn name_is(data: &[u8], at: usize, end: usize, b0: u8, b1: u8, b2: u8, b3: u8) -> (same: bool)
    requires
        at + NAME_LEN <= data.len(),
        end <= NAME_LEN,
    ensures
        same == (name_field(data@, at as int).take(end as int) == seq![b0, b1, b2, b3]),
{
    let ghost kept = name_field(data@, at as int).take(end as int);
    let ghost text = seq![b0, b1, b2, b3];
    if end != 4 {
        assert(kept.len() != text.len());
        return false;
    }
    let same = data[at] == b0 && data[at + 1] == b1 && data[at + 2] == b2 && data[at + 3] == b3;
    proof {
        assert(kept[0] == data@[at as int]);
        assert(kept[1] == data@[at + 1]);
        assert(kept[2] == data@[at + 2]);
        assert(kept[3] == data@[at + 3]);
        if same {
            assert(kept =~= text);
        } else {
            assert(kept[0] != text[0] || kept[1] != text[1] || kept[2] != text[2] || kept[3]
                != text[3]);
        }
    }
    same
}

fn decode_algorithm(data: &[u8], at: usize) -> (algorithm: Algorithm)
    requires
        at + NAME_LEN <= data.len(),
    ensures
        algorithm == algorithm_of(name_field(data@, at as int)),
{
    let end = name_end(data, at);
    if name_is(data, at, end, 0x46u8, 0x49u8, 0x46u8, 0x4fu8) {
        Algorithm::FIFO
    } else if name_is(data, at, end, 0x49u8, 0x50u8, 0x52u8, 0x49u8) {
        Algorithm::IPRI
    } else if name_is(data, at, end, 0x4du8, 0x4cu8, 0x46u8, 0x51u8) {
        Algorithm::MLFQ
    } else {
        Algorithm::Unknown
    }
}

impl OSParams {
    /// The configuration that a record holds: eleven integers, then the
    /// name of the scheduling algorithm.
    pub open spec fn decoded(data: Seq<u8>) -> OSParams {
        OSParams {
            mem_model: mem_model_of(field(data, 0)),
            mem_fix_block_size: field(data, 4),
            mem_fix_total_blocks: field(data, 8),
            mem_var_maxsize: field(data, 12),
            mem_var_totsize: field(data, 16),
            pro_max_tasks: field(data, 20),
            init_quantum: field(data, 24),
            disk_units: field(data, 28),
            tape_units: field(data, 32),
            cdrom_units: field(data, 36),
            every_n_units: field(data, 40),
            pro_algorithm: algorithm_of(name_field(data, 44)),
        }
    }

    /// Decodes a configuration record from the first bytes of `data`. There
    /// is none where `data` is shorter than a record.
    pub fn from_record(data: &[u8]) -> (params: Option<OSParams>)
        ensures
            data@.len() < PARAMS_RECORD_LEN ==> params is None,
            data@.len() >= PARAMS_RECORD_LEN ==> params == Some(OSParams::decoded(data@)),
    {
        if data.len() < PARAMS_RECORD_LEN {
            return None;
        }
        Some(
            OSParams {
                mem_model: decode_mem_model(read_i32(data, 0)),
                mem_fix_block_size: read_i32(data, 4),
                mem_fix_total_blocks: read_i32(data, 8),
                mem_var_maxsize: read_i32(data, 12),
                mem_var_totsize: read_i32(data, 16),
                pro_max_tasks: read_i32(data, 20),
                init_quantum: read_i32(data, 24),
                disk_units: read_i32(data, 28),
                tape_units: read_i32(data, 32),
                cdrom_units: read_i32(data, 36),
                every_n_units: read_i32(data, 40),
                pro_algorithm: decode_algorithm(data, 44),
            },
        )
    }
}

impl ProcessData {
    /// The burst that slot `i` of a workload record holds.
    pub open spec fn slot(data: Seq<u8>, i: int) -> RunInfo {
        RunInfo {
            CPU_units: field(data, 8 + 12 * i),
            IO_units: field(data, 12 + 12 * i),
            IO_device_type: device_of(field(data, 16 + 12 * i)),
        }
    }

    /// Whether slot `i` holds a burst: a triple of three zeros holds none.
    pub open spec fn slot_used(data: Seq<u8>, i: int) -> bool {
        !(field(data, 8 + 12 * i) == 0 && field(data, 12 + 12 * i) == 0 && field(
            data,
            16 + 12 * i,
        ) == 0)
    }

    /// The bursts of a workload record: those of its used slots, in order.
    pub open spec fn bursts(data: Seq<u8>) -> Seq<RunInfo> {
        Seq::new(BURST_SLOTS as nat, |i: int| i).filter(|i: int| Self::slot_used(data, i)).map_values(
            |i: int| Self::slot(data, i),
        )
    }

    /// The descriptor that a workload record holds: priority, memory size,
    /// ten burst slots, then the name.
    pub open spec fn decoded(data: Seq<u8>) -> ProcessDataView {
        ProcessDataView {
            process_priority: field(data, 0),
            process_memsize: field(data, 4),
            run_info: Self::bursts(data),
            process_name: name_text(name_field(data, 128)),
        }
    }

    /// Record `i` of a sequence of workload records laid end to end.
    pub open spec fn record(data: Seq<u8>, i: int) -> Seq<u8> {
        data.subrange(i * PROCESS_RECORD_LEN as int, (i + 1) * PROCESS_RECORD_LEN as int)
    }

    /// Decodes a workload record from the first bytes of `data`. There is
    /// none where `data` is shorter than a record.
    pub fn from_record(data: &[u8]) -> (process: Option<ProcessData>)
        ensures
            data@.len() < PROCESS_RECORD_LEN ==> process is None,
            data@.len() >= PROCESS_RECORD_LEN ==> process is Some && process->0@ == Self::decoded(
                data@,
            ),
    {
        if data.len() < PROCESS_RECORD_LEN {
            return None;
        }
        let ghost slots = Seq::new(BURST_SLOTS as nat, |i: int| i);
        let ghost used = |i: int| Self::slot_used(data@, i);
        let ghost burst = |i: int| Self::slot(data@, i);
        let mut run_info: Vec<RunInfo> = Vec::new();
        let mut i: usize = 0;
        assert(slots.take(0).filter(used) =~= Seq::<int>::empty());
        while i < BURST_SLOTS
            invariant
                i <= BURST_SLOTS,
                data.len() >= PROCESS_RECORD_LEN,
                slots == Seq::new(BURST_SLOTS as nat, |i: int| i),
                used == |i: int| Self::slot_used(data@, i),
                burst == |i: int| Self::slot(data@, i),
                run_info@ == slots.take(i as int).filter(used).map_values(burst),
            decreases BURST_SLOTS - i,
        {
            let cpu = read_i32(data, 8 + 12 * i);
            let io = read_i32(data, 12 + 12 * i);
            let code = read_i32(data, 16 + 12 * i);
            proof {
                let before = slots.take(i as int);
                assert(slots.take(i as int + 1) =~= before.push(i as int));
                Seq::lemma_filter_push(before, i as int, used);
                if used(i as int) {
                    assert(before.push(i as int).filter(used).map_values(burst)
                        =~= before.filter(used).map_values(burst).push(burst(i as int)));
                }
            }
            if !(cpu == 0 && io == 0 && code == 0) {
                run_info.push(
                    RunInfo { CPU_units: cpu, IO_units: io, IO_device_type: decode_device(code) },
                );
            }
            i += 1;
        }
        assert(slots.take(BURST_SLOTS as int) =~= slots);
        Some(
            ProcessData {
                process_priority: read_i32(data, 0),
                process_memsize: read_i32(data, 4),
                run_info,
                process_name: read_name(data, 128),
            },
        )
    }

    /// Decodes the first `num_entries` workload records of `data`. There are
    /// none where `data` is too short to hold that many.
    pub fn from_records(data: &[u8], num_entries: u32) -> (processes: Option<Vec<ProcessData>>)
        ensures
            data@.len() < num_entries * PROCESS_RECORD_LEN ==> processes is None,
            data@.len() >= num_entries * PROCESS_RECORD_LEN ==> {
                &&& processes is Some
                &&& processes->0@.len() == num_entries
                &&& forall|i: int|
                    0 <= i < num_entries ==> (#[trigger] processes->0@[i])@ == Self::decoded(
                        Self::record(data@, i),
                    )
            },
    {
        if (data.len() as u64) < (num_entries as u64) * (PROCESS_RECORD_LEN as u64) {
            return None;
        }
        let count = num_entries as usize;
        let mut processes: Vec<ProcessData> = Vec::new();
        let mut i: usize = 0;
        while i < count
            invariant
                i <= count,
                count == num_entries,
                data.len() >= count * PROCESS_RECORD_LEN,
                processes@.len() == i,
                forall|k: int|
                    0 <= k < i ==> (#[trigger] processes@[k])@ == Self::decoded(
                        Self::record(data@, k),
                    ),
            decreases count - i,
        {
            let record = slice_subrange(data, i * PROCESS_RECORD_LEN, (i + 1) * PROCESS_RECORD_LEN);
            match Self::from_record(record) {
                Some(process) => {
                    processes.push(process);
                },
                None => {
                    return None;
                },
            }
            i += 1;
        }
        Some(processes)
    }
}

} // verus!
