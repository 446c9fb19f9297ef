//! Reports: the live processes of a machine, listed in ascending order of
//! PID.
use crate::os::os::{OsView, OS};
use crate::os::structures::{
    PcbView, ProcessControlBlock, ProcessInfo, ProcessInfoView, Snapshot, SnapshotView, PID,
};
use std::collections::HashMap;
use vstd::prelude::*;
use vstd::std_specs::iter::IteratorSpec;

verus! {

broadcast use vstd::std_specs::hash::group_hash_axioms;

/// Whether `pids` goes up strictly.
pub open spec fn ascending(pids: Seq<PID>) -> bool {
    forall|i: int, j: int| 0 <= i < j < pids.len() ==> pids[i] < pids[j]
}

/// Whether `pids` lists exactly the members of `set`, in ascending order.
pub open spec fn lists(pids: Seq<PID>, set: Set<PID>) -> bool {
    &&& ascending(pids)
    &&& forall|pid: PID| #[trigger] pids.contains(pid) <==> set.contains(pid)
}

/// The members of `set` in ascending order.
pub open spec fn in_order(set: Set<PID>) -> Seq<PID> {
    choose|pids: Seq<PID>| lists(pids, set)
}

/// A set has one ascending list at most.
pub proof fn lemma_lists_unique(a: Seq<PID>, b: Seq<PID>, set: Set<PID>)
    requires
        lists(a, set),
        lists(b, set),
    ensures
        a == b,
    decreases a.len(),
{
    if a.len() == 0 {
        if b.len() > 0 {
            assert(b.contains(b[0]));
            assert(a.contains(b[0]));
        }
        assert(a =~= b);
    } else {
        let top = a.last();
        assert(a.contains(top));
        assert(b.contains(top));
        let at = choose|i: int| 0 <= i < b.len() && b[i] == top;
        if at < b.len() - 1 {
            let above = b.last();
            assert(b.contains(above));
            assert(a.contains(above));
            let i = choose|i: int| 0 <= i < a.len() && a[i] == above;
        }
        let rest = set.remove(top);
        assert forall|pid: PID| #[trigger] a.drop_last().contains(pid) <==> rest.contains(pid) by {
            if a.drop_last().contains(pid) {
                let i = choose|i: int| 0 <= i < a.drop_last().len() && a.drop_last()[i] == pid;
                assert(a[i] == pid);
                assert(a.contains(pid));
            }
            if rest.contains(pid) {
                assert(a.contains(pid));
                let i = choose|i: int| 0 <= i < a.len() && a[i] == pid;
                assert(a.drop_last()[i] == pid);
            }
        }
        assert forall|pid: PID| #[trigger] b.drop_last().contains(pid) <==> rest.contains(pid) by {
            if b.drop_last().contains(pid) {
                let i = choose|i: int| 0 <= i < b.drop_last().len() && b.drop_last()[i] == pid;
                assert(b[i] == pid);
                assert(b.contains(pid));
            }
            if rest.contains(pid) {
                assert(b.contains(pid));
                let i = choose|i: int| 0 <= i < b.len() && b[i] == pid;
                assert(b.drop_last()[i] == pid);
            }
        }
        lemma_lists_unique(a.drop_last(), b.drop_last(), rest);
        assert(a =~= a.drop_last().push(top));
        assert(b =~= b.drop_last().push(top));
    }
}

/// What a report shows of a process.
pub open spec fn row_of(pcb: PcbView) -> ProcessInfoView {
    ProcessInfoView {
        pid: pcb.pid,
        name: pcb.info.process_name,
        memory: pcb.memory_map,
        state: pcb.state,
    }
}

/// The report of the machine `os` at its current tick: a row for each live
/// process, in ascending order of PID.
pub open spec fn snapshot_of(os: OsView) -> SnapshotView {
    SnapshotView {
        time: os.master_clock,
        rows: in_order(os.running_processes.dom()).map_values(
            |pid: PID| row_of(os.running_processes[pid]),
        ),
    }
}

/// Sorts `pids` with `itertools::sorted`, which collects what it is given,
/// sorts it in ascending order and hands it out again: the result holds the
/// same numbers as often, and none before a smaller one.
#[verifier::external_body]
fn sorted_pids(pids: Vec<PID>) -> (sorted: Vec<PID>)
    ensures
        sorted@.to_multiset() == pids@.to_multiset(),
        forall|i: int, j: int| 0 <= i < j < sorted@.len() ==> sorted@[i] <= sorted@[j],
{
    itertools::sorted(pids).collect()
}

/// Lists the PIDs of a table, each once, in the order in which the table
/// hands them out.
fn table_pids(table: &HashMap<PID, ProcessControlBlock>) -> (pids: Vec<PID>)
    ensures
        pids@.no_duplicates(),
        forall|pid: PID| #[trigger] pids@.contains(pid) <==> table@.contains_key(pid),
{
    let mut pids: Vec<PID> = Vec::new();
    let ghost all = table.keys().remaining();
    for pid in it: table.keys()
        invariant
            all == it.seq(),
            pids@ == all.unref().take(it.index()),
    {
        proof {
            assert(all.unref().take(it.index() + 1) =~= all.unref().take(it.index()).push(*pid));
        }
        pids.push(*pid);
    }
    proof {
        assert(pids@ =~= all.unref());
        assert forall|i: int, j: int| 0 <= i < pids@.len() && 0 <= j < pids@.len() && i
            != j implies pids@[i] != pids@[j] by {
            assert(all[i] != all[j]);
        }
        assert forall|pid: PID| #[trigger] pids@.contains(pid) <==> table@.contains_key(pid) by {
            assert(all.unref().to_set().contains(pid) <==> table@.dom().contains(pid));
        }
    }
    pids
}

impl OS {
    /// Reports the live processes at the current tick, in ascending order
    /// of PID.
    pub fn snapshot(&self) -> (report: Snapshot)
        ensures
            report@ == snapshot_of(self@),
    {
        let unordered = table_pids(&self.running_processes);
        let pids = sorted_pids(unordered);
        proof {
            unordered@.lemma_multiset_has_no_duplicates();
            pids@.lemma_multiset_has_no_duplicates_conv();
            assert forall|pid: PID| #[trigger]
                pids@.contains(pid) <==> self@.running_processes.dom().contains(pid) by {
                vstd::seq_lib::to_multiset_contains(pids@, pid);
                vstd::seq_lib::to_multiset_contains(unordered@, pid);
            }
            assert(lists(pids@, self@.running_processes.dom()));
            assert forall|k: int| 0 <= k < pids@.len() implies self.running_processes@.contains_key(
                pids@[k],
            ) by {
                assert(pids@.contains(pids@[k]));
            }
            lemma_lists_unique(
                pids@,
                in_order(self@.running_processes.dom()),
                self@.running_processes.dom(),
            );
        }
        let mut rows: Vec<ProcessInfo> = Vec::new();
        let mut i: usize = 0;
        while i < pids.len()
            invariant
                i <= pids.len(),
                forall|k: int| 0 <= k < pids@.len() ==> self.running_processes@.contains_key(pids@[k]),
                rows@.map_values(|row: ProcessInfo| row@) == pids@.take(i as int).map_values(
                    |pid: PID| row_of(self@.running_processes[pid]),
                ),
            decreases pids.len() - i,
        {
            let pcb = self.running_processes.get(&pids[i]).unwrap();
            let row = ProcessInfo {
                pid: pcb.pid,
                name: pcb.info.process_name.clone(),
                memory: pcb.memory_map,
                state: pcb.state,
            };
            proof {
                assert(pids@.take(i as int + 1) =~= pids@.take(i as int).push(pids@[i as int]));
                assert(rows@.push(row).map_values(|row: ProcessInfo| row@) =~= rows@.map_values(
                    |row: ProcessInfo| row@,
                ).push(row@));
                assert(pids@.take(i as int).push(pids@[i as int]).map_values(
                    |pid: PID| row_of(self@.running_processes[pid]),
                ) =~= pids@.take(i as int).map_values(
                    |pid: PID| row_of(self@.running_processes[pid]),
                ).push(row_of(self@.running_processes[pids@[i as int]])));
            }
            rows.push(row);
            i += 1;
        }
        proof {
            assert(pids@.take(i as int) =~= pids@);
        }
        Snapshot { time: self.master_clock, rows }
    }
}

} // verus!
