//! Queues of PIDs as sequences: what it is to take a process out of one, and
//! the facts about membership that the engine's invariant rests on.
use crate::os::structures::PID;
use std::collections::VecDeque;
use vstd::prelude::*;

verus! {

/// The place of the first `pid` in `queue`; the length of `queue` where
/// there is none.
pub open spec fn position(queue: Seq<PID>, pid: PID) -> int
    decreases queue.len(),
{
    if queue.len() == 0 {
        0
    } else if queue[0] == pid {
        0
    } else {
        1 + position(queue.drop_first(), pid)
    }
}

/// `queue` without its first `pid`; `queue` itself where there is none.
pub open spec fn without(queue: Seq<PID>, pid: PID) -> Seq<PID> {
    if queue.contains(pid) {
        queue.remove(position(queue, pid))
    } else {
        queue
    }
}

/// `position` gives the first place at which `pid` stands.
pub proof fn lemma_position(queue: Seq<PID>, pid: PID)
    ensures
        0 <= position(queue, pid) <= queue.len(),
        forall|i: int| 0 <= i < position(queue, pid) ==> queue[i] != pid,
        position(queue, pid) < queue.len() ==> queue[position(queue, pid)] == pid,
        position(queue, pid) < queue.len() <==> queue.contains(pid),
    decreases queue.len(),
{
    if queue.len() == 0 {
    } else if queue[0] == pid {
        assert(queue.contains(pid));
    } else {
        let rest = queue.drop_first();
        lemma_position(rest, pid);
        let at = position(rest, pid);
        assert forall|i: int| 0 <= i < 1 + at implies queue[i] != pid by {
            if i > 0 {
                assert(queue[i] == rest[i - 1]);
            }
        }
        if at < rest.len() {
            assert(queue[1 + at] == rest[at]);
            assert(queue.contains(pid));
        }
        if queue.contains(pid) {
            let i = choose|i: int| 0 <= i < queue.len() && queue[i] == pid;
            assert(rest[i - 1] == pid);
            assert(rest.contains(pid));
        }
    }
}

/// Who is in a queue after a process joined it at the back: whoever was,
/// and that process.
pub proof fn lemma_push_contains(queue: Seq<PID>, pid: PID)
    ensures
        forall|other: PID| #[trigger]
            queue.push(pid).contains(other) <==> (queue.contains(other) || other == pid),
{
    let longer = queue.push(pid);
    assert forall|other: PID| #[trigger]
        longer.contains(other) <==> (queue.contains(other) || other == pid) by {
        if queue.contains(other) {
            let i = choose|i: int| 0 <= i < queue.len() && queue[i] == other;
            assert(longer[i] == other);
        }
        if other == pid {
            assert(longer[queue.len() as int] == other);
        }
        if longer.contains(other) {
            let i = choose|i: int| 0 <= i < longer.len() && longer[i] == other;
            if i < queue.len() {
                assert(queue[i] == other);
            }
        }
    }
}

/// A queue without repetition stays so when a process that is not in it
/// joins.
pub proof fn lemma_push_no_duplicates(queue: Seq<PID>, pid: PID)
    requires
        queue.no_duplicates(),
        !queue.contains(pid),
    ensures
        queue.push(pid).no_duplicates(),
{
    let longer = queue.push(pid);
    assert forall|i: int, j: int| 0 <= i < longer.len() && 0 <= j < longer.len() && i != j implies longer[i]
        != longer[j] by {
        if i < queue.len() {
            assert(queue.contains(queue[i]));
        }
        if j < queue.len() {
            assert(queue.contains(queue[j]));
        }
    }
}

/// Who is in a queue without repetition after `pid` left it: everyone else.
pub proof fn lemma_without(queue: Seq<PID>, pid: PID)
    requires
        queue.no_duplicates(),
    ensures
        without(queue, pid).no_duplicates(),
        !without(queue, pid).contains(pid),
        forall|other: PID|
            other != pid ==> (#[trigger] without(queue, pid).contains(other) <==> queue.contains(
                other,
            )),
{
    lemma_position(queue, pid);
    let at = position(queue, pid);
    let shorter = without(queue, pid);
    if queue.contains(pid) {
        assert forall|i: int, j: int|
            0 <= i < shorter.len() && 0 <= j < shorter.len() && i != j implies shorter[i]
            != shorter[j] by {
            let a = if i < at {
                i
            } else {
                i + 1
            };
            let b = if j < at {
                j
            } else {
                j + 1
            };
            assert(shorter[i] == queue[a] && shorter[j] == queue[b]);
        }
        if shorter.contains(pid) {
            let i = choose|i: int| 0 <= i < shorter.len() && shorter[i] == pid;
            let a = if i < at {
                i
            } else {
                i + 1
            };
            assert(shorter[i] == queue[a]);
        }
        assert forall|other: PID| other != pid implies (#[trigger] shorter.contains(other)
            <==> queue.contains(other)) by {
            if shorter.contains(other) {
                let i = choose|i: int| 0 <= i < shorter.len() && shorter[i] == other;
                let a = if i < at {
                    i
                } else {
                    i + 1
                };
                assert(queue[a] == other);
            }
            if queue.contains(other) {
                let a = choose|a: int| 0 <= a < queue.len() && queue[a] == other;
                let i = if a < at {
                    a
                } else {
                    a - 1
                };
                assert(shorter[i] == other);
            }
        }
    }
}

/// Who is in a queue without repetition after its first process left it.
pub proof fn lemma_drop_first(queue: Seq<PID>)
    requires
        queue.no_duplicates(),
        queue.len() > 0,
    ensures
        queue.drop_first().no_duplicates(),
        !queue.drop_first().contains(queue[0]),
        forall|other: PID|
            other != queue[0] ==> (#[trigger] queue.drop_first().contains(other)
                <==> queue.contains(other)),
{
    assert(queue.drop_first() =~= without(queue, queue[0]));
    lemma_without(queue, queue[0]);
}

/// Takes the first `pid` out of `queue`, if there is one.
pub fn remove_pid(queue: &mut VecDeque<PID>, pid: PID)
    ensures
        final(queue)@ == without(old(queue)@, pid),
{
    proof {
        lemma_position(queue@, pid);
    }
    let mut i: usize = 0;
    while i < queue.len()
        invariant
            i <= queue@.len(),
            queue@ == old(queue)@,
            forall|k: int| 0 <= k < i ==> queue@[k] != pid,
        decreases queue@.len() - i,
    {
        if queue[i] == pid {
            proof {
                lemma_position(queue@, pid);
                assert(queue@.contains(pid));
                let at = position(queue@, pid);
                if at < i {
                    assert(queue@[at] == pid);
                } else if at > i {
                }
            }
            queue.remove(i);
            return ;
        }
        i += 1;
    }
    proof {
        if queue@.contains(pid) {
            let k = choose|k: int| 0 <= k < queue@.len() && queue@[k] == pid;
            assert(queue@[k] != pid);
        }
    }
}

} // verus!
