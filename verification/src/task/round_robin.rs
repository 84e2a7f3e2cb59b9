//! Round-robin: whoever has waited longest runs next, one step each.

use vstd::prelude::*;
use std::collections::VecDeque;
use super::ledger;
use super::scheduler;
use super::scheduler::{SchedState, Scheduler};
use super::{Task, TaskState, Yielded};
use crate::preempt::PreemptTable;

verus! {

/// Position of the first awake task from `from` on, or the queue's length.
pub open spec fn first_awake(ready: Seq<Box<Task>>, now: u64, from: int) -> int
    decreases ready.len() - from,
{
    if from < 0 || from >= ready.len() {
        ready.len() as int
    } else if ready[from].awake(now) {
        from
    } else {
        first_awake(ready, now, from + 1)
    }
}

pub proof fn lemma_first_awake(ready: Seq<Box<Task>>, now: u64, from: int)
    requires
        0 <= from <= ready.len(),
    ensures
        from <= first_awake(ready, now, from) <= ready.len(),
        forall|i: int|
            from <= i < first_awake(ready, now, from) ==> !(#[trigger] ready[i]).awake(now),
        first_awake(ready, now, from) < ready.len() ==> ready[first_awake(
            ready,
            now,
            from,
        )].awake(now),
    decreases ready.len() - from,
{
    if from < ready.len() && !ready[from].awake(now) {
        lemma_first_awake(ready, now, from + 1);
    }
}

/// The queue with the task at `k` taken out: who stood behind it comes first,
/// who was passed over goes to the back.
pub open spec fn rotated(ready: Seq<Box<Task>>, k: int) -> Seq<Box<Task>> {
    ready.skip(k + 1) + ready.take(k)
}

pub proof fn lemma_rotated_multiset(ready: Seq<Box<Task>>, k: int)
    requires
        0 <= k < ready.len(),
    ensures
        rotated(ready, k).to_multiset() == ready.to_multiset().remove(ready[k]),
{
    broadcast use vstd::seq_lib::group_to_multiset_ensures;

    vstd::seq_lib::lemma_multiset_commutative(ready.skip(k + 1), ready.take(k));
    vstd::seq_lib::lemma_multiset_commutative(ready.take(k), ready.skip(k + 1));
    assert(ready.remove(k) =~= ready.take(k) + ready.skip(k + 1));
    assert(ready.take(k).to_multiset().add(ready.skip(k + 1).to_multiset()) =~= ready.skip(
        k + 1,
    ).to_multiset().add(ready.take(k).to_multiset()));
}

/// Round-robin scheduler: a queue of tasks, oldest first.
pub struct RoundRobin {
    ready: VecDeque<Box<Task>>,
    finished_runs: Vec<(usize, String, u64)>,
    next_id: usize,
}

impl RoundRobin {
    /// An empty scheduler. Ids start at 1.
    pub fn new() -> (s: Self)
        ensures
            s.state() == (SchedState {
                ready: Seq::empty(),
                finished: Seq::empty(),
                next_id: 1,
            }),
    {
        RoundRobin { ready: VecDeque::new(), finished_runs: Vec::new(), next_id: 1 }
    }
}

impl Default for RoundRobin {
    fn default() -> (s: Self)
        ensures
            s.state() == (SchedState {
                ready: Seq::empty(),
                finished: Seq::empty(),
                next_id: 1,
            }),
    {
        Self::new()
    }
}

impl Scheduler for RoundRobin {
    closed spec fn state(&self) -> SchedState {
        SchedState {
            ready: self.ready@,
            finished: self.finished_runs@,
            next_id: self.next_id as int,
        }
    }

    open spec fn admits(task: Task) -> bool {
        true
    }

    open spec fn picks(ready: Seq<Box<Task>>, now: u64) -> Option<int> {
        let k = first_awake(ready, now, 0);
        if k < ready.len() {
            Some(k)
        } else {
            None
        }
    }

    open spec fn starts(ready: Seq<Box<Task>>, k: int) -> Task {
        Task { state: TaskState::Running, ..*ready[k] }
    }

    open spec fn rest(ready: Seq<Box<Task>>, k: int) -> Seq<Box<Task>> {
        rotated(ready, k)
    }

    open spec fn origin(ready: Seq<Box<Task>>, k: int, i: int) -> int {
        if i < ready.len() - k - 1 {
            i + k + 1
        } else {
            i - (ready.len() - k - 1)
        }
    }

    open spec fn charged(task: Task) -> Task {
        task
    }

    proof fn policy_obligations(ready: Seq<Box<Task>>, now: u64, task: Task) {
        lemma_first_awake(ready, now, 0);
        let k = first_awake(ready, now, 0);
        if k < ready.len() {
            lemma_rotated_multiset(ready, k);
            assert forall|i: int| 0 <= i < ready.len() - 1 implies {
                let from = #[trigger] Self::origin(ready, k, i);
                &&& 0 <= from < ready.len()
                &&& from != k
                &&& Self::rest(ready, k)[i] == ready[from]
            } by {}
        }
    }

    fn spawn(&mut self, task: Task, table: &mut PreemptTable) {
        table.set_task_ptr(task.slot as usize, task.id);
        self.ready.push_back(Box::new(task));
    }

    fn next_id(&mut self) -> (id: usize) {
        let id: usize = self.next_id;
        self.next_id = self.next_id + 1;
        id
    }

    fn begin_step(&mut self, now: u64) -> (task: Option<Box<Task>>) {
        let len: usize = self.ready.len();
        let ghost ready = self.ready@;
        proof {
            lemma_first_awake(ready, now, 0);
        }
        let mut passed: usize = 0;
        while passed < len
            invariant
                passed <= len,
                ready == old(self).ready@,
                len == ready.len(),
                self.ready@ == ready.skip(passed as int) + ready.take(passed as int),
                self.finished_runs == old(self).finished_runs,
                self.next_id == old(self).next_id,
                first_awake(ready, now, 0) == first_awake(ready, now, passed as int),
            decreases len - passed,
        {
            let ghost before = self.ready@;
            assert(before[0] == ready[passed as int]);
            let mut task: Box<Task> = match self.ready.pop_front() {
                Some(task) => task,
                None => {
                    return None;
                },
            };
            if !task.is_awake(now) {
                self.ready.push_back(task);
                passed = passed + 1;
                assert(self.ready@ =~= ready.skip(passed as int) + ready.take(passed as int));
                continue ;
            }
            assert(self.ready@ =~= rotated(ready, passed as int));
            task.state = TaskState::Running;
            return Some(task);
        }
        assert(self.ready@ =~= ready);
        None
    }

    fn end_step(&mut self, task: Box<Task>, table: &mut PreemptTable) {
        if task.state == TaskState::Ready {
            self.ready.push_back(task);
        } else {
            table.clear_task_ptr(task.slot as usize);
            table.unregister_task(task.slot as usize);
            let task = *task;
            self.finished_runs.push((task.id, task.name, task.runs));
        }
    }

    fn alive(&self) -> (n: usize) {
        self.ready.len()
    }

    fn ledger(&self) -> (out: Vec<(usize, String, u64)>) {
        ledger::snapshot(&self.ready, &self.finished_runs)
    }
}

/// Law: first in, first out. The task that runs is the one that has waited
/// longest among those that are awake, and those passed over keep their order.
pub proof fn law_longest_waiting_runs(ready: Seq<Box<Task>>, now: u64, k: int)
    requires
        RoundRobin::picks(ready, now) == Some(k),
    ensures
        0 <= k < ready.len(),
        ready[k].awake(now),
        forall|i: int| 0 <= i < k ==> !(#[trigger] ready[i]).awake(now),
        RoundRobin::rest(ready, k) == ready.subrange(k + 1, ready.len() as int) + ready.subrange(
            0,
            k,
        ),
{
    lemma_first_awake(ready, now, 0);
}

proof fn lemma_round(s: SchedState, now: u64, ends: Seq<Yielded>)
    requires
        ends.len() <= s.ready.len(),
        scheduler::all_alive(ends),
        forall|i: int| 0 <= i < s.ready.len() ==> (#[trigger] s.ready[i]).awake(now),
    ensures
        scheduler::passes::<RoundRobin>(s, now, ends) == (SchedState {
            ready: s.ready.skip(ends.len() as int) + Seq::new(
                ends.len(),
                |i: int| Box::new(s.ready[i].yielded(ends[i])),
            ),
            ..s
        }),
    decreases ends.len(),
{
    let done = Seq::new(ends.len(), |i: int| Box::new(s.ready[i].yielded(ends[i])));
    if ends.len() == 0 {
        assert(s.ready =~= s.ready.skip(0) + done);
    } else {
        let fewer = ends.drop_last();
        let m = fewer.len() as int;
        scheduler::lemma_fewer_alive(ends);
        lemma_round(s, now, fewer);
        let before = scheduler::passes::<RoundRobin>(s, now, fewer);
        assert(before.ready[0] == s.ready[m]);
        assert(before.ready[0].awake(now));
        assert(RoundRobin::picks(before.ready, now) == Some(0int));
        let after = scheduler::passed::<RoundRobin>(before, now, ends.last());
        assert(after.ready.last() == Box::new(s.ready[m].yielded(ends[m])));
        assert(after.ready =~= s.ready.skip(m + 1) + done);
    }
}

/// Law: a round over `n` awake tasks that all stay alive runs each exactly once
/// and leaves the queue in its order. Nobody starves.
pub proof fn law_round_runs_each_once(s: SchedState, now: u64, ends: Seq<Yielded>)
    requires
        ends.len() == s.ready.len(),
        scheduler::all_alive(ends),
        forall|i: int| 0 <= i < s.ready.len() ==> (#[trigger] s.ready[i]).awake(now),
    ensures
        scheduler::passes::<RoundRobin>(s, now, ends) == (SchedState {
            ready: Seq::new(ends.len(), |i: int| Box::new(s.ready[i].yielded(ends[i]))),
            ..s
        }),
{
    lemma_round(s, now, ends);
    let done = Seq::new(ends.len(), |i: int| Box::new(s.ready[i].yielded(ends[i])));
    assert(s.ready.skip(ends.len() as int) + done =~= done);
}

/// The first `k` tasks of the queue have `c` runs each, the others one more.
pub open spec fn staggered(ready: Seq<Box<Task>>, now: u64, c: int, k: int) -> bool {
    forall|i: int|
        0 <= i < ready.len() ==> {
            let t = #[trigger] ready[i];
            &&& t.awake(now)
            &&& t.runs == if i < k {
                c
            } else {
                c + 1
            }
        }
}

proof fn lemma_staggered(s: SchedState, now: u64, ends: Seq<Yielded>, c: int) -> (r: (int, int))
    requires
        scheduler::all_alive(ends),
        s.ready.len() > 0,
        staggered(s.ready, now, c, s.ready.len() as int),
        0 <= c,
        c + ends.len() <= u64::MAX,
    ensures
        ({
            let after = scheduler::passes::<RoundRobin>(s, now, ends).ready;
            &&& after.len() == s.ready.len()
            &&& 0 < r.1 <= after.len()
            &&& c <= r.0 <= c + ends.len()
            &&& r.0 == c + ends.len() ==> r.1 == after.len()
            &&& staggered(after, now, r.0, r.1)
        }),
    decreases ends.len(),
{
    if ends.len() == 0 {
        (c, s.ready.len() as int)
    } else {
        let fewer = ends.drop_last();
        scheduler::lemma_fewer_alive(ends);
        let (d, k) = lemma_staggered(s, now, fewer, c);
        let before = scheduler::passes::<RoundRobin>(s, now, fewer);
        let after = scheduler::passed::<RoundRobin>(before, now, ends.last());
        assert(before.ready[0].awake(now));
        assert(RoundRobin::picks(before.ready, now) == Some(0int));
        let (e, j) = if k == 1 {
            (d + 1, after.ready.len() as int)
        } else {
            (d, k - 1)
        };
        assert forall|i: int| 0 <= i < after.ready.len() implies {
            let t = #[trigger] after.ready[i];
            &&& t.awake(now)
            &&& t.runs == if i < j {
                e
            } else {
                e + 1
            }
        } by {
            if i < after.ready.len() - 1 {
                assert(after.ready[i] == before.ready[i + 1]);
            }
        }
        (e, j)
    }
}

/// Law: fairness at every moment. Let awake tasks with equal run counts stay
/// alive; after any number of passes the counts of any two differ by at most
/// one.
pub proof fn law_runs_differ_by_at_most_one(
    s: SchedState,
    now: u64,
    ends: Seq<Yielded>,
    c: int,
    i: int,
    j: int,
)
    requires
        scheduler::all_alive(ends),
        0 <= c,
        c + ends.len() <= u64::MAX,
        forall|i: int|
            0 <= i < s.ready.len() ==> (#[trigger] s.ready[i]).awake(now) && s.ready[i].runs == c,
        0 <= i < s.ready.len(),
        0 <= j < s.ready.len(),
    ensures
        ({
            let after = scheduler::passes::<RoundRobin>(s, now, ends).ready;
            &&& after.len() == s.ready.len()
            &&& after[i].runs <= after[j].runs + 1
        }),
{
    let (d, k) = lemma_staggered(s, now, ends, c);
}

/// Law: a fresh scheduler is empty and hands out the ids from one on; it turns
/// nobody away.
pub proof fn law_fresh_round_robin(t: Task, s: RoundRobin, default: RoundRobin)
    requires
        call_ensures(RoundRobin::new, (), s),
        call_ensures(RoundRobin::default, (), default),
    ensures
        default.state() == s.state(),
        RoundRobin::admits(t),
        s.state().ready.len() == 0,
        s.state().finished.len() == 0,
        s.state().next_id == 1,
{
}

/// Law: round-robin has no favourites. Which task is next depends on who is awake
/// and on nothing else of a task, and a step is charged to nobody.
pub proof fn law_no_favourites(a: Seq<Box<Task>>, b: Seq<Box<Task>>, now: u64, t: Task)
    requires
        a.len() == b.len(),
        forall|i: int| 0 <= i < a.len() ==> (#[trigger] a[i]).awake(now) == b[i].awake(now),
    ensures
        RoundRobin::picks(a, now) == RoundRobin::picks(b, now),
        RoundRobin::charged(t) == t,
{
    lemma_first_awake(a, now, 0);
    lemma_first_awake(b, now, 0);
    let i = first_awake(a, now, 0);
    let j = first_awake(b, now, 0);
    if i < j {
        assert(a[i].awake(now) == b[i].awake(now));
    } else if j < i {
        assert(a[j].awake(now) == b[j].awake(now));
    }
}

} // verus!
