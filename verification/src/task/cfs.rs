//! Completely fair scheduling: always run the task with the lowest virtual
//! runtime.
//!
//! A step costs a task virtual runtime in inverse proportion to its weight, so
//! that heavier tasks run more often. A sleeper keeps its virtual runtime while
//! it is parked; when it wakes it is raised to the minimum of the others, so
//! that a long nap banks no lead.

use vstd::prelude::*;
use std::collections::VecDeque;
use super::ledger;
use super::scheduler;
use super::scheduler::{SchedState, Scheduler};
use super::{Task, TaskState, Yielded};
use crate::preempt::PreemptTable;

verus! {

/// Virtual runtime that one step costs a task of default weight.
pub const CFS_BASE_SLICE: u64 = 100;

/// Position of the awake task with the smallest virtual runtime among the first
/// `n`; the earliest of equals.
pub open spec fn least_awake(ready: Seq<Box<Task>>, now: u64, n: int) -> Option<int>
    decreases n,
{
    if n <= 0 {
        None
    } else {
        let before = least_awake(ready, now, n - 1);
        if !ready[n - 1].awake(now) {
            before
        } else {
            match before {
                Some(k) => if ready[n - 1].vruntime < ready[k].vruntime {
                    Some(n - 1)
                } else {
                    Some(k)
                },
                None => Some(n - 1),
            }
        }
    }
}

pub proof fn lemma_least_awake(ready: Seq<Box<Task>>, now: u64, n: int)
    requires
        0 <= n <= ready.len(),
    ensures
        match least_awake(ready, now, n) {
            Some(k) => {
                &&& 0 <= k < n
                &&& ready[k].awake(now)
                &&& forall|i: int|
                    0 <= i < n && (#[trigger] ready[i]).awake(now) ==> ready[k].vruntime
                        <= ready[i].vruntime
                &&& forall|i: int|
                    0 <= i < k && (#[trigger] ready[i]).awake(now) ==> ready[k].vruntime
                        < ready[i].vruntime
            },
            None => forall|i: int| 0 <= i < n ==> !(#[trigger] ready[i]).awake(now),
        },
    decreases n,
{
    if n > 0 {
        lemma_least_awake(ready, now, n - 1);
    }
}

/// Smallest virtual runtime of the first `n` tasks, asleep or not; 0 of none.
pub open spec fn floor_vruntime(ready: Seq<Box<Task>>, n: int) -> u64
    decreases n,
{
    if n <= 0 {
        0
    } else if n == 1 {
        ready[0].vruntime
    } else {
        let before = floor_vruntime(ready, n - 1);
        if ready[n - 1].vruntime < before {
            ready[n - 1].vruntime
        } else {
            before
        }
    }
}

pub proof fn lemma_floor_vruntime(ready: Seq<Box<Task>>, n: int)
    requires
        0 <= n <= ready.len(),
    ensures
        forall|i: int| 0 <= i < n ==> floor_vruntime(ready, n) <= (#[trigger] ready[i]).vruntime,
        n > 0 ==> exists|i: int|
            0 <= i < n && floor_vruntime(ready, n) == (#[trigger] ready[i]).vruntime,
    decreases n,
{
    if n == 1 {
        assert(floor_vruntime(ready, n) == ready[0].vruntime);
    } else if n > 1 {
        lemma_floor_vruntime(ready, n - 1);
        let i = choose|i: int|
            0 <= i < n - 1 && floor_vruntime(ready, n - 1) == (#[trigger] ready[i]).vruntime;
        assert(floor_vruntime(ready, n) == ready[i].vruntime || floor_vruntime(ready, n) == ready[n
            - 1].vruntime);
    }
}

/// Virtual runtime that one step costs a task of weight `weight`.
pub open spec fn slice(weight: u32) -> int {
    CFS_BASE_SLICE * 1024 / if weight == 0 {
        1
    } else {
        weight as int
    }
}

/// Virtual runtime after one step; it stops at the largest value.
pub open spec fn accrued(vruntime: u64, weight: u32) -> u64 {
    if vruntime + slice(weight) > u64::MAX {
        u64::MAX
    } else {
        (vruntime + slice(weight)) as u64
    }
}

/// Fair scheduler: a queue of tasks, in the order in which they came back.
pub struct Cfs {
    ready: VecDeque<Box<Task>>,
    finished_runs: Vec<(usize, String, u64)>,
    next_id: usize,
}

impl Cfs {
    /// An empty scheduler. Ids start at 1.
    pub fn new() -> (s: Self)
        ensures
            s.state() == (SchedState {
                ready: Seq::empty(),
                finished: Seq::empty(),
                next_id: 1,
            }),
    {
        Cfs { ready: VecDeque::new(), finished_runs: Vec::new(), next_id: 1 }
    }

    /// Position of the awake task with the smallest virtual runtime.
    fn pick_min(&self, now: u64) -> (pick: Option<usize>)
        ensures
            match pick {
                Some(k) => least_awake(self.ready@, now, self.ready@.len() as int) == Some(
                    k as int,
                ) && k < self.ready@.len(),
                None => least_awake(self.ready@, now, self.ready@.len() as int) is None,
            },
    {
        let mut best: Option<usize> = None;
        let mut i: usize = 0;
        while i < self.ready.len()
            invariant
                i <= self.ready@.len(),
                match best {
                    Some(k) => least_awake(self.ready@, now, i as int) == Some(k as int) && k < i,
                    None => least_awake(self.ready@, now, i as int) is None,
                },
            decreases self.ready@.len() - i,
        {
            let task = &self.ready[i];
            if task.is_awake(now) {
                match best {
                    None => {
                        best = Some(i);
                    },
                    Some(k) => {
                        if task.vruntime < self.ready[k].vruntime {
                            best = Some(i);
                        }
                    },
                }
            }
            i = i + 1;
        }
        best
    }

    /// Smallest virtual runtime of the queued tasks, sleepers included.
    fn min_vruntime(&self) -> (v: u64)
        ensures
            v == floor_vruntime(self.ready@, self.ready@.len() as int),
    {
        let len: usize = self.ready.len();
        if len == 0 {
            return 0;
        }
        let mut v: u64 = self.ready[0].vruntime;
        let mut i: usize = 1;
        while i < len
            invariant
                1 <= i <= len,
                len == self.ready@.len(),
                v == floor_vruntime(self.ready@, i as int),
            decreases len - i,
        {
            if self.ready[i].vruntime < v {
                v = self.ready[i].vruntime;
            }
            i = i + 1;
        }
        v
    }
}

impl Default for Cfs {
    fn default() -> (s: Self)
        ensures
            s.state() == (SchedState {
                ready: Seq::empty(),
                finished: Seq::empty(),
                next_id: 1,
            }),
    {
        Self::new()
    }
}

/// Charge a task for one step.
fn charge(task: &mut Task)
    ensures
        *final(task) == (Task {
            vruntime: accrued(old(task).vruntime, old(task).weight),
            ..*old(task)
        }),
{
    let weight: u64 = if task.weight == 0 {
        1
    } else {
        task.weight as u64
    };
    let cost: u64 = CFS_BASE_SLICE * 1024 / weight;
    task.vruntime = task.vruntime.saturating_add(cost);
}

impl Scheduler for Cfs {
    closed spec fn state(&self) -> SchedState {
        SchedState {
            ready: self.ready@,
            finished: self.finished_runs@,
            next_id: self.next_id as int,
        }
    }

    open spec fn admits(task: Task) -> bool {
        task.weight > 0
    }

    open spec fn picks(ready: Seq<Box<Task>>, now: u64) -> Option<int> {
        least_awake(ready, now, ready.len() as int)
    }

    open spec fn starts(ready: Seq<Box<Task>>, k: int) -> Task {
        let floor = floor_vruntime(ready.remove(k), ready.len() - 1);
        Task {
            state: TaskState::Running,
            vruntime: if ready[k].state is Sleeping && ready[k].vruntime < floor {
                floor
            } else {
                ready[k].vruntime
            },
            ..*ready[k]
        }
    }

    open spec fn rest(ready: Seq<Box<Task>>, k: int) -> Seq<Box<Task>> {
        ready.remove(k)
    }

    open spec fn origin(ready: Seq<Box<Task>>, k: int, i: int) -> int {
        if i < k {
            i
        } else {
            i + 1
        }
    }

    open spec fn charged(task: Task) -> Task {
        Task { vruntime: accrued(task.vruntime, task.weight), ..task }
    }

    proof fn policy_obligations(ready: Seq<Box<Task>>, now: u64, task: Task) {
        broadcast use vstd::seq_lib::group_to_multiset_ensures;

        lemma_least_awake(ready, now, ready.len() as int);
        if let Some(k) = Self::picks(ready, now) {
            assert forall|i: int| 0 <= i < ready.len() - 1 implies {
                let from = #[trigger] Self::origin(ready, k, i);
                &&& 0 <= from < ready.len()
                &&& from != k
                &&& Self::rest(ready, k)[i] == ready[from]
            } by {}
        }
    }

    fn spawn(&mut self, task: Task, table: &mut PreemptTable) {
        table.set_task_ptr(task.slot as usize, task.id);
        self.ready.push_back(Box::new(task));
    }

    fn next_id(&mut self) -> (id: usize) {
        let id: usize = self.next_id;
        self.next_id = self.next_id + 1;
        id
    }

    fn begin_step(&mut self, now: u64) -> (task: Option<Box<Task>>) {
        let k: usize = match self.pick_min(now) {
            Some(k) => k,
            None => {
                return None;
            },
        };
        let mut task: Box<Task> = match self.ready.remove(k) {
            Some(task) => task,
            None => {
                return None;
            },
        };
        if let TaskState::Sleeping { .. } = task.state {
            let floor: u64 = self.min_vruntime();
            if task.vruntime < floor {
                task.vruntime = floor;
            }
        }
        task.state = TaskState::Running;
        Some(task)
    }

    fn end_step(&mut self, task: Box<Task>, table: &mut PreemptTable) {
        let mut task = task;
        charge(&mut task);
        if task.state == TaskState::Ready {
            self.ready.push_back(task);
        } else {
            table.clear_task_ptr(task.slot as usize);
            table.unregister_task(task.slot as usize);
            let task = *task;
            self.finished_runs.push((task.id, task.name, task.runs));
        }
    }

    fn alive(&self) -> (n: usize) {
        self.ready.len()
    }

    fn ledger(&self) -> (out: Vec<(usize, String, u64)>) {
        ledger::snapshot(&self.ready, &self.finished_runs)
    }
}

/// Law: the task that runs has the smallest virtual runtime of all that are
/// awake, and of equals it is the one that came back first.
pub proof fn law_least_vruntime_runs(ready: Seq<Box<Task>>, now: u64, k: int)
    requires
        Cfs::picks(ready, now) == Some(k),
    ensures
        0 <= k < ready.len(),
        ready[k].awake(now),
        forall|i: int|
            0 <= i < ready.len() && (#[trigger] ready[i]).awake(now) ==> ready[k].vruntime
                <= ready[i].vruntime,
        forall|i: int|
            0 <= i < k && (#[trigger] ready[i]).awake(now) ==> ready[k].vruntime
                < ready[i].vruntime,
{
    lemma_least_awake(ready, now, ready.len() as int);
}

/// Law: the cost of a step falls with the weight. A task of default weight pays
/// exactly one base slice, one of twice the weight half as much.
pub proof fn law_slice(w1: u32, w2: u32)
    requires
        0 < w1 <= w2,
    ensures
        slice(super::CFS_DEFAULT_WEIGHT) == CFS_BASE_SLICE,
        slice(w2) <= slice(w1),
        w2 == 2 * w1 ==> slice(w2) == slice(w1) / 2,
{
    let a = CFS_BASE_SLICE * 1024;
    assert(slice(super::CFS_DEFAULT_WEIGHT) == 102_400int / 1024int);
    let x = w1 as int;
    let y = w2 as int;
    vstd::arithmetic::div_mod::lemma_div_is_ordered_by_denominator(a, x, y);
    if w2 == 2 * w1 {
        vstd::arithmetic::div_mod::lemma_div_denominator(a, x, 2);
        assert(x * 2 == y);
    }
}

/// Law: a woken sleeper starts at its own virtual runtime or at the minimum of
/// the others, whichever is larger. So it is never ahead of everybody by what it
/// slept, and whoever was not asleep starts where it stood.
pub proof fn law_nap_banks_no_lead(ready: Seq<Box<Task>>, k: int)
    requires
        0 <= k < ready.len(),
    ensures
        ({
            let start = Cfs::starts(ready, k).vruntime;
            let others = Cfs::rest(ready, k);
            &&& ready[k].state is Sleeping && others.len() > 0 ==> exists|i: int|
                0 <= i < others.len() && (#[trigger] others[i]).vruntime <= start
            &&& start != ready[k].vruntime ==> {
                &&& ready[k].state is Sleeping
                &&& ready[k].vruntime < start
                &&& forall|i: int|
                    0 <= i < others.len() ==> start <= (#[trigger] others[i]).vruntime
            }
        }),
{
    let others = ready.remove(k);
    lemma_floor_vruntime(others, others.len() as int);
    if others.len() > 0 {
        let i = choose|i: int|
            0 <= i < others.len() && floor_vruntime(others, others.len() as int) == (
            #[trigger] others[i]).vruntime;
        assert(others[i].vruntime <= Cfs::starts(ready, k).vruntime || !(
        ready[k].state is Sleeping));
    }
}

/// Law: the spread of virtual runtime stays bounded. If all queued tasks are
/// awake and lie within `c` of `low`, where no step costs more than `c`, then
/// after a step they lie within `c` of the runtime of the task that ran, which
/// is not below `low`.
pub proof fn law_spread_stays_bounded(
    s: SchedState,
    now: u64,
    end: Yielded,
    k: int,
    low: int,
    c: int,
)
    requires
        end.alive,
        Cfs::picks(s.ready, now) == Some(k),
        forall|i: int|
            0 <= i < s.ready.len() ==> {
                let t = #[trigger] s.ready[i];
                &&& !(t.state is Sleeping)
                &&& low <= t.vruntime <= low + c
                &&& slice(t.weight) <= c
            },
    ensures
        low <= s.ready[k].vruntime,
        forall|i: int|
            0 <= i < s.ready.len() ==> {
                let v = (#[trigger] scheduler::passed::<Cfs>(s, now, end).ready[i]).vruntime;
                s.ready[k].vruntime <= v <= s.ready[k].vruntime + c
            },
{
    lemma_least_awake(s.ready, now, s.ready.len() as int);
    let after = scheduler::passed::<Cfs>(s, now, end).ready;
    let v = s.ready[k].vruntime;
    lemma_slice_range(s.ready[k].weight);
    assert forall|i: int| 0 <= i < s.ready.len() implies v <= (#[trigger] after[i]).vruntime <= v
        + c by {
        if i < s.ready.len() - 1 {
            let from = Cfs::origin(s.ready, k, i);
            assert(after[i] == s.ready[from]);
            assert(s.ready[from].awake(now));
        }
    }
}

proof fn lemma_slice_range(weight: u32)
    ensures
        0 <= slice(weight) <= CFS_BASE_SLICE * 1024,
{
    let a = CFS_BASE_SLICE * 1024;
    let w = if weight == 0 {
        1int
    } else {
        weight as int
    };
    vstd::arithmetic::div_mod::lemma_div_pos_is_pos(a, w);
    vstd::arithmetic::div_mod::lemma_div_is_ordered_by_denominator(a, 1, w);
}

/// The task after one step that left `end` behind, charged for it.
pub open spec fn ran_once(t: Task, end: Yielded) -> Task {
    Cfs::charged(t.yielded(end))
}

proof fn lemma_equal_round(s: SchedState, now: u64, ends: Seq<Yielded>)
    requires
        ends.len() <= s.ready.len(),
        scheduler::all_alive(ends),
        forall|i: int|
            0 <= i < s.ready.len() ==> {
                let t = #[trigger] s.ready[i];
                &&& !(t.state is Sleeping)
                &&& t.vruntime == s.ready[0].vruntime
            },
    ensures
        scheduler::passes::<Cfs>(s, now, ends) == (SchedState {
            ready: s.ready.skip(ends.len() as int) + Seq::new(
                ends.len(),
                |i: int| Box::new(ran_once(*s.ready[i], ends[i])),
            ),
            ..s
        }),
    decreases ends.len(),
{
    let done = Seq::new(ends.len(), |i: int| Box::new(ran_once(*s.ready[i], ends[i])));
    if ends.len() == 0 {
        assert(s.ready =~= s.ready.skip(0) + done);
    } else {
        let fewer = ends.drop_last();
        let m = fewer.len() as int;
        scheduler::lemma_fewer_alive(ends);
        lemma_equal_round(s, now, fewer);
        let before = scheduler::passes::<Cfs>(s, now, fewer);
        let half = Seq::new(fewer.len(), |i: int| Box::new(ran_once(*s.ready[i], fewer[i])));
        let v = s.ready[0].vruntime;
        assert(before.ready[0] == s.ready[m]);
        assert forall|i: int| 0 <= i < before.ready.len() implies v <= (
        #[trigger] before.ready[i]).vruntime && before.ready[i].awake(now) by {
            if i < s.ready.len() - m {
                assert(before.ready[i] == s.ready[m + i]);
            } else {
                let j = i - (s.ready.len() - m);
                assert(before.ready[i] == half[j]);
                lemma_slice_range(s.ready[j].weight);
                assert(s.ready[j].vruntime == v);
                assert(fewer[j].alive);
            }
        }
        lemma_least_awake(before.ready, now, before.ready.len() as int);
        assert(before.ready[0].awake(now));
        assert(Cfs::picks(before.ready, now) == Some(0int));
        let after = scheduler::passed::<Cfs>(before, now, ends.last());
        assert(after.ready.last() == Box::new(ran_once(*s.ready[m], ends[m])));
        assert(after.ready =~= s.ready.skip(m + 1) + done);
    }
}

/// Law: with equal virtual runtimes a round is a round-robin round. Over `n`
/// tasks, none of them a sleeper, that all stay alive it runs each exactly once,
/// in queue order, and leaves the queue in its order. With equal weights the
/// virtual runtimes are equal again afterwards.
pub proof fn law_equal_tasks_take_turns(s: SchedState, now: u64, ends: Seq<Yielded>)
    requires
        ends.len() == s.ready.len(),
        scheduler::all_alive(ends),
        forall|i: int|
            0 <= i < s.ready.len() ==> {
                let t = #[trigger] s.ready[i];
                &&& !(t.state is Sleeping)
                &&& t.vruntime == s.ready[0].vruntime
            },
    ensures
        scheduler::passes::<Cfs>(s, now, ends) == (SchedState {
            ready: Seq::new(ends.len(), |i: int| Box::new(ran_once(*s.ready[i], ends[i]))),
            ..s
        }),
        forall|i: int, j: int|
            0 <= i < s.ready.len() && 0 <= j < s.ready.len() && s.ready[i].weight
                == s.ready[j].weight ==> ran_once(*#[trigger] s.ready[i], ends[i]).vruntime
                == ran_once(*#[trigger] s.ready[j], ends[j]).vruntime,
{
    lemma_equal_round(s, now, ends);
    let done = Seq::new(ends.len(), |i: int| Box::new(ran_once(*s.ready[i], ends[i])));
    assert(s.ready.skip(ends.len() as int) + done =~= done);
}

/// All queued tasks have paid for every run they had, at most `n` each, and
/// their virtual runtimes lie within `c` of `low`.
pub open spec fn balanced(ready: Seq<Box<Task>>, c: int, low: int, n: int) -> bool {
    forall|i: int|
        0 <= i < ready.len() ==> {
            let t = #[trigger] ready[i];
            &&& !(t.state is Sleeping)
            &&& slice(t.weight) <= c
            &&& t.vruntime == t.runs * slice(t.weight)
            &&& t.runs <= n
            &&& low <= t.vruntime <= low + c
        }
}

proof fn lemma_balance(s: SchedState, now: u64, ends: Seq<Yielded>, c: int) -> (low: int)
    requires
        scheduler::all_alive(ends),
        0 < c,
        (ends.len() + 1) * c <= u64::MAX,
        balanced(s.ready, c, 0, 0),
    ensures
        0 <= low <= ends.len() * c,
        scheduler::passes::<Cfs>(s, now, ends).ready.len() == s.ready.len(),
        balanced(scheduler::passes::<Cfs>(s, now, ends).ready, c, low, ends.len() as int),
    decreases ends.len(),
{
    if ends.len() == 0 {
        0
    } else {
        let fewer = ends.drop_last();
        scheduler::lemma_fewer_alive(ends);
        let n = ends.len();
        let m = fewer.len();
        assert((m + 1) * c <= (n + 1) * c && (n + 1) * c == n * c + c && n * c == m * c + c && n
            <= n * c) by (nonlinear_arith)
            requires
                0 < c,
                n == m + 1,
        ;
        let low = lemma_balance(s, now, fewer, c);
        let before = scheduler::passes::<Cfs>(s, now, fewer);
        let after = scheduler::passed::<Cfs>(before, now, ends.last());
        Cfs::policy_obligations(before.ready, now, *before.ready[0]);
        match Cfs::picks(before.ready, now) {
            None => {
                if before.ready.len() > 0 {
                    assert(before.ready[0].awake(now));
                }
                low
            },
            Some(k) => {
                law_spread_stays_bounded(before, now, ends.last(), k, low, c);
                let t = before.ready[k];
                let last = after.ready[after.ready.len() - 1];
                lemma_slice_range(t.weight);
                assert(last.vruntime == t.vruntime + slice(t.weight));
                assert((t.runs + 1) * slice(t.weight) == t.runs * slice(t.weight) + slice(
                    t.weight,
                )) by (nonlinear_arith);
                assert forall|i: int| 0 <= i < after.ready.len() implies {
                    let u = #[trigger] after.ready[i];
                    &&& !(u.state is Sleeping)
                    &&& slice(u.weight) <= c
                    &&& u.vruntime == u.runs * slice(u.weight)
                    &&& u.runs <= n
                    &&& t.vruntime <= u.vruntime <= t.vruntime + c
                } by {
                    if i < after.ready.len() - 1 {
                        let from = Cfs::origin(before.ready, k, i);
                        assert(after.ready[i] == before.ready[from]);
                    }
                }
                t.vruntime as int
            },
        }
    }
}

/// Law: processor time follows weight. Let tasks that are no sleepers start
/// together from nothing and stay alive; after any number of passes the runs of
/// any two of them, each counted at the cost of a step of that task, differ by
/// no more than the largest such cost.
pub proof fn law_share_follows_weight(
    s: SchedState,
    now: u64,
    ends: Seq<Yielded>,
    c: int,
    i: int,
    j: int,
)
    requires
        scheduler::all_alive(ends),
        0 < c,
        (ends.len() + 1) * c <= u64::MAX,
        forall|i: int|
            0 <= i < s.ready.len() ==> {
                let t = #[trigger] s.ready[i];
                &&& !(t.state is Sleeping)
                &&& slice(t.weight) <= c
                &&& t.vruntime == 0
                &&& t.runs == 0
            },
        0 <= i < s.ready.len(),
        0 <= j < s.ready.len(),
    ensures
        ({
            let after = scheduler::passes::<Cfs>(s, now, ends).ready;
            &&& after.len() == s.ready.len()
            &&& after[i].runs * slice(after[i].weight) <= after[j].runs * slice(after[j].weight) + c
        }),
{
    let low = lemma_balance(s, now, ends, c);
    let after = scheduler::passes::<Cfs>(s, now, ends).ready;
    assert(after[i].vruntime <= low + c);
    assert(low <= after[j].vruntime);
}

/// Law: what a step costs. A task pays a hundred units times 1024, divided by its
/// weight and rounded down, so that cost and weight make up the same product for
/// everybody; its virtual runtime grows by that, or stops at the largest value, and
/// nothing else of it changes.
pub proof fn law_cost_of_a_step(t: Task)
    requires
        t.weight > 0,
    ensures
        ({
            let cost = slice(t.weight);
            let after = Cfs::charged(t);
            &&& cost * t.weight <= 102_400 < (cost + 1) * t.weight
            &&& t.vruntime + cost <= u64::MAX ==> after.vruntime == t.vruntime + cost
            &&& t.vruntime + cost > u64::MAX ==> after.vruntime == u64::MAX
            &&& after == (Task { vruntime: after.vruntime, ..t })
        }),
        slice(0) == 102_400 && slice(1) == 102_400,
        slice(1024) == 100,
        slice(2048) == 50,
        super::CFS_DEFAULT_WEIGHT == 1024,
{
    let w = t.weight as int;
    let x = 102_400int;
    vstd::arithmetic::div_mod::lemma_fundamental_div_mod(x, w);
    vstd::arithmetic::div_mod::lemma_mod_bound(x, w);
    let q = x / w;
    assert(slice(t.weight) == q);
    assert(q * w <= x && x < (q + 1) * w) by (nonlinear_arith)
        requires
            x == w * q + x % w,
            0 <= x % w < w,
    ;
    assert(102_400int / 1024 == 100);
    assert(102_400int / 2048 == 50);
}

/// Law: a weightless task is refused, and a fresh scheduler is empty and hands out
/// the ids from one on.
pub proof fn law_fresh_fair_scheduler(t: Task, s: Cfs, default: Cfs)
    requires
        call_ensures(Cfs::new, (), s),
        call_ensures(Cfs::default, (), default),
    ensures
        default.state() == s.state(),
        Cfs::admits(t) <==> t.weight != 0,
        s.state().ready.len() == 0,
        s.state().finished.len() == 0,
        s.state().next_id == 1,
{
}

/// Law: the queue while a task runs is the queue without it: those in front of it
/// stay in front, those behind it behind. Whoever has nobody to catch up with starts
/// where it stood.
pub proof fn law_queue_closes_up(ready: Seq<Box<Task>>, k: int)
    requires
        0 <= k < ready.len(),
    ensures
        Cfs::rest(ready, k) == ready.subrange(0, k) + ready.subrange(k + 1, ready.len() as int),
        ready.len() == 1 ==> Cfs::starts(ready, k).vruntime == ready[k].vruntime,
{
    assert(Cfs::rest(ready, k) =~= ready.subrange(0, k) + ready.subrange(
        k + 1,
        ready.len() as int,
    ));
}

} // verus!
