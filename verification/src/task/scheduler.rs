//! The scheduler contract: one interface, any policy.
//!
//! A policy says which queued task runs next, how it starts, and what a step
//! costs it. Everything else is common: a step runs exactly one task, a task
//! that stays alive goes to the back of the queue, and one that finishes gives
//! up its slot before its memory goes.

use vstd::prelude::*;
use super::ledger;
use super::{enter_task, finish_step, leave_task, start_step, Task, TaskState, Yielded};
use crate::preempt;
use crate::preempt::{IrqSnapshot, PreemptTable, MAX_TASKS};

verus! {

/// What a scheduler holds.
#[verifier::ext_equal]
pub ghost struct SchedState {
    /// The queue, oldest first.
    pub ready: Seq<Box<Task>>,
    /// Ledger entries of the finished tasks.
    pub finished: Seq<(usize, String, u64)>,
    /// The id to be handed out next.
    pub next_id: int,
}

impl SchedState {
    /// The books after a task came back from its step.
    pub open spec fn returned(self, task: Task) -> SchedState {
        if task.state == TaskState::Ready {
            SchedState { ready: self.ready.push(Box::new(task)), ..self }
        } else {
            SchedState { finished: self.finished.push(ledger::entry_of(task)), ..self }
        }
    }
}

/// The preempt table after a task came back from its step: a task that is not
/// ready gives up its slot.
pub open spec fn released(table: preempt::TableState, task: Task) -> preempt::TableState {
    if task.state == TaskState::Ready {
        table
    } else {
        table.owned(task.slot as int, None).unregistered(task.slot as int)
    }
}

/// The preempt table with the driver back in charge: no slot is current, and
/// the fence is down.
pub open spec fn driver_table(table: preempt::TableState) -> preempt::TableState {
    preempt::TableState { current: MAX_TASKS as int, preemptible: false, ..table }
}

/// The preempt table while the task in slot `slot` is in its step: the slot is
/// current, and the fence is up.
pub open spec fn running_table(table: preempt::TableState, slot: int) -> preempt::TableState {
    preempt::TableState { current: slot, preemptible: true, ..table }
}

/// The preempt table after a step of the task in slot `slot` that the timer
/// interrupted as `irqs` tells.
pub open spec fn stepped_table(
    table: preempt::TableState,
    slot: int,
    irqs: Seq<IrqSnapshot>,
) -> preempt::TableState {
    driver_table(preempt::after_irqs(running_table(table, slot), irqs))
}

/// All interrupts hit on the stack of the task in slot `slot`.
pub open spec fn all_fit(
    table: preempt::TableState,
    slot: int,
    irqs: Seq<IrqSnapshot>,
) -> bool {
    forall|i: int|
        0 <= i < irqs.len() ==> (#[trigger] irqs[i]).fits(
            table.bounds[slot].0,
            table.bounds[slot].1,
        )
}

/// A queued task that can be given a step: it is whole, the run counter has
/// room, and the frame in its slot validates.
pub open spec fn steppable(t: Task, table: preempt::TableState) -> bool {
    &&& t.well_formed()
    &&& t.runs < u64::MAX
    &&& table.frame_ok(t.slot as int)
}

/// The scheduler contract.
pub trait Scheduler: Sized {
    /// What the scheduler holds.
    spec fn state(&self) -> SchedState;

    /// Which tasks the policy accepts.
    spec fn admits(task: Task) -> bool;

    /// Position of the task that runs next at tick `now`, if any may run.
    spec fn picks(ready: Seq<Box<Task>>, now: u64) -> Option<int>;

    /// The task at position `k` as it is when its step starts.
    spec fn starts(ready: Seq<Box<Task>>, k: int) -> Task;

    /// The queue while the task at position `k` runs.
    spec fn rest(ready: Seq<Box<Task>>, k: int) -> Seq<Box<Task>>;

    /// Where the task at position `i` of that queue stood before.
    spec fn origin(ready: Seq<Box<Task>>, k: int, i: int) -> int;

    /// The task after the policy charged it for a step.
    spec fn charged(task: Task) -> Task;

    /// What a policy owes: the position it picks is in the queue and its task is
    /// awake, and it passes over a queue only when all of it is asleep; what
    /// starts is the task itself, running; the others stay queued, untouched and
    /// each once; what is charged keeps everything but its virtual runtime.
    proof fn policy_obligations(ready: Seq<Box<Task>>, now: u64, task: Task)
        ensures
            match Self::picks(ready, now) {
                Some(k) => {
                    &&& 0 <= k < ready.len()
                    &&& ready[k].awake(now)
                    &&& Self::starts(ready, k) == (Task {
                        state: TaskState::Running,
                        vruntime: Self::starts(ready, k).vruntime,
                        ..*ready[k]
                    })
                    &&& Self::rest(ready, k).to_multiset() == ready.to_multiset().remove(ready[k])
                    &&& Self::rest(ready, k).len() == ready.len() - 1
                    &&& forall|i: int|
                        0 <= i < ready.len() - 1 ==> {
                            let from = #[trigger] Self::origin(ready, k, i);
                            &&& 0 <= from < ready.len()
                            &&& from != k
                            &&& Self::rest(ready, k)[i] == ready[from]
                        }
                    &&& forall|i: int, j: int|
                        0 <= i < j < ready.len() - 1 ==> #[trigger] Self::origin(ready, k, i)
                            != #[trigger] Self::origin(ready, k, j)
                },
                None => forall|i: int|
                    0 <= i < ready.len() ==> !(#[trigger] ready[i]).awake(now),
            },
            Self::charged(task) == (Task { vruntime: Self::charged(task).vruntime, ..task }),
    ;

    /// Add a task to the queue and name it as the owner of its slot.
    fn spawn(&mut self, task: Task, table: &mut PreemptTable)
        requires
            Self::admits(task),
            task.slot < MAX_TASKS,
            old(table)@.well_formed(),
        ensures
            final(self).state() == (SchedState {
                ready: old(self).state().ready.push(Box::new(task)),
                ..old(self).state()
            }),
            final(table)@.well_formed(),
            final(table)@ == old(table)@.owned(task.slot as int, Some(task.id)),
    ;

    /// Hand out the next task id.
    fn next_id(&mut self) -> (id: usize)
        requires
            old(self).state().next_id < usize::MAX,
        ensures
            id == old(self).state().next_id,
            final(self).state() == (SchedState {
                next_id: old(self).state().next_id + 1,
                ..old(self).state()
            }),
    ;

    /// Take the next task out of the queue, ready to be switched to. `None`
    /// when nobody is awake; the queue is then as it was.
    fn begin_step(&mut self, now: u64) -> (task: Option<Box<Task>>)
        ensures
            match Self::picks(old(self).state().ready, now) {
                Some(k) => {
                    &&& task == Some(Box::new(Self::starts(old(self).state().ready, k)))
                    &&& final(self).state() == (SchedState {
                        ready: Self::rest(old(self).state().ready, k),
                        ..old(self).state()
                    })
                },
                None => task is None && final(self).state() == old(self).state(),
            },
    ;

    /// Take a task back after its step: charge it, then queue it again or
    /// release its slot and enter it in the ledger. Both the frame template of
    /// the task and the frame in its slot must still validate.
    fn end_step(&mut self, task: Box<Task>, table: &mut PreemptTable)
        requires
            task.slot < MAX_TASKS,
            task.preempt.resumable(task.stack.bottom as int, task.stack.top as int),
            old(table)@.well_formed(),
            old(table)@.frame_ok(task.slot as int),
        ensures
            final(self).state() == old(self).state().returned(Self::charged(*task)),
            final(table)@.well_formed(),
            final(table)@ == released(old(table)@, *task),
    ;

    /// How many tasks are still alive.
    fn alive(&self) -> (n: usize)
        ensures
            n == self.state().ready.len(),
    ;

    /// Snapshot of (id, name, runs) of every task, ordered by id.
    fn ledger(&self) -> (out: Vec<(usize, String, u64)>)
        ensures
            ledger::sorted_from(
                out@,
                ledger::all_entries(self.state().ready, self.state().finished),
            ),
    ;

    /// Run the next task once. `end` is what its step leaves behind, and `irqs`
    /// are the timer interrupts that hit the step: each saves into the slot of
    /// the task, on whose stack it hit. `false` when nobody is awake: the caller
    /// waits for the next tick.
    fn schedule_once(
        &mut self,
        now: u64,
        end: Yielded,
        irqs: &Vec<IrqSnapshot>,
        table: &mut PreemptTable,
    ) -> (ran: bool)
        requires
            old(table)@.well_formed(),
            Self::picks(old(self).state().ready, now) matches Some(k) ==> {
                let task = *old(self).state().ready[k];
                &&& steppable(task, old(table)@)
                &&& end.fits(task)
                &&& all_fit(old(table)@, task.slot as int, irqs@)
            },
        ensures
            final(table)@.well_formed(),
            match Self::picks(old(self).state().ready, now) {
                Some(k) => {
                    let task = Self::starts(old(self).state().ready, k).yielded(end);
                    &&& ran
                    &&& final(self).state() == (SchedState {
                        ready: Self::rest(old(self).state().ready, k),
                        ..old(self).state()
                    }).returned(Self::charged(task))
                    &&& final(table)@ == released(
                        stepped_table(old(table)@, task.slot as int, irqs@),
                        task,
                    )
                },
                None => {
                    &&& !ran
                    &&& final(self).state() == old(self).state()
                    &&& final(table)@ == old(table)@
                },
            },
    {
        let ghost ready = self.state().ready;
        let ghost k = Self::picks(ready, now)->0;
        proof {
            Self::policy_obligations(ready, now, Self::starts(ready, k));
        }
        match self.begin_step(now) {
            None => false,
            Some(mut task) => {
                enter_task(table, &task);
                start_step(table, &task);
                let ghost running = running_table(old(table)@, task.slot as int);
                let mut i: usize = 0;
                while i < irqs.len()
                    invariant
                        i <= irqs@.len(),
                        running.well_formed(),
                        all_fit(running, running.current, irqs@),
                        table@.well_formed(),
                        table@ == preempt::after_irqs(running, irqs@.take(i as int)),
                    decreases irqs@.len() - i,
                {
                    preempt::lapic_preempt_stub(table, &irqs[i]);
                    assert(irqs@.take(i + 1).drop_last() =~= irqs@.take(i as int));
                    i = i + 1;
                }
                proof {
                    assert(irqs@.take(i as int) =~= irqs@);
                    preempt::lemma_after_irqs(running, irqs@);
                }
                let Yielded { alive, backing, ctx } = end;
                task.stack.backing = backing;
                finish_step(table, &mut task, alive);
                task.ctx = ctx;
                leave_task(table);
                self.end_step(task, table);
                true
            },
        }
    }
}

// ---------------------------------------------------------------------------
// Laws of every policy
// ---------------------------------------------------------------------------
/// The books after one pass at tick `now` whose step, if any, leaves `end` behind.
pub open spec fn passed<S: Scheduler>(s: SchedState, now: u64, end: Yielded) -> SchedState {
    match S::picks(s.ready, now) {
        Some(k) => SchedState { ready: S::rest(s.ready, k), ..s }.returned(
            S::charged(S::starts(s.ready, k).yielded(end)),
        ),
        None => s,
    }
}

/// The preempt table after that pass, if its step was interrupted as `irqs`
/// tells.
pub open spec fn passed_table<S: Scheduler>(
    s: SchedState,
    table: preempt::TableState,
    now: u64,
    end: Yielded,
    irqs: Seq<IrqSnapshot>,
) -> preempt::TableState {
    match S::picks(s.ready, now) {
        Some(k) => released(
            stepped_table(table, s.ready[k].slot as int, irqs),
            S::starts(s.ready, k).yielded(end),
        ),
        None => table,
    }
}

/// The interrupts of a pass hit on the stack of the task that it runs.
pub open spec fn pass_fits<S: Scheduler>(
    s: SchedState,
    table: preempt::TableState,
    now: u64,
    irqs: Seq<IrqSnapshot>,
) -> bool {
    S::picks(s.ready, now) matches Some(k) ==> all_fit(table, s.ready[k].slot as int, irqs)
}

/// The books after a series of passes at tick `now`, whose steps leave `ends`
/// behind.
pub open spec fn passes<S: Scheduler>(s: SchedState, now: u64, ends: Seq<Yielded>) -> SchedState
    decreases ends.len(),
{
    if ends.len() == 0 {
        s
    } else {
        passed::<S>(passes::<S>(s, now, ends.drop_last()), now, ends.last())
    }
}

/// Every step says that its task wants to run again.
pub open spec fn all_alive(ends: Seq<Yielded>) -> bool {
    forall|i: int| 0 <= i < ends.len() ==> (#[trigger] ends[i]).alive
}

pub proof fn lemma_fewer_alive(ends: Seq<Yielded>)
    requires
        ends.len() > 0,
        all_alive(ends),
    ensures
        all_alive(ends.drop_last()),
        ends.last().alive,
{
    assert forall|i: int| 0 <= i < ends.len() - 1 implies (
    #[trigger] ends.drop_last()[i]).alive by {
        assert(ends.drop_last()[i] == ends[i]);
    }
    assert(ends[ends.len() - 1].alive);
}

/// Every queued task lives in a slot of its own: the table names it as the
/// owner, and the frame in the slot validates.
pub open spec fn housed(ready: Seq<Box<Task>>, table: preempt::TableState) -> bool {
    &&& forall|i: int|
        0 <= i < ready.len() ==> {
            let slot = (#[trigger] ready[i]).slot as int;
            &&& table.frame_ok(slot)
            &&& table.owners[slot] == Some(ready[i].id)
        }
    &&& forall|i: int, j: int|
        0 <= i < j < ready.len() ==> (#[trigger] ready[i]).slot != (#[trigger] ready[j]).slot
}

/// Law: a sleeping task is never dispatched before its tick.
pub proof fn law_sleepers_wait<S: Scheduler>(
    ready: Seq<Box<Task>>,
    now: u64,
    i: int,
    until_tick: u64,
)
    requires
        0 <= i < ready.len(),
        ready[i].state == (TaskState::Sleeping { until_tick }),
        now < until_tick,
    ensures
        S::picks(ready, now) != Some(i),
{
    S::policy_obligations(ready, now, *ready[i]);
}

/// Law: a pass runs a task exactly if somebody is awake, so the caller may wait
/// for the next tick whenever a pass ran nobody.
pub proof fn law_work_conserving<S: Scheduler>(ready: Seq<Box<Task>>, now: u64)
    ensures
        S::picks(ready, now) is Some <==> exists|i: int|
            0 <= i < ready.len() && (#[trigger] ready[i]).awake(now),
{
    S::policy_obligations(ready, now, *ready[0]);
    if let Some(k) = S::picks(ready, now) {
        assert(ready[k].awake(now));
    }
}

/// Law: no task is lost and none is doubled. A pass leaves every task but the
/// one it ran as it was; the one it ran is queued again with one more run, or
/// entered in the ledger.
pub proof fn law_tasks_conserved<S: Scheduler>(s: SchedState, now: u64, end: Yielded)
    ensures
        passed::<S>(s, now, end).ready.len() + passed::<S>(s, now, end).finished.len()
            == s.ready.len() + s.finished.len(),
        match S::picks(s.ready, now) {
            Some(k) => {
                let others = s.ready.to_multiset().remove(s.ready[k]);
                let after = passed::<S>(s, now, end);
                let runs = (s.ready[k].runs + 1) as u64;
                if end.alive {
                    &&& after.finished == s.finished
                    &&& after.ready.to_multiset() == others.insert(after.ready.last())
                    &&& after.ready.last().id == s.ready[k].id
                    &&& after.ready.last().runs == runs
                    &&& after.ready.last().state == TaskState::Ready
                } else {
                    &&& after.ready.to_multiset() == others
                    &&& after.finished == s.finished.push((s.ready[k].id, s.ready[k].name, runs))
                }
            },
            None => passed::<S>(s, now, end) == s,
        },
{
    broadcast use vstd::seq_lib::group_to_multiset_ensures;

    S::policy_obligations(s.ready, now, *s.ready[0]);
    if let Some(k) = S::picks(s.ready, now) {
        S::policy_obligations(s.ready, now, S::starts(s.ready, k).yielded(end));
    }
}

/// Law: a pass keeps every queued task housed, whatever interrupts hit it on the
/// stack of the task that ran.
pub proof fn law_pass_keeps_housing<S: Scheduler>(
    s: SchedState,
    table: preempt::TableState,
    now: u64,
    end: Yielded,
    irqs: Seq<IrqSnapshot>,
)
    requires
        table.well_formed(),
        housed(s.ready, table),
        pass_fits::<S>(s, table, now, irqs),
    ensures
        housed(passed::<S>(s, now, end).ready, passed_table::<S>(s, table, now, end, irqs)),
{
    S::policy_obligations(s.ready, now, *s.ready[0]);
    if let Some(k) = S::picks(s.ready, now) {
        let task = S::starts(s.ready, k).yielded(end);
        S::policy_obligations(s.ready, now, task);
        let slot = s.ready[k].slot as int;
        assert(table.frame_ok(slot));
        let running = running_table(table, slot);
        preempt::lemma_after_irqs(running, irqs);
        let stepped = stepped_table(table, slot, irqs);
        assert(stepped.frame_ok(slot)) by {
            if irqs.len() > 0 {
                assert(irqs[irqs.len() - 1].fits(table.bounds[slot].0, table.bounds[slot].1));
            }
        }
        let rest = S::rest(s.ready, k);
        let after = passed::<S>(s, now, end).ready;
        let table2 = passed_table::<S>(s, table, now, end, irqs);
        assert forall|i: int| 0 <= i < after.len() implies {
            let slot = (#[trigger] after[i]).slot as int;
            &&& table2.frame_ok(slot)
            &&& table2.owners[slot] == Some(after[i].id)
        } by {
            if i < rest.len() {
                let from = S::origin(s.ready, k, i);
                assert(after[i] == s.ready[from]);
                assert(s.ready[from].slot != s.ready[k].slot);
            }
        }
        assert forall|i: int, j: int| 0 <= i < j < after.len() implies (#[trigger] after[i]).slot
            != (#[trigger] after[j]).slot by {
            let a = S::origin(s.ready, k, i);
            assert(after[i] == s.ready[a]);
            if j < rest.len() {
                let b = S::origin(s.ready, k, j);
                assert(after[j] == s.ready[b]);
                assert(a != b);
                assert(s.ready[a].slot != s.ready[b].slot);
            } else {
                assert(s.ready[a].slot != s.ready[k].slot);
            }
        }
    }
}

/// Law: spawning a task that was just born keeps every queued task housed, the
/// new one included. Its slot was free, so it is nobody else's.
pub proof fn law_spawn_keeps_housing(
    ready: Seq<Box<Task>>,
    table: preempt::TableState,
    task: Task,
)
    requires
        table.well_formed(),
        table.has_room(),
        housed(ready, table),
        task.well_formed(),
        task.slot == table.lowest_free(0),
    ensures
        housed(
            ready.push(Box::new(task)),
            super::housed_at_birth(table, task.preempt, task.stack).owned(
                task.slot as int,
                Some(task.id),
            ),
        ),
{
    preempt::lemma_lowest_free(table, 0);
    assert(!table.used[task.slot as int]);
}

/// Law: a task that finishes gives up its slot: the slot is free, its frame can
/// no longer be resumed, nobody owns it, and no other slot is touched.
pub proof fn law_finish_frees_the_slot<S: Scheduler>(
    s: SchedState,
    table: preempt::TableState,
    now: u64,
    end: Yielded,
    k: int,
    irqs: Seq<IrqSnapshot>,
)
    requires
        table.well_formed(),
        !end.alive,
        S::picks(s.ready, now) == Some(k),
        s.ready[k].slot < MAX_TASKS,
    ensures
        ({
            let slot = s.ready[k].slot as int;
            let after = passed_table::<S>(s, table, now, end, irqs);
            &&& !after.used[slot]
            &&& !after.frame_ok(slot)
            &&& after.task_at(slot) is None
            &&& after.has_room()
            &&& forall|i: int|
                0 <= i < MAX_TASKS && i != slot ==> {
                    &&& #[trigger] after.used[i] == table.used[i]
                    &&& after.frames[i] == table.frames[i]
                    &&& after.owners[i] == table.owners[i]
                }
        }),
{
    S::policy_obligations(s.ready, now, *s.ready[k]);
    preempt::lemma_after_irqs(running_table(table, s.ready[k].slot as int), irqs);
    let after = passed_table::<S>(s, table, now, end, irqs);
    assert(!after.used[s.ready[k].slot as int]);
}

/// Law: a timer interrupt keeps every queued task housed, whoever runs, as long
/// as the stack pointer it finds lies in the window of the slot it saves into.
pub proof fn law_interrupt_keeps_housing(
    ready: Seq<Box<Task>>,
    table: preempt::TableState,
    irq: preempt::IrqSnapshot,
)
    requires
        table.well_formed(),
        housed(ready, table),
        preempt::yanks(table) ==> irq.frame().resumable(
            table.bounds[table.current].0 as int,
            table.bounds[table.current].1 as int,
        ),
    ensures
        housed(ready, preempt::after_irq(table, irq)),
{
}

/// Every queued task is waiting: ready or asleep, neither running nor finished.
pub open spec fn waiting(ready: Seq<Box<Task>>) -> bool {
    forall|i: int|
        0 <= i < ready.len() ==> {
            let state = (#[trigger] ready[i]).state;
            state is Ready || state is Sleeping
        }
}

/// Law: the queue holds waiting tasks only. Whoever runs is out of it, so at most
/// one task runs; whoever finished is out of it for good.
pub proof fn law_queue_waits<S: Scheduler>(s: SchedState, now: u64, end: Yielded, k: int)
    requires
        waiting(s.ready),
        S::picks(s.ready, now) == Some(k),
    ensures
        S::starts(s.ready, k).state is Running,
        waiting(S::rest(s.ready, k)),
        waiting(passed::<S>(s, now, end).ready),
{
    let task = S::starts(s.ready, k).yielded(end);
    S::policy_obligations(s.ready, now, task);
    let rest = S::rest(s.ready, k);
    assert forall|i: int| 0 <= i < rest.len() implies {
        let state = (#[trigger] rest[i]).state;
        state is Ready || state is Sleeping
    } by {
        let from = S::origin(s.ready, k, i);
        assert(rest[i] == s.ready[from]);
    }
    let after = passed::<S>(s, now, end).ready;
    assert forall|i: int| 0 <= i < after.len() implies {
        let state = (#[trigger] after[i]).state;
        state is Ready || state is Sleeping
    } by {
        if i < rest.len() {
            assert(after[i] == rest[i]);
        }
    }
}

/// Law: a task resumes where it yielded. What the step left on the stack and where
/// the switch saved the task are in the queue after the pass, and whatever the
/// queue then is, the task starts its next step with them.
pub proof fn law_resumes_where_it_yielded<S: Scheduler>(
    s: SchedState,
    now: u64,
    end: Yielded,
    queue: Seq<Box<Task>>,
    later: u64,
    k: int,
)
    requires
        S::picks(s.ready, now) is Some,
        end.alive,
        S::picks(queue, later) == Some(k),
        queue[k] == passed::<S>(s, now, end).ready.last(),
    ensures
        S::starts(queue, k).ctx == end.ctx,
        S::starts(queue, k).stack@.bytes == end.backing@,
{
    let task = S::starts(s.ready, S::picks(s.ready, now)->0).yielded(end);
    S::policy_obligations(s.ready, now, task);
    S::policy_obligations(queue, later, task);
}

/// Law: a pass keeps every queued task whole but one that ran over the bottom of
/// its stack. That is the task that the pass ran, and the canary tells: whoever
/// still has it can be given another step. A task that ran has used up one run,
/// so a housed queue can be given pass after pass until a stack overflows or a
/// run counter is full.
pub proof fn law_pass_keeps_tasks_whole<S: Scheduler>(
    s: SchedState,
    table: preempt::TableState,
    now: u64,
    end: Yielded,
    irqs: Seq<IrqSnapshot>,
    bound: int,
)
    requires
        table.well_formed(),
        housed(s.ready, table),
        pass_fits::<S>(s, table, now, irqs),
        S::picks(s.ready, now) matches Some(k) ==> end.fits(*s.ready[k]),
        bound + 1 < u64::MAX,
        forall|i: int|
            0 <= i < s.ready.len() ==> (#[trigger] s.ready[i]).well_formed() && s.ready[i].runs
                <= bound,
    ensures
        forall|i: int|
            0 <= i < passed::<S>(s, now, end).ready.len() ==> {
                let t = #[trigger] passed::<S>(s, now, end).ready[i];
                &&& steppable(*t, passed_table::<S>(s, table, now, end, irqs))
                    <==> t.stack@.canary_intact()
                &&& !t.stack@.canary_intact() ==> {
                    &&& !end.canary_intact()
                    &&& S::picks(s.ready, now) matches Some(k) && t.id == s.ready[k].id && i
                        == s.ready.len() - 1
                }
                &&& t.runs <= bound + 1
            },
{
    law_pass_keeps_housing::<S>(s, table, now, end, irqs);
    S::policy_obligations(s.ready, now, *s.ready[0]);
    let after = passed::<S>(s, now, end).ready;
    if let Some(k) = S::picks(s.ready, now) {
        let task = S::starts(s.ready, k).yielded(end);
        S::policy_obligations(s.ready, now, task);
        assert forall|i: int| 0 <= i < after.len() implies {
            let t = #[trigger] after[i];
            &&& steppable(*t, passed_table::<S>(s, table, now, end, irqs))
                <==> t.stack@.canary_intact()
            &&& !t.stack@.canary_intact() ==> {
                &&& !end.canary_intact()
                &&& t.id == s.ready[k].id
                &&& i == s.ready.len() - 1
            }
            &&& t.runs <= bound + 1
        } by {
            if i < S::rest(s.ready, k).len() {
                let from = S::origin(s.ready, k, i);
                assert(after[i] == s.ready[from]);
            } else {
                assert(*after[i] == S::charged(task));
            }
        }
    }
}

/// Law: the window of a step. Let the driver, with the fence down, enter the task
/// in slot `slot`, start and finish its step, and leave it. An interrupt between
/// start and finish saves into the slot of that task and into no other; one at
/// any other moment saves nothing, it only counts.
pub proof fn law_only_the_step_is_preempted(
    driver: preempt::TableState,
    slot: int,
    irq: IrqSnapshot,
)
    requires
        driver.well_formed(),
        driver == driver_table(driver),
        0 <= slot < MAX_TASKS,
    ensures
        ({
            let entered = preempt::TableState { current: slot, ..driver };
            let started = preempt::TableState { preemptible: true, ..entered };
            let finished = preempt::TableState { preemptible: false, ..started };
            let left = preempt::TableState { current: MAX_TASKS as int, ..finished };
            let saved = preempt::after_irq(started, irq);
            &&& started == running_table(driver, slot)
            &&& left == driver
            &&& saved.frames == driver.frames.update(slot, irq.frame())
            &&& saved.switches == driver.switches.wrapping_add(1)
            &&& counts_only(driver, irq)
            &&& counts_only(entered, irq)
            &&& counts_only(finished, irq)
            &&& counts_only(left, irq)
        }),
{
}

/// An interrupt would change nothing but the tick counter.
pub open spec fn counts_only(table: preempt::TableState, irq: IrqSnapshot) -> bool {
    preempt::after_irq(table, irq) == (preempt::TableState {
        ticks: table.ticks.wrapping_add(1),
        ..table
    })
}

/// Law: a pass is accounted for. After it the driver is in charge again with the
/// fence down; every interrupt that hit the step was counted as a tick and as a
/// yank, and the acknowledge register is where it was.
pub proof fn law_pass_is_accounted_for<S: Scheduler>(
    s: SchedState,
    table: preempt::TableState,
    now: u64,
    end: Yielded,
    irqs: Seq<IrqSnapshot>,
    k: int,
)
    requires
        table.well_formed(),
        S::picks(s.ready, now) == Some(k),
        s.ready[k].slot < 16,
        table.ticks + irqs.len() <= u64::MAX,
        table.switches + irqs.len() <= u64::MAX,
    ensures
        ({
            let after = passed_table::<S>(s, table, now, end, irqs);
            &&& after.current == 16
            &&& !after.preemptible
            &&& after.ticks == table.ticks + irqs.len()
            &&& after.switches == table.switches + irqs.len()
            &&& after.eoi_base == table.eoi_base
            &&& after.bounds == table.bounds
        }),
{
    let running = running_table(table, s.ready[k].slot as int);
    preempt::lemma_after_irqs(running, irqs);
    lemma_irqs_are_counted(running, irqs);
}

proof fn lemma_irqs_are_counted(t: preempt::TableState, irqs: Seq<IrqSnapshot>)
    requires
        t.well_formed(),
        preempt::yanks(t),
        t.ticks + irqs.len() <= u64::MAX,
        t.switches + irqs.len() <= u64::MAX,
    ensures
        preempt::after_irqs(t, irqs).ticks == t.ticks + irqs.len(),
        preempt::after_irqs(t, irqs).switches == t.switches + irqs.len(),
    decreases irqs.len(),
{
    if irqs.len() > 0 {
        lemma_irqs_are_counted(t, irqs.drop_last());
        preempt::lemma_after_irqs(t, irqs.drop_last());
    }
}

/// Law: what a scheduler does in one pass is what is said of a pass here: its books
/// and the table are those of the pass, and it reports whether anybody ran.
pub proof fn law_schedule_once_is_a_pass<S: Scheduler>(
    sched: &mut S,
    now: u64,
    end: Yielded,
    irqs: Vec<IrqSnapshot>,
    table: &mut PreemptTable,
    ran: bool,
)
    requires
        old(table)@.well_formed(),
        call_ensures(S::schedule_once, (sched, now, end, &irqs, table), ran),
    ensures
        final(sched).state() == passed::<S>(old(sched).state(), now, end),
        final(table)@ == passed_table::<S>(old(sched).state(), old(table)@, now, end, irqs@),
        ran <==> exists|i: int|
            0 <= i < old(sched).state().ready.len() && (
            #[trigger] old(sched).state().ready[i]).awake(now),
{
    let ready = old(sched).state().ready;
    law_work_conserving::<S>(ready, now);
    if let Some(k) = S::picks(ready, now) {
        S::policy_obligations(ready, now, S::starts(ready, k));
    }
}

/// Law: what spawning does. The task is last in the queue, as it was given, the
/// slot it came with names it, and nothing else changes; ids are handed out one
/// after the other.
pub proof fn law_spawning<S: Scheduler>(
    sched: &mut S,
    task: Task,
    table: &mut PreemptTable,
    numbering: &mut S,
    id: usize,
    again: &mut S,
    next: usize,
)
    requires
        S::admits(task),
        task.slot < 16,
        old(table)@.well_formed(),
        call_ensures(S::spawn, (sched, task, table), ()),
        call_ensures(S::next_id, (numbering,), id),
        *old(again) == *final(numbering),
        call_ensures(S::next_id, (again,), next),
    ensures
        final(sched).state().ready.len() == old(sched).state().ready.len() + 1,
        final(sched).state().ready.last() == Box::new(task),
        final(sched).state().ready.drop_last() == old(sched).state().ready,
        final(sched).state().finished == old(sched).state().finished,
        final(sched).state().next_id == old(sched).state().next_id,
        final(table)@.owners[task.slot as int] == Some(task.id),
        final(table)@.frames == old(table)@.frames,
        final(table)@.used == old(table)@.used,
        next == id + 1,
        final(again).state().ready == old(numbering).state().ready,
{
    assert(final(sched).state().ready.drop_last() =~= old(sched).state().ready);
}

/// Law: what a scheduler tells. As many tasks are alive as are queued, and its
/// ledger lists each queued and each finished task once, by id, with its name and
/// its runs.
pub proof fn law_scheduler_tells<S: Scheduler>(
    sched: S,
    n: usize,
    out: Vec<(usize, String, u64)>,
)
    requires
        call_ensures(S::alive, (&sched,), n),
        call_ensures(S::ledger, (&sched,), out),
    ensures
        n == sched.state().ready.len(),
        forall|i: int, j: int| 0 <= i < j < out@.len() ==> out@[i].0 <= out@[j].0,
        out@.to_multiset() == (Seq::new(
            sched.state().ready.len(),
            |i: int|
                (
                    sched.state().ready[i].id,
                    sched.state().ready[i].name,
                    sched.state().ready[i].runs,
                ),
        ) + sched.state().finished).to_multiset(),
{
    ledger::lemma_entries_complete(sched.state().ready, sched.state().finished, out@);
}

/// Law: what taking a task and giving it back does. The task that is taken is out
/// of the queue and running, and nothing else of it changed but its virtual runtime;
/// given back ready it is last in the queue, and its slot is untouched; given back
/// finished it is in the ledger under its id, with its name and its runs, and its
/// slot is free and nobody's.
pub proof fn law_taking_and_giving_back<S: Scheduler>(
    sched: &mut S,
    now: u64,
    taken: Option<Box<Task>>,
    later: &mut S,
    back: Task,
    table: &mut PreemptTable,
)
    requires
        call_ensures(S::begin_step, (sched, now), taken),
        back.slot < 16,
        old(table)@.well_formed(),
        call_ensures(S::end_step, (later, Box::new(back), table), ()),
    ensures
        taken matches Some(t) ==> {
            let before = old(sched).state().ready;
            &&& t.state is Running
            &&& final(sched).state().ready.len() == before.len() - 1
            &&& exists|k: int|
                0 <= k < before.len() && (#[trigger] before[k]).awake(now) && *t == (Task {
                    state: t.state,
                    vruntime: t.vruntime,
                    ..*before[k]
                })
        },
        taken is None ==> final(sched).state() == old(sched).state(),
        final(sched).state().finished == old(sched).state().finished,
        final(sched).state().next_id == old(sched).state().next_id,
        final(later).state().next_id == old(later).state().next_id,
        back.state == TaskState::Ready ==> {
            let queue = final(later).state().ready;
            &&& queue.drop_last() == old(later).state().ready
            &&& *queue.last() == (Task { vruntime: queue.last().vruntime, ..back })
            &&& final(later).state().finished == old(later).state().finished
            &&& final(table)@ == old(table)@
        },
        back.state != TaskState::Ready ==> {
            let slot = back.slot as int;
            &&& final(later).state().ready == old(later).state().ready
            &&& final(later).state().finished == old(later).state().finished.push(
                (back.id, back.name, back.runs),
            )
            &&& !final(table)@.used[slot]
            &&& final(table)@.owners[slot] is None
            &&& forall|i: int|
                0 <= i < 16 && i != slot ==> {
                    &&& #[trigger] final(table)@.used[i] == old(table)@.used[i]
                    &&& final(table)@.frames[i] == old(table)@.frames[i]
                    &&& final(table)@.owners[i] == old(table)@.owners[i]
                }
        },
{
    let before = old(sched).state().ready;
    S::policy_obligations(before, now, back);
    if let Some(k) = S::picks(before, now) {
        assert(before[k].awake(now));
    }
    if back.state == TaskState::Ready {
        assert(final(later).state().ready.drop_last() =~= old(later).state().ready);
    }
}

} // verus!
