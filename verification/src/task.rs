//! Tasks and their schedulers.
//!
//! A task is a named step function with its own stack, its own cooperative
//! context and its own slot in the preempt table. The step function itself is
//! held by whoever runs the steps; here stands everything that decides when a
//! task runs and what a step does to the books.

pub mod cfs;
pub mod ledger;
pub mod round_robin;
pub mod scheduler;
pub mod stack;

use vstd::prelude::*;
use crate::memory::paging;
use crate::preempt;
use crate::preempt::{FullFrame, PreemptTable, MAX_TASKS};
use stack::{init_task_context, Context, TaskStack, STACK_CANARY};

verus! {

/// Weight of a task unless the caller says otherwise.
pub const CFS_DEFAULT_WEIGHT: u32 = 1024;

/// What a task is doing right now.
#[derive(Debug, Clone, Copy, PartialEq, Eq, Structural)]
pub enum TaskState {
    /// In the ready queue, waiting for its turn.
    Ready,
    /// Executing.
    Running,
    /// To be skipped until the tick counter reaches `until_tick`.
    Sleeping { until_tick: u64 },
    /// Done, never scheduled again.
    Finished,
}

/// A task.
pub struct Task {
    /// Stable number, handed out by the scheduler.
    pub id: usize,
    /// Name for the log.
    pub name: String,
    pub state: TaskState,
    /// How often the task has run.
    pub runs: u64,
    /// Virtual runtime: grows with every step, slower for a heavier task.
    pub vruntime: u64,
    /// Scheduling weight; more weight means more processor time.
    pub weight: u32,
    /// The private kernel stack.
    pub stack: TaskStack,
    /// Saved state of the cooperative switch. The timer stub never touches it.
    pub ctx: Context,
    /// Template of the preempt frame, made at spawn. The cooperative switch
    /// never touches it.
    pub preempt: FullFrame,
    /// Slot in the preempt table.
    pub slot: u8,
}

/// What a task hands back when it yields after a step.
pub struct Yielded {
    /// What the step returned: whether the task wants to run again.
    pub alive: bool,
    /// The bytes of the stack, as the step and the switch left them.
    pub backing: Vec<u8>,
    /// Where the switch saved the task.
    pub ctx: Context,
}

impl Yielded {
    /// The bytes are those of the stack of `t`: a stack keeps its size.
    pub open spec fn fits(self, t: Task) -> bool {
        self.backing@.len() == t.stack.backing@.len()
    }

    /// The step did not run over the bottom of its stack.
    pub open spec fn canary_intact(self) -> bool {
        stack::load_word(self.backing@, 0) == STACK_CANARY
    }
}

/// What a task is at birth, except for the slot that it is given.
pub open spec fn born(
    t: Task,
    id: usize,
    name: Seq<char>,
    state: TaskState,
    stack: TaskStack,
    entry: u64,
    cs: u16,
) -> bool {
    &&& t.id == id
    &&& t.name@ == name
    &&& t.state == state
    &&& t.runs == 0
    &&& t.vruntime == 0
    &&& t.weight == CFS_DEFAULT_WEIGHT
    &&& t.stack@ == stack@.bootstrapped(entry)
    &&& t.ctx.rsp == stack.top - 64
    &&& t.preempt == preempt::fresh_frame(entry, cs, stack.top)
}

/// The preempt table after a task was born into its lowest free slot.
pub open spec fn housed_at_birth(
    table: preempt::TableState,
    frame: FullFrame,
    stack: TaskStack,
) -> preempt::TableState {
    let slot = table.lowest_free(0);
    table.registered(slot, frame).bounded(slot, stack.bottom, stack.top)
}

/// A stack on which a task can be born: its fresh frame will validate.
pub open spec fn fit_for_birth(stack: TaskStack) -> bool {
    &&& stack@.well_formed()
    &&& stack@.has_room()
    &&& stack@.canary_intact()
    &&& paging::canonical(stack.top - 8)
}

impl Task {
    /// The stack is whole with its canary in place, the slot is a slot, and the
    /// frame template validates on the stack.
    pub open spec fn well_formed(self) -> bool {
        &&& self.stack@.well_formed()
        &&& self.stack@.canary_intact()
        &&& self.slot < MAX_TASKS
        &&& self.preempt.resumable(self.stack.bottom as int, self.stack.top as int)
    }

    /// The task may be dispatched at tick `now`.
    pub open spec fn awake(self, now: u64) -> bool {
        match self.state {
            TaskState::Sleeping { until_tick } => until_tick <= now,
            _ => true,
        }
    }

    /// The task after one step that returned `alive`.
    pub open spec fn stepped(self, alive: bool) -> Task {
        Task {
            runs: (self.runs + 1) as u64,
            state: if alive {
                TaskState::Ready
            } else {
                TaskState::Finished
            },
            ..self
        }
    }

    /// The task back in the driver, after a step that left `end` behind.
    pub open spec fn yielded(self, end: Yielded) -> Task {
        Task {
            stack: TaskStack { backing: end.backing, ..self.stack },
            ctx: end.ctx,
            ..self.stepped(end.alive)
        }
    }

    fn build(
        id: usize,
        name: &str,
        state: TaskState,
        stack: TaskStack,
        entry: u64,
        cs: u16,
        table: &mut PreemptTable,
    ) -> (t: Self)
        requires
            fit_for_birth(stack),
            old(table)@.well_formed(),
            old(table)@.has_room(),
        ensures
            t.well_formed(),
            born(t, id, name@, state, stack, entry, cs),
            t.slot == old(table)@.lowest_free(0),
            final(table)@.well_formed(),
            final(table)@ == housed_at_birth(old(table)@, t.preempt, stack),
    {
        let ghost fresh_stack = stack;
        let mut stack = stack;
        let ctx = init_task_context(&mut stack, entry);
        proof {
            stack::lemma_bootstrapped(fresh_stack@, entry);
        }
        let preempt = FullFrame::fresh(entry, cs, stack.top);
        let slot: u8 = table.alloc_slot();
        table.register_task(slot as usize, preempt);
        table.set_slot_bounds(slot as usize, stack.bottom, stack.top);
        Task {
            id,
            name: name.to_owned(),
            state,
            runs: 0,
            vruntime: 0,
            weight: CFS_DEFAULT_WEIGHT,
            stack,
            ctx,
            preempt,
            slot,
        }
    }

    /// Build a task that is ready to run. `entry` is where its first switch
    /// lands, `cs` the code segment. The lowest free slot of the preempt table
    /// becomes its own: the frame is registered there together with the stack
    /// window.
    pub fn new(
        id: usize,
        name: &str,
        stack: TaskStack,
        entry: u64,
        cs: u16,
        table: &mut PreemptTable,
    ) -> (t: Self)
        requires
            fit_for_birth(stack),
            old(table)@.well_formed(),
            old(table)@.has_room(),
        ensures
            t.well_formed(),
            born(t, id, name@, TaskState::Ready, stack, entry, cs),
            t.slot == old(table)@.lowest_free(0),
            final(table)@.well_formed(),
            final(table)@ == housed_at_birth(old(table)@, t.preempt, stack),
    {
        Self::build(id, name, TaskState::Ready, stack, entry, cs, table)
    }

    /// Build a task that sleeps until the tick counter reaches `until_tick`.
    pub fn sleeping(
        id: usize,
        name: &str,
        until_tick: u64,
        stack: TaskStack,
        entry: u64,
        cs: u16,
        table: &mut PreemptTable,
    ) -> (t: Self)
        requires
            fit_for_birth(stack),
            old(table)@.well_formed(),
            old(table)@.has_room(),
        ensures
            t.well_formed(),
            born(t, id, name@, TaskState::Sleeping { until_tick }, stack, entry, cs),
            t.slot == old(table)@.lowest_free(0),
            final(table)@.well_formed(),
            final(table)@ == housed_at_birth(old(table)@, t.preempt, stack),
    {
        Self::build(id, name, TaskState::Sleeping { until_tick }, stack, entry, cs, table)
    }

    /// Override the weight before spawn.
    pub fn with_weight(self, weight: u32) -> (t: Self)
        requires
            weight > 0,
        ensures
            t == (Task { weight, ..self }),
    {
        let mut t = self;
        t.weight = weight;
        t
    }

    /// Whether the task may be dispatched at tick `now`.
    pub fn is_awake(&self, now: u64) -> (ok: bool)
        ensures
            ok == self.awake(now),
    {
        match self.state {
            TaskState::Sleeping { until_tick } => until_tick <= now,
            _ => true,
        }
    }

    /// Book one step that returned `alive`: one more run, and the task is ready
    /// again or finished.
    pub fn complete_step(&mut self, alive: bool)
        requires
            old(self).runs < u64::MAX,
        ensures
            *final(self) == old(self).stepped(alive),
    {
        self.runs = self.runs + 1;
        self.state = if alive {
            TaskState::Ready
        } else {
            TaskState::Finished
        };
    }
}

/// Publish the slot of the task about to run, so that the timer stub saves into
/// it and the trampoline finds its task through it. Returns the stack top, the
/// ring-0 stack pointer of the task-state segment.
pub fn enter_task(table: &mut PreemptTable, task: &Task) -> (rsp0: u64)
    requires
        old(table)@.well_formed(),
    ensures
        final(table)@.well_formed(),
        final(table)@ == (preempt::TableState { current: task.slot as int, ..old(table)@ }),
        rsp0 == task.stack.top,
{
    table.set_current(task.slot as usize);
    task.stack.top
}

/// Back in the driver: the timer stub must not save into any slot.
pub fn leave_task(table: &mut PreemptTable)
    requires
        old(table)@.well_formed(),
    ensures
        final(table)@.well_formed(),
        final(table)@ == (preempt::TableState { current: MAX_TASKS as int, ..old(table)@ }),
{
    table.set_current(MAX_TASKS);
}

/// Whether a stack pointer has the parity that a function sees right after a
/// `call`.
pub fn entry_parity_ok(rsp: u64) -> (ok: bool)
    ensures
        ok == (rsp % 16 == 8),
{
    rsp % 16 == 8
}

/// On the stack of the task, before its step: raise the fence, unless the stack
/// overflowed. `false` means that the canary is gone and the step must not run.
pub fn start_step(table: &mut PreemptTable, task: &Task) -> (ok: bool)
    requires
        old(table)@.well_formed(),
        task.stack@.well_formed(),
    ensures
        final(table)@.well_formed(),
        ok == task.stack@.canary_intact(),
        final(table)@ == if ok {
            preempt::TableState { preemptible: true, ..old(table)@ }
        } else {
            old(table)@
        },
{
    if !task.stack.canary_ok() {
        return false;
    }
    preempt::set_preemptible(table, true);
    true
}

/// On the stack of the task, after its step: book the verdict, lower the fence.
pub fn finish_step(table: &mut PreemptTable, task: &mut Task, alive: bool)
    requires
        old(table)@.well_formed(),
        old(task).runs < u64::MAX,
    ensures
        *final(task) == old(task).stepped(alive),
        final(table)@.well_formed(),
        final(table)@ == (preempt::TableState { preemptible: false, ..old(table)@ }),
{
    task.complete_step(alive);
    preempt::set_preemptible(table, false);
}

/// The id of the task that lives in slot `idx`.
pub fn task_at(table: &PreemptTable, idx: usize) -> (task: Option<usize>)
    requires
        table@.well_formed(),
    ensures
        task == table@.task_at(idx as int),
{
    table.owner(idx)
}

/// The id of the task that owns the stack in use, found by its slot.
pub fn current_task(table: &PreemptTable) -> (task: usize)
    requires
        table@.well_formed(),
        table@.task_at(table@.current) is Some,
    ensures
        Some(task) == table@.task_at(table@.current),
{
    let idx: usize = table.current_idx();
    match task_at(table, idx) {
        Some(task) => task,
        None => 0,
    }
}

// ---------------------------------------------------------------------------
// What a task goes through
// ---------------------------------------------------------------------------
/// The task is fresh: it has not run, weighs what everybody weighs, and both ways
/// into it, by switch and by interrupt return, lead to its entry.
pub open spec fn starts_at(t: Task, entry: u64, cs: u16) -> bool {
    &&& t.runs == 0
    &&& t.vruntime == 0
    &&& t.weight == 1024
    &&& t.ctx.rsp == t.stack.top - 64
    &&& stack::resumed(t.stack@, t.ctx.rsp as int).rip == entry
    &&& stack::resumed(t.stack@, t.ctx.rsp as int).rsp == t.stack.top - 8
    &&& t.stack@.canary_intact()
    &&& t.preempt.rip == entry
    &&& t.preempt.cs == cs
    &&& t.preempt.rsp == t.stack.top - 8
    &&& t.preempt.rflags == 0x202
}

/// Law: birth of a task. A new task is ready, one that sleeps waits for its tick;
/// else they are alike: fresh, under the id and the name that were given, on the
/// stack that was given, in a slot that was free and is now theirs, with their frame
/// and the window of their stack.
pub proof fn law_birth(
    id: usize,
    name: &str,
    until_tick: u64,
    given: TaskStack,
    entry: u64,
    cs: u16,
    table: &mut PreemptTable,
    ready: Task,
    later: &mut PreemptTable,
    asleep: Task,
)
    requires
        fit_for_birth(given),
        old(table)@.well_formed(),
        old(table)@.has_room(),
        *old(later) == *old(table),
        call_ensures(Task::new, (id, name, given, entry, cs, table), ready),
        call_ensures(Task::sleeping, (id, name, until_tick, given, entry, cs, later), asleep),
    ensures
        ready.state == TaskState::Ready,
        asleep.state == (TaskState::Sleeping { until_tick }),
        ready.id == id && asleep.id == id,
        ready.name@ == name@ && asleep.name@ == name@,
        starts_at(ready, entry, cs),
        starts_at(asleep, entry, cs),
        ready.stack.top == given.top && ready.stack.bottom == given.bottom,
        asleep.stack.top == given.top && asleep.stack.bottom == given.bottom,
        asleep.slot == ready.slot,
        !old(table)@.used[ready.slot as int],
        final(table)@.used[ready.slot as int],
        final(table)@.frames[ready.slot as int] == ready.preempt,
        final(table)@.bounds[ready.slot as int] == (given.bottom, given.top),
        final(table)@.frame_ok(ready.slot as int),
        final(later)@.frame_ok(asleep.slot as int),
{
    stack::law_first_switch(given@, entry);
    stack::lemma_bootstrapped(given@, entry);
    assert(ready.stack@.top == given@.top && ready.stack@.bottom == given@.bottom);
    assert(asleep.stack@.top == given@.top && asleep.stack@.bottom == given@.bottom);
    preempt::lemma_lowest_free(old(table)@, 0);
}

/// Law: what a step does to the books. It adds one run and leaves the task ready or
/// finished, as the step said; it changes nothing else. A sleeper is awake from its
/// tick on, everybody else always.
pub proof fn law_step_in_the_books(
    task: &mut Task,
    alive: bool,
    t: Task,
    now: u64,
    awake: bool,
)
    requires
        old(task).runs < u64::MAX,
        call_ensures(Task::complete_step, (task, alive), ()),
        call_ensures(Task::is_awake, (&t, now), awake),
    ensures
        final(task).runs == old(task).runs + 1,
        final(task).state == TaskState::Ready <==> alive,
        final(task).state == TaskState::Finished <==> !alive,
        *final(task) == (Task {
            runs: final(task).runs,
            state: final(task).state,
            ..*old(task)
        }),
        awake <==> (t.state matches TaskState::Sleeping { until_tick } ==> now >= until_tick),
{
}

/// Law: what yielding does to a task. Its stack holds what the step left there, and
/// its context is where the switch saved it; its stack lies where it lay, its frame
/// template, its slot, its weight, its id and its name are what they were.
pub proof fn law_yield(t: Task, end: Yielded)
    requires
        t.runs < u64::MAX,
    ensures
        t.yielded(end).stack.backing == end.backing,
        t.yielded(end).ctx == end.ctx,
        t.yielded(end).runs == t.runs + 1,
        t.yielded(end).state == if end.alive {
            TaskState::Ready
        } else {
            TaskState::Finished
        },
        t.yielded(end).stack.top == t.stack.top,
        t.yielded(end).stack.bottom == t.stack.bottom,
        t.yielded(end).preempt == t.preempt,
        t.yielded(end).slot == t.slot,
        t.yielded(end).weight == t.weight,
        t.yielded(end).vruntime == t.vruntime,
        t.yielded(end).id == t.id,
        t.yielded(end).name == t.name,
{
}

/// Law: a weight is set and nothing else, and a stack pointer has the parity of a
/// call exactly if it is eight beyond a multiple of sixteen.
pub proof fn law_weight_and_parity(t: Task, weight: u32, heavy: Task, rsp: u64, ok: bool)
    requires
        call_ensures(Task::with_weight, (t, weight), heavy),
        call_ensures(entry_parity_ok, (rsp,), ok),
    ensures
        heavy.weight == weight,
        heavy == (Task { weight, ..t }),
        ok <==> (rsp + 8) as int % 16 == 0,
{
}

/// Law: the window in which a task can be preempted. From the driver's state,
/// entering publishes the slot and hands out the top of the stack; starting raises
/// the fence if the stack is whole, and does nothing if it is not; finishing lowers
/// it; leaving takes the slot back. What comes of it is the driver's state again.
pub proof fn law_window_of_a_step(
    task: Task,
    entered: &mut PreemptTable,
    rsp0: u64,
    started: &mut PreemptTable,
    ok: bool,
    finished: &mut PreemptTable,
    stepped: &mut Task,
    alive: bool,
    left: &mut PreemptTable,
)
    requires
        old(entered)@.well_formed(),
        old(entered)@.current == 16,
        !old(entered)@.preemptible,
        task.stack@.well_formed(),
        call_ensures(enter_task, (entered, &task), rsp0),
        *old(started) == *final(entered),
        call_ensures(start_step, (started, &task), ok),
        *old(finished) == *final(started),
        old(stepped).runs < u64::MAX,
        call_ensures(finish_step, (finished, stepped, alive), ()),
        *old(left) == *final(finished),
        call_ensures(leave_task, (left,), ()),
    ensures
        rsp0 == task.stack.top,
        final(entered)@.current == task.slot,
        !final(entered)@.preemptible,
        ok <==> stack::load_word(task.stack.backing@, 0) == 0xDEAD_BEEF_CAFE_F00D,
        final(started)@.preemptible <==> ok,
        final(started)@.current == task.slot,
        !final(finished)@.preemptible,
        final(finished)@.current == task.slot,
        final(stepped).runs == old(stepped).runs + 1,
        final(stepped).state == TaskState::Ready <==> alive,
        final(left)@ == old(entered)@,
{
}

/// Law: a task is found by the slot that is current.
pub proof fn law_running_task_is_found_by_slot(
    table: PreemptTable,
    idx: usize,
    found: Option<usize>,
    running: usize,
)
    requires
        table@.well_formed(),
        table@.task_at(table@.current) is Some,
        call_ensures(task_at, (&table, idx), found),
        call_ensures(current_task, (&table,), running),
    ensures
        idx >= 16 ==> found is None,
        idx < 16 ==> found == table@.owners[idx as int],
        table@.owners[table@.current] == Some(running),
        idx == table@.current ==> found == Some(running),
{
}

} // verus!
