use rustycore::preempt::{lapic_preempt_stub, set_preemptible, IrqSnapshot, PreemptTable, MAX_TASKS};
use rustycore::task::cfs::Cfs;
use rustycore::task::round_robin::RoundRobin;
use rustycore::task::scheduler::Scheduler;
use rustycore::task::stack::{
    init_task_context, Context, TaskStack, STACK_CANARY,
};
use rustycore::task::{
    current_task, enter_task, entry_parity_ok, finish_step, leave_task, start_step, task_at, Task,
    TaskState, Yielded, CFS_DEFAULT_WEIGHT,
};

const ENTRY: u64 = 0x1000_0000;

const STACK_SIZE_BYTES: usize = 131_072;

fn stack_at(bottom: u64) -> TaskStack {
    TaskStack::new(vec![0u8; STACK_SIZE_BYTES], bottom)
}

fn stack_no(k: u64) -> TaskStack {
    stack_at(0xFFFF_9000_0000_0000 + k * 0x10_0000)
}

fn word(stack: &TaskStack, addr: u64) -> u64 {
    let at = (addr - stack.bottom) as usize;
    let mut bytes = [0u8; 8];
    bytes.copy_from_slice(&stack.backing[at..at + 8]);
    u64::from_le_bytes(bytes)
}

fn spawn<S: Scheduler>(s: &mut S, t: &mut PreemptTable, name: &str, weight: u32) -> usize {
    let id = s.next_id();
    let task = Task::new(id, name, stack_no(id as u64), ENTRY, 8, t).with_weight(weight);
    s.spawn(task, t);
    id
}

fn step<S: Scheduler>(s: &mut S, t: &mut PreemptTable, now: u64, alive: bool) -> Option<usize> {
    let mut task = match s.begin_step(now) {
        Some(task) => task,
        None => return None,
    };
    let id = task.id;
    enter_task(t, &task);
    assert_eq!(current_task(t), id);
    assert_eq!(task.state, TaskState::Running);
    assert!(start_step(t, &task));
    finish_step(t, &mut task, alive);
    leave_task(t);
    s.end_step(task, t);
    Some(id)
}

fn yielded(alive: bool, fill: u8, canary: u64) -> Yielded {
    let mut backing = vec![fill; STACK_SIZE_BYTES];
    backing[..8].copy_from_slice(&canary.to_le_bytes());
    Yielded {
        alive,
        backing,
        ctx: Context { rsp: 0xFFFF_9000_0000_0000 + fill as u64 },
    }
}

fn end(alive: bool) -> Yielded {
    yielded(alive, 0x5A, STACK_CANARY)
}

#[test]
fn context_starts_empty() {
    assert_eq!(Context::empty(), Context { rsp: 0 });
}

#[test]
fn stack_top_is_aligned_and_the_canary_is_planted() {
    let s = stack_at(0xFFFF_9000_0000_0328);
    assert_eq!(s.bottom, 0xFFFF_9000_0000_0328);
    assert_eq!(s.top, 0xFFFF_9000_0002_0320);
    assert_eq!(word(&s, s.bottom), STACK_CANARY);
    assert!(s.canary_ok());
}

#[test]
fn overflow_trips_the_canary() {
    let mut s = stack_no(0);
    s.backing[0] = 0;
    assert!(!s.canary_ok());
}

#[test]
fn bootstrap_frame_layout() {
    let mut s = stack_no(0);
    for b in s.backing.iter_mut().skip(8) {
        *b = 0xAA;
    }
    let c = init_task_context(&mut s, ENTRY);
    assert_eq!(c.rsp, s.top - 64);
    assert_eq!((c.rsp + 56) % 16, 8);
    for k in 0..6 {
        assert_eq!(word(&s, c.rsp + 8 * k), 0);
    }
    assert_eq!(word(&s, s.top - 16), ENTRY);
    assert_eq!(word(&s, s.top - 8), 0);
    assert_eq!(word(&s, s.top - 72), 0xAAAA_AAAA_AAAA_AAAA);
    assert!(s.canary_ok());
}

#[test]
fn newborn_task() {
    let mut t = PreemptTable::new();
    let task = Task::new(7, "alpha", stack_no(0), ENTRY, 8, &mut t);
    assert_eq!(task.id, 7);
    assert_eq!(task.name, "alpha");
    assert_eq!(task.state, TaskState::Ready);
    assert_eq!(task.runs, 0);
    assert_eq!(task.vruntime, 0);
    assert_eq!(task.weight, CFS_DEFAULT_WEIGHT);
    assert_eq!(task.slot, 0);
    assert_eq!(task.ctx.rsp, task.stack.top - 64);
    assert_eq!(task.preempt.rip, ENTRY);
    assert_eq!(task.preempt.rsp, task.stack.top - 8);
    assert!(t.frame_ok(0));
    assert_eq!(t.frame(0), task.preempt);
    assert_eq!(task_at(&t, 0), None);
    let second = Task::sleeping(8, "napper", 33, stack_no(1), ENTRY, 8, &mut t);
    assert_eq!(second.slot, 1);
    assert_eq!(second.state, TaskState::Sleeping { until_tick: 33 });
    assert!(!second.is_awake(32));
    assert!(second.is_awake(33));
}

#[test]
fn weight_override() {
    let mut t = PreemptTable::new();
    let task = Task::new(1, "a", stack_no(0), ENTRY, 8, &mut t).with_weight(2048);
    assert_eq!(task.weight, 2048);
    assert_eq!(task.name, "a");
}

#[test]
fn step_verdicts() {
    let mut t = PreemptTable::new();
    let mut task = Task::new(1, "a", stack_no(0), ENTRY, 8, &mut t);
    task.complete_step(true);
    assert_eq!((task.runs, task.state), (1, TaskState::Ready));
    task.complete_step(false);
    assert_eq!((task.runs, task.state), (2, TaskState::Finished));
}

#[test]
fn ids_count_from_one() {
    let mut s = RoundRobin::new();
    assert_eq!(s.next_id(), 1);
    assert_eq!(s.next_id(), 2);
    let mut c = Cfs::default();
    assert_eq!(c.next_id(), 1);
    assert_eq!(RoundRobin::default().alive(), 0);
}

#[test]
fn spawn_names_the_owner_of_the_slot() {
    let mut t = PreemptTable::new();
    let mut s = RoundRobin::new();
    let id = spawn(&mut s, &mut t, "a", 1024);
    assert_eq!(task_at(&t, 0), Some(id));
    assert_eq!(s.alive(), 1);
}

#[test]
fn round_robin_takes_turns() {
    let mut t = PreemptTable::new();
    let mut s = RoundRobin::new();
    for n in ["alpha", "beta", "gamma"] {
        spawn(&mut s, &mut t, n, 1024);
    }
    let mut order = Vec::new();
    for _ in 0..6 {
        order.push(step(&mut s, &mut t, 0, true).unwrap());
    }
    assert_eq!(order, vec![1, 2, 3, 1, 2, 3]);
    assert!(s.ledger().iter().all(|e| e.2 == 2));
}

#[test]
fn round_robin_skips_sleepers_until_their_tick() {
    let mut t = PreemptTable::new();
    let mut s = RoundRobin::new();
    let id = s.next_id();
    let nap = Task::sleeping(id, "napper", 20, stack_no(9), ENTRY, 8, &mut t);
    s.spawn(nap, &mut t);
    let other = spawn(&mut s, &mut t, "a", 1024);
    assert_eq!(step(&mut s, &mut t, 19, true), Some(other));
    assert_eq!(step(&mut s, &mut t, 19, true), Some(other));
    assert_eq!(step(&mut s, &mut t, 20, true), Some(id));
}

#[test]
fn all_asleep_runs_nobody() {
    let mut t = PreemptTable::new();
    let mut s = RoundRobin::new();
    let mut c = Cfs::new();
    for (k, until) in [(1u64, 10u64), (2, 20)] {
        let a = Task::sleeping(k as usize, "n", until, stack_no(k), ENTRY, 8, &mut t);
        s.spawn(a, &mut t);
        let b = Task::sleeping(k as usize, "n", until, stack_no(k + 4), ENTRY, 8, &mut t);
        c.spawn(b, &mut t);
    }
    assert!(s.begin_step(9).is_none());
    assert!(c.begin_step(9).is_none());
    assert_eq!(s.alive(), 2);
    assert_eq!(s.begin_step(10).unwrap().id, 1);
    assert_eq!(c.begin_step(20).unwrap().id, 1);
    assert!(RoundRobin::new().begin_step(0).is_none());
    assert!(Cfs::new().begin_step(0).is_none());
}

#[test]
fn finished_tasks_free_their_slot_and_stay_in_the_ledger() {
    let mut t = PreemptTable::new();
    let mut s = RoundRobin::new();
    let a = spawn(&mut s, &mut t, "a", 1024);
    let b = spawn(&mut s, &mut t, "b", 1024);
    assert_eq!(step(&mut s, &mut t, 0, false), Some(a));
    assert_eq!(s.alive(), 1);
    assert_eq!(task_at(&t, 0), None);
    assert!(!t.frame_ok(0));
    assert!(t.frame_ok(1));
    assert_eq!(t.alloc_slot(), 0);
    assert_eq!(step(&mut s, &mut t, 0, true), Some(b));
    assert_eq!(
        s.ledger(),
        vec![(a, String::from("a"), 1), (b, String::from("b"), 1)]
    );
}

#[test]
fn schedule_once_is_one_whole_pass() {
    let mut t = PreemptTable::new();
    let mut s = RoundRobin::new();
    assert!(!s.schedule_once(0, end(true), &vec![], &mut t));
    spawn(&mut s, &mut t, "a", 1024);
    assert!(s.schedule_once(0, end(true), &vec![], &mut t));
    assert_eq!(t.current_idx(), MAX_TASKS);
    assert!(s.schedule_once(0, end(false), &vec![], &mut t));
    assert_eq!(s.alive(), 0);
    assert_eq!(s.ledger(), vec![(1, String::from("a"), 2)]);
    assert!(!t.frame_ok(0));
    let mut c = Cfs::new();
    spawn(&mut c, &mut t, "a", 1024);
    assert!(c.schedule_once(0, end(true), &vec![], &mut t));
    assert_eq!(c.begin_step(0).unwrap().vruntime, 100);
}

fn resumes_where_it_yielded<S: Scheduler>(mut s: S) {
    let mut t = PreemptTable::new();
    spawn(&mut s, &mut t, "a", 1024);
    spawn(&mut s, &mut t, "b", 1024);
    assert!(s.schedule_once(0, yielded(true, 0x11, STACK_CANARY), &vec![], &mut t));
    assert!(s.schedule_once(0, yielded(true, 0x22, STACK_CANARY), &vec![], &mut t));
    for (id, fill) in [(1usize, 0x11u8), (2, 0x22)] {
        let task = s.begin_step(0).unwrap();
        assert_eq!((task.id, task.runs), (id, 1));
        assert_eq!(task.ctx, Context { rsp: 0xFFFF_9000_0000_0000 + fill as u64 });
        assert_eq!(task.stack.backing[8..], vec![fill; STACK_SIZE_BYTES - 8][..]);
        assert_eq!(task.stack.bottom, stack_no(id as u64).bottom);
        assert_eq!(task.stack.top, stack_no(id as u64).top);
        assert!(task.stack.canary_ok());
    }
}

#[test]
fn a_task_resumes_where_it_yielded() {
    resumes_where_it_yielded(RoundRobin::new());
    resumes_where_it_yielded(Cfs::new());
}

#[test]
fn an_overflow_shows_before_the_next_step_of_that_task_only() {
    let mut t = PreemptTable::new();
    let mut s = RoundRobin::new();
    spawn(&mut s, &mut t, "a", 1024);
    spawn(&mut s, &mut t, "b", 1024);
    assert!(s.schedule_once(0, yielded(true, 0x11, 0), &vec![], &mut t));
    assert!(s.schedule_once(0, end(true), &vec![], &mut t));
    let a = s.begin_step(0).unwrap();
    let b = s.begin_step(0).unwrap();
    enter_task(&mut t, &a);
    assert!(!start_step(&mut t, &a));
    enter_task(&mut t, &b);
    assert!(start_step(&mut t, &b));
}

#[test]
fn a_pass_asks_only_the_task_that_it_runs() {
    let mut t = PreemptTable::new();
    let mut s = RoundRobin::new();
    spawn(&mut s, &mut t, "a", 1024);
    let mut spent = Task::new(7, "spent", stack_no(7), ENTRY, 8, &mut t);
    spent.runs = u64::MAX;
    spent.stack.backing[0] = 0;
    s.spawn(spent, &mut t);
    assert!(s.schedule_once(0, end(true), &vec![], &mut t));
    assert_eq!(
        s.ledger(),
        vec![(1, String::from("a"), 1), (7, String::from("spent"), u64::MAX)]
    );
}

#[test]
fn ledger_is_ordered_by_id_and_stable() {
    let mut t = PreemptTable::new();
    let mut s = RoundRobin::new();
    for (id, name) in [(5usize, "e"), (2, "b1"), (9, "i"), (2, "b2")] {
        let task = Task::new(id, name, stack_no(id as u64), ENTRY, 8, &mut t);
        s.spawn(task, &mut t);
    }
    step(&mut s, &mut t, 0, false);
    let names: Vec<String> = s.ledger().into_iter().map(|e| e.1).collect();
    assert_eq!(names, vec!["b1", "b2", "e", "i"]);
}

#[test]
fn fair_scheduler_runs_the_least_vruntime() {
    let mut t = PreemptTable::new();
    let mut s = Cfs::new();
    let light = spawn(&mut s, &mut t, "light", 1024);
    let heavy = spawn(&mut s, &mut t, "heavy", 2048);
    let mut order = Vec::new();
    for _ in 0..6 {
        order.push(step(&mut s, &mut t, 0, true).unwrap());
    }
    assert_eq!(order, vec![light, heavy, heavy, light, heavy, heavy]);
    let runs: Vec<u64> = s.ledger().into_iter().map(|e| e.2).collect();
    assert_eq!(runs, vec![2, 4]);
}

#[test]
fn equal_weights_degenerate_to_round_robin() {
    let mut t = PreemptTable::new();
    let mut s = Cfs::new();
    for n in ["a", "b", "c"] {
        spawn(&mut s, &mut t, n, 1024);
    }
    let mut order = Vec::new();
    for _ in 0..6 {
        order.push(step(&mut s, &mut t, 0, true).unwrap());
    }
    assert_eq!(order, vec![1, 2, 3, 1, 2, 3]);
}

#[test]
fn step_cost_scales_with_weight() {
    let mut t = PreemptTable::new();
    let mut s = Cfs::new();
    for (w, cost) in [(1024u32, 100u64), (2048, 50), (1, 102_400), (204_800, 0), (1000, 102)] {
        spawn(&mut s, &mut t, "x", w);
        step(&mut s, &mut t, 0, true);
        let mut task = s.begin_step(0).unwrap();
        assert_eq!(task.vruntime, cost);
        task.complete_step(false);
        s.end_step(task, &mut t);
    }
}

#[test]
fn vruntime_saturates() {
    let mut t = PreemptTable::new();
    let mut s = Cfs::new();
    let mut task = Task::new(1, "x", stack_no(0), ENTRY, 8, &mut t);
    task.vruntime = u64::MAX - 10;
    s.spawn(task, &mut t);
    step(&mut s, &mut t, 0, true);
    assert_eq!(s.begin_step(0).unwrap().vruntime, u64::MAX);
}

#[test]
fn nap_banks_no_lead() {
    let mut t = PreemptTable::new();
    let mut s = Cfs::new();
    let nap = Task::sleeping(1, "napper", 50, stack_no(0), ENTRY, 8, &mut t);
    s.spawn(nap, &mut t);
    let mut busy = Task::new(2, "busy", stack_no(1), ENTRY, 8, &mut t);
    busy.vruntime = 5_000;
    s.spawn(busy, &mut t);
    let mut busier = Task::new(3, "busier", stack_no(2), ENTRY, 8, &mut t);
    busier.vruntime = 9_000;
    s.spawn(busier, &mut t);
    let woken = s.begin_step(50).unwrap();
    assert_eq!(woken.id, 1);
    assert_eq!(woken.vruntime, 5_000);
}

#[test]
fn lone_sleeper_keeps_its_vruntime() {
    let mut t = PreemptTable::new();
    let mut s = Cfs::new();
    let mut nap = Task::sleeping(1, "napper", 5, stack_no(0), ENTRY, 8, &mut t);
    nap.vruntime = 77;
    s.spawn(nap, &mut t);
    assert_eq!(s.begin_step(5).unwrap().vruntime, 77);
}

#[test]
fn interrupt_during_a_step_keeps_the_task_housed() {
    let mut t = PreemptTable::new();
    let mut s = RoundRobin::new();
    let id = spawn(&mut s, &mut t, "a", 1024);
    let mut task = s.begin_step(0).unwrap();
    let rsp0 = enter_task(&mut t, &task);
    assert_eq!(rsp0, task.stack.top);
    set_preemptible(&mut t, true);
    let irq = irq_at(task.stack.top - 0x400);
    lapic_preempt_stub(&mut t, &irq);
    assert!(t.frame_ok(task.slot as usize));
    assert_eq!(task_at(&t, task.slot as usize), Some(id));
    task.complete_step(true);
    set_preemptible(&mut t, false);
    leave_task(&mut t);
    s.end_step(task, &mut t);
    assert_eq!(s.alive(), 1);
    assert_eq!(t.switches(), 1);
}

fn irq_at(spill_rsp: u64) -> IrqSnapshot {
    IrqSnapshot {
        r15: 0,
        r14: 0,
        r13: 0,
        r12: 0,
        r11: 0,
        r10: 0,
        r9: 0,
        r8: 0,
        rdi: 0,
        rsi: 0,
        rbp: 0,
        rbx: 0,
        rdx: 0,
        rcx: 0,
        rax: 0,
        spill_rsp,
        rip: 5,
        cs: 8,
        rflags: 0x202,
    }
}

#[test]
fn interrupts_of_a_pass_save_into_the_running_slot() {
    let mut t = PreemptTable::new();
    let mut s = RoundRobin::new();
    spawn(&mut s, &mut t, "a", 1024);
    spawn(&mut s, &mut t, "b", 1024);
    let other = t.frame(1);
    let top = t.frame(0).rsp + 8;
    let irqs = vec![irq_at(top - 0x400), irq_at(top - 0x500)];
    assert!(s.schedule_once(0, end(true), &irqs, &mut t));
    assert_eq!(t.frame(0), irqs[1].to_frame());
    assert_eq!(t.frame(1), other);
    assert_eq!(t.switches(), 2);
    assert_eq!(t.ticks(), 2);
    assert!(t.frame_ok(0));
}

#[test]
fn only_the_step_is_preempted() {
    let mut t = PreemptTable::new();
    let mut task = Task::new(1, "a", stack_no(0), ENTRY, 8, &mut t);
    let irq = irq_at(task.stack.top - 0x400);
    let fresh = t.frame(0);
    lapic_preempt_stub(&mut t, &irq);
    enter_task(&mut t, &task);
    lapic_preempt_stub(&mut t, &irq);
    assert_eq!((t.switches(), t.frame(0)), (0, fresh));
    assert!(start_step(&mut t, &task));
    lapic_preempt_stub(&mut t, &irq);
    assert_eq!((t.switches(), t.frame(0)), (1, irq.to_frame()));
    finish_step(&mut t, &mut task, true);
    lapic_preempt_stub(&mut t, &irq);
    leave_task(&mut t);
    lapic_preempt_stub(&mut t, &irq);
    assert_eq!((t.switches(), t.ticks()), (1, 5));
}

#[test]
fn stacks_may_have_any_size() {
    let mut t = PreemptTable::new();
    let s = TaskStack::new(vec![0u8; 4096], 0xFFFF_9000_0000_0328);
    assert_eq!(s.top, 0xFFFF_9000_0000_1320);
    let task = Task::new(1, "small", s, ENTRY, 8, &mut t);
    assert_eq!(task.ctx.rsp, 0xFFFF_9000_0000_1320 - 64);
    assert!(task.stack.canary_ok());
    assert!(t.frame_ok(0));
}

#[test]
fn overflowed_stack_does_not_start() {
    let mut t = PreemptTable::new();
    let mut task = Task::new(1, "a", stack_no(0), ENTRY, 8, &mut t);
    assert!(entry_parity_ok(task.ctx.rsp + 56));
    assert!(!entry_parity_ok(task.ctx.rsp));
    enter_task(&mut t, &task);
    task.stack.backing[7] = 0;
    assert!(!start_step(&mut t, &task));
    let irq = irq_at(task.stack.top - 0x400);
    lapic_preempt_stub(&mut t, &irq);
    assert_eq!(t.switches(), 0);
}

#[test]
fn runs_never_drift_apart() {
    let mut t = PreemptTable::new();
    let mut s = RoundRobin::new();
    for n in ["a", "b", "c", "d"] {
        spawn(&mut s, &mut t, n, 1024);
    }
    for _ in 0..23 {
        step(&mut s, &mut t, 0, true);
        let runs: Vec<u64> = s.ledger().into_iter().map(|e| e.2).collect();
        let most = runs.iter().max().unwrap();
        let least = runs.iter().min().unwrap();
        assert!(most - least <= 1);
    }
}

#[test]
fn share_follows_weight() {
    let mut t = PreemptTable::new();
    let mut s = Cfs::new();
    spawn(&mut s, &mut t, "one", 1024);
    spawn(&mut s, &mut t, "two", 2048);
    spawn(&mut s, &mut t, "four", 4096);
    for _ in 0..70 {
        step(&mut s, &mut t, 0, true);
    }
    let runs: Vec<u64> = s.ledger().into_iter().map(|e| e.2).collect();
    assert_eq!(runs, vec![10, 20, 40]);
}
