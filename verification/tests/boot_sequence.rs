use rustycore::apic::SOAK_SPIN_GUARD;
use rustycore::boot::{
    after_soak, after_watch, announcement, demonstrated, ledger_fair, may_promote, next_stage,
    DemoTask, DemoVerdict, Driver, DriverVerdict, Phase, Soak, SoakVerdict, Stage, Watch,
    WatchVerdict, NAP_TICKS,
};
use rustycore::gdt::df_stack_top;
use rustycore::idt::{handler, init, interrupt, Counters, Ending, Gate, Handler};
use rustycore::interrupts;
use rustycore::preempt::PreemptTable;
use rustycore::serial::{tx_ready, Line};
use rustycore::task::round_robin::RoundRobin;
use rustycore::task::scheduler::Scheduler;
use rustycore::task::stack::TaskStack;
use rustycore::task::{enter_task, leave_task, Task};
use rustycore::{serial, syscall, timer};

fn write_str(text: &[u8]) -> Vec<u8> {
    let mut line = Line::write_str(text);
    let mut out = Vec::new();
    while let Some(b) = line.next_byte() {
        out.push(b);
    }
    assert_eq!(line.next_byte(), None);
    out
}

const STACK_SIZE_BYTES: usize = 131_072;

#[test]
fn soak_waits_for_both_clocks() {
    let mut s = Soak::new();
    assert_eq!(s.observe(19, 19), (false, SoakVerdict::Wait));
    assert_eq!(s.observe(20, 3), (true, SoakVerdict::Wait));
    assert_eq!((s.last_pic, s.last_apic, s.spins), (20, 3, 2));
    assert_eq!(s.observe(21, 23), (true, SoakVerdict::Wait));
    assert_eq!(s.observe(100, 99), (true, SoakVerdict::Wait));
    assert_eq!(s.observe(100, 100), (false, SoakVerdict::Proven));
}

#[test]
fn soak_failures() {
    assert_eq!(Soak::new().observe(100, 0).1, SoakVerdict::ApicSilent);
    assert_eq!(Soak::new().observe(99, 0).1, SoakVerdict::Wait);
    assert_eq!(Soak::new().observe(200, 99).1, SoakVerdict::ApicDegraded);
    assert_eq!(Soak::new().observe(199, 99).1, SoakVerdict::Wait);
    let mut s = Soak { last_pic: 0, last_apic: 0, spins: SOAK_SPIN_GUARD - 1 };
    assert_eq!(s.observe(0, 0).1, SoakVerdict::Wait);
    assert_eq!(s.observe(0, 0).1, SoakVerdict::Stalled);
}

#[test]
fn promotion_gate() {
    assert!(may_promote(100, 100));
    assert!(!may_promote(100, 99));
    assert!(!may_promote(99, 100));
}

#[test]
fn promotion_watch() {
    let mut w = Watch::new(500);
    assert_eq!(w.observe(519), (false, WatchVerdict::Wait));
    assert_eq!(w.observe(520), (true, WatchVerdict::Wait));
    assert_eq!(w.observe(599), (true, WatchVerdict::Wait));
    assert_eq!(w.observe(600), (false, WatchVerdict::Proven));
    let mut stalled = Watch { base: 5, last: 5, spins: SOAK_SPIN_GUARD - 1 };
    assert_eq!(stalled.observe(7).1, WatchVerdict::Wait);
    assert_eq!(stalled.observe(7).1, WatchVerdict::RollBack);
}

#[test]
fn demo_task_runs_five_times() {
    let mut d = DemoTask::new();
    let verdicts: Vec<bool> = (0..5).map(|_| d.step()).collect();
    assert_eq!(verdicts, vec![true, true, true, true, false]);
}

#[test]
fn driver_guards() {
    let mut d = Driver::new(7, 3);
    assert!(!d.fresh_tick(7));
    assert!(d.fresh_tick(8));
    assert_eq!(d.after_pass(false, 3), (0, DriverVerdict::Continue));
    assert_eq!(d.asleep_passes, 1);
    assert_eq!(d.after_pass(true, 5), (2, DriverVerdict::Continue));
    assert_eq!((d.asleep_passes, d.schedules, d.preempts), (0, 1, 2));
    let mut asleep = Driver { asleep_passes: 99, ..d };
    assert_eq!(asleep.after_pass(false, 5).1, DriverVerdict::Continue);
    assert_eq!(asleep.after_pass(false, 5).1, DriverVerdict::AsleepForever);
    let mut busy = Driver { schedules: 99, ..d };
    assert_eq!(busy.after_pass(true, 5).1, DriverVerdict::Continue);
    assert_eq!(busy.after_pass(true, 5).1, DriverVerdict::Runaway);
}

#[test]
fn demonstration_verdicts() {
    let fair = vec![(1, String::from("alpha"), 5), (4, String::from("napper"), 1)];
    let unfair = vec![(1, String::from("alpha"), 5), (4, String::from("napper"), 5)];
    assert!(ledger_fair(&fair));
    assert!(!ledger_fair(&unfair));
    assert!(!ledger_fair(&vec![(1, String::from("alpha"), 4)]));
    assert!(ledger_fair(&vec![]));
    let mut d = Driver::new(0, 0);
    assert_eq!(d.judge(&fair), DemoVerdict::ClockSilent);
    d.after_pass(true, 1);
    assert_eq!(d.judge(&fair), DemoVerdict::Fair);
    assert_eq!(d.judge(&unfair), DemoVerdict::Unfair);
}

#[test]
fn round_robin_demonstration_is_fair() {
    let mut table = PreemptTable::new();
    let mut sched = RoundRobin::new();
    let mut demos = vec![DemoTask::new(), DemoTask::new(), DemoTask::new()];
    for name in ["alpha", "beta", "gamma"] {
        let id = sched.next_id();
        let stack =
            TaskStack::new(vec![0u8; STACK_SIZE_BYTES], 0xFFFF_9000_0000_0000 + id as u64 * 0x40000);
        let task = Task::new(id, name, stack, 0x1000, 8, &mut table);
        sched.spawn(task, &mut table);
    }
    let id = sched.next_id();
    let stack = TaskStack::new(vec![0u8; STACK_SIZE_BYTES], 0xFFFF_9000_0040_0000);
    let nap = Task::sleeping(id, "napper", 200 + NAP_TICKS, stack, 0x1000, 8, &mut table);
    sched.spawn(nap, &mut table);
    let mut driver = Driver::new(200, 0);
    let mut tick = 200;
    let mut order = Vec::new();
    while sched.alive() > 0 {
        tick += 1;
        assert!(driver.fresh_tick(tick));
        let ran = match sched.begin_step(tick) {
            None => false,
            Some(mut task) => {
                enter_task(&mut table, &task);
                order.push(task.id);
                let alive = if task.name == "napper" {
                    false
                } else {
                    demos[task.id - 1].step()
                };
                task.complete_step(alive);
                leave_task(&mut table);
                sched.end_step(task, &mut table);
                true
            }
        };
        assert_eq!(driver.after_pass(ran, tick / 100 - 2 + 1).1, DriverVerdict::Continue);
    }
    assert_eq!(order, vec![1, 2, 3, 1, 2, 3, 1, 2, 3, 1, 2, 3, 1, 2, 3, 4]);
    assert_eq!(driver.judge(&sched.ledger()), DemoVerdict::Fair);
}

#[test]
fn interrupt_table() {
    let gates = init();
    let vectors: Vec<u8> = gates.iter().map(|g| g.vector).collect();
    assert_eq!(
        vectors,
        vec![0, 3, 6, 8, 12, 13, 14, 32, 33, 39, 47, 0x80, 0xEF, 0xFE, 0xFF]
    );
    for v in 0..=255u8 {
        assert_eq!(handler(v).is_some(), vectors.contains(&v));
    }
    assert_eq!(gates[3], Gate { vector: 8, handler: Handler::DoubleFault, ist: Some(0) });
    assert_eq!(gates[12], Gate { vector: 0xEF, handler: Handler::LapicTimer, ist: None });
}

#[test]
fn interrupts_count_and_end() {
    let mut c = Counters::new();
    assert_eq!(interrupt(&mut c, Handler::Timer), Ending::PicDone(32));
    assert_eq!(interrupt(&mut c, Handler::Keyboard), Ending::PicDone(33));
    assert_eq!(interrupt(&mut c, Handler::LapicTimer), Ending::LapicDone);
    assert_eq!(interrupt(&mut c, Handler::LapicError), Ending::LapicDone);
    assert_eq!(interrupt(&mut c, Handler::SpuriousApic), Ending::LapicDone);
    assert_eq!(interrupt(&mut c, Handler::SpuriousPicMaster), Ending::Return);
    assert_eq!(interrupt(&mut c, Handler::SpuriousPicSlave), Ending::PicDone(39));
    assert_eq!(interrupt(&mut c, Handler::Breakpoint), Ending::Return);
    assert_eq!(interrupt(&mut c, Handler::PageFault), Ending::Panic);
    assert_eq!(interrupt(&mut c, Handler::DoubleFault), Ending::Panic);
    assert_eq!(
        c,
        Counters { timer_ticks: 1, apic_ticks: 1, syscall_hits: 0, spurious_hits: 3 }
    );
}

#[test]
fn syscall_gate_counts_two() {
    let mut c = Counters::new();
    assert!(!syscall::self_test(c.syscall_hits));
    assert_eq!(interrupt(&mut c, Handler::Syscall), Ending::Return);
    assert_eq!(interrupt(&mut c, Handler::Syscall), Ending::Return);
    assert!(syscall::self_test(c.syscall_hits));
}

#[test]
fn legacy_controllers_start_masked() {
    assert_eq!(interrupts::init(), (0xFF, 0xFF));
    assert_eq!(interrupts::PIC_2_OFFSET, 40);
}

#[test]
fn legacy_timer_plan() {
    let p = timer::init((0xFF, 0xFF));
    assert_eq!(p.writes, [(0x43, 0x36), (0x40, 0x9B), (0x40, 0x2E)]);
    assert_eq!(p.masks, (0xFE, 0xFF));
}

#[test]
fn serial_line() {
    assert_eq!(
        serial::init(),
        [
            (0x3F9, 0x00),
            (0x3FB, 0x80),
            (0x3F8, 0x01),
            (0x3F9, 0x00),
            (0x3FB, 0x03),
            (0x3FA, 0xC7),
            (0x3FC, 0x0B)
        ]
    );
    assert!(tx_ready(0x60));
    assert!(!tx_ready(0x5F & !0x20));
    assert_eq!(write_str(b"a\nb\r\n\n"), b"a\r\nb\r\r\n\r\n".to_vec());
    assert_eq!(write_str(b""), Vec::<u8>::new());
}

#[test]
fn printing_in_pieces() {
    let mut pieces = write_str(b"one\n");
    pieces.extend(write_str(b"two\n"));
    assert_eq!(pieces, write_str(b"one\ntwo\n"));
}

#[test]
fn double_fault_stack() {
    assert_eq!(df_stack_top(0x10_0000), 0x10_5000);
    assert_eq!(df_stack_top(0x10_0010) % 16, 0);
}

#[test]
fn stages_come_in_turn() {
    let mut stage = Stage::Serial;
    let mut seen = vec![stage];
    while stage != Stage::Halt {
        stage = next_stage(stage, true);
        seen.push(stage);
    }
    assert_eq!(
        seen,
        vec![
            Stage::Serial,
            Stage::Segments,
            Stage::InterruptTable,
            Stage::Controllers,
            Stage::Probe,
            Stage::Memory,
            Stage::ApicInit,
            Stage::Timer,
            Stage::EnableInterrupts,
            Stage::Calibrate,
            Stage::Breakpoint,
            Stage::Syscall,
            Stage::StartPeriodic,
            Stage::Soak,
            Stage::Threshold,
            Stage::Promote,
            Stage::Watch,
            Stage::Demonstration,
            Stage::Halt,
        ]
    );
}

#[test]
fn failed_stages_end_the_boot() {
    assert_eq!(next_stage(Stage::Probe, false), Stage::Panic);
    assert_eq!(next_stage(Stage::Calibrate, false), Stage::Panic);
    assert_eq!(next_stage(Stage::Soak, false), Stage::Halt);
    assert_eq!(next_stage(Stage::Threshold, false), Stage::Halt);
    assert_eq!(next_stage(Stage::Promote, false), Stage::Panic);
    assert_eq!(next_stage(Stage::Watch, false), Stage::Halt);
    assert_eq!(next_stage(Stage::Demonstration, false), Stage::Halt);
    assert_eq!(next_stage(Stage::Halt, true), Stage::Halt);
    assert_eq!(next_stage(Stage::Panic, true), Stage::Panic);
}

#[test]
fn verdicts_decide_the_next_stage() {
    assert_eq!(after_soak(SoakVerdict::Wait), Stage::Soak);
    assert_eq!(after_soak(SoakVerdict::Proven), Stage::Threshold);
    assert_eq!(after_soak(SoakVerdict::ApicSilent), Stage::Threshold);
    assert_eq!(after_soak(SoakVerdict::ApicDegraded), Stage::Threshold);
    assert_eq!(after_soak(SoakVerdict::Stalled), Stage::Halt);
    assert_eq!(after_watch(WatchVerdict::Wait), Stage::Watch);
    assert_eq!(after_watch(WatchVerdict::Proven), Stage::Demonstration);
    assert_eq!(after_watch(WatchVerdict::RollBack), Stage::Halt);
    assert!(demonstrated(DemoVerdict::Fair));
    assert!(!demonstrated(DemoVerdict::ClockSilent));
    assert!(!demonstrated(DemoVerdict::Unfair));
}

fn announcements(failing: Option<Stage>) -> (Stage, Vec<Phase>) {
    let mut stage = Stage::Serial;
    let mut said = Vec::new();
    while stage != Stage::Halt && stage != Stage::Panic {
        let ok = Some(stage) != failing;
        said.extend(announcement(stage, ok));
        stage = next_stage(stage, ok);
    }
    (stage, said)
}

#[test]
fn a_boot_announces_one_phase() {
    assert_eq!(announcements(None), (Stage::Halt, vec![Phase::Three]));
    assert_eq!(announcements(Some(Stage::Watch)), (Stage::Halt, vec![Phase::Two]));
    assert_eq!(announcements(Some(Stage::Threshold)), (Stage::Halt, vec![Phase::Two]));
    assert_eq!(announcements(Some(Stage::Soak)), (Stage::Halt, vec![]));
    assert_eq!(announcements(Some(Stage::Demonstration)), (Stage::Halt, vec![]));
    assert_eq!(announcements(Some(Stage::Calibrate)), (Stage::Panic, vec![]));
}
