//! Decisions of the boot sequence: the order of its stages, the watch over both
//! clocks, the promotion of the APIC timer, and the driver of the scheduler
//! demonstration.
//!
//! Each is a state machine. The caller reads the clocks, hands the readings
//! in, and does what the verdict says.

use vstd::prelude::*;
use crate::apic::SOAK_SPIN_GUARD;
use crate::idt::SOAK_TICKS_EACH;

verus! {

/// A stage of the boot sequence.
#[derive(Debug, Clone, Copy, PartialEq, Eq, Structural)]
pub enum Stage {
    /// Set the serial line up; interrupts are off.
    Serial,
    /// Load segments and the double-fault stack.
    Segments,
    /// Load the interrupt table.
    InterruptTable,
    /// Remap and mask the legacy controllers.
    Controllers,
    /// Look for a local APIC. Fails if there is none.
    Probe,
    /// Frame allocator and heap.
    Memory,
    /// Map and enable the APIC.
    ApicInit,
    /// Start the legacy timer.
    Timer,
    /// Let interrupts in.
    EnableInterrupts,
    /// Calibrate the APIC timer.
    Calibrate,
    /// Raise and survive a breakpoint.
    Breakpoint,
    /// Raise two software interrupts and count them.
    Syscall,
    /// Start the APIC timer.
    StartPeriodic,
    /// Watch both clocks. Fails if both stall.
    Soak,
    /// Look whether both clocks are proven. Fails if not.
    Threshold,
    /// Make the APIC timer the master clock.
    Promote,
    /// Watch the promoted clock. Fails if it stalls: it is rolled back, and the
    /// kernel halts on the legacy clock.
    Watch,
    /// Run the scheduler demonstration. Fails unless it was fair.
    Demonstration,
    /// Nothing is left to do.
    Halt,
    /// The kernel cannot go on.
    Panic,
}

/// Position of a stage in the sequence; the two ends come last.
pub open spec fn rank(stage: Stage) -> int {
    match stage {
        Stage::Serial => 0,
        Stage::Segments => 1,
        Stage::InterruptTable => 2,
        Stage::Controllers => 3,
        Stage::Probe => 4,
        Stage::Memory => 5,
        Stage::ApicInit => 6,
        Stage::Timer => 7,
        Stage::EnableInterrupts => 8,
        Stage::Calibrate => 9,
        Stage::Breakpoint => 10,
        Stage::Syscall => 11,
        Stage::StartPeriodic => 12,
        Stage::Soak => 13,
        Stage::Threshold => 14,
        Stage::Promote => 15,
        Stage::Watch => 16,
        Stage::Demonstration => 17,
        Stage::Halt => 18,
        Stage::Panic => 19,
    }
}

/// The sequence has ended.
pub open spec fn ended(stage: Stage) -> bool {
    stage == Stage::Halt || stage == Stage::Panic
}

/// A failure of this stage is no fault: the kernel stops in good order.
pub open spec fn stops_quietly(stage: Stage) -> bool {
    stage == Stage::Soak || stage == Stage::Threshold || stage == Stage::Watch || stage
        == Stage::Demonstration
}

/// `next` follows `stage`, which succeeded or not: the one after it in the
/// sequence, or an end.
pub open spec fn follows(stage: Stage, ok: bool, next: Stage) -> bool {
    if ended(stage) {
        next == stage
    } else if ok {
        rank(next) == rank(stage) + 1
    } else {
        next == if stops_quietly(stage) {
            Stage::Halt
        } else {
            Stage::Panic
        }
    }
}

/// The stage that follows `stage`, which succeeded or not.
pub fn next_stage(stage: Stage, ok: bool) -> (next: Stage)
    ensures
        follows(stage, ok, next),
{
    if !ok {
        return match stage {
            Stage::Halt => Stage::Halt,
            Stage::Soak => Stage::Halt,
            Stage::Threshold => Stage::Halt,
            Stage::Watch => Stage::Halt,
            Stage::Demonstration => Stage::Halt,
            _ => Stage::Panic,
        };
    }
    match stage {
        Stage::Serial => Stage::Segments,
        Stage::Segments => Stage::InterruptTable,
        Stage::InterruptTable => Stage::Controllers,
        Stage::Controllers => Stage::Probe,
        Stage::Probe => Stage::Memory,
        Stage::Memory => Stage::ApicInit,
        Stage::ApicInit => Stage::Timer,
        Stage::Timer => Stage::EnableInterrupts,
        Stage::EnableInterrupts => Stage::Calibrate,
        Stage::Calibrate => Stage::Breakpoint,
        Stage::Breakpoint => Stage::Syscall,
        Stage::Syscall => Stage::StartPeriodic,
        Stage::StartPeriodic => Stage::Soak,
        Stage::Soak => Stage::Threshold,
        Stage::Threshold => Stage::Promote,
        Stage::Promote => Stage::Watch,
        Stage::Watch => Stage::Demonstration,
        Stage::Demonstration => Stage::Halt,
        Stage::Halt => Stage::Halt,
        Stage::Panic => Stage::Panic,
    }
}

/// A run of the sequence: each stage follows the one before it, which succeeded
/// or not as `ok` tells.
pub open spec fn boots(stages: Seq<Stage>, ok: Seq<bool>) -> bool {
    &&& stages.len() > 0
    &&& stages[0] == Stage::Serial
    &&& ok.len() == stages.len()
    &&& forall|i: int|
        0 <= i < stages.len() - 1 ==> follows(#[trigger] stages[i], ok[i], stages[i + 1])
}

/// Law: nothing happens out of turn. In every run of the sequence the stage at
/// position `i` that has not ended it is the one whose turn it is, and all
/// stages before it succeeded. So interrupts come in only after the interrupt
/// table, the controllers and the timer are set up, memory comes before the
/// APIC, and nobody is promoted before both clocks are proven.
pub proof fn law_stages_in_turn(stages: Seq<Stage>, ok: Seq<bool>, i: int)
    requires
        boots(stages, ok),
        0 <= i < stages.len(),
        !ended(stages[i]),
    ensures
        rank(stages[i]) == i,
        forall|j: int| 0 <= j < i ==> rank(#[trigger] stages[j]) == j && ok[j],
    decreases i,
{
    if i > 0 {
        assert(follows(stages[i - 1], ok[i - 1], stages[i - 1 + 1]));
        law_stages_in_turn(stages, ok, i - 1);
    }
}

/// Ticks between two progress lines.
pub const PROGRESS_TICKS: u64 = 20;

/// The watch over both clocks before promotion.
#[derive(Debug, Clone, Copy, PartialEq, Eq, Structural)]
pub struct Soak {
    /// Readings at the last progress line.
    pub last_pic: u64,
    pub last_apic: u64,
    /// Readings so far that settled nothing.
    pub spins: u64,
}

/// What a reading of both clocks means.
#[derive(Debug, Clone, Copy, PartialEq, Eq, Structural)]
pub enum SoakVerdict {
    /// Read again.
    Wait,
    /// Both clocks reached the threshold.
    Proven,
    /// The legacy clock reached the threshold, the other never ticked.
    ApicSilent,
    /// The legacy clock passed the threshold twice before the other reached it.
    ApicDegraded,
    /// Neither settled within the guard.
    Stalled,
}

/// Both clocks reached the threshold.
pub open spec fn both_alive(pic: u64, apic: u64) -> bool {
    pic >= SOAK_TICKS_EACH && apic >= SOAK_TICKS_EACH
}

/// The verdict on a reading, after `spins` readings that settled nothing.
pub open spec fn soak_verdict(spins: u64, pic: u64, apic: u64) -> SoakVerdict {
    if both_alive(pic, apic) {
        SoakVerdict::Proven
    } else if pic >= SOAK_TICKS_EACH && apic == 0 {
        SoakVerdict::ApicSilent
    } else if pic >= SOAK_TICKS_EACH * 2 && apic < SOAK_TICKS_EACH {
        SoakVerdict::ApicDegraded
    } else if spins >= SOAK_SPIN_GUARD {
        SoakVerdict::Stalled
    } else {
        SoakVerdict::Wait
    }
}

/// One of the clocks has moved enough since the last progress line.
pub open spec fn soak_progress(s: Soak, pic: u64, apic: u64) -> bool {
    pic >= s.last_pic + PROGRESS_TICKS || apic >= s.last_apic + PROGRESS_TICKS
}

impl Soak {
    /// A watch that has seen nothing.
    pub fn new() -> (s: Self)
        ensures
            s == (Soak { last_pic: 0, last_apic: 0, spins: 0 }),
    {
        Soak { last_pic: 0, last_apic: 0, spins: 0 }
    }

    /// Take a reading of both clocks. The flag says whether a progress line is
    /// due.
    pub fn observe(&mut self, pic: u64, apic: u64) -> (r: (bool, SoakVerdict))
        requires
            old(self).last_pic + PROGRESS_TICKS <= u64::MAX,
            old(self).last_apic + PROGRESS_TICKS <= u64::MAX,
            old(self).spins <= SOAK_SPIN_GUARD,
        ensures
            r.0 == soak_progress(*old(self), pic, apic),
            r.1 == soak_verdict(old(self).spins, pic, apic),
            final(self).last_pic == if r.0 {
                pic
            } else {
                old(self).last_pic
            },
            final(self).last_apic == if r.0 {
                apic
            } else {
                old(self).last_apic
            },
            final(self).spins == if r.1 == SoakVerdict::Wait || r.1 == SoakVerdict::Stalled {
                old(self).spins + 1
            } else {
                old(self).spins as int
            },
    {
        let progress = pic >= self.last_pic + PROGRESS_TICKS || apic >= self.last_apic
            + PROGRESS_TICKS;
        if progress {
            self.last_pic = pic;
            self.last_apic = apic;
        }
        if pic >= SOAK_TICKS_EACH && apic >= SOAK_TICKS_EACH {
            return (progress, SoakVerdict::Proven);
        }
        if pic >= SOAK_TICKS_EACH && apic == 0 {
            return (progress, SoakVerdict::ApicSilent);
        }
        if pic >= SOAK_TICKS_EACH * 2 && apic < SOAK_TICKS_EACH {
            return (progress, SoakVerdict::ApicDegraded);
        }
        self.spins = self.spins + 1;
        if self.spins > SOAK_SPIN_GUARD {
            return (progress, SoakVerdict::Stalled);
        }
        (progress, SoakVerdict::Wait)
    }
}

/// Whether the APIC timer may be promoted: both clocks are proven.
pub fn may_promote(pic: u64, apic: u64) -> (ok: bool)
    ensures
        ok == both_alive(pic, apic),
{
    !(pic < SOAK_TICKS_EACH || apic < SOAK_TICKS_EACH)
}

/// Law: the soak ends. It waits only while the guard has room, and a reading
/// that proves both clocks ends it whatever came before.
pub proof fn law_soak_ends(spins: u64, pic: u64, apic: u64)
    ensures
        soak_verdict(spins, pic, apic) == SoakVerdict::Wait ==> spins < SOAK_SPIN_GUARD,
        both_alive(pic, apic) <==> soak_verdict(spins, pic, apic) == SoakVerdict::Proven,
{
}

/// Law: nobody is promoted on one clock. Where the soak ends without proving the
/// APIC timer, the same readings do not pass the promotion threshold; and readings
/// that pass still pass later, as counters only grow.
pub proof fn law_promotion_needs_both(spins: u64, pic: u64, apic: u64, pic2: u64, apic2: u64)
    requires
        pic <= pic2,
        apic <= apic2,
    ensures
        soak_verdict(spins, pic, apic) is ApicSilent ==> !both_alive(pic, apic),
        soak_verdict(spins, pic, apic) is ApicDegraded ==> !both_alive(pic, apic),
        soak_verdict(spins, pic, apic) is Proven ==> both_alive(pic2, apic2),
{
}

/// What a verdict on both clocks leads to: more readings, the look at the
/// threshold, or the end.
pub open spec fn soak_leads_to(verdict: SoakVerdict) -> Stage {
    match verdict {
        SoakVerdict::Wait => Stage::Soak,
        SoakVerdict::Stalled => Stage::Halt,
        _ => Stage::Threshold,
    }
}

/// The stage after a verdict on both clocks. One that is silent or degraded is
/// left to the threshold.
pub fn after_soak(verdict: SoakVerdict) -> (next: Stage)
    ensures
        next == soak_leads_to(verdict),
{
    match verdict {
        SoakVerdict::Wait => Stage::Soak,
        SoakVerdict::Stalled => Stage::Halt,
        _ => Stage::Threshold,
    }
}

/// The watch over the APIC timer after promotion.
#[derive(Debug, Clone, Copy, PartialEq, Eq, Structural)]
pub struct Watch {
    /// Reading when the watch began.
    pub base: u64,
    /// Reading at the last progress line.
    pub last: u64,
    /// Readings so far that settled nothing.
    pub spins: u64,
}

/// What a reading after promotion means.
#[derive(Debug, Clone, Copy, PartialEq, Eq, Structural)]
pub enum WatchVerdict {
    /// Read again.
    Wait,
    /// The timer ticked through the threshold on its own.
    Proven,
    /// It stalled: give the clock back to the legacy timer.
    RollBack,
}

/// The verdict on a reading, after `spins` readings that settled nothing.
pub open spec fn watch_verdict(base: u64, spins: u64, apic: u64) -> WatchVerdict {
    if apic - base >= SOAK_TICKS_EACH {
        WatchVerdict::Proven
    } else if spins >= SOAK_SPIN_GUARD {
        WatchVerdict::RollBack
    } else {
        WatchVerdict::Wait
    }
}

impl Watch {
    /// Begin a watch at reading `apic`.
    pub fn new(apic: u64) -> (w: Self)
        ensures
            w == (Watch { base: apic, last: apic, spins: 0 }),
    {
        Watch { base: apic, last: apic, spins: 0 }
    }

    /// Take a reading. The flag says whether a progress line is due.
    pub fn observe(&mut self, apic: u64) -> (r: (bool, WatchVerdict))
        requires
            old(self).base <= apic,
            old(self).last + PROGRESS_TICKS <= u64::MAX,
            old(self).spins <= SOAK_SPIN_GUARD,
        ensures
            r.0 == (apic >= old(self).last + PROGRESS_TICKS),
            r.1 == watch_verdict(old(self).base, old(self).spins, apic),
            final(self).base == old(self).base,
            final(self).last == if r.0 {
                apic
            } else {
                old(self).last
            },
            final(self).spins == if r.1 == WatchVerdict::Proven {
                old(self).spins as int
            } else {
                old(self).spins + 1
            },
    {
        let progress = apic >= self.last + PROGRESS_TICKS;
        if progress {
            self.last = apic;
        }
        if apic - self.base >= SOAK_TICKS_EACH {
            return (progress, WatchVerdict::Proven);
        }
        self.spins = self.spins + 1;
        if self.spins > SOAK_SPIN_GUARD {
            return (progress, WatchVerdict::RollBack);
        }
        (progress, WatchVerdict::Wait)
    }
}

/// What a verdict on the promoted clock leads to: more readings, the
/// demonstration, or the end.
pub open spec fn watch_leads_to(verdict: WatchVerdict) -> Stage {
    match verdict {
        WatchVerdict::Wait => Stage::Watch,
        WatchVerdict::Proven => Stage::Demonstration,
        WatchVerdict::RollBack => Stage::Halt,
    }
}

/// The stage after a verdict on the promoted clock. A clock that was rolled back
/// ends the boot.
pub fn after_watch(verdict: WatchVerdict) -> (next: Stage)
    ensures
        next == watch_leads_to(verdict),
{
    match verdict {
        WatchVerdict::Wait => Stage::Watch,
        WatchVerdict::Proven => Stage::Demonstration,
        WatchVerdict::RollBack => Stage::Halt,
    }
}

/// Law: a promotion ends in proof or in a rollback, never in silence: a timer
/// that does not reach the threshold is rolled back once the guard is spent, one that
/// reaches it never is.
pub proof fn law_stalled_timer_is_rolled_back(base: u64, spins: u64, apic: u64)
    ensures
        apic - base < SOAK_TICKS_EACH && spins >= SOAK_SPIN_GUARD <==> watch_verdict(
            base,
            spins,
            apic,
        ) == WatchVerdict::RollBack,
        watch_verdict(base, spins, apic) == WatchVerdict::Wait ==> spins < SOAK_SPIN_GUARD,
{
}

/// Passes after which the demonstration counts as stuck.
pub const SCHED_RUNAWAY_GUARD: u64 = 100;

/// Runs of each demonstration task.
pub const SCHED_FAIR_RUNS: u64 = 5;

/// Ticks that the sleeping task sleeps.
pub const NAP_TICKS: u64 = 20;

/// A demonstration task: it counts its steps and stops after the last.
#[derive(Debug, Clone, Copy, PartialEq, Eq, Structural)]
pub struct DemoTask {
    pub steps: u64,
}

impl DemoTask {
    /// A task that has not run.
    pub fn new() -> (t: Self)
        ensures
            t.steps == 0,
    {
        DemoTask { steps: 0 }
    }

    /// One step; whether the task wants another.
    pub fn step(&mut self) -> (alive: bool)
        requires
            old(self).steps < u64::MAX,
        ensures
            final(self).steps == old(self).steps + 1,
            alive == (final(self).steps < SCHED_FAIR_RUNS),
    {
        self.steps = self.steps + 1;
        self.steps < SCHED_FAIR_RUNS
    }
}

/// Books of the driver of the demonstration.
#[derive(Debug, Clone, Copy, PartialEq, Eq, Structural)]
pub struct Driver {
    /// Tick of the last pass.
    pub last_tick: u64,
    /// Passes that ran a task.
    pub schedules: u64,
    /// Passes in a row that found everybody asleep.
    pub asleep_passes: u64,
    /// Yanks seen so far.
    pub preempts: u64,
    /// Counter of yanks at the last look.
    pub last_switches: u64,
}

/// What a pass means for the demonstration.
#[derive(Debug, Clone, Copy, PartialEq, Eq, Structural)]
pub enum DriverVerdict {
    /// Go on.
    Continue,
    /// Nobody woke for too long: the ticks are dead.
    AsleepForever,
    /// Too many passes: a task never finishes.
    Runaway,
}

/// How the demonstration ended.
#[derive(Debug, Clone, Copy, PartialEq, Eq, Structural)]
pub enum DemoVerdict {
    Fair,
    /// The preemption clock never showed.
    ClockSilent,
    /// Somebody had more or fewer runs than its share.
    Unfair,
}

impl Driver {
    pub open spec fn well_formed(self) -> bool {
        self.schedules <= SCHED_RUNAWAY_GUARD && self.asleep_passes <= SCHED_RUNAWAY_GUARD
    }

    /// A driver that starts at tick `tick`. Yanks before that, counted in
    /// `switches`, are not its own.
    pub fn new(tick: u64, switches: u64) -> (d: Self)
        ensures
            d.well_formed(),
            d == (Driver {
                last_tick: tick,
                schedules: 0,
                asleep_passes: 0,
                preempts: 0,
                last_switches: switches,
            }),
    {
        Driver { last_tick: tick, schedules: 0, asleep_passes: 0, preempts: 0, last_switches: switches }
    }

    /// Whether a fresh tick came, so that the next pass may run.
    pub fn fresh_tick(&mut self, tick: u64) -> (fresh: bool)
        ensures
            fresh == (tick != old(self).last_tick),
            *final(self) == (Driver { last_tick: tick, ..*old(self) }),
    {
        if tick != self.last_tick {
            self.last_tick = tick;
            return true;
        }
        false
    }

    /// Book a pass: whether it ran a task, and where the counter of yanks
    /// stands. The number says how many yanks are new.
    pub fn after_pass(&mut self, ran: bool, switches: u64) -> (r: (u64, DriverVerdict))
        requires
            old(self).well_formed(),
            old(self).preempts + switches.wrapping_sub(old(self).last_switches) <= u64::MAX,
        ensures
            r.1 == DriverVerdict::Continue ==> final(self).well_formed(),
            if !ran {
                &&& r.0 == 0
                &&& *final(self) == (Driver {
                    asleep_passes: (old(self).asleep_passes + 1) as u64,
                    ..*old(self)
                })
                &&& r.1 == if old(self).asleep_passes >= SCHED_RUNAWAY_GUARD {
                    DriverVerdict::AsleepForever
                } else {
                    DriverVerdict::Continue
                }
            } else {
                &&& r.0 == switches.wrapping_sub(old(self).last_switches)
                &&& *final(self) == (Driver {
                    asleep_passes: 0,
                    schedules: (old(self).schedules + 1) as u64,
                    preempts: (old(self).preempts + r.0) as u64,
                    last_switches: switches,
                    ..*old(self)
                })
                &&& r.1 == if old(self).schedules >= SCHED_RUNAWAY_GUARD {
                    DriverVerdict::Runaway
                } else {
                    DriverVerdict::Continue
                }
            },
    {
        if !ran {
            self.asleep_passes = self.asleep_passes + 1;
            if self.asleep_passes > SCHED_RUNAWAY_GUARD {
                return (0, DriverVerdict::AsleepForever);
            }
            return (0, DriverVerdict::Continue);
        }
        self.asleep_passes = 0;
        self.schedules = self.schedules + 1;
        let new: u64 = switches.wrapping_sub(self.last_switches);
        self.last_switches = switches;
        self.preempts = self.preempts + new;
        if self.schedules > SCHED_RUNAWAY_GUARD {
            return (new, DriverVerdict::Runaway);
        }
        (new, DriverVerdict::Continue)
    }

    /// Judge the demonstration by the yanks seen and the ledger.
    pub fn judge(&self, ledger: &Vec<(usize, String, u64)>) -> (v: DemoVerdict)
        ensures
            v == if self.preempts == 0 {
                DemoVerdict::ClockSilent
            } else if fair(ledger@) {
                DemoVerdict::Fair
            } else {
                DemoVerdict::Unfair
            },
    {
        if self.preempts == 0 {
            return DemoVerdict::ClockSilent;
        }
        if ledger_fair(ledger) {
            DemoVerdict::Fair
        } else {
            DemoVerdict::Unfair
        }
    }
}

/// The runs that an entry should show: one for the sleeper, the full share for
/// everybody else.
pub open spec fn share(name: Seq<char>) -> u64 {
    if name == "napper"@ {
        1
    } else {
        SCHED_FAIR_RUNS
    }
}

/// Every entry shows its share.
pub open spec fn fair(ledger: Seq<(usize, String, u64)>) -> bool {
    forall|i: int| 0 <= i < ledger.len() ==> (#[trigger] ledger[i]).2 == share(ledger[i].1@)
}

/// Whether every entry of the ledger shows its share.
pub fn ledger_fair(ledger: &Vec<(usize, String, u64)>) -> (ok: bool)
    ensures
        ok == fair(ledger@),
{
    let napper = "napper".to_owned();
    let mut ok = true;
    let mut i: usize = 0;
    while i < ledger.len()
        invariant
            i <= ledger@.len(),
            napper@ == "napper"@,
            ok == fair(ledger@.take(i as int)),
        decreases ledger@.len() - i,
    {
        let want: u64 = if ledger[i].1 == napper {
            1
        } else {
            SCHED_FAIR_RUNS
        };
        if ledger[i].2 != want {
            ok = false;
        }
        proof {
            let before = ledger@.take(i as int);
            let after = ledger@.take(i + 1);
            assert(after[i as int] == ledger@[i as int]);
            assert forall|j: int| 0 <= j < i implies before[j] == after[j] by {}
            if fair(after) {
                assert forall|j: int| 0 <= j < i implies (#[trigger] before[j]).2 == share(
                    before[j].1@,
                ) by {
                    assert(before[j] == after[j]);
                }
            }
        }
        i = i + 1;
    }
    assert(ledger@.take(i as int) =~= ledger@);
    ok
}

// ---------------------------------------------------------------------------
// How a boot ends
// ---------------------------------------------------------------------------
/// How far a boot says that it came.
#[derive(Debug, Clone, Copy, PartialEq, Eq, Structural)]
pub enum Phase {
    /// Interrupts work; the legacy timer is the master clock.
    Two,
    /// Tasks run, preempted by the APIC timer.
    Three,
}

/// The phase that a stage announces when it is through. Nothing but a fair
/// demonstration announces the third; nothing but a clock that was not promoted,
/// or was rolled back, announces the second.
pub open spec fn announces(stage: Stage, ok: bool) -> Option<Phase> {
    if stage == Stage::Demonstration && ok {
        Some(Phase::Three)
    } else if (stage == Stage::Threshold || stage == Stage::Watch) && !ok {
        Some(Phase::Two)
    } else {
        None
    }
}

/// The phase that a stage announces when it is through.
pub fn announcement(stage: Stage, ok: bool) -> (phase: Option<Phase>)
    ensures
        phase == announces(stage, ok),
{
    match stage {
        Stage::Demonstration => if ok {
            Some(Phase::Three)
        } else {
            None
        },
        Stage::Threshold | Stage::Watch => if ok {
            None
        } else {
            Some(Phase::Two)
        },
        _ => None,
    }
}

/// Whether the demonstration counts as a success.
pub fn demonstrated(verdict: DemoVerdict) -> (ok: bool)
    ensures
        ok == (verdict == DemoVerdict::Fair),
{
    match verdict {
        DemoVerdict::Fair => true,
        _ => false,
    }
}

/// What the stages of a boot were decided by: the verdicts of the soak and of the
/// watch, the clocks at the threshold, and the books and the ledger of the
/// demonstration.
pub ghost struct Evidence {
    pub soak: SoakVerdict,
    pub pic: u64,
    pub apic: u64,
    pub watch: WatchVerdict,
    pub driver: Driver,
    pub ledger: Seq<(usize, String, u64)>,
}

/// The demonstration was preempted and fair.
pub open spec fn preempted_fairly(e: Evidence) -> bool {
    e.driver.preempts > 0 && fair(e.ledger)
}

/// A run of the sequence whose stages succeeded as the evidence says. The
/// demonstration succeeds only if it was preempted and fair; it may also be
/// broken off.
pub open spec fn boots_on(stages: Seq<Stage>, ok: Seq<bool>, e: Evidence) -> bool {
    &&& boots(stages, ok)
    &&& forall|i: int|
        0 <= i < stages.len() ==> {
            &&& #[trigger] stages[i] == Stage::Soak ==> ok[i] == (soak_leads_to(e.soak)
                == Stage::Threshold)
            &&& stages[i] == Stage::Threshold ==> ok[i] == both_alive(e.pic, e.apic)
            &&& stages[i] == Stage::Watch ==> ok[i] == (watch_leads_to(e.watch)
                == Stage::Demonstration)
            &&& stages[i] == Stage::Demonstration && ok[i] ==> preempted_fairly(e)
        }
}

/// Law: a settled verdict on a clock and the outcome of its stage agree on what
/// follows.
pub proof fn law_verdicts_decide_the_stage(soak: SoakVerdict, watch: WatchVerdict)
    ensures
        soak != SoakVerdict::Wait ==> follows(
            Stage::Soak,
            soak_leads_to(soak) == Stage::Threshold,
            soak_leads_to(soak),
        ),
        watch != WatchVerdict::Wait ==> follows(
            Stage::Watch,
            watch_leads_to(watch) == Stage::Demonstration,
            watch_leads_to(watch),
        ),
{
}

/// Law: the demonstration runs only on a proven clock. It is reached only after
/// both clocks passed the threshold and the promoted one passed its watch.
pub proof fn law_demonstration_needs_a_proven_clock(
    stages: Seq<Stage>,
    ok: Seq<bool>,
    e: Evidence,
    i: int,
)
    requires
        boots_on(stages, ok, e),
        0 <= i < stages.len(),
        stages[i] == Stage::Demonstration,
    ensures
        e.watch == WatchVerdict::Proven,
        both_alive(e.pic, e.apic),
        i == rank(Stage::Demonstration),
        stages[i - 1] == Stage::Watch,
        ok[i - 1],
{
    law_stages_in_turn(stages, ok, i);
    assert(rank(stages[i - 1]) == i - 1);
    assert(rank(stages[i - 3]) == i - 3);
    assert(stages[i - 3] == Stage::Threshold);
}

/// Law: a boot whose clock was rolled back halts. What follows its watch is the
/// end, in good order, and the demonstration never comes.
pub proof fn law_rolled_back_boot_halts(stages: Seq<Stage>, ok: Seq<bool>, e: Evidence, i: int)
    requires
        boots_on(stages, ok, e),
        e.watch == WatchVerdict::RollBack,
        0 <= i < stages.len(),
    ensures
        stages[i] != Stage::Demonstration,
        stages[i] == Stage::Watch && i + 1 < stages.len() ==> stages[i + 1] == Stage::Halt,
        announces(stages[i], ok[i]) != Some(Phase::Three),
        stages[i] == Stage::Watch ==> announces(stages[i], ok[i]) == Some(Phase::Two),
{
    if stages[i] == Stage::Demonstration {
        law_demonstration_needs_a_proven_clock(stages, ok, e, i);
    }
    if stages[i] == Stage::Watch && i + 1 < stages.len() {
        assert(follows(stages[i], ok[i], stages[i + 1]));
    }
}

/// Law: a boot announces one phase at most. One that announces the third was
/// preempted at least once, was fair, and ran on a promoted clock that was
/// proven; it never announces the second.
pub proof fn law_one_announcement(
    stages: Seq<Stage>,
    ok: Seq<bool>,
    e: Evidence,
    i: int,
    j: int,
)
    requires
        boots_on(stages, ok, e),
        0 <= i < stages.len(),
        0 <= j < stages.len(),
        announces(stages[i], ok[i]) is Some,
        announces(stages[j], ok[j]) is Some,
    ensures
        i == j,
        announces(stages[i], ok[i]) == Some(Phase::Three) ==> {
            &&& e.driver.preempts > 0
            &&& fair(e.ledger)
            &&& e.watch == WatchVerdict::Proven
            &&& both_alive(e.pic, e.apic)
        },
{
    law_stages_in_turn(stages, ok, i);
    law_stages_in_turn(stages, ok, j);
    if announces(stages[i], ok[i]) == Some(Phase::Three) {
        law_demonstration_needs_a_proven_clock(stages, ok, e, i);
    }
}

// ---------------------------------------------------------------------------
// What the decisions come to
// ---------------------------------------------------------------------------
/// Law: the soak judges a clock only with cause. Both clocks are proven exactly
/// when each has ticked a hundred times. The APIC timer is silent exactly if it has
/// not ticked at all by then; it is degraded exactly if it is still short of a
/// hundred when the legacy timer has two hundred. Every other reading waits until
/// the guard is spent, and means a stall from then on.
pub proof fn law_soak_judges_with_cause(
    soak: &mut Soak,
    pic: u64,
    apic: u64,
    r: (bool, SoakVerdict),
)
    requires
        old(soak).last_pic + 20 <= u64::MAX,
        old(soak).last_apic + 20 <= u64::MAX,
        old(soak).spins <= 100_000_000,
        call_ensures(Soak::observe, (soak, pic, apic), r),
    ensures
        ({
            let proven = pic >= 100 && apic >= 100;
            let silent = pic >= 100 && apic == 0;
            let degraded = pic >= 200 && 0 < apic < 100;
            let settled = proven || silent || degraded;
            &&& r.1 == SoakVerdict::Proven <==> proven
            &&& r.1 == SoakVerdict::ApicSilent <==> silent
            &&& r.1 == SoakVerdict::ApicDegraded <==> degraded
            &&& r.1 == SoakVerdict::Wait <==> !settled && old(soak).spins < 100_000_000
            &&& r.1 == SoakVerdict::Stalled <==> !settled && old(soak).spins == 100_000_000
            &&& final(soak).spins == old(soak).spins + if settled {
                0int
            } else {
                1int
            }
        }),
{
}

/// Law: the soak narrates. A progress line is due exactly if one of the clocks has
/// moved by twenty ticks since the last, and it notes both.
pub proof fn law_soak_narrates(soak: &mut Soak, pic: u64, apic: u64, r: (bool, SoakVerdict))
    requires
        old(soak).last_pic + 20 <= u64::MAX,
        old(soak).last_apic + 20 <= u64::MAX,
        old(soak).spins <= 100_000_000,
        call_ensures(Soak::observe, (soak, pic, apic), r),
    ensures
        r.0 <==> pic - old(soak).last_pic >= 20 || apic - old(soak).last_apic >= 20,
        r.0 ==> final(soak).last_pic == pic && final(soak).last_apic == apic,
        !r.0 ==> final(soak).last_pic == old(soak).last_pic && final(soak).last_apic
            == old(soak).last_apic,
{
}

/// Law: a healthy boot is promoted. A legacy timer that started earlier and is
/// ahead does not end the soak while the APIC timer ticks and is not lapped; a
/// reading that proves both leads to the threshold, and passes it then and at any
/// later reading. One that gave up on the APIC timer does not pass.
pub proof fn law_healthy_boot_is_promoted(
    soak: &mut Soak,
    pic: u64,
    apic: u64,
    r: (bool, SoakVerdict),
    next: Stage,
    later_pic: u64,
    later_apic: u64,
    ok: bool,
)
    requires
        old(soak).last_pic + 20 <= u64::MAX,
        old(soak).last_apic + 20 <= u64::MAX,
        old(soak).spins <= 100_000_000,
        call_ensures(Soak::observe, (soak, pic, apic), r),
        call_ensures(after_soak, (r.1,), next),
        call_ensures(may_promote, (later_pic, later_apic), ok),
        pic <= later_pic,
        apic <= later_apic,
    ensures
        ok <==> later_pic >= 100 && later_apic >= 100,
        0 < apic < 100 && pic < 200 && old(soak).spins < 100_000_000 ==> next == Stage::Soak,
        pic >= 100 && apic >= 100 ==> next == Stage::Threshold && ok,
        r.1 is ApicSilent || r.1 is ApicDegraded ==> next == Stage::Threshold,
        (r.1 is ApicSilent || r.1 is ApicDegraded) && later_apic == apic ==> !ok,
        next == Stage::Halt <==> r.1 == SoakVerdict::Stalled,
        next == Stage::Soak <==> r.1 == SoakVerdict::Wait,
{
}

/// Law: a promoted clock is proven by a hundred ticks of its own and rolled back
/// if it has not made them when the guard is spent. A proven one goes on to the
/// demonstration, one that was rolled back ends the boot.
pub proof fn law_watch_judges_with_cause(
    watch: &mut Watch,
    apic: u64,
    r: (bool, WatchVerdict),
    next: Stage,
)
    requires
        old(watch).base <= apic,
        old(watch).last + 20 <= u64::MAX,
        old(watch).spins <= 100_000_000,
        call_ensures(Watch::observe, (watch, apic), r),
        call_ensures(after_watch, (r.1,), next),
    ensures
        ({
            let proven = apic - old(watch).base >= 100;
            &&& r.1 == WatchVerdict::Proven <==> proven
            &&& r.1 == WatchVerdict::RollBack <==> !proven && old(watch).spins == 100_000_000
            &&& r.1 == WatchVerdict::Wait <==> !proven && old(watch).spins < 100_000_000
            &&& next == Stage::Demonstration <==> proven
            &&& next == Stage::Watch <==> r.1 == WatchVerdict::Wait
            &&& next == Stage::Halt <==> r.1 == WatchVerdict::RollBack
            &&& final(watch).base == old(watch).base
            &&& final(watch).spins == old(watch).spins + if proven {
                0int
            } else {
                1int
            }
            &&& r.0 <==> apic - old(watch).last >= 20
            &&& final(watch).last == if r.0 {
                apic
            } else {
                old(watch).last
            }
        }),
{
}

/// Law: a watch starts fresh. Both watches begin with the guard unspent, and the
/// watch over the promoted clock counts from where that clock stood.
pub proof fn law_watches_start_fresh(soak: Soak, apic: u64, watch: Watch)
    requires
        call_ensures(Soak::new, (), soak),
        call_ensures(Watch::new, (apic,), watch),
    ensures
        soak.spins == 0,
        soak.last_pic == 0,
        soak.last_apic == 0,
        watch.spins == 0,
        watch.base == apic,
        watch.last == apic,
{
}

/// Law: the place of every stage. In every run of the sequence a stage that is
/// reached is reached at one and the same position: the serial line first, so that
/// everything can be told; segments, then the interrupt table, then the controllers
/// before any interrupt may come; the probe before memory, memory before the APIC
/// is mapped, the legacy timer before interrupts are let in, and both before the
/// calibration that needs them; both clocks run before they are watched, and are
/// judged before one is promoted.
pub proof fn law_place_of_every_stage(stages: Seq<Stage>, ok: Seq<bool>, i: int)
    requires
        boots(stages, ok),
        0 <= i < stages.len(),
    ensures
        match stages[i] {
            Stage::Serial => i == 0,
            Stage::Segments => i == 1,
            Stage::InterruptTable => i == 2,
            Stage::Controllers => i == 3,
            Stage::Probe => i == 4,
            Stage::Memory => i == 5,
            Stage::ApicInit => i == 6,
            Stage::Timer => i == 7,
            Stage::EnableInterrupts => i == 8,
            Stage::Calibrate => i == 9,
            Stage::Breakpoint => i == 10,
            Stage::Syscall => i == 11,
            Stage::StartPeriodic => i == 12,
            Stage::Soak => i == 13,
            Stage::Threshold => i == 14,
            Stage::Promote => i == 15,
            Stage::Watch => i == 16,
            Stage::Demonstration => i == 17,
            Stage::Halt | Stage::Panic => i > 0,
        },
{
    if !ended(stages[i]) {
        law_stages_in_turn(stages, ok, i);
    }
}

/// Law: whoever asks for the next stage and goes there is on a run of the sequence.
pub proof fn law_driven_boot(stages: Seq<Stage>, ok: Seq<bool>)
    requires
        stages.len() > 0,
        stages[0] == Stage::Serial,
        ok.len() == stages.len(),
        forall|i: int|
            0 <= i < stages.len() - 1 ==> call_ensures(
                next_stage,
                (#[trigger] stages[i], ok[i]),
                stages[i + 1],
            ),
    ensures
        boots(stages, ok),
{
    assert forall|i: int| 0 <= i < stages.len() - 1 implies follows(
        #[trigger] stages[i],
        ok[i],
        stages[i + 1],
    ) by {
        assert(call_ensures(next_stage, (stages[i], ok[i]), stages[i + 1]));
    }
}

/// Law: a boot in which everything succeeds goes through all stages once and
/// halts. If a watch over the clocks, the threshold or the demonstration fails, the
/// kernel halts in good order; if anything else fails, it panics. What has ended
/// stays so.
pub proof fn law_how_a_stage_ends(stage: Stage, ok: bool, next: Stage)
    requires
        call_ensures(next_stage, (stage, ok), next),
    ensures
        !ok ==> (next == Stage::Halt <==> stage is Soak || stage is Threshold || stage is Watch
            || stage is Demonstration || stage is Halt),
        !ok && next != Stage::Halt ==> next == Stage::Panic,
        ok ==> (next == Stage::Halt <==> stage is Demonstration || stage is Halt),
        ok ==> (next == Stage::Panic <==> stage is Panic),
        stage is Halt || stage is Panic ==> next == stage,
{
}

/// Law: what a stage announces. The third phase is announced by a demonstration
/// that succeeded and by nothing else; the second by a clock that was not promoted
/// or was rolled back, so never by a boot on which all went well.
pub proof fn law_announcements(stage: Stage, ok: bool, phase: Option<Phase>)
    requires
        call_ensures(announcement, (stage, ok), phase),
    ensures
        phase == Some(Phase::Three) <==> stage is Demonstration && ok,
        phase == Some(Phase::Two) <==> (stage is Threshold || stage is Watch) && !ok,
{
}

/// Law: a demonstration task has its share. It asks for another step until it has
/// had five, and a ledger in which everybody stopped there, and the sleeper after
/// one, is fair; no other ledger is.
pub proof fn law_share_of_a_demonstration_task(
    task: &mut DemoTask,
    alive: bool,
    ledger: Vec<(usize, String, u64)>,
    ok: bool,
)
    requires
        old(task).steps < u64::MAX,
        call_ensures(DemoTask::step, (task,), alive),
        call_ensures(ledger_fair, (&ledger,), ok),
    ensures
        final(task).steps == old(task).steps + 1,
        alive <==> old(task).steps + 1 < 5,
        ok <==> forall|i: int|
            0 <= i < ledger@.len() ==> (#[trigger] ledger@[i]).2 == if ledger@[i].1@
                == "napper"@ {
                1u64
            } else {
                5u64
            },
{
}

/// Law: the demonstration succeeds only if a task was yanked in it and everybody
/// had its share. Without a yank the clock is what failed, whatever the ledger says.
pub proof fn law_demonstration_is_judged(
    driver: Driver,
    ledger: Vec<(usize, String, u64)>,
    fair: bool,
    verdict: DemoVerdict,
    ok: bool,
)
    requires
        call_ensures(ledger_fair, (&ledger,), fair),
        call_ensures(Driver::judge, (&driver, &ledger), verdict),
        call_ensures(demonstrated, (verdict,), ok),
    ensures
        ok <==> driver.preempts > 0 && fair,
        verdict == DemoVerdict::ClockSilent <==> driver.preempts == 0,
        verdict == DemoVerdict::Unfair <==> driver.preempts > 0 && !fair,
{
}

/// Law: the driver is patient, but not for ever. It runs a pass on every fresh
/// tick and on nothing else; it puts up with a hundred passes in a row that found
/// everybody asleep, long enough for the nap to end, and with a hundred passes that
/// ran somebody, and gives up at the next of either.
pub proof fn law_driver_is_patient(
    waiting: &mut Driver,
    tick: u64,
    fresh: bool,
    driver: &mut Driver,
    ran: bool,
    switches: u64,
    r: (u64, DriverVerdict),
)
    requires
        call_ensures(Driver::fresh_tick, (waiting, tick), fresh),
        old(driver).well_formed(),
        old(driver).preempts + switches.wrapping_sub(old(driver).last_switches) <= u64::MAX,
        call_ensures(Driver::after_pass, (driver, ran, switches), r),
    ensures
        fresh <==> tick != old(waiting).last_tick,
        final(waiting).last_tick == tick,
        r.1 == DriverVerdict::AsleepForever <==> !ran && old(driver).asleep_passes == 100,
        r.1 == DriverVerdict::Runaway <==> ran && old(driver).schedules == 100,
        !ran && old(driver).asleep_passes <= NAP_TICKS ==> r.1 == DriverVerdict::Continue,
        final(driver).asleep_passes == if ran {
            0
        } else {
            old(driver).asleep_passes + 1
        },
        final(driver).schedules == old(driver).schedules + if ran {
            1int
        } else {
            0int
        },
        final(driver).last_tick == old(driver).last_tick,
        NAP_TICKS == 20,
{
}

/// Law: yanks are counted once. A pass that ran somebody reports the yanks since
/// the last one that did and adds them to the books; one that ran nobody leaves
/// them to the next.
pub proof fn law_yanks_are_counted_once(
    driver: &mut Driver,
    ran: bool,
    yanks: u64,
    switches: u64,
    r: (u64, DriverVerdict),
)
    requires
        old(driver).well_formed(),
        switches == old(driver).last_switches + yanks,
        old(driver).preempts + yanks <= u64::MAX,
        call_ensures(Driver::after_pass, (driver, ran, switches), r),
    ensures
        ran ==> {
            &&& r.0 == yanks
            &&& final(driver).preempts == old(driver).preempts + yanks
            &&& final(driver).last_switches == switches
        },
        !ran ==> {
            &&& r.0 == 0
            &&& final(driver).preempts == old(driver).preempts
            &&& final(driver).last_switches == old(driver).last_switches
        },
{
}

/// Law: a stalled soak ends the boot. Where the watch over both clocks stalled, the
/// boot never comes to look at the threshold, promotes nobody and announces nothing.
pub proof fn law_stalled_soak_ends_the_boot(
    stages: Seq<Stage>,
    ok: Seq<bool>,
    e: Evidence,
    i: int,
)
    requires
        boots_on(stages, ok, e),
        e.soak == SoakVerdict::Stalled,
        0 <= i < stages.len(),
    ensures
        stages[i] != Stage::Threshold,
        stages[i] != Stage::Promote,
        stages[i] != Stage::Watch,
        stages[i] != Stage::Demonstration,
        announces(stages[i], ok[i]) is None,
        stages[i] == Stage::Soak && i + 1 < stages.len() ==> stages[i + 1] == Stage::Halt,
{
    if !ended(stages[i]) {
        law_stages_in_turn(stages, ok, i);
        if i > 13 {
            assert(rank(stages[13]) == 13);
            assert(stages[13] == Stage::Soak);
        }
    }
    if stages[i] == Stage::Soak && i + 1 < stages.len() {
        assert(follows(stages[i], ok[i], stages[i + 1]));
    }
}

} // verus!
