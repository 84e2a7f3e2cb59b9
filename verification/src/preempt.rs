//! Preemption from the timer interrupt: the saved frame of a task, and the
//! table of slots that the interrupt stub and the scheduler share.
//!
//! The stub runs with interrupts off, neither allocates nor locks, and finds
//! the running task by its slot, never through a cached pointer. The fence
//! (`preemptible`) is up only while a task step runs: with the fence down a
//! tick is counted and acknowledged, and nothing else happens.

use vstd::prelude::*;
use crate::memory::paging;

verus! {

/// Integrity word of every preempt frame.
pub const PREEMPT_MAGIC: u64 = 0x5052_4545_4D50_5434;

/// Slots in the preempt table.
pub const MAX_TASKS: usize = 16;

/// Words of the software spill: fifteen general-purpose registers.
pub const SPILL_WORDS: usize = 15;

/// Words the processor pushes on an interrupt in ring 0: rip, cs, rflags.
pub const HW_WORDS: usize = 3;

/// Words of a frame: the spill, the stack pointer, the hardware words, the
/// integrity word.
pub const FRAME_WORDS: usize = 20;

/// Everything needed to resume a task exactly where the timer fired.
#[derive(Debug, Clone, Copy, PartialEq, Eq, Structural)]
pub struct FullFrame {
    pub r15: u64,
    pub r14: u64,
    pub r13: u64,
    pub r12: u64,
    pub r11: u64,
    pub r10: u64,
    pub r9: u64,
    pub r8: u64,
    pub rdi: u64,
    pub rsi: u64,
    pub rbp: u64,
    pub rbx: u64,
    pub rdx: u64,
    pub rcx: u64,
    pub rax: u64,
    /// Stack pointer of the task before the interrupt.
    pub rsp: u64,
    pub rip: u64,
    pub cs: u64,
    pub rflags: u64,
    /// Must equal [`PREEMPT_MAGIC`].
    pub magic: u64,
}

/// A frame that validates nowhere.
pub open spec fn blank_frame() -> FullFrame {
    FullFrame {
        r15: 0,
        r14: 0,
        r13: 0,
        r12: 0,
        r11: 0,
        r10: 0,
        r9: 0,
        r8: 0,
        rdi: 0,
        rsi: 0,
        rbp: 0,
        rbx: 0,
        rdx: 0,
        rcx: 0,
        rax: 0,
        rsp: 0,
        rip: 0,
        cs: 0,
        rflags: 0,
        magic: 0,
    }
}

/// The frame of a task that has not run yet.
pub open spec fn fresh_frame(entry: u64, cs: u16, stack_top: u64) -> FullFrame {
    FullFrame {
        rsp: (stack_top - 8) as u64,
        rip: entry,
        cs: cs as u64,
        rflags: 0x202,
        magic: PREEMPT_MAGIC,
        ..blank_frame()
    }
}

impl FullFrame {
    /// The frame may be resumed on the stack window `[bottom, top]`.
    pub open spec fn resumable(self, bottom: int, top: int) -> bool {
        &&& self.magic == PREEMPT_MAGIC
        &&& bottom <= self.rsp <= top
        &&& paging::canonical(self.rsp as int)
    }

    /// The words of the frame in spill order, r15 first.
    pub open spec fn words(self) -> Seq<u64> {
        seq![
            self.r15,
            self.r14,
            self.r13,
            self.r12,
            self.r11,
            self.r10,
            self.r9,
            self.r8,
            self.rdi,
            self.rsi,
            self.rbp,
            self.rbx,
            self.rdx,
            self.rcx,
            self.rax,
            self.rsp,
            self.rip,
            self.cs,
            self.rflags,
            self.magic,
        ]
    }

    /// The blank frame.
    pub fn blank() -> (f: Self)
        ensures
            f == blank_frame(),
    {
        FullFrame {
            r15: 0,
            r14: 0,
            r13: 0,
            r12: 0,
            r11: 0,
            r10: 0,
            r9: 0,
            r8: 0,
            rdi: 0,
            rsi: 0,
            rbp: 0,
            rbx: 0,
            rdx: 0,
            rcx: 0,
            rax: 0,
            rsp: 0,
            rip: 0,
            cs: 0,
            rflags: 0,
            magic: 0,
        }
    }

    /// Frame of a fresh task: the first `iretq` lands in `entry` with
    /// interrupts on. `iretq` pushes nothing, so the stack pointer carries the
    /// 8 bytes that a `call` would have left: eight below the aligned top.
    pub fn fresh(entry: u64, cs: u16, stack_top: u64) -> (f: Self)
        requires
            stack_top % 16 == 0,
            stack_top > 0,
        ensures
            f == fresh_frame(entry, cs, stack_top),
            f.rsp % 16 == 8,
    {
        FullFrame {
            r15: 0,
            r14: 0,
            r13: 0,
            r12: 0,
            r11: 0,
            r10: 0,
            r9: 0,
            r8: 0,
            rdi: 0,
            rsi: 0,
            rbp: 0,
            rbx: 0,
            rdx: 0,
            rcx: 0,
            rax: 0,
            rsp: stack_top - 8,
            rip: entry,
            cs: cs as u64,
            rflags: 0x202,
            magic: PREEMPT_MAGIC,
        }
    }

    /// Validate before `iretq`: the integrity word is intact, and the stack
    /// pointer is canonical and inside the task's window, top included.
    pub fn valid_for(&self, bottom: u64, top: u64) -> (ok: bool)
        ensures
            ok == self.resumable(bottom as int, top as int),
    {
        if self.magic != PREEMPT_MAGIC {
            return false;
        }
        if self.rsp < bottom || self.rsp > top {
            return false;
        }
        let rsp: u64 = self.rsp;
        // Bits 63 to 48 must repeat bit 47.
        let sign: u64 = (rsp >> 47) & 1;
        let high: u64 = rsp >> 48;
        proof {
            assert(sign == 0 && high == 0 <==> rsp < 0x8000_0000_0000) by (bit_vector)
                requires
                    sign == (rsp >> 47) & 1,
                    high == rsp >> 48,
            ;
            assert(sign == 1 && high == 0xFFFF <==> rsp >= 0xFFFF_8000_0000_0000) by (bit_vector)
                requires
                    sign == (rsp >> 47) & 1,
                    high == rsp >> 48,
            ;
            assert(sign == 0 || sign == 1) by (bit_vector)
                requires
                    sign == (rsp >> 47) & 1,
            ;
        }
        if sign == 0 && high != 0 {
            return false;
        }
        if sign == 1 && high != 0xFFFF {
            return false;
        }
        true
    }

    /// The frame as the stub stores it: one word after the other, r15 first.
    pub fn to_words(&self) -> (w: [u64; FRAME_WORDS])
        ensures
            w@ == self.words(),
    {
        let w: [u64; FRAME_WORDS] = [
            self.r15,
            self.r14,
            self.r13,
            self.r12,
            self.r11,
            self.r10,
            self.r9,
            self.r8,
            self.rdi,
            self.rsi,
            self.rbp,
            self.rbx,
            self.rdx,
            self.rcx,
            self.rax,
            self.rsp,
            self.rip,
            self.cs,
            self.rflags,
            self.magic,
        ];
        assert(w@ =~= self.words());
        w
    }

    /// The frame that the stub stored.
    pub fn from_words(w: &[u64; FRAME_WORDS]) -> (f: Self)
        ensures
            f.words() == w@,
    {
        let f = FullFrame {
            r15: w[0],
            r14: w[1],
            r13: w[2],
            r12: w[3],
            r11: w[4],
            r10: w[5],
            r9: w[6],
            r8: w[7],
            rdi: w[8],
            rsi: w[9],
            rbp: w[10],
            rbx: w[11],
            rdx: w[12],
            rcx: w[13],
            rax: w[14],
            rsp: w[15],
            rip: w[16],
            cs: w[17],
            rflags: w[18],
            magic: w[19],
        };
        assert(f.words() =~= w@);
        f
    }
}

/// Law: the words of a frame determine it, so storing a frame word by word and
/// reading it back loses nothing.
pub proof fn law_words_determine_frame(a: FullFrame, b: FullFrame)
    requires
        a.words() == b.words(),
    ensures
        a == b,
{
    let u = a.words();
    let v = b.words();
    assert(u[0] == v[0] && u[1] == v[1] && u[2] == v[2] && u[3] == v[3] && u[4] == v[4] && u[5]
        == v[5] && u[6] == v[6] && u[7] == v[7] && u[8] == v[8] && u[9] == v[9]);
    assert(u[10] == v[10] && u[11] == v[11] && u[12] == v[12] && u[13] == v[13] && u[14] == v[14]
        && u[15] == v[15] && u[16] == v[16] && u[17] == v[17] && u[18] == v[18] && u[19] == v[19]);
}

/// Law: a fresh frame validates on its own stack window and enters the task
/// with the parity that a function sees right after a `call`.
pub proof fn law_fresh_frame_resumes(entry: u64, cs: u16, bottom: int, stack_top: u64)
    requires
        stack_top % 16 == 0,
        stack_top > 0,
        bottom <= stack_top - 8,
        paging::canonical(stack_top - 8),
    ensures
        fresh_frame(entry, cs, stack_top).resumable(bottom, stack_top as int),
        fresh_frame(entry, cs, stack_top).rsp % 16 == 8,
{
}

/// Law: a blank frame validates nowhere.
pub proof fn law_blank_frame_is_invalid(bottom: int, top: int)
    ensures
        !blank_frame().resumable(bottom, top),
{
}

// ---------------------------------------------------------------------------
// The slot table
// ---------------------------------------------------------------------------
/// State shared by the interrupt stub and the scheduler.
pub struct PreemptTable {
    /// One saved frame per slot.
    frames: Vec<FullFrame>,
    /// Stack window of each slot, recorded at spawn.
    bounds: Vec<(u64, u64)>,
    /// Which task lives in each slot.
    owners: Vec<Option<usize>>,
    /// Occupancy, one bit per slot.
    used: u64,
    /// Slot of the running task, `MAX_TASKS` while the driver runs.
    current: usize,
    /// The fence.
    preemptible: bool,
    /// Address of the LAPIC acknowledge register, zero until it is mapped.
    eoi_base: u64,
    /// Timer ticks the stub counted.
    ticks: u64,
    /// Frames the stub saved.
    switches: u64,
}

/// What a [`PreemptTable`] stands for.
#[verifier::ext_equal]
pub ghost struct TableState {
    pub frames: Seq<FullFrame>,
    pub bounds: Seq<(u64, u64)>,
    pub owners: Seq<Option<usize>>,
    pub used: Seq<bool>,
    pub current: int,
    pub preemptible: bool,
    pub eoi_base: u64,
    pub ticks: u64,
    pub switches: u64,
}

/// Bit `idx` of an occupancy bitmap.
pub open spec fn slot_bit(used: u64, idx: int) -> bool {
    used & (1u64 << (idx as u64)) != 0
}

/// The slots that an occupancy bitmap marks.
pub open spec fn used_slots(used: u64) -> Seq<bool> {
    Seq::new(MAX_TASKS as nat, |i: int| slot_bit(used, i))
}

impl View for PreemptTable {
    type V = TableState;

    closed spec fn view(&self) -> TableState {
        TableState {
            frames: self.frames@,
            bounds: self.bounds@,
            owners: self.owners@,
            used: used_slots(self.used),
            current: self.current as int,
            preemptible: self.preemptible,
            eoi_base: self.eoi_base,
            ticks: self.ticks,
            switches: self.switches,
        }
    }
}

impl TableState {
    pub open spec fn well_formed(self) -> bool {
        &&& self.frames.len() == MAX_TASKS
        &&& self.bounds.len() == MAX_TASKS
        &&& self.owners.len() == MAX_TASKS
        &&& self.used.len() == MAX_TASKS
        &&& 0 <= self.current <= usize::MAX
    }

    /// The slot is occupied, and its saved frame may be resumed on the stack
    /// window recorded for it.
    pub open spec fn frame_ok(self, idx: int) -> bool {
        &&& 0 <= idx < MAX_TASKS
        &&& self.used[idx]
        &&& self.frames[idx].resumable(self.bounds[idx].0 as int, self.bounds[idx].1 as int)
    }

    /// The task that lives in a slot.
    pub open spec fn task_at(self, idx: int) -> Option<usize> {
        if 0 <= idx < MAX_TASKS {
            self.owners[idx]
        } else {
            None
        }
    }

    /// Some slot is free.
    pub open spec fn has_room(self) -> bool {
        exists|i: int| 0 <= i < MAX_TASKS && !#[trigger] self.used[i]
    }

    /// The lowest free slot from `from` on, or `MAX_TASKS`.
    pub open spec fn lowest_free(self, from: int) -> int
        decreases MAX_TASKS - from,
    {
        if from >= MAX_TASKS || from < 0 {
            MAX_TASKS as int
        } else if !self.used[from] {
            from
        } else {
            self.lowest_free(from + 1)
        }
    }

    /// Occupy slot `idx` with `frame`.
    pub open spec fn registered(self, idx: int, frame: FullFrame) -> TableState {
        TableState {
            frames: self.frames.update(idx, frame),
            used: self.used.update(idx, true),
            ..self
        }
    }

    /// Record the stack window of slot `idx`.
    pub open spec fn bounded(self, idx: int, bottom: u64, top: u64) -> TableState {
        TableState { bounds: self.bounds.update(idx, (bottom, top)), ..self }
    }

    /// Vacate slot `idx`: its frame is wiped and its bit cleared.
    pub open spec fn unregistered(self, idx: int) -> TableState {
        TableState {
            frames: self.frames.update(idx, blank_frame()),
            used: self.used.update(idx, false),
            ..self
        }
    }

    /// Name the task that lives in slot `idx`.
    pub open spec fn owned(self, idx: int, owner: Option<usize>) -> TableState {
        TableState { owners: self.owners.update(idx, owner), ..self }
    }
}

/// What an interrupt finds: the registers, the stack pointer after the spill,
/// and the three words the processor pushed.
#[derive(Debug, Clone, Copy, PartialEq, Eq, Structural)]
pub struct IrqSnapshot {
    pub r15: u64,
    pub r14: u64,
    pub r13: u64,
    pub r12: u64,
    pub r11: u64,
    pub r10: u64,
    pub r9: u64,
    pub r8: u64,
    pub rdi: u64,
    pub rsi: u64,
    pub rbp: u64,
    pub rbx: u64,
    pub rdx: u64,
    pub rcx: u64,
    pub rax: u64,
    /// Stack pointer after the fifteen registers were pushed.
    pub spill_rsp: u64,
    pub rip: u64,
    pub cs: u64,
    pub rflags: u64,
}

impl IrqSnapshot {
    /// The frame to be saved: the registers as they were, and the stack pointer
    /// from before the processor pushed its words.
    pub open spec fn frame(self) -> FullFrame {
        FullFrame {
            r15: self.r15,
            r14: self.r14,
            r13: self.r13,
            r12: self.r12,
            r11: self.r11,
            r10: self.r10,
            r9: self.r9,
            r8: self.r8,
            rdi: self.rdi,
            rsi: self.rsi,
            rbp: self.rbp,
            rbx: self.rbx,
            rdx: self.rdx,
            rcx: self.rcx,
            rax: self.rax,
            rsp: (self.spill_rsp + 8 * SPILL_WORDS + 8 * HW_WORDS) as u64,
            rip: self.rip,
            cs: self.cs,
            rflags: self.rflags,
            magic: PREEMPT_MAGIC,
        }
    }

    /// The interrupt hit on the stack window `[bottom, top]`: what is saved of it
    /// may be resumed there.
    pub open spec fn fits(self, bottom: u64, top: u64) -> bool {
        &&& self.spill_rsp + 8 * SPILL_WORDS + 8 * HW_WORDS <= u64::MAX
        &&& self.frame().resumable(bottom as int, top as int)
    }

    /// Build the frame to be saved.
    pub fn to_frame(&self) -> (f: FullFrame)
        requires
            self.spill_rsp + 8 * SPILL_WORDS + 8 * HW_WORDS <= u64::MAX,
        ensures
            f == self.frame(),
            f.rsp == self.spill_rsp + 144,
    {
        FullFrame {
            r15: self.r15,
            r14: self.r14,
            r13: self.r13,
            r12: self.r12,
            r11: self.r11,
            r10: self.r10,
            r9: self.r9,
            r8: self.r8,
            rdi: self.rdi,
            rsi: self.rsi,
            rbp: self.rbp,
            rbx: self.rbx,
            rdx: self.rdx,
            rcx: self.rcx,
            rax: self.rax,
            rsp: self.spill_rsp + 120 + 24,
            rip: self.rip,
            cs: self.cs,
            rflags: self.rflags,
            magic: PREEMPT_MAGIC,
        }
    }
}

/// A slot is yanked only on a task stack with the fence up.
pub open spec fn yanks(t: TableState) -> bool {
    t.preemptible && t.current < MAX_TASKS
}

/// The table after one timer interrupt.
pub open spec fn after_irq(t: TableState, irq: IrqSnapshot) -> TableState {
    if yanks(t) {
        TableState {
            frames: t.frames.update(t.current, irq.frame()),
            ticks: t.ticks.wrapping_add(1),
            switches: t.switches.wrapping_add(1),
            ..t
        }
    } else {
        TableState { ticks: t.ticks.wrapping_add(1), ..t }
    }
}

/// The table after some timer interrupts, one after the other.
pub open spec fn after_irqs(t: TableState, irqs: Seq<IrqSnapshot>) -> TableState
    decreases irqs.len(),
{
    if irqs.len() == 0 {
        t
    } else {
        after_irq(after_irqs(t, irqs.drop_last()), irqs.last())
    }
}

/// Interrupts touch the counters and the frame of the running task, which is
/// afterwards what the last of them saved; nothing else.
pub proof fn lemma_after_irqs(t: TableState, irqs: Seq<IrqSnapshot>)
    requires
        t.well_formed(),
    ensures
        ({
            let after = after_irqs(t, irqs);
            &&& after.well_formed()
            &&& after.used == t.used
            &&& after.bounds == t.bounds
            &&& after.owners == t.owners
            &&& after.current == t.current
            &&& after.preemptible == t.preemptible
            &&& after.eoi_base == t.eoi_base
            &&& !yanks(t) ==> after.frames == t.frames
            &&& yanks(t) && irqs.len() > 0 ==> after.frames == t.frames.update(
                t.current,
                irqs.last().frame(),
            )
        }),
    decreases irqs.len(),
{
    if irqs.len() > 0 {
        let before = after_irqs(t, irqs.drop_last());
        lemma_after_irqs(t, irqs.drop_last());
        if yanks(t) {
            assert(before.frames.update(t.current, irqs.last().frame()) =~= t.frames.update(
                t.current,
                irqs.last().frame(),
            ));
        }
    }
}

pub proof fn lemma_lowest_free(t: TableState, from: int)
    requires
        t.well_formed(),
        0 <= from <= MAX_TASKS,
    ensures
        from <= t.lowest_free(from) <= MAX_TASKS,
        t.lowest_free(from) < MAX_TASKS ==> !t.used[t.lowest_free(from)],
        forall|i: int| from <= i < t.lowest_free(from) ==> #[trigger] t.used[i],
        from == 0 && t.has_room() ==> t.lowest_free(0) < MAX_TASKS,
    decreases MAX_TASKS - from,
{
    if from < MAX_TASKS && t.used[from] {
        lemma_lowest_free(t, from + 1);
    }
}

proof fn lemma_slot_bits(used: u64, idx: u64, j: u64)
    requires
        idx < 64,
        j < 64,
    ensures
        slot_bit(used | (1u64 << idx), j as int) == (j == idx || slot_bit(used, j as int)),
        slot_bit(used & !(1u64 << idx), j as int) == (j != idx && slot_bit(used, j as int)),
        !slot_bit(0, j as int),
{
    assert(((used | (1u64 << idx)) & (1u64 << j) != 0) == (j == idx || used & (1u64 << j) != 0))
        by (bit_vector)
        requires
            idx < 64,
            j < 64,
    ;
    assert(((used & !(1u64 << idx)) & (1u64 << j) != 0) == (j != idx && used & (1u64 << j) != 0))
        by (bit_vector)
        requires
            idx < 64,
            j < 64,
    ;
    assert(0u64 & (1u64 << j) == 0) by (bit_vector);
}

proof fn lemma_used_update(used: u64, idx: u64)
    requires
        idx < MAX_TASKS,
    ensures
        used_slots(used | (1u64 << idx)) == used_slots(used).update(idx as int, true),
        used_slots(used & !(1u64 << idx)) == used_slots(used).update(idx as int, false),
{
    let set = used_slots(used | (1u64 << idx));
    let cleared = used_slots(used & !(1u64 << idx));
    assert forall|i: int| 0 <= i < MAX_TASKS implies #[trigger] set[i] == used_slots(used).update(
        idx as int,
        true,
    )[i] by {
        lemma_slot_bits(used, idx, i as u64);
    }
    assert forall|i: int| 0 <= i < MAX_TASKS implies #[trigger] cleared[i] == used_slots(
        used,
    ).update(idx as int, false)[i] by {
        lemma_slot_bits(used, idx, i as u64);
    }
    assert(set =~= used_slots(used).update(idx as int, true));
    assert(cleared =~= used_slots(used).update(idx as int, false));
}

impl PreemptTable {
    /// An empty table: no slot in use, fence down, no acknowledge address.
    pub fn new() -> (t: Self)
        ensures
            t@.well_formed(),
            t@ == (TableState {
                frames: Seq::new(MAX_TASKS as nat, |i: int| blank_frame()),
                bounds: Seq::new(MAX_TASKS as nat, |i: int| (0u64, 0u64)),
                owners: Seq::new(MAX_TASKS as nat, |i: int| None::<usize>),
                used: Seq::new(MAX_TASKS as nat, |i: int| false),
                current: MAX_TASKS as int,
                preemptible: false,
                eoi_base: 0,
                ticks: 0,
                switches: 0,
            }),
    {
        let mut frames: Vec<FullFrame> = Vec::new();
        let mut bounds: Vec<(u64, u64)> = Vec::new();
        let mut owners: Vec<Option<usize>> = Vec::new();
        let mut i: usize = 0;
        while i < MAX_TASKS
            invariant
                i <= MAX_TASKS,
                frames@ == Seq::new(i as nat, |i: int| blank_frame()),
                bounds@ == Seq::new(i as nat, |i: int| (0u64, 0u64)),
                owners@ == Seq::new(i as nat, |i: int| None::<usize>),
            decreases MAX_TASKS - i,
        {
            frames.push(FullFrame::blank());
            bounds.push((0, 0));
            owners.push(None);
            i = i + 1;
            assert(frames@ =~= Seq::new(i as nat, |i: int| blank_frame()));
            assert(bounds@ =~= Seq::new(i as nat, |i: int| (0u64, 0u64)));
            assert(owners@ =~= Seq::new(i as nat, |i: int| None::<usize>));
        }
        let t = PreemptTable {
            frames,
            bounds,
            owners,
            used: 0,
            current: MAX_TASKS,
            preemptible: false,
            eoi_base: 0,
            ticks: 0,
            switches: 0,
        };
        proof {
            assert forall|i: int| 0 <= i < MAX_TASKS implies !slot_bit(0, i) by {
                lemma_slot_bits(0, 0, i as u64);
            }
            assert(t@.used =~= Seq::new(MAX_TASKS as nat, |i: int| false));
        }
        t
    }

    /// The lowest free slot. Slots are reused as soon as they are vacated.
    pub fn alloc_slot(&self) -> (slot: u8)
        requires
            self@.well_formed(),
            self@.has_room(),
        ensures
            slot < MAX_TASKS,
            slot == self@.lowest_free(0),
            !self@.used[slot as int],
            forall|i: int| 0 <= i < slot ==> #[trigger] self@.used[i],
    {
        let mut idx: u8 = 0;
        while idx < 16
            invariant
                idx <= MAX_TASKS,
                self@.well_formed(),
                self@.has_room(),
                self@.lowest_free(0) == self@.lowest_free(idx as int),
                forall|i: int| 0 <= i < idx ==> #[trigger] self@.used[i],
            decreases MAX_TASKS - idx,
        {
            let bit: u64 = idx as u64;
            if self.used & (1u64 << bit) == 0 {
                assert(!self@.used[idx as int]);
                return idx;
            }
            assert(self@.used[idx as int]);
            idx = idx + 1;
        }
        assert(false);
        0
    }

    /// Whether a slot is left for another task.
    pub fn has_free_slot(&self) -> (ok: bool)
        requires
            self@.well_formed(),
        ensures
            ok == self@.has_room(),
    {
        let mut idx: u64 = 0;
        while idx < 16
            invariant
                idx <= MAX_TASKS,
                self@.well_formed(),
                forall|i: int| 0 <= i < idx ==> #[trigger] self@.used[i],
            decreases MAX_TASKS - idx,
        {
            if self.used & (1u64 << idx) == 0 {
                assert(!self@.used[idx as int]);
                return true;
            }
            assert(self@.used[idx as int]);
            idx = idx + 1;
        }
        false
    }

    /// Occupy a slot with a frame.
    pub fn register_task(&mut self, idx: usize, frame: FullFrame)
        requires
            old(self)@.well_formed(),
            idx < MAX_TASKS,
        ensures
            final(self)@.well_formed(),
            final(self)@ == old(self)@.registered(idx as int, frame),
    {
        let bit: u64 = idx as u64;
        proof {
            lemma_used_update(self.used, bit);
        }
        self.frames[idx] = frame;
        self.used = self.used | (1u64 << bit);
    }

    /// Record the stack window of a slot.
    pub fn set_slot_bounds(&mut self, idx: usize, bottom: u64, top: u64)
        requires
            old(self)@.well_formed(),
            idx < MAX_TASKS,
        ensures
            final(self)@.well_formed(),
            final(self)@ == old(self)@.bounded(idx as int, bottom, top),
    {
        self.bounds[idx] = (bottom, top);
    }

    /// Vacate a slot: the frame is wiped, so no stray resume can read a stale
    /// instruction pointer.
    pub fn unregister_task(&mut self, idx: usize)
        requires
            old(self)@.well_formed(),
            idx < MAX_TASKS,
        ensures
            final(self)@.well_formed(),
            final(self)@ == old(self)@.unregistered(idx as int),
    {
        let bit: u64 = idx as u64;
        proof {
            lemma_used_update(self.used, bit);
        }
        self.frames[idx] = FullFrame::blank();
        self.used = self.used & !(1u64 << bit);
    }

    /// Whether the saved frame of a slot may be resumed.
    pub fn frame_ok(&self, idx: usize) -> (ok: bool)
        requires
            self@.well_formed(),
        ensures
            ok == self@.frame_ok(idx as int),
    {
        if idx >= MAX_TASKS {
            return false;
        }
        let bit: u64 = idx as u64;
        assert(self@.used[idx as int] == slot_bit(self.used, idx as int));
        if self.used & (1u64 << bit) == 0 {
            return false;
        }
        let (bottom, top): (u64, u64) = self.bounds[idx];
        self.frames[idx].valid_for(bottom, top)
    }

    /// The saved frame of a slot.
    pub fn frame(&self, idx: usize) -> (f: FullFrame)
        requires
            self@.well_formed(),
            idx < MAX_TASKS,
        ensures
            f == self@.frames[idx as int],
    {
        self.frames[idx]
    }

    /// Publish the slot of the running task; `MAX_TASKS` means the driver.
    pub fn set_current(&mut self, idx: usize)
        requires
            old(self)@.well_formed(),
        ensures
            final(self)@.well_formed(),
            final(self)@ == (TableState { current: idx as int, ..old(self)@ }),
    {
        self.current = idx;
    }

    /// Slot of the running task.
    pub fn current_idx(&self) -> (idx: usize)
        ensures
            idx == self@.current,
    {
        self.current
    }

    /// Timer ticks the stub counted.
    pub fn ticks(&self) -> (n: u64)
        ensures
            n == self@.ticks,
    {
        self.ticks
    }

    /// Frames the stub saved.
    pub fn switches(&self) -> (n: u64)
        ensures
            n == self@.switches,
    {
        self.switches
    }

    /// The task that lives in a slot.
    pub fn owner(&self, idx: usize) -> (task: Option<usize>)
        requires
            self@.well_formed(),
        ensures
            task == self@.task_at(idx as int),
    {
        if idx >= MAX_TASKS {
            return None;
        }
        self.owners[idx]
    }

    /// Name the task that lives in a slot. Called at spawn.
    pub fn set_task_ptr(&mut self, idx: usize, task: usize)
        requires
            old(self)@.well_formed(),
            idx < MAX_TASKS,
        ensures
            final(self)@.well_formed(),
            final(self)@ == old(self)@.owned(idx as int, Some(task)),
    {
        self.owners[idx] = Some(task);
    }

    /// Forget the task of a slot. Called when it finishes, before its memory
    /// goes.
    pub fn clear_task_ptr(&mut self, idx: usize)
        requires
            old(self)@.well_formed(),
        ensures
            final(self)@.well_formed(),
            final(self)@ == if idx < MAX_TASKS {
                old(self)@.owned(idx as int, None)
            } else {
                old(self)@
            },
    {
        if idx < MAX_TASKS {
            self.owners[idx] = None;
        }
    }
}

/// Raise or lower the fence.
pub fn set_preemptible(table: &mut PreemptTable, on: bool)
    requires
        old(table)@.well_formed(),
    ensures
        final(table)@.well_formed(),
        final(table)@ == (TableState { preemptible: on, ..old(table)@ }),
{
    table.preemptible = on;
}

/// Publish the address of the LAPIC acknowledge register to the stub.
pub fn set_eoi_base(table: &mut PreemptTable, addr: u64)
    requires
        old(table)@.well_formed(),
    ensures
        final(table)@.well_formed(),
        final(table)@ == (TableState { eoi_base: addr, ..old(table)@ }),
{
    table.eoi_base = addr;
}

/// What the timer stub does with one interrupt before it returns to the very
/// stack it came from: count the tick, save the frame of the running task if
/// the fence is up, and name the register to acknowledge, if it is mapped.
pub fn lapic_preempt_stub(table: &mut PreemptTable, irq: &IrqSnapshot) -> (eoi: Option<u64>)
    requires
        old(table)@.well_formed(),
        yanks(old(table)@) ==> irq.spill_rsp + 8 * SPILL_WORDS + 8 * HW_WORDS <= u64::MAX,
    ensures
        final(table)@.well_formed(),
        final(table)@ == after_irq(old(table)@, *irq),
        eoi == if old(table)@.eoi_base == 0 {
            None
        } else {
            Some(old(table)@.eoi_base)
        },
{
    table.ticks = table.ticks.wrapping_add(1);
    if table.preemptible && table.current < MAX_TASKS {
        let idx: usize = table.current;
        table.frames[idx] = irq.to_frame();
        table.switches = table.switches.wrapping_add(1);
    }
    if table.eoi_base == 0 {
        None
    } else {
        Some(table.eoi_base)
    }
}

/// Law: with the fence down, or with the driver in charge, an interrupt changes
/// nothing but the tick counter.
pub proof fn law_fence_down_only_counts(t: TableState, irq: IrqSnapshot)
    requires
        !t.preemptible || t.current >= MAX_TASKS,
    ensures
        after_irq(t, irq) == (TableState { ticks: t.ticks.wrapping_add(1), ..t }),
{
}

/// Law: a yank saves the interrupted state into the slot of the running task
/// and nowhere else. The saved frame is every register as it was, with the stack
/// pointer from before the interrupt; if the slot is in use and that pointer
/// lies in its window, the frame may be resumed.
pub proof fn law_yank_saves_the_running_task(t: TableState, irq: IrqSnapshot)
    requires
        t.well_formed(),
        yanks(t),
        irq.spill_rsp + 8 * SPILL_WORDS + 8 * HW_WORDS <= u64::MAX,
    ensures
        ({
            let after = after_irq(t, irq);
            let rsp = irq.spill_rsp + 8 * SPILL_WORDS + 8 * HW_WORDS;
            &&& after.frames[t.current] == irq.frame()
            &&& after.frames[t.current].rsp == rsp
            &&& after.switches == t.switches.wrapping_add(1)
            &&& after.used == t.used
            &&& after.bounds == t.bounds
            &&& after.owners == t.owners
            &&& after.current == t.current
            &&& forall|i: int|
                0 <= i < MAX_TASKS && i != t.current ==> #[trigger] after.frames[i] == t.frames[i]
            &&& t.used[t.current] && t.bounds[t.current].0 <= rsp <= t.bounds[t.current].1
                && paging::canonical(rsp) ==> after.frame_ok(t.current)
        }),
{
}

/// Law: a slot registered with a frame that fits its window may be resumed, and
/// no other slot notices.
pub proof fn law_registered_slot_resumes(
    t: TableState,
    idx: int,
    frame: FullFrame,
    bottom: u64,
    top: u64,
    other: int,
)
    requires
        t.well_formed(),
        0 <= idx < MAX_TASKS,
        frame.resumable(bottom as int, top as int),
        other != idx,
    ensures
        t.registered(idx, frame).bounded(idx, bottom, top).frame_ok(idx),
        t.registered(idx, frame).bounded(idx, bottom, top).frame_ok(other) == t.frame_ok(other),
{
}

/// Law: a vacated slot cannot be resumed, is free again, and no other slot
/// notices.
pub proof fn law_vacated_slot_is_dead(t: TableState, idx: int, other: int)
    requires
        t.well_formed(),
        0 <= idx < MAX_TASKS,
        other != idx,
    ensures
        !t.unregistered(idx).frame_ok(idx),
        !t.unregistered(idx).used[idx],
        t.unregistered(idx).has_room(),
        t.unregistered(idx).lowest_free(0) <= idx,
        t.unregistered(idx).frame_ok(other) == t.frame_ok(other),
{
    let after = t.unregistered(idx);
    assert(!after.used[idx]);
    lemma_lowest_free(after, 0);
}

/// Law: a spawn never takes a live slot; as long as a slot is free there is one
/// to take.
pub proof fn law_free_slot_is_nobodys(t: TableState)
    requires
        t.well_formed(),
        t.has_room(),
    ensures
        0 <= t.lowest_free(0) < MAX_TASKS,
        !t.used[t.lowest_free(0)],
        !t.frame_ok(t.lowest_free(0)),
{
    lemma_lowest_free(t, 0);
}

/// Law: whatever the timer interrupts, it resumes exactly there. An interrupt
/// that finds a task running with the fence up leaves, in the slot of that task, a
/// frame that agrees with the interrupted processor register by register, with the
/// stack pointer from before the processor pushed three words and the stub
/// fifteen. It counts one tick and one yank and touches nothing else.
pub proof fn law_yanked_task_resumes_exactly(
    table: &mut PreemptTable,
    irq: IrqSnapshot,
    eoi: Option<u64>,
)
    requires
        old(table)@.well_formed(),
        old(table)@.preemptible,
        old(table)@.current < 16,
        irq.spill_rsp + 144 <= u64::MAX,
        call_ensures(lapic_preempt_stub, (table, &irq), eoi),
    ensures
        ({
            let before = old(table)@;
            let after = final(table)@;
            let saved = after.frames[before.current];
            &&& saved.r15 == irq.r15
            &&& saved.r14 == irq.r14
            &&& saved.r13 == irq.r13
            &&& saved.r12 == irq.r12
            &&& saved.r11 == irq.r11
            &&& saved.r10 == irq.r10
            &&& saved.r9 == irq.r9
            &&& saved.r8 == irq.r8
            &&& saved.rdi == irq.rdi
            &&& saved.rsi == irq.rsi
            &&& saved.rbp == irq.rbp
            &&& saved.rbx == irq.rbx
            &&& saved.rdx == irq.rdx
            &&& saved.rcx == irq.rcx
            &&& saved.rax == irq.rax
            &&& saved.rip == irq.rip
            &&& saved.cs == irq.cs
            &&& saved.rflags == irq.rflags
            &&& saved.rsp == irq.spill_rsp + 8 * 15 + 8 * 3
            &&& saved.magic == 0x5052_4545_4D50_5434
            &&& after.frames.len() == before.frames.len()
            &&& forall|i: int|
                0 <= i < 16 && i != before.current ==> #[trigger] after.frames[i]
                    == before.frames[i]
            &&& after.ticks == before.ticks.wrapping_add(1)
            &&& after.switches == before.switches.wrapping_add(1)
            &&& after == (TableState {
                frames: after.frames,
                ticks: after.ticks,
                switches: after.switches,
                ..before
            })
        }),
{
}

/// Law: a tick is never lost and never lingers. Whether it yanks or not, an
/// interrupt counts one tick, and it is acknowledged at the published register if
/// one was published. With the fence down, or on the driver's stack, nothing but
/// the count changes.
pub proof fn law_every_tick_counts(table: &mut PreemptTable, irq: IrqSnapshot, eoi: Option<u64>)
    requires
        old(table)@.well_formed(),
        irq.spill_rsp + 144 <= u64::MAX,
        call_ensures(lapic_preempt_stub, (table, &irq), eoi),
    ensures
        final(table)@.ticks == old(table)@.ticks.wrapping_add(1),
        eoi is Some <==> old(table)@.eoi_base != 0,
        eoi matches Some(addr) ==> addr == old(table)@.eoi_base,
        final(table)@.eoi_base == old(table)@.eoi_base,
        !old(table)@.preemptible || old(table)@.current >= 16 ==> final(table)@ == (TableState {
            ticks: final(table)@.ticks,
            ..old(table)@
        }),
{
}

/// Law: a fresh frame starts the task at its entry with every register zero,
/// interrupts on, and one word below the top of its stack.
pub proof fn law_fresh_frame_starts_clean(entry: u64, cs: u16, stack_top: u64, f: FullFrame)
    requires
        stack_top % 16 == 0,
        stack_top > 0,
        call_ensures(FullFrame::fresh, (entry, cs, stack_top), f),
    ensures
        f.rip == entry,
        f.cs == cs,
        f.rsp + 8 == stack_top,
        f.rflags & (1u64 << 9) != 0,
        f.rflags & !(1u64 << 9) == 1u64 << 1,
        f.magic == 0x5052_4545_4D50_5434,
        f.r15 == 0,
        f.r14 == 0,
        f.r13 == 0,
        f.r12 == 0,
        f.r11 == 0,
        f.r10 == 0,
        f.r9 == 0,
        f.r8 == 0,
        f.rdi == 0,
        f.rsi == 0,
        f.rbp == 0,
        f.rbx == 0,
        f.rdx == 0,
        f.rcx == 0,
        f.rax == 0,
{
    assert(0x202u64 & (1u64 << 9) != 0) by (bit_vector);
    assert(0x202u64 & !(1u64 << 9) == 1u64 << 1) by (bit_vector);
}

/// Law: a frame lies in memory as the stub pushes it: r15 first, rax last of the
/// fifteen registers, then the stack pointer, the three words of the processor and
/// the integrity word. What is stored so is read back unchanged.
pub proof fn law_frame_in_memory(f: FullFrame, w: [u64; FRAME_WORDS], g: FullFrame)
    requires
        call_ensures(FullFrame::to_words, (&f,), w),
        call_ensures(FullFrame::from_words, (&w,), g),
    ensures
        w@.len() == 20,
        w@[0] == f.r15,
        w@[1] == f.r14,
        w@[2] == f.r13,
        w@[3] == f.r12,
        w@[4] == f.r11,
        w@[5] == f.r10,
        w@[6] == f.r9,
        w@[7] == f.r8,
        w@[8] == f.rdi,
        w@[9] == f.rsi,
        w@[10] == f.rbp,
        w@[11] == f.rbx,
        w@[12] == f.rdx,
        w@[13] == f.rcx,
        w@[14] == f.rax,
        w@[15] == f.rsp,
        w@[16] == f.rip,
        w@[17] == f.cs,
        w@[18] == f.rflags,
        w@[19] == f.magic,
        g == f,
{
    law_words_determine_frame(f, g);
}

/// Law: a frame is resumed only if nothing is wrong with it: its integrity word is
/// intact, and its stack pointer lies in the window of the task, both ends
/// included, and repeats bit 47 in all the bits above.
pub proof fn law_only_sound_frames_resume(f: FullFrame, bottom: u64, top: u64, ok: bool)
    requires
        call_ensures(FullFrame::valid_for, (&f, bottom, top), ok),
    ensures
        ok <==> {
            &&& f.magic == 0x5052_4545_4D50_5434
            &&& f.rsp >= bottom
            &&& f.rsp <= top
            &&& (f.rsp >> 47 == 0 || f.rsp >> 47 == 0x1_FFFF)
        },
{
    let rsp = f.rsp;
    assert(rsp >> 47 == 0 <==> rsp < 0x8000_0000_0000) by (bit_vector);
    assert(rsp >> 47 == 0x1_FFFF <==> rsp >= 0xFFFF_8000_0000_0000) by (bit_vector);
}

/// Law: the life of a slot. The slot that is handed out is free, and the lowest
/// such; registering a frame and a window there makes it taken and its frame the
/// one that resumes; vacating it makes it free again and leaves a frame that
/// resumes in no window. Each step leaves every other slot alone.
pub proof fn law_life_of_a_slot(
    table: PreemptTable,
    slot: u8,
    registered: &mut PreemptTable,
    frame: FullFrame,
    bounded: &mut PreemptTable,
    bottom: u64,
    top: u64,
    vacated: &mut PreemptTable,
    other: int,
)
    requires
        table@.well_formed(),
        table@.has_room(),
        call_ensures(PreemptTable::alloc_slot, (&table,), slot),
        *old(registered) == table,
        call_ensures(PreemptTable::register_task, (registered, slot as usize, frame), ()),
        *old(bounded) == *final(registered),
        call_ensures(PreemptTable::set_slot_bounds, (bounded, slot as usize, bottom, top), ()),
        *old(vacated) == *final(bounded),
        call_ensures(PreemptTable::unregister_task, (vacated, slot as usize), ()),
        0 <= other < 16,
        other != slot,
    ensures
        slot < 16,
        !table@.used[slot as int],
        forall|i: int| 0 <= i < slot ==> #[trigger] table@.used[i],
        final(bounded)@.used[slot as int],
        final(bounded)@.frames[slot as int] == frame,
        final(bounded)@.bounds[slot as int] == (bottom, top),
        final(bounded)@.frame_ok(slot as int) <==> frame.resumable(bottom as int, top as int),
        !final(vacated)@.used[slot as int],
        forall|lo: int, hi: int|
            !#[trigger] final(vacated)@.frames[slot as int].resumable(lo, hi),
        final(vacated)@.used[other] == table@.used[other],
        final(vacated)@.frames[other] == table@.frames[other],
        final(vacated)@.bounds[other] == table@.bounds[other],
        final(vacated)@.owners == table@.owners,
        final(vacated)@.current == table@.current,
        final(vacated)@.preemptible == table@.preemptible,
        final(vacated)@.ticks == table@.ticks,
        final(vacated)@.switches == table@.switches,
        final(vacated)@.eoi_base == table@.eoi_base,
{
}

/// Law: a slot names the task that was entered there, until it is forgotten; no
/// slot beyond the table names anybody.
pub proof fn law_slot_names_its_task(
    named: &mut PreemptTable,
    idx: usize,
    task: usize,
    cleared: &mut PreemptTable,
    at: usize,
    found: Option<usize>,
    left: Option<usize>,
)
    requires
        old(named)@.well_formed(),
        idx < 16,
        call_ensures(PreemptTable::set_task_ptr, (named, idx, task), ()),
        call_ensures(PreemptTable::owner, (&*final(named), at), found),
        *old(cleared) == *final(named),
        call_ensures(PreemptTable::clear_task_ptr, (cleared, idx), ()),
        call_ensures(PreemptTable::owner, (&*final(cleared), at), left),
    ensures
        at == idx ==> found == Some(task) && left is None,
        at != idx && at < 16 ==> found == old(named)@.owners[at as int] && left == found,
        at >= 16 ==> found is None && left is None,
{
}

/// Law: what is set is read back. The slot that was published is the current one,
/// the address that was published is the one that the next interrupt acknowledges,
/// unless it is zero, and the fence decides whether that interrupt saves a frame.
/// None of the three disturbs the others.
pub proof fn law_controls_read_back(
    current: &mut PreemptTable,
    idx: usize,
    seen: usize,
    fenced: &mut PreemptTable,
    on: bool,
    addressed: &mut PreemptTable,
    addr: u64,
    hit: &mut PreemptTable,
    irq: IrqSnapshot,
    eoi: Option<u64>,
)
    requires
        old(current)@.well_formed(),
        call_ensures(PreemptTable::set_current, (current, idx), ()),
        call_ensures(PreemptTable::current_idx, (&*final(current),), seen),
        *old(fenced) == *final(current),
        call_ensures(set_preemptible, (fenced, on), ()),
        *old(addressed) == *final(fenced),
        call_ensures(set_eoi_base, (addressed, addr), ()),
        *old(hit) == *final(addressed),
        irq.spill_rsp + 144 <= u64::MAX,
        call_ensures(lapic_preempt_stub, (hit, &irq), eoi),
    ensures
        seen == idx,
        eoi is Some <==> addr != 0,
        eoi matches Some(at) ==> at == addr,
        final(hit)@.current == idx,
        final(hit)@.preemptible == on,
        final(hit)@.switches == if on && idx < 16 {
            old(current)@.switches.wrapping_add(1)
        } else {
            old(current)@.switches
        },
        final(hit)@.ticks == old(current)@.ticks.wrapping_add(1),
        !on || idx >= 16 ==> final(hit)@.frames == old(current)@.frames,
        final(hit)@.used == old(current)@.used,
        final(hit)@.bounds == old(current)@.bounds,
        final(hit)@.owners == old(current)@.owners,
{
}

/// Law: what the table tells. There is room while one of the sixteen slots is free;
/// a slot beyond them can never be resumed, and one among them exactly if it is
/// taken and its frame is sound on the stack window recorded for it. The counters
/// and the frames are told as they are.
pub proof fn law_table_tells(
    table: PreemptTable,
    room: bool,
    idx: usize,
    ok: bool,
    frame: FullFrame,
    sound: bool,
    ticks: u64,
    switches: u64,
)
    requires
        table@.well_formed(),
        idx < 16 ==> call_ensures(PreemptTable::frame, (&table, idx), frame),
        idx < 16 ==> call_ensures(
            FullFrame::valid_for,
            (&frame, table@.bounds[idx as int].0, table@.bounds[idx as int].1),
            sound,
        ),
        call_ensures(PreemptTable::has_free_slot, (&table,), room),
        call_ensures(PreemptTable::frame_ok, (&table, idx), ok),
        call_ensures(PreemptTable::ticks, (&table,), ticks),
        call_ensures(PreemptTable::switches, (&table,), switches),
    ensures
        !room <==> forall|i: int| 0 <= i < 16 ==> #[trigger] table@.used[i],
        idx >= 16 ==> !ok,
        idx < 16 ==> frame == table@.frames[idx as int],
        idx < 16 ==> (ok <==> table@.used[idx as int] && sound),
        ticks == table@.ticks,
        switches == table@.switches,
{
}

/// Law: a new table is empty. Every slot is free, blank, without a window and
/// without an owner; the driver is in charge, with the fence down, and nothing was
/// counted.
pub proof fn law_new_table_is_empty(table: PreemptTable, blank: FullFrame)
    requires
        call_ensures(PreemptTable::new, (), table),
        call_ensures(FullFrame::blank, (), blank),
    ensures
        forall|i: int|
            0 <= i < 16 ==> {
                &&& !#[trigger] table@.used[i]
                &&& table@.frames[i] == blank
                &&& table@.bounds[i] == (0u64, 0u64)
                &&& table@.owners[i] is None
            },
        forall|i: int| 0 <= i < 20 ==> #[trigger] blank.words()[i] == 0,
        forall|lo: int, hi: int| !#[trigger] blank.resumable(lo, hi),
        table@.current == 16,
        !table@.preemptible,
        table@.eoi_base == 0,
        table@.ticks == 0,
        table@.switches == 0,
{
}

} // verus!
