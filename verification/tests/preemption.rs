use rustycore::preempt::{
    lapic_preempt_stub, set_eoi_base, set_preemptible, FullFrame, IrqSnapshot, PreemptTable,
    MAX_TASKS, PREEMPT_MAGIC,
};

const TOP: u64 = 0xFFFF_9000_0002_0000;
const BOTTOM: u64 = 0xFFFF_9000_0000_0000;

fn irq(spill_rsp: u64) -> IrqSnapshot {
    IrqSnapshot {
        r15: 15,
        r14: 14,
        r13: 13,
        r12: 12,
        r11: 11,
        r10: 10,
        r9: 9,
        r8: 8,
        rdi: 7,
        rsi: 6,
        rbp: 5,
        rbx: 4,
        rdx: 3,
        rcx: 2,
        rax: 1,
        spill_rsp,
        rip: 0x1234,
        cs: 8,
        rflags: 0x202,
    }
}

#[test]
fn fresh_frame_enters_with_call_parity() {
    let f = FullFrame::fresh(0x1000_0000, 8, TOP);
    assert_eq!(f.rip, 0x1000_0000);
    assert_eq!(f.cs, 8);
    assert_eq!(f.rflags, 0x202);
    assert_eq!(f.magic, PREEMPT_MAGIC);
    assert_eq!(f.rsp, TOP - 8);
    assert_eq!(f.rsp % 16, 8);
    assert_eq!(f.rax, 0);
    assert!(f.valid_for(BOTTOM, TOP));
}

#[test]
fn frames_are_refused_outside_their_window() {
    let mut f = FullFrame::fresh(1, 8, TOP);
    f.rsp = TOP;
    assert!(f.valid_for(BOTTOM, TOP));
    f.rsp = BOTTOM;
    assert!(f.valid_for(BOTTOM, TOP));
    f.rsp = TOP + 1;
    assert!(!f.valid_for(BOTTOM, TOP));
    f.rsp = BOTTOM - 1;
    assert!(!f.valid_for(BOTTOM, TOP));
}

#[test]
fn frames_need_the_magic_and_a_canonical_pointer() {
    let mut f = FullFrame::fresh(1, 8, TOP);
    f.magic = 0;
    assert!(!f.valid_for(BOTTOM, TOP));
    let mut g = FullFrame::fresh(1, 8, TOP);
    g.rsp = 0x8000_0000_0000;
    assert!(!g.valid_for(0, u64::MAX));
    g.rsp = 0x7FFF_FFFF_FFFF;
    assert!(g.valid_for(0, u64::MAX));
    g.rsp = 0xFFFF_7FFF_FFFF_FFFF;
    assert!(!g.valid_for(0, u64::MAX));
    g.rsp = 0xFFFF_8000_0000_0000;
    assert!(g.valid_for(0, u64::MAX));
    assert!(!FullFrame::blank().valid_for(0, u64::MAX));
}

#[test]
fn frame_words_round_trip() {
    let f = irq(TOP - 0x200).to_frame();
    let w = f.to_words();
    assert_eq!(w[0], 15);
    assert_eq!(w[14], 1);
    assert_eq!(w[15], TOP - 0x200 + 144);
    assert_eq!(w[16], 0x1234);
    assert_eq!(w[19], PREEMPT_MAGIC);
    assert_eq!(FullFrame::from_words(&w), f);
}

#[test]
fn slots_are_taken_lowest_first_and_reused() {
    let mut t = PreemptTable::new();
    for k in 0..MAX_TASKS {
        assert!(t.has_free_slot());
        let s = t.alloc_slot();
        assert_eq!(s as usize, k);
        t.register_task(s as usize, FullFrame::fresh(1, 8, TOP));
    }
    assert!(!t.has_free_slot());
    t.unregister_task(5);
    assert_eq!(t.alloc_slot(), 5);
}

#[test]
fn registered_slot_resumes_until_it_is_vacated() {
    let mut t = PreemptTable::new();
    assert!(!t.frame_ok(0));
    t.register_task(0, FullFrame::fresh(1, 8, TOP));
    assert!(!t.frame_ok(0));
    t.set_slot_bounds(0, BOTTOM, TOP);
    assert!(t.frame_ok(0));
    assert!(!t.frame_ok(1));
    t.unregister_task(0);
    assert!(!t.frame_ok(0));
    assert_eq!(t.frame(0), FullFrame::blank());
    assert!(!t.frame_ok(MAX_TASKS));
}

#[test]
fn owners_are_found_by_slot() {
    let mut t = PreemptTable::new();
    t.set_task_ptr(3, 42);
    assert_eq!(t.owner(3), Some(42));
    assert_eq!(t.owner(2), None);
    assert_eq!(t.owner(MAX_TASKS), None);
    t.clear_task_ptr(MAX_TASKS);
    t.clear_task_ptr(3);
    assert_eq!(t.owner(3), None);
}

#[test]
fn fence_down_counts_and_acknowledges() {
    let mut t = PreemptTable::new();
    t.register_task(2, FullFrame::fresh(1, 8, TOP));
    t.set_current(2);
    assert_eq!(lapic_preempt_stub(&mut t, &irq(TOP - 0x200)), None);
    set_eoi_base(&mut t, 0xFFFF_A000_0000_00B0);
    assert_eq!(lapic_preempt_stub(&mut t, &irq(TOP - 0x200)), Some(0xFFFF_A000_0000_00B0));
    assert_eq!(t.ticks(), 2);
    assert_eq!(t.switches(), 0);
    assert_eq!(t.frame(2), FullFrame::fresh(1, 8, TOP));
}

#[test]
fn yank_saves_the_running_task_only() {
    let mut t = PreemptTable::new();
    for s in 0..3 {
        t.register_task(s, FullFrame::fresh(1, 8, TOP));
        t.set_slot_bounds(s, BOTTOM, TOP);
    }
    t.set_current(1);
    set_preemptible(&mut t, true);
    let i = irq(TOP - 0x300);
    lapic_preempt_stub(&mut t, &i);
    assert_eq!(t.frame(1), i.to_frame());
    assert_eq!(t.frame(1).rsp, TOP - 0x300 + 144);
    assert_eq!(t.frame(0), FullFrame::fresh(1, 8, TOP));
    assert_eq!(t.frame(2), FullFrame::fresh(1, 8, TOP));
    assert!(t.frame_ok(1));
    assert_eq!(t.switches(), 1);
    assert_eq!(t.current_idx(), 1);
}

#[test]
fn driver_is_never_yanked() {
    let mut t = PreemptTable::new();
    set_preemptible(&mut t, true);
    assert_eq!(t.current_idx(), MAX_TASKS);
    lapic_preempt_stub(&mut t, &irq(TOP - 0x300));
    assert_eq!(t.switches(), 0);
    assert_eq!(t.ticks(), 1);
}
