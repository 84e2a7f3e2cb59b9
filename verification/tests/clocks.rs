use rustycore::apic::calibration::{median, Calibration, SPIN_GUARD};
use rustycore::apic::{
    apic_id, base_from_msr, calibrate, calibrate_ticks, eoi, init, lapic_reg, probe, promote, rollback_to_pit,
    start_periodic, ticks_per_10ms, window_base, Access, ApicError, Lapic, Probe, FALLBACK_BASE,
};
use rustycore::memory::paging::{MemoryError, MMIO_WINDOW};
use rustycore::preempt::{lapic_preempt_stub, IrqSnapshot, PreemptTable};

fn good_probe() -> Probe {
    probe(1 << 9, 0xFEE0_0900, true)
}

fn mapped() -> Lapic {
    Lapic { virt: MMIO_WINDOW, ticks_per_10ms: 0 }
}

fn write(off: u64, value: u32) -> Access {
    Access::Write { addr: MMIO_WINDOW + off, value }
}

#[test]
fn probe_reads_the_bits() {
    let p = probe(1 << 9, 0xFEE0_0900, true);
    assert_eq!(
        p,
        Probe { present: true, base: 0xFEE0_0000, enabled: true, bsp: true, have_rsdp: true }
    );
    let q = probe(!(1 << 9), 0x8_1234_5800, false);
    assert_eq!(
        q,
        Probe {
            present: false,
            base: 0x8_1234_5000,
            enabled: true,
            bsp: false,
            have_rsdp: false
        }
    );
    assert_eq!(probe(0, 0xFFF0_0000_0000_0FFF, false).base, FALLBACK_BASE);
}

#[test]
fn disabled_apic_has_the_fallback_base() {
    let p = probe(1 << 9, 0xFEB0_0100, false);
    assert_eq!(
        p,
        Probe { present: true, base: 0xFEE0_0000, enabled: false, bsp: true, have_rsdp: false }
    );
    assert!(!base_from_msr(0xFEB0_0100));
    assert!(!base_from_msr(0x900));
    assert!(base_from_msr(0xFEB0_0900));
    assert_eq!(probe(0, 0xFEB0_0900, false).base, 0xFEB0_0000);
}

#[test]
fn registers_never_wrap() {
    assert_eq!(lapic_reg(MMIO_WINDOW, 0xB0), Ok(MMIO_WINDOW + 0xB0));
    assert_eq!(lapic_reg(u64::MAX, 1), Err(ApicError::RegisterOverflows));
}

#[test]
fn init_enables_and_masks() {
    let mut l = Lapic::new();
    let mut t = PreemptTable::new();
    assert_eq!(window_base(&good_probe()), Ok(0xFEE0_0000));
    let plan = init(&mut l, &mut t, &good_probe(), Ok(MMIO_WINDOW)).unwrap();
    assert_eq!(
        plan,
        vec![
            write(0xF0, 0x1FF),
            Access::SetBits { addr: MMIO_WINDOW + 0x320, bits: 1 << 16 },
            write(0x80, 0),
            Access::Read { addr: MMIO_WINDOW + 0x20 },
            Access::Read { addr: MMIO_WINDOW + 0x30 },
            Access::Read { addr: MMIO_WINDOW + 0xF0 },
        ]
    );
    assert_eq!(l.virt, MMIO_WINDOW);
    let irq = IrqSnapshot {
        r15: 0,
        r14: 0,
        r13: 0,
        r12: 0,
        r11: 0,
        r10: 0,
        r9: 0,
        r8: 0,
        rdi: 0,
        rsi: 0,
        rbp: 0,
        rbx: 0,
        rdx: 0,
        rcx: 0,
        rax: 0,
        spill_rsp: 0,
        rip: 0,
        cs: 0,
        rflags: 0,
    };
    assert_eq!(lapic_preempt_stub(&mut t, &irq), Some(MMIO_WINDOW + 0xB0));
}

#[test]
fn init_refusals() {
    let mut l = Lapic::new();
    let mut t = PreemptTable::new();
    let absent = Probe { present: false, ..good_probe() };
    let off = Probe { enabled: false, ..good_probe() };
    assert_eq!(
        init(&mut l, &mut t, &absent, Ok(MMIO_WINDOW)),
        Err(ApicError::NotPresent)
    );
    assert_eq!(
        init(&mut l, &mut t, &off, Ok(MMIO_WINDOW)),
        Err(ApicError::SoftDisabled)
    );
    assert_eq!(window_base(&absent), Err(ApicError::NotPresent));
    assert_eq!(window_base(&off), Err(ApicError::SoftDisabled));
    assert_eq!(
        init(&mut l, &mut t, &good_probe(), Err(MemoryError::MmioOccupied)),
        Err(ApicError::Window(MemoryError::MmioOccupied))
    );
    assert_eq!(l, Lapic::new());
}

#[test]
fn accesses_apply() {
    let w = write(0x80, 7);
    assert!(!w.loads());
    assert_eq!(w.stores(99), Some(7));
    assert_eq!(w.addr(), MMIO_WINDOW + 0x80);
    let s = Access::SetBits { addr: 4, bits: 0x10 };
    assert!(s.loads());
    assert_eq!(s.stores(0x03), Some(0x13));
    let r = Access::Read { addr: 8 };
    assert!(r.loads());
    assert_eq!(r.stores(5), None);
    assert_eq!(r.addr(), 8);
}

#[test]
fn id_is_the_top_byte() {
    assert_eq!(apic_id(0x0300_00FF), 3);
}

#[test]
fn tick_scaling() {
    assert_eq!(calibrate_ticks(625_000, 100, 10), 62_500);
    assert_eq!(calibrate_ticks(1_000, 1_000, 4), 2_500);
    assert_eq!(calibrate_ticks(9, 100, 10), 0);
    assert_eq!(calibrate_ticks(1_000, 99, 10), 99);
    assert_eq!(calibrate_ticks(1_000, 150, 15), 100);
    assert_eq!(calibrate_ticks(5, 0, 10), 0);
    assert_eq!(calibrate_ticks(5, 100, 0), 0);
    assert_eq!(calibrate_ticks(u32::MAX, u32::MAX, 1), 0xFFFF_FFFE_0000_0001 / 100);
}

#[test]
fn median_of_three() {
    for (a, b, c) in [(1, 2, 3), (1, 3, 2), (2, 1, 3), (2, 3, 1), (3, 1, 2), (3, 2, 1)] {
        assert_eq!(median(a, b, c), 2);
    }
    assert_eq!(median(5, 5, 9), 5);
    assert_eq!(median(5, 9, 9), 9);
}

#[test]
fn calibration_runs_three_rounds() {
    let mut l = mapped();
    let (mut c, first) = Calibration::new(&l).ok().unwrap();
    assert_eq!(first, write(0x3E0, 0x3));
    for (round, delta) in [640_000u32, 625_000, 630_000].iter().enumerate() {
        assert!(!c.is_complete());
        assert_eq!(c.load_count(), Ok(write(0x380, 0xFFFF_FFFF)));
        let start = u64::MAX - 3 + round as u64;
        c.begin_round(start);
        assert_eq!(c.poll(start), Ok(false));
        assert_eq!(c.poll(start.wrapping_add(9)), Ok(false));
        assert_eq!(c.poll(start.wrapping_add(10)), Ok(true));
        assert_eq!(c.read_count(), Ok(Access::Read { addr: MMIO_WINDOW + 0x390 }));
        assert_eq!(c.end_round(0xFFFF_FFFF - delta), Ok(()));
    }
    assert!(c.is_complete());
    let rate = calibrate(&mut l, &c).unwrap();
    assert_eq!(rate.median, 630_000);
    assert_eq!(rate.spread, 15_000);
    assert_eq!(rate.per_10ms, 63_000);
    assert_eq!(ticks_per_10ms(&l), 63_000);
}

#[test]
fn calibration_refusals() {
    assert_eq!(
        Calibration::new(&Lapic::new()).err(),
        Some(ApicError::CalibrateBeforeInit)
    );
    let mut l = mapped();
    let (mut c, _) = Calibration::new(&l).ok().unwrap();
    c.begin_round(0);
    c.spins = SPIN_GUARD - 1;
    assert_eq!(c.poll(9), Ok(false));
    assert_eq!(c.poll(9), Err(ApicError::PitSilent));
    c.begin_round(0);
    assert_eq!(c.end_round(0xFFFF_FFFF), Err(ApicError::CountStuck));
    for _ in 0..3 {
        assert_eq!(c.end_round(0xFFFF_FFFF - 9), Ok(()));
    }
    assert_eq!(calibrate(&mut l, &c), Err(ApicError::ZeroRate));
    assert_eq!(ticks_per_10ms(&l), 0);
}

#[test]
fn periodic_start() {
    let l = Lapic { virt: MMIO_WINDOW, ticks_per_10ms: 62_500 };
    assert_eq!(
        start_periodic(&l),
        Ok(vec![write(0x320, 0xEF | (1 << 17)), write(0x380, 62_500)])
    );
    assert_eq!(start_periodic(&Lapic::new()), Err(ApicError::StartBeforeInit));
    assert_eq!(start_periodic(&mapped()), Err(ApicError::NoRate));
    let huge = Lapic { virt: MMIO_WINDOW, ticks_per_10ms: 1 << 32 };
    assert_eq!(start_periodic(&huge), Err(ApicError::NoRate));
}

#[test]
fn acknowledge() {
    assert_eq!(eoi(&mapped()), Ok(write(0xB0, 0)));
    assert_eq!(eoi(&Lapic::new()), Err(ApicError::EoiBeforeInit));
}

#[test]
fn promotion_moves_the_timer_line_alone() {
    let l = Lapic { virt: MMIO_WINDOW, ticks_per_10ms: 62_500 };
    assert_eq!(promote(&l, (0xFC, 0xFF)), Ok((0xFD, 0xFF)));
    assert_eq!(rollback_to_pit((0xFD, 0xFF)), (0xFC, 0xFF));
    assert_eq!(promote(&Lapic::new(), (0, 0)), Err(ApicError::PromoteBeforeInit));
    assert_eq!(promote(&mapped(), (0, 0)), Err(ApicError::PromoteWithoutRate));
}

#[test]
fn apic_messages() {
    assert_eq!(
        ApicError::NotPresent.message(),
        "no local APIC present (CPUID bit 9 clear)"
    );
    assert_eq!(
        ApicError::Window(MemoryError::MmioUnaligned).message(),
        "mmio phys address is not 4KiB-aligned"
    );
    assert_eq!(
        ApicError::PromoteWithoutRate.message(),
        "apic: promote without a calibrated rate — refusing"
    );
}
