//! Local APIC bring-up: probe, enable, calibrate, start, promote.
//!
//! Registers are touched elsewhere. This module says which register gets which
//! value in which order, and what the values read back mean.

pub mod calibration;

use vstd::prelude::*;
use crate::memory::paging::MemoryError;
use crate::preempt;
use crate::preempt::PreemptTable;

pub use calibration::{calibrate, calibrate_ticks};

verus! {

/// Index of the model-specific register that holds the APIC base.
pub const IA32_APIC_BASE: u32 = 0x1B;

/// Bits 12 to 51 of that register: the physical base.
pub const APIC_BASE_MASK: u64 = 0x000F_FFFF_FFFF_F000;

/// Well-known base, used when the APIC is disabled or the register names none.
pub const FALLBACK_BASE: u64 = 0xFEE0_0000;

/// Register offsets in the window.
pub const ID_OFFSET: u64 = 0x20;

pub const VER_OFFSET: u64 = 0x30;

pub const TPR_OFFSET: u64 = 0x80;

pub const EOI_OFFSET: u64 = 0xB0;

pub const SVR_OFFSET: u64 = 0xF0;

pub const LVT_TIMER_OFFSET: u64 = 0x320;

pub const ICR_OFFSET: u64 = 0x380;

pub const CCR_OFFSET: u64 = 0x390;

pub const DCR_OFFSET: u64 = 0x3E0;

/// Spurious-vector register: vector 0xFF, APIC enabled.
pub const SVR_ENABLE: u32 = 0x1FF;

/// Mask bit of a local vector table entry.
pub const LVT_MASKED: u32 = 0x1_0000;

/// Timer entry: vector 0xEF, periodic mode, not masked.
pub const LVT_PERIODIC: u32 = 0x2_00EF;

/// Spin guard of the clock watches at boot.
pub const SOAK_SPIN_GUARD: u64 = 100_000_000;

/// What the read-only probe found.
#[derive(Debug, Clone, Copy, PartialEq, Eq, Structural)]
pub struct Probe {
    /// A local APIC exists.
    pub present: bool,
    /// Physical base of its registers; the well-known one if it is disabled.
    pub base: u64,
    /// The APIC is globally enabled.
    pub enabled: bool,
    /// This processor is the bootstrap processor.
    pub bsp: bool,
    /// The bootloader handed over an RSDP address.
    pub have_rsdp: bool,
}

/// Why APIC bring-up refuses to go on.
#[derive(Debug, Clone, Copy, PartialEq, Eq, Structural)]
pub enum ApicError {
    NotPresent,
    SoftDisabled,
    RegisterOverflows,
    Window(MemoryError),
    CalibrateBeforeInit,
    PitSilent,
    CountStuck,
    ZeroRate,
    StartBeforeInit,
    NoRate,
    EoiBeforeInit,
    PromoteBeforeInit,
    PromoteWithoutRate,
}

impl ApicError {
    /// The message as text.
    pub open spec fn text(self) -> Seq<char> {
        match self {
            ApicError::NotPresent => "no local APIC present (CPUID bit 9 clear)"@,
            ApicError::SoftDisabled =>
                "APIC soft-disabled (IA32_APIC_BASE bit 11 clear) — refusing to pretend"@,
            ApicError::RegisterOverflows => "apic register address overflows"@,
            ApicError::Window(e) => e.text(),
            ApicError::CalibrateBeforeInit =>
                "apic: calibrate before init — LAPIC window not mapped"@,
            ApicError::PitSilent =>
                "apic: PIT produced no ticks during calibration — timer dead?"@,
            ApicError::CountStuck =>
                "apic: CCR delta is zero — MMIO writes lost (NO_CACHE missing?)"@,
            ApicError::ZeroRate => "apic: calibrated rate is zero — refusing to program it"@,
            ApicError::StartBeforeInit =>
                "apic: start_periodic before init — LAPIC window not mapped"@,
            ApicError::NoRate =>
                "apic: no calibrated rate — refusing to program a zero/huge ICR"@,
            ApicError::EoiBeforeInit => "apic: eoi before init — LAPIC window not mapped"@,
            ApicError::PromoteBeforeInit =>
                "apic: promote before init — LAPIC window not mapped"@,
            ApicError::PromoteWithoutRate =>
                "apic: promote without a calibrated rate — refusing"@,
        }
    }

    /// The message that goes to the log.
    pub fn message(&self) -> (m: &'static str)
        ensures
            m@ == self.text(),
    {
        match self {
            ApicError::NotPresent => "no local APIC present (CPUID bit 9 clear)",
            ApicError::SoftDisabled =>
                "APIC soft-disabled (IA32_APIC_BASE bit 11 clear) — refusing to pretend",
            ApicError::RegisterOverflows => "apic register address overflows",
            ApicError::Window(e) => e.message(),
            ApicError::CalibrateBeforeInit =>
                "apic: calibrate before init — LAPIC window not mapped",
            ApicError::PitSilent => "apic: PIT produced no ticks during calibration — timer dead?",
            ApicError::CountStuck =>
                "apic: CCR delta is zero — MMIO writes lost (NO_CACHE missing?)",
            ApicError::ZeroRate => "apic: calibrated rate is zero — refusing to program it",
            ApicError::StartBeforeInit =>
                "apic: start_periodic before init — LAPIC window not mapped",
            ApicError::NoRate => "apic: no calibrated rate — refusing to program a zero/huge ICR",
            ApicError::EoiBeforeInit => "apic: eoi before init — LAPIC window not mapped",
            ApicError::PromoteBeforeInit => "apic: promote before init — LAPIC window not mapped",
            ApicError::PromoteWithoutRate => "apic: promote without a calibrated rate — refusing",
        }
    }
}

/// The register names a base that counts: the APIC is enabled, and the base is
/// not zero.
pub open spec fn names_base(msr: u64) -> bool {
    msr & 0x800 != 0 && msr & APIC_BASE_MASK != 0
}

/// What the registers say of the APIC.
pub open spec fn probed(cpuid_edx: u32, msr: u64, have_rsdp: bool) -> Probe {
    Probe {
        present: cpuid_edx & 0x200 != 0,
        base: if names_base(msr) {
            msr & APIC_BASE_MASK
        } else {
            FALLBACK_BASE
        },
        enabled: msr & 0x800 != 0,
        bsp: msr & 0x100 != 0,
        have_rsdp,
    }
}

/// Whether the base comes from IA32_APIC_BASE; if not, it is the well-known one.
pub fn base_from_msr(msr: u64) -> (yes: bool)
    ensures
        yes == names_base(msr),
{
    assert(1u64 << 11 == 0x800u64) by (bit_vector);
    msr & (1u64 << 11) != 0 && msr & APIC_BASE_MASK != 0
}

/// Judge what CPUID leaf 1 (register EDX) and IA32_APIC_BASE say. The base of a
/// disabled APIC, or a base of zero, is replaced by the well-known one.
pub fn probe(cpuid_edx: u32, msr: u64, have_rsdp: bool) -> (p: Probe)
    ensures
        p == probed(cpuid_edx, msr, have_rsdp),
        p.base % 4096 == 0,
        0 < p.base < 0x10_0000_0000_0000,
{
    let present = cpuid_edx & (1u32 << 9) != 0;
    let enabled = msr & (1u64 << 11) != 0;
    let bsp = msr & (1u64 << 8) != 0;
    proof {
        assert(1u32 << 9 == 0x200u32 && 1u64 << 11 == 0x800u64 && 1u64 << 8 == 0x100u64)
            by (bit_vector);
        assert((msr & 0x000F_FFFF_FFFF_F000u64) % 4096 == 0 && (msr & 0x000F_FFFF_FFFF_F000u64)
            < 0x10_0000_0000_0000u64) by (bit_vector);
    }
    let base: u64 = if base_from_msr(msr) {
        msr & APIC_BASE_MASK
    } else {
        FALLBACK_BASE
    };
    Probe { present, base, enabled, bsp, have_rsdp }
}

/// What is known of the local APIC.
#[derive(Debug, Clone, Copy, PartialEq, Eq, Structural)]
pub struct Lapic {
    /// Address of the register window, zero until it is mapped.
    pub virt: u64,
    /// Calibrated timer ticks per 10 ms, zero until then.
    pub ticks_per_10ms: u64,
}

impl Lapic {
    /// The window, if mapped, is a page of the address space.
    pub open spec fn well_formed(self) -> bool {
        self.virt + 0xFFF <= u64::MAX
    }

    /// The timer can be programmed: the window is mapped, and the rate fits the
    /// counter and is not zero.
    pub open spec fn ready(self) -> bool {
        self.virt != 0 && 0 < self.ticks_per_10ms <= u32::MAX
    }

    /// Nothing mapped, nothing calibrated.
    pub fn new() -> (l: Self)
        ensures
            l == (Lapic { virt: 0, ticks_per_10ms: 0 }),
            l.well_formed(),
    {
        Lapic { virt: 0, ticks_per_10ms: 0 }
    }
}

/// Calibrated ticks per 10 ms; zero means that there is no rate.
pub fn ticks_per_10ms(lapic: &Lapic) -> (n: u64)
    ensures
        n == lapic.ticks_per_10ms,
{
    lapic.ticks_per_10ms
}

/// One access to a 32-bit register.
#[derive(Debug, Clone, Copy, PartialEq, Eq, Structural)]
pub enum Access {
    /// Store `value`.
    Write { addr: u64, value: u32 },
    /// Set `bits`, keep the others.
    SetBits { addr: u64, bits: u32 },
    /// Load.
    Read { addr: u64 },
}

impl Access {
    /// The register that is touched.
    pub open spec fn target(self) -> u64 {
        match self {
            Access::Write { addr, .. } => addr,
            Access::SetBits { addr, .. } => addr,
            Access::Read { addr } => addr,
        }
    }

    /// The register after the access, if it held `current` before.
    pub open spec fn leaves(self, current: u32) -> u32 {
        match self {
            Access::Write { value, .. } => value,
            Access::SetBits { bits, .. } => current | bits,
            Access::Read { .. } => current,
        }
    }

    /// The register that is touched.
    pub fn addr(&self) -> (a: u64)
        ensures
            a == self.target(),
    {
        match self {
            Access::Write { addr, .. } => *addr,
            Access::SetBits { addr, .. } => *addr,
            Access::Read { addr } => *addr,
        }
    }

    /// Whether the register must be loaded.
    pub fn loads(&self) -> (yes: bool)
        ensures
            yes == !(*self is Write),
    {
        match self {
            Access::Write { .. } => false,
            _ => true,
        }
    }

    /// The value to be stored, given the value that was loaded.
    pub fn stores(&self, loaded: u32) -> (value: Option<u32>)
        ensures
            value == if *self is Read {
                None
            } else {
                Some(self.leaves(loaded))
            },
    {
        match self {
            Access::Write { value, .. } => Some(*value),
            Access::SetBits { bits, .. } => Some(loaded | *bits),
            Access::Read { .. } => None,
        }
    }
}

/// The registers after the accesses in `plan`, one after the other.
pub open spec fn registers_after(plan: Seq<Access>, regs: Map<u64, u32>) -> Map<u64, u32>
    decreases plan.len(),
{
    if plan.len() == 0 {
        regs
    } else {
        let before = registers_after(plan.drop_last(), regs);
        let a = plan.last();
        before.insert(a.target(), a.leaves(before[a.target()]))
    }
}

/// Register address: window base plus offset, never wrapping.
pub fn lapic_reg(win_base: u64, off: u64) -> (r: Result<u64, ApicError>)
    ensures
        r == if win_base + off <= u64::MAX {
            Ok::<u64, ApicError>((win_base + off) as u64)
        } else {
            Err(ApicError::RegisterOverflows)
        },
{
    match win_base.checked_add(off) {
        Some(a) => Ok(a),
        None => Err(ApicError::RegisterOverflows),
    }
}

/// The physical page to be mapped as register window, or why there is none.
pub fn window_base(probe: &Probe) -> (r: Result<u64, ApicError>)
    ensures
        r == if !probe.present {
            Err::<u64, ApicError>(ApicError::NotPresent)
        } else if !probe.enabled {
            Err(ApicError::SoftDisabled)
        } else {
            Ok(probe.base)
        },
{
    if !probe.present {
        return Err(ApicError::NotPresent);
    }
    if !probe.enabled {
        return Err(ApicError::SoftDisabled);
    }
    Ok(probe.base)
}

/// The accesses that enable the APIC in the window at `win`: spurious vector and
/// enable bit, timer entry masked, task priority zero, then the registers to be
/// reported.
pub open spec fn enable_plan(win: int) -> Seq<Access> {
    seq![
        Access::Write { addr: (win + SVR_OFFSET) as u64, value: SVR_ENABLE },
        Access::SetBits { addr: (win + LVT_TIMER_OFFSET) as u64, bits: LVT_MASKED },
        Access::Write { addr: (win + TPR_OFFSET) as u64, value: 0 },
        Access::Read { addr: (win + ID_OFFSET) as u64 },
        Access::Read { addr: (win + VER_OFFSET) as u64 },
        Access::Read { addr: (win + SVR_OFFSET) as u64 },
    ]
}

/// Enable the APIC. `mapped` is the outcome of mapping the window: its address,
/// or the refusal. The address is remembered, the acknowledge register is
/// published to the timer stub, and the accesses to be made come back. The timer
/// stays masked.
pub fn init(
    lapic: &mut Lapic,
    table: &mut PreemptTable,
    probe: &Probe,
    mapped: Result<u64, MemoryError>,
) -> (r: Result<Vec<Access>, ApicError>)
    requires
        old(table)@.well_formed(),
        mapped matches Ok(win) ==> win + 0xFFF <= u64::MAX,
    ensures
        final(table)@.well_formed(),
        match r {
            Ok(plan) => {
                &&& probe.present
                &&& probe.enabled
                &&& mapped matches Ok(win)
                &&& plan@ == enable_plan(win as int)
                &&& *final(lapic) == (Lapic { virt: win, ..*old(lapic) })
                &&& final(lapic).well_formed()
                &&& final(table)@ == (preempt::TableState {
                    eoi_base: (win + EOI_OFFSET) as u64,
                    ..old(table)@
                })
            },
            Err(e) => {
                &&& *final(lapic) == *old(lapic)
                &&& final(table)@ == old(table)@
                &&& if !probe.present {
                    e == ApicError::NotPresent
                } else if !probe.enabled {
                    e == ApicError::SoftDisabled
                } else {
                    mapped matches Err(m) && e == ApicError::Window(m)
                }
            },
        },
{
    match window_base(probe) {
        Ok(_) => {},
        Err(e) => {
            return Err(e);
        },
    }
    let win: u64 = match mapped {
        Ok(win) => win,
        Err(m) => {
            return Err(ApicError::Window(m));
        },
    };
    lapic.virt = win;
    preempt::set_eoi_base(table, win + EOI_OFFSET);
    let svr: u64 = lapic_reg(win, SVR_OFFSET)?;
    let lvt: u64 = lapic_reg(win, LVT_TIMER_OFFSET)?;
    let tpr: u64 = lapic_reg(win, TPR_OFFSET)?;
    let id: u64 = lapic_reg(win, ID_OFFSET)?;
    let ver: u64 = lapic_reg(win, VER_OFFSET)?;
    let mut plan: Vec<Access> = Vec::new();
    plan.push(Access::Write { addr: svr, value: SVR_ENABLE });
    plan.push(Access::SetBits { addr: lvt, bits: LVT_MASKED });
    plan.push(Access::Write { addr: tpr, value: 0 });
    plan.push(Access::Read { addr: id });
    plan.push(Access::Read { addr: ver });
    plan.push(Access::Read { addr: svr });
    assert(plan@ =~= enable_plan(win as int));
    Ok(plan)
}

/// The APIC id in the value of the id register.
pub fn apic_id(id_register: u32) -> (id: u32)
    ensures
        id == id_register / 0x100_0000,
{
    assert(id_register >> 24 == id_register / 0x100_0000) by (bit_vector);
    id_register >> 24
}

/// Start the timer in periodic mode: vector and mode, then one 10 ms quantum as
/// initial count. Returns the accesses to be made.
pub fn start_periodic(lapic: &Lapic) -> (r: Result<Vec<Access>, ApicError>)
    requires
        lapic.well_formed(),
    ensures
        match r {
            Ok(plan) => {
                &&& lapic.ready()
                &&& plan@ == seq![
                    Access::Write {
                        addr: (lapic.virt + LVT_TIMER_OFFSET) as u64,
                        value: LVT_PERIODIC,
                    },
                    Access::Write {
                        addr: (lapic.virt + ICR_OFFSET) as u64,
                        value: lapic.ticks_per_10ms as u32,
                    },
                ]
            },
            Err(e) => {
                &&& !lapic.ready()
                &&& e == if lapic.virt == 0 {
                    ApicError::StartBeforeInit
                } else {
                    ApicError::NoRate
                }
            },
        },
{
    let win: u64 = lapic.virt;
    if win == 0 {
        return Err(ApicError::StartBeforeInit);
    }
    let quantum: u64 = ticks_per_10ms(lapic);
    if quantum == 0 || quantum > u32::MAX as u64 {
        return Err(ApicError::NoRate);
    }
    let lvt: u64 = lapic_reg(win, LVT_TIMER_OFFSET)?;
    let icr: u64 = lapic_reg(win, ICR_OFFSET)?;
    let mut plan: Vec<Access> = Vec::new();
    plan.push(Access::Write { addr: lvt, value: LVT_PERIODIC });
    plan.push(Access::Write { addr: icr, value: quantum as u32 });
    Ok(plan)
}

/// Acknowledge an interrupt: the access to be made.
pub fn eoi(lapic: &Lapic) -> (r: Result<Access, ApicError>)
    requires
        lapic.well_formed(),
    ensures
        r == if lapic.virt == 0 {
            Err::<Access, ApicError>(ApicError::EoiBeforeInit)
        } else {
            Ok(Access::Write { addr: (lapic.virt + EOI_OFFSET) as u64, value: 0 })
        },
{
    let win: u64 = lapic.virt;
    if win == 0 {
        return Err(ApicError::EoiBeforeInit);
    }
    let addr: u64 = lapic_reg(win, EOI_OFFSET)?;
    Ok(Access::Write { addr, value: 0 })
}

/// Make the APIC timer the master clock: the interrupt masks of the two legacy
/// controllers with the timer line masked and every other line as it was.
pub fn promote(lapic: &Lapic, masks: (u8, u8)) -> (r: Result<(u8, u8), ApicError>)
    ensures
        r == if lapic.virt == 0 {
            Err::<(u8, u8), ApicError>(ApicError::PromoteBeforeInit)
        } else if lapic.ticks_per_10ms == 0 {
            Err(ApicError::PromoteWithoutRate)
        } else {
            Ok((masks.0 | 0x01, masks.1))
        },
{
    if lapic.virt == 0 {
        return Err(ApicError::PromoteBeforeInit);
    }
    if ticks_per_10ms(lapic) == 0 {
        return Err(ApicError::PromoteWithoutRate);
    }
    Ok((masks.0 | 0x01, masks.1))
}

/// Give the clock back to the legacy timer: its line unmasked, every other line
/// as it was.
pub fn rollback_to_pit(masks: (u8, u8)) -> (r: (u8, u8))
    ensures
        r == (masks.0 & !0x01u8, masks.1),
{
    (masks.0 & !0x01u8, masks.1)
}

/// Bit `line` of an interrupt mask.
pub open spec fn line_masked(mask: u8, line: u8) -> bool {
    mask & (1u8 << line) != 0
}

/// Law: promoting and rolling back move the timer line alone. After promotion it
/// is masked, after a rollback it is not, and every other line of both
/// controllers is as it was; so rolling back a promotion restores the masks of a
/// timer that was running.
pub proof fn law_only_the_timer_line_moves(masks: (u8, u8), line: u8)
    requires
        line < 8,
    ensures
        line_masked(masks.0 | 0x01, 0),
        !line_masked(masks.0 & !0x01u8, 0),
        line != 0 ==> line_masked(masks.0 | 0x01, line) == line_masked(masks.0, line),
        line != 0 ==> line_masked(masks.0 & !0x01u8, line) == line_masked(masks.0, line),
        !line_masked(masks.0, 0) ==> (masks.0 | 0x01) & !0x01u8 == masks.0,
{
    let m = masks.0;
    assert((m | 0x01) & (1u8 << 0u8) != 0) by (bit_vector);
    assert((m & !0x01u8) & (1u8 << 0u8) == 0) by (bit_vector);
    assert(line != 0 ==> ((m | 0x01) & (1u8 << line) != 0) == (m & (1u8 << line) != 0))
        by (bit_vector)
        requires
            line < 8,
    ;
    assert(line != 0 ==> ((m & !0x01u8) & (1u8 << line) != 0) == (m & (1u8 << line) != 0))
        by (bit_vector)
        requires
            line < 8,
    ;
    assert(m & (1u8 << 0u8) == 0 ==> (m | 0x01) & !0x01u8 == m) by (bit_vector);
}

/// Law: the enabling accesses stay in the window, and afterwards the APIC is
/// enabled on its spurious vector, the timer is masked, the task priority is
/// zero, and every other register is as it was.
pub proof fn law_enable(win: int, regs: Map<u64, u32>, other: u64)
    requires
        0 <= win,
        win + 0xFFF <= u64::MAX,
        other != win + SVR_OFFSET,
        other != win + LVT_TIMER_OFFSET,
        other != win + TPR_OFFSET,
    ensures
        forall|i: int|
            0 <= i < enable_plan(win).len() ==> win <= (#[trigger] enable_plan(win)[i]).target()
                && enable_plan(win)[i].target() + 4 <= win + 0x1000,
        ({
            let after = registers_after(enable_plan(win), regs);
            &&& after[(win + SVR_OFFSET) as u64] == SVR_ENABLE
            &&& after[(win + LVT_TIMER_OFFSET) as u64] == regs[(win + LVT_TIMER_OFFSET) as u64]
                | LVT_MASKED
            &&& after[(win + LVT_TIMER_OFFSET) as u64] & LVT_MASKED != 0
            &&& after[(win + TPR_OFFSET) as u64] == 0
            &&& after[other] == regs[other]
        }),
{
    let plan = enable_plan(win);
    reveal_with_fuel(registers_after, 7);
    assert(plan.drop_last().drop_last().drop_last().drop_last().drop_last().drop_last() =~= Seq::<
        Access,
    >::empty());
    let lvt = regs[(win + LVT_TIMER_OFFSET) as u64];
    assert((lvt | 0x1_0000u32) & 0x1_0000u32 != 0) by (bit_vector);
}

/// Law: what the probe reads. The local APIC is there if bit 9 of the feature word
/// is set; it is enabled if bit 11 of its register is, and this is the bootstrap
/// processor if bit 8 is. Its base is the page that bits 12 to 51 name, unless it
/// is disabled or they name none: then it is the well-known one.
pub proof fn law_probe_bits(cpuid_edx: u32, msr: u64, have_rsdp: bool, p: Probe)
    requires
        call_ensures(probe, (cpuid_edx, msr, have_rsdp), p),
    ensures
        p.present <==> (cpuid_edx >> 9) & 1 == 1,
        p.enabled <==> (msr >> 11) & 1 == 1,
        p.bsp <==> (msr >> 8) & 1 == 1,
        p.have_rsdp == have_rsdp,
        ({
            let page = (msr >> 12) & 0xFF_FFFF_FFFF;
            p.base == if p.enabled && page != 0 {
                (page * 4096) as u64
            } else {
                0xFEE0_0000u64
            }
        }),
{
    assert(cpuid_edx & 0x200 != 0 <==> (cpuid_edx >> 9) & 1 == 1) by (bit_vector);
    assert(msr & 0x800 != 0 <==> (msr >> 11) & 1 == 1) by (bit_vector);
    assert(msr & 0x100 != 0 <==> (msr >> 8) & 1 == 1) by (bit_vector);
    assert(((msr >> 12) & 0xFF_FFFF_FFFF) * 4096 == msr & 0x000F_FFFF_FFFF_F000u64)
        by (bit_vector);
}

/// Law: the log names where the base came from: the register exactly if it names
/// the base that the probe reports.
pub proof fn law_base_source(cpuid_edx: u32, msr: u64, have_rsdp: bool, p: Probe, from_msr: bool)
    requires
        call_ensures(probe, (cpuid_edx, msr, have_rsdp), p),
        call_ensures(base_from_msr, (msr,), from_msr),
    ensures
        from_msr ==> p.enabled && p.base == msr & 0x000F_FFFF_FFFF_F000,
        !from_msr ==> p.base == 0xFEE0_0000 && (!p.enabled || msr & 0x000F_FFFF_FFFF_F000 == 0),
{
}

/// Law: what can be mapped. The window is the probed base, and it is refused, in
/// this order, to an APIC that is not there and to one that is disabled.
pub proof fn law_window_is_the_base(p: Probe, r: Result<u64, ApicError>)
    requires
        call_ensures(window_base, (&p,), r),
    ensures
        r is Ok <==> p.present && p.enabled,
        r matches Ok(base) ==> base == p.base,
        r == Err::<u64, ApicError>(ApicError::NotPresent) <==> !p.present,
        r == Err::<u64, ApicError>(ApicError::SoftDisabled) <==> p.present && !p.enabled,
{
}

/// Law: bringing the APIC up leaves it enabled, with noise on the vector that has
/// the handler for it, its timer masked and no priority set, and the timer stub
/// acknowledging where the APIC does. Nothing else in the window changes.
pub proof fn law_apic_comes_up(
    lapic: &mut Lapic,
    table: &mut PreemptTable,
    p: Probe,
    win: u64,
    plan: Vec<Access>,
    regs: Map<u64, u32>,
    eoi_access: Access,
    other: u64,
)
    requires
        old(table)@.well_formed(),
        win + 0xFFF <= u64::MAX,
        win != 0,
        call_ensures(
            init,
            (lapic, table, &p, Ok::<u64, MemoryError>(win)),
            Ok::<Vec<Access>, ApicError>(plan),
        ),
        call_ensures(eoi, (&*final(lapic),), Ok::<Access, ApicError>(eoi_access)),
        other != win + 0xF0,
        other != win + 0x320,
        other != win + 0x80,
    ensures
        p.present,
        p.enabled,
        final(lapic).virt == win,
        final(lapic).ticks_per_10ms == old(lapic).ticks_per_10ms,
        ({
            let after = registers_after(plan@, regs);
            let spurious = after[(win + 0xF0) as u64];
            let timer = after[(win + 0x320) as u64];
            &&& spurious & 0xFF == crate::idt::SPURIOUS_APIC_VECTOR
            &&& spurious >> 8 == 1
            &&& (timer >> 16) & 1 == 1
            &&& timer & !(1u32 << 16) == regs[(win + 0x320) as u64] & !(1u32 << 16)
            &&& after[(win + 0x80) as u64] == 0
            &&& after[other] == regs[other]
        }),
        eoi_access == (Access::Write { addr: (win + 0xB0) as u64, value: 0 }),
        final(table)@.eoi_base == win + 0xB0,
        final(table)@ == (preempt::TableState {
            eoi_base: final(table)@.eoi_base,
            ..old(table)@
        }),
        plan@.len() == 6,
        plan@[3] == (Access::Read { addr: (win + 0x20) as u64 }),
        plan@[4] == (Access::Read { addr: (win + 0x30) as u64 }),
        plan@[5] == (Access::Read { addr: (win + 0xF0) as u64 }),
{
    law_enable(win as int, regs, other);
    let timer = regs[(win + 0x320) as u64];
    assert(0x1FFu32 & 0xFF == 0xFF && 0x1FFu32 >> 8 == 1) by (bit_vector);
    assert(((timer | 0x1_0000u32) >> 16) & 1 == 1 && (timer | 0x1_0000u32) & !(1u32 << 16) == timer
        & !(1u32 << 16)) by (bit_vector);
}

/// Law: a refused bring-up leaves no trace, and says why: no APIC first, then a
/// disabled one, then a window that could not be mapped.
pub proof fn law_refused_bring_up(
    lapic: &mut Lapic,
    table: &mut PreemptTable,
    p: Probe,
    mapped: Result<u64, MemoryError>,
    r: Result<Vec<Access>, ApicError>,
)
    requires
        old(table)@.well_formed(),
        mapped matches Ok(win) ==> win + 0xFFF <= u64::MAX,
        call_ensures(init, (lapic, table, &p, mapped), r),
    ensures
        r is Ok <==> p.present && p.enabled && mapped is Ok,
        r is Err ==> *final(lapic) == *old(lapic) && final(table)@ == old(table)@,
        r matches Err(e) ==> {
            &&& e == ApicError::NotPresent <==> !p.present
            &&& e == ApicError::SoftDisabled <==> p.present && !p.enabled
            &&& p.present && p.enabled ==> (mapped matches Err(m) && e == ApicError::Window(m))
        },
{
}

/// Law: the timer fires every 10 ms on the vector of the timer stub. Starting it
/// needs a window and a rate that the counter can hold; afterwards its entry is
/// periodic, not masked, and names that vector, and its count is the rate.
pub proof fn law_timer_fires(lapic: Lapic, r: Result<Vec<Access>, ApicError>, regs: Map<u64, u32>)
    requires
        lapic.well_formed(),
        call_ensures(start_periodic, (&lapic,), r),
    ensures
        r is Ok <==> lapic.virt != 0 && 0 < lapic.ticks_per_10ms <= 0xFFFF_FFFF,
        r == Err::<Vec<Access>, ApicError>(ApicError::StartBeforeInit) <==> lapic.virt == 0,
        r matches Err(e) ==> e == ApicError::StartBeforeInit || e == ApicError::NoRate,
        r matches Ok(plan) ==> {
            let after = registers_after(plan@, regs);
            let entry = after[(lapic.virt + 0x320) as u64];
            &&& entry & 0xFF == crate::idt::LAPIC_TIMER_VECTOR
            &&& (entry >> 16) & 1 == 0
            &&& entry >> 17 == 1
            &&& (entry >> 8) & 0xFF == 0
            &&& after[(lapic.virt + 0x380) as u64] == lapic.ticks_per_10ms
            &&& plan@[0].target() == lapic.virt + 0x320
            &&& plan@.len() == 2
        },
{
    assert(0x2_00EFu32 & 0xFF == 0xEF && (0x2_00EFu32 >> 16) & 1 == 0 && 0x2_00EFu32 >> 17 == 1 && (
    0x2_00EFu32 >> 8) & 0xFF == 0) by (bit_vector);
    if let Ok(plan) = r {
        reveal_with_fuel(registers_after, 3);
        assert(plan@.drop_last().drop_last() =~= Seq::<Access>::empty());
    }
}

/// Law: an interrupt is acknowledged by a zero at offset 0xB0 of the window, once
/// there is one.
pub proof fn law_acknowledge(lapic: Lapic, r: Result<Access, ApicError>)
    requires
        lapic.well_formed(),
        call_ensures(eoi, (&lapic,), r),
    ensures
        r is Ok <==> lapic.virt != 0,
        r matches Ok(a) ==> a == (Access::Write { addr: (lapic.virt + 0xB0) as u64, value: 0 }),
        r matches Err(e) ==> e == ApicError::EoiBeforeInit,
{
}

/// Law: a promotion silences the legacy timer and nothing else, and a rollback is
/// its inverse. The keyboard and every other line stay as they were; without a
/// window or a rate there is no promotion.
pub proof fn law_promotion_and_rollback(
    lapic: Lapic,
    masks: (u8, u8),
    r: Result<(u8, u8), ApicError>,
    back: (u8, u8),
    line: u8,
)
    requires
        call_ensures(promote, (&lapic, masks), r),
        call_ensures(rollback_to_pit, (if r is Ok { r->Ok_0 } else { masks },), back),
        line < 8,
    ensures
        r is Ok <==> lapic.virt != 0 && lapic.ticks_per_10ms != 0,
        r == Err::<(u8, u8), ApicError>(ApicError::PromoteBeforeInit) <==> lapic.virt == 0,
        r matches Err(e) ==> e == ApicError::PromoteBeforeInit || e
            == ApicError::PromoteWithoutRate,
        r matches Ok(promoted) ==> {
            &&& promoted.0 % 2 == 1
            &&& line != 0 ==> line_masked(promoted.0, line) == line_masked(masks.0, line)
            &&& promoted.1 == masks.1
        },
        back.0 % 2 == 0,
        line != 0 ==> line_masked(back.0, line) == line_masked(masks.0, line),
        back.1 == masks.1,
        masks.0 % 2 == 0 ==> back == masks,
{
    law_only_the_timer_line_moves(masks, line);
    let m = masks.0;
    assert((m | 0x01) % 2 == 1 && (m & !0x01u8) % 2 == 0 && ((m | 0x01) & !0x01u8) % 2 == 0)
        by (bit_vector);
    assert(m % 2 == 0 ==> (m | 0x01) & !0x01u8 == m && m & !0x01u8 == m) by (bit_vector);
    assert((m | 0x01) & !0x01u8 == m & !0x01u8) by (bit_vector);
}

/// Law: a masked line is one whose bit in the mask is one.
pub proof fn law_mask_bits(mask: u8, line: u8)
    requires
        line < 8,
    ensures
        line_masked(mask, line) <==> (mask >> line) & 1 == 1,
{
    assert(mask & (1u8 << line) != 0 <==> (mask >> line) & 1 == 1) by (bit_vector)
        requires
            line < 8,
    ;
}

/// Law: an access does what it says. It touches one register; a store leaves the
/// value, setting bits leaves those set and the others alone, a load changes
/// nothing; what must be loaded first is loaded.
pub proof fn law_accesses(
    a: Access,
    addr: u64,
    loads: bool,
    loaded: u32,
    stored: Option<u32>,
    bit: u32,
)
    requires
        call_ensures(Access::addr, (&a,), addr),
        call_ensures(Access::loads, (&a,), loads),
        call_ensures(Access::stores, (&a, loaded), stored),
        bit < 32,
    ensures
        match a {
            Access::Write { addr: at, value } => addr == at && !loads && stored == Some(value),
            Access::SetBits { addr: at, bits } => {
                &&& addr == at
                &&& loads
                &&& stored matches Some(v) && ((v >> bit) & 1 == 1 <==> (bits >> bit) & 1 == 1 || (
                loaded >> bit) & 1 == 1)
            },
            Access::Read { addr: at } => addr == at && loads && stored is None,
        },
{
    if let Access::SetBits { bits, .. } = a {
        assert(((loaded | bits) >> bit) & 1 == 1 <==> (bits >> bit) & 1 == 1 || (loaded >> bit) & 1
            == 1) by (bit_vector)
            requires
                bit < 32,
        ;
    }
}

/// Law: a register lies at its offset in the window, or is refused; no address
/// wraps.
pub proof fn law_register_address(win: u64, off: u64, r: Result<u64, ApicError>)
    requires
        call_ensures(lapic_reg, (win, off), r),
    ensures
        r matches Ok(addr) ==> addr - win == off,
        r is Err <==> win + off > u64::MAX,
        r matches Err(e) ==> e == ApicError::RegisterOverflows,
{
}

/// Law: the APIC id is the top byte of the id register.
pub proof fn law_id_byte(id_register: u32, id: u32)
    requires
        call_ensures(apic_id, (id_register,), id),
    ensures
        id < 256,
        id == id_register >> 24,
{
    assert(id_register >> 24 == id_register / 0x100_0000 && id_register >> 24 < 256) by (bit_vector);
}

/// Law: nothing is known of the APIC at first, and the rate that is told is the one
/// that is kept.
pub proof fn law_fresh_apic(fresh: Lapic, lapic: Lapic, n: u64, none: u64)
    requires
        call_ensures(Lapic::new, (), fresh),
        call_ensures(ticks_per_10ms, (&lapic,), n),
        call_ensures(ticks_per_10ms, (&fresh,), none),
    ensures
        fresh.virt == 0,
        none == 0,
        n == lapic.ticks_per_10ms,
        !fresh.ready(),
        IA32_APIC_BASE == 0x1B,
{
}

/// Law: what the log says of each failure; of a window that could not be mapped it
/// says what the mapping says.
pub proof fn law_words_of_apic_failures(
    e: ApicError,
    m: &'static str,
    inner: MemoryError,
    said: &'static str,
)
    requires
        call_ensures(ApicError::message, (&e,), m),
        call_ensures(MemoryError::message, (&inner,), said),
    ensures
        e == ApicError::NotPresent ==> m@ == "no local APIC present (CPUID bit 9 clear)"@,
        e == ApicError::SoftDisabled ==> m@ == "APIC soft-disabled (IA32_APIC_BASE bit 11 clear) — refusing to pretend"@,
        e == ApicError::RegisterOverflows ==> m@ == "apic register address overflows"@,
        e == ApicError::CalibrateBeforeInit ==> m@ == "apic: calibrate before init — LAPIC window not mapped"@,
        e == ApicError::PitSilent ==> m@ == "apic: PIT produced no ticks during calibration — timer dead?"@,
        e == ApicError::CountStuck ==> m@ == "apic: CCR delta is zero — MMIO writes lost (NO_CACHE missing?)"@,
        e == ApicError::ZeroRate ==> m@ == "apic: calibrated rate is zero — refusing to program it"@,
        e == ApicError::StartBeforeInit ==> m@ == "apic: start_periodic before init — LAPIC window not mapped"@,
        e == ApicError::NoRate ==> m@ == "apic: no calibrated rate — refusing to program a zero/huge ICR"@,
        e == ApicError::EoiBeforeInit ==> m@ == "apic: eoi before init — LAPIC window not mapped"@,
        e == ApicError::PromoteBeforeInit ==> m@ == "apic: promote before init — LAPIC window not mapped"@,
        e == ApicError::PromoteWithoutRate ==> m@ == "apic: promote without a calibrated rate — refusing"@,
        e == ApicError::Window(inner) ==> m@ == said@,
{
}

} // verus!
