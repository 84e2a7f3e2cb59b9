//! The legacy timer: channel 0 as a square wave of about 100 Hz on line 0.

use vstd::prelude::*;
use crate::apic;

verus! {

/// Command port.
pub const PIT_CMD: u16 = 0x43;

/// Data port of channel 0.
pub const PIT_CH0: u16 = 0x40;

/// Input clock in Hz.
pub const PIT_HZ: u32 = 1_193_182;

/// Tick rate in Hz.
pub const TARGET_HZ: u32 = 100;

/// How the timer is started.
#[derive(Debug, Clone, Copy)]
pub struct TimerPlan {
    /// Port writes, in order: the command, then the divisor, low byte first.
    pub writes: [(u16, u8); 3],
    /// Interrupt masks to be set afterwards.
    pub masks: (u8, u8),
}

/// Plan the start of the timer, given the interrupt masks in force: program the
/// channel, then unmask line 0 and no other.
pub fn init(masks: (u8, u8)) -> (plan: TimerPlan)
    ensures
        plan.writes[0] == (PIT_CMD, 0x36u8),
        plan.writes[1].0 == PIT_CH0,
        plan.writes[2].0 == PIT_CH0,
        plan.writes[1].1 + 256 * plan.writes[2].1 == PIT_HZ as int / TARGET_HZ as int,
        plan.masks == (masks.0 & !0x01u8, masks.1),
{
    let divisor: u16 = (PIT_HZ / TARGET_HZ) as u16;
    let low: u8 = (divisor & 0xFF) as u8;
    let high: u8 = (divisor >> 8) as u8;
    proof {
        assert(((divisor & 0xFF) as u8) + 256 * ((divisor >> 8) as u8) == divisor) by (bit_vector);
    }
    let writes: [(u16, u8); 3] = [(PIT_CMD, 0x36), (PIT_CH0, low), (PIT_CH0, high)];
    TimerPlan { writes, masks: apic::rollback_to_pit(masks) }
}

/// Law: how the timer is started. The command selects channel 0, both bytes of the
/// divisor, the square wave and binary counting. The divisor comes low byte first
/// and is the largest that does not let the input clock fall below a hundred ticks
/// a second. Line 0 is let through, and every other line of both controllers is as
/// it was.
pub proof fn law_timer_start(masks: (u8, u8), plan: TimerPlan, line: u8)
    requires
        call_ensures(init, (masks,), plan),
        line < 8,
    ensures
        plan.writes[0].0 == 0x43,
        plan.writes[0].1 >> 6 == 0,
        (plan.writes[0].1 >> 4) & 3 == 3,
        (plan.writes[0].1 >> 1) & 7 == 3,
        plan.writes[0].1 & 1 == 0,
        plan.writes[1].0 == 0x40,
        plan.writes[2].0 == 0x40,
        ({
            let divisor = plan.writes[1].1 + 256 * plan.writes[2].1;
            &&& divisor * 100 <= 1_193_182
            &&& (divisor + 1) * 100 > 1_193_182
        }),
        plan.masks.0 & 1 == 0,
        line != 0 ==> plan.masks.0 & (1u8 << line) == masks.0 & (1u8 << line),
        plan.masks.1 == masks.1,
        PIT_HZ == 1_193_182,
{
    assert(0x36u8 >> 6 == 0 && (0x36u8 >> 4) & 3 == 3 && (0x36u8 >> 1) & 7 == 3 && 0x36u8 & 1 == 0)
        by (bit_vector);
    let m = masks.0;
    assert((m & !0x01u8) & 1 == 0) by (bit_vector);
    assert(line != 0 ==> (m & !0x01u8) & (1u8 << line) == m & (1u8 << line)) by (bit_vector)
        requires
            line < 8,
    ;
}

} // verus!
