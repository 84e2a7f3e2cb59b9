//! The two legacy interrupt controllers: where their lines go, and which lines
//! are masked.

use vstd::prelude::*;

verus! {

/// First vector of the master controller. Vectors below 32 belong to processor
/// exceptions.
pub const PIC_1_OFFSET: u8 = 32;

/// First vector of the slave controller.
pub const PIC_2_OFFSET: u8 = PIC_1_OFFSET + 8;

/// Masks after the remap: every line of both controllers masked.
pub fn init() -> (masks: (u8, u8))
    ensures
        masks == (0xFFu8, 0xFFu8),
{
    (0xFF, 0xFF)
}

/// Law: no line of either controller gets through before somebody unmasks it, and
/// the sixteen lines lie behind the thirty-two processor exceptions without a gap.
pub proof fn law_all_lines_masked(masks: (u8, u8), line: u8)
    requires
        call_ensures(init, (), masks),
        line < 8,
    ensures
        masks.0 & (1u8 << line) != 0,
        masks.1 & (1u8 << line) != 0,
        PIC_1_OFFSET == 32,
        PIC_2_OFFSET == PIC_1_OFFSET + 8,
{
    assert(0xFFu8 & (1u8 << line) != 0) by (bit_vector)
        requires
            line < 8,
    ;
}

} // verus!
