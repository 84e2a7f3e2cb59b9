//! Interrupt vectors: which vector has which handler, what a handler counts, and
//! who is told that the interrupt is over.

use vstd::prelude::*;
use crate::gdt::DOUBLE_FAULT_IST_INDEX;

verus! {

/// Line 0 of the legacy controllers.
pub const TIMER_VECTOR: u8 = 32;

/// Line 1 of the legacy controllers.
pub const KEYBOARD_VECTOR: u8 = 33;

pub const SYSCALL_VECTOR: u8 = 0x80;

pub const LAPIC_TIMER_VECTOR: u8 = 0xEF;

pub const LAPIC_ERROR_VECTOR: u8 = 0xFE;

/// Vectors that may fire while everything is masked.
pub const SPURIOUS_APIC_VECTOR: u8 = 0xFF;

pub const SPURIOUS_PIC_MASTER_VECTOR: u8 = 39;

pub const SPURIOUS_PIC_SLAVE_VECTOR: u8 = 47;

/// Ticks on each clock that prove it alive.
pub const SOAK_TICKS_EACH: u64 = 100;

/// Who handles a vector.
#[derive(Debug, Clone, Copy, PartialEq, Eq, Structural)]
pub enum Handler {
    DivideError,
    Breakpoint,
    InvalidOpcode,
    DoubleFault,
    StackSegment,
    GeneralProtection,
    PageFault,
    Timer,
    Keyboard,
    Syscall,
    LapicTimer,
    LapicError,
    SpuriousApic,
    SpuriousPicMaster,
    SpuriousPicSlave,
}

/// One entry of the interrupt table.
#[derive(Debug, Clone, Copy, PartialEq, Eq, Structural)]
pub struct Gate {
    pub vector: u8,
    pub handler: Handler,
    /// Interrupt stack to switch to, if any.
    pub ist: Option<u16>,
}

/// The handler of a vector. A vector without one raises a protection fault.
pub open spec fn handler_of(vector: u8) -> Option<Handler> {
    if vector == 0 {
        Some(Handler::DivideError)
    } else if vector == 3 {
        Some(Handler::Breakpoint)
    } else if vector == 6 {
        Some(Handler::InvalidOpcode)
    } else if vector == 8 {
        Some(Handler::DoubleFault)
    } else if vector == 12 {
        Some(Handler::StackSegment)
    } else if vector == 13 {
        Some(Handler::GeneralProtection)
    } else if vector == 14 {
        Some(Handler::PageFault)
    } else if vector == TIMER_VECTOR {
        Some(Handler::Timer)
    } else if vector == KEYBOARD_VECTOR {
        Some(Handler::Keyboard)
    } else if vector == SPURIOUS_PIC_MASTER_VECTOR {
        Some(Handler::SpuriousPicMaster)
    } else if vector == SPURIOUS_PIC_SLAVE_VECTOR {
        Some(Handler::SpuriousPicSlave)
    } else if vector == SYSCALL_VECTOR {
        Some(Handler::Syscall)
    } else if vector == LAPIC_TIMER_VECTOR {
        Some(Handler::LapicTimer)
    } else if vector == LAPIC_ERROR_VECTOR {
        Some(Handler::LapicError)
    } else if vector == SPURIOUS_APIC_VECTOR {
        Some(Handler::SpuriousApic)
    } else {
        None
    }
}

/// The entry of a vector that has a handler.
pub open spec fn gate_of(vector: u8, handler: Handler) -> Gate {
    Gate {
        vector,
        handler,
        ist: if handler == Handler::DoubleFault {
            Some(DOUBLE_FAULT_IST_INDEX)
        } else {
            None
        },
    }
}

/// The handler of a vector.
pub fn handler(vector: u8) -> (h: Option<Handler>)
    ensures
        h == handler_of(vector),
{
    match vector {
        0 => Some(Handler::DivideError),
        3 => Some(Handler::Breakpoint),
        6 => Some(Handler::InvalidOpcode),
        8 => Some(Handler::DoubleFault),
        12 => Some(Handler::StackSegment),
        13 => Some(Handler::GeneralProtection),
        14 => Some(Handler::PageFault),
        32 => Some(Handler::Timer),
        33 => Some(Handler::Keyboard),
        39 => Some(Handler::SpuriousPicMaster),
        47 => Some(Handler::SpuriousPicSlave),
        0x80 => Some(Handler::Syscall),
        0xEF => Some(Handler::LapicTimer),
        0xFE => Some(Handler::LapicError),
        0xFF => Some(Handler::SpuriousApic),
        _ => None,
    }
}

/// The interrupt table: an entry for every vector that has a handler and for no
/// other, by rising vector; the double fault runs on an interrupt stack of its
/// own.
pub fn init() -> (gates: [Gate; 15])
    ensures
        forall|i: int|
            0 <= i < 15 ==> {
                let g = #[trigger] gates@[i];
                handler_of(g.vector) == Some(g.handler) && g == gate_of(g.vector, g.handler)
            },
        forall|i: int, j: int|
            0 <= i < j < 15 ==> (#[trigger] gates@[i]).vector < (#[trigger] gates@[j]).vector,
        forall|v: u8| #[trigger]
            handler_of(v) is Some ==> exists|i: int|
                0 <= i < 15 && (#[trigger] gates@[i]).vector == v,
{
    let gates: [Gate; 15] = [
        Gate { vector: 0, handler: Handler::DivideError, ist: None },
        Gate { vector: 3, handler: Handler::Breakpoint, ist: None },
        Gate { vector: 6, handler: Handler::InvalidOpcode, ist: None },
        Gate { vector: 8, handler: Handler::DoubleFault, ist: Some(DOUBLE_FAULT_IST_INDEX) },
        Gate { vector: 12, handler: Handler::StackSegment, ist: None },
        Gate { vector: 13, handler: Handler::GeneralProtection, ist: None },
        Gate { vector: 14, handler: Handler::PageFault, ist: None },
        Gate { vector: TIMER_VECTOR, handler: Handler::Timer, ist: None },
        Gate { vector: KEYBOARD_VECTOR, handler: Handler::Keyboard, ist: None },
        Gate { vector: SPURIOUS_PIC_MASTER_VECTOR, handler: Handler::SpuriousPicMaster, ist: None },
        Gate { vector: SPURIOUS_PIC_SLAVE_VECTOR, handler: Handler::SpuriousPicSlave, ist: None },
        Gate { vector: SYSCALL_VECTOR, handler: Handler::Syscall, ist: None },
        Gate { vector: LAPIC_TIMER_VECTOR, handler: Handler::LapicTimer, ist: None },
        Gate { vector: LAPIC_ERROR_VECTOR, handler: Handler::LapicError, ist: None },
        Gate { vector: SPURIOUS_APIC_VECTOR, handler: Handler::SpuriousApic, ist: None },
    ];
    proof {
        let g = gates@;
        assert(g[0].vector == 0 && g[1].vector == 3 && g[2].vector == 6 && g[3].vector == 8
            && g[4].vector == 12 && g[5].vector == 13 && g[6].vector == 14 && g[7].vector == 32);
        assert(g[8].vector == 33 && g[9].vector == 39 && g[10].vector == 47 && g[11].vector == 0x80
            && g[12].vector == 0xEF && g[13].vector == 0xFE && g[14].vector == 0xFF);
    }
    gates
}

/// What the handlers count.
#[derive(Debug, Clone, Copy, PartialEq, Eq, Structural)]
pub struct Counters {
    /// Ticks of the legacy timer.
    pub timer_ticks: u64,
    /// Ticks of the APIC timer.
    pub apic_ticks: u64,
    pub syscall_hits: u64,
    pub spurious_hits: u64,
}

impl Counters {
    /// Everything at zero.
    pub fn new() -> (c: Self)
        ensures
            c == (Counters { timer_ticks: 0, apic_ticks: 0, syscall_hits: 0, spurious_hits: 0 }),
    {
        Counters { timer_ticks: 0, apic_ticks: 0, syscall_hits: 0, spurious_hits: 0 }
    }
}

/// How an interrupt ends.
#[derive(Debug, Clone, Copy, PartialEq, Eq, Structural)]
pub enum Ending {
    /// Return; nobody is told.
    Return,
    /// Tell the legacy controllers that this vector is done, then return.
    PicDone(u8),
    /// Tell the local APIC, then return.
    LapicDone,
    /// Stop the kernel.
    Panic,
}

/// The counters after an interrupt.
pub open spec fn counted(c: Counters, handler: Handler) -> Counters {
    match handler {
        Handler::Timer => Counters { timer_ticks: c.timer_ticks.wrapping_add(1), ..c },
        Handler::LapicTimer => Counters { apic_ticks: c.apic_ticks.wrapping_add(1), ..c },
        Handler::Syscall => Counters { syscall_hits: c.syscall_hits.wrapping_add(1), ..c },
        Handler::SpuriousApic | Handler::SpuriousPicMaster | Handler::SpuriousPicSlave => Counters {
            spurious_hits: c.spurious_hits.wrapping_add(1),
            ..c
        },
        _ => c,
    }
}

/// How a handler ends. A phantom of the master controller must not be
/// acknowledged, one of the slave is acknowledged to the master alone.
pub open spec fn ending(handler: Handler) -> Ending {
    match handler {
        Handler::Breakpoint | Handler::Syscall | Handler::SpuriousPicMaster => Ending::Return,
        Handler::Timer => Ending::PicDone(TIMER_VECTOR),
        Handler::Keyboard => Ending::PicDone(KEYBOARD_VECTOR),
        Handler::SpuriousPicSlave => Ending::PicDone(SPURIOUS_PIC_MASTER_VECTOR),
        Handler::LapicTimer | Handler::LapicError | Handler::SpuriousApic => Ending::LapicDone,
        _ => Ending::Panic,
    }
}

/// Take one interrupt: count it, and say how it ends.
pub fn interrupt(counters: &mut Counters, handler: Handler) -> (end: Ending)
    ensures
        *final(counters) == counted(*old(counters), handler),
        end == ending(handler),
{
    match handler {
        Handler::Breakpoint => Ending::Return,
        Handler::Timer => {
            counters.timer_ticks = counters.timer_ticks.wrapping_add(1);
            Ending::PicDone(TIMER_VECTOR)
        },
        Handler::Keyboard => Ending::PicDone(KEYBOARD_VECTOR),
        Handler::Syscall => {
            counters.syscall_hits = counters.syscall_hits.wrapping_add(1);
            Ending::Return
        },
        Handler::LapicTimer => {
            counters.apic_ticks = counters.apic_ticks.wrapping_add(1);
            Ending::LapicDone
        },
        Handler::LapicError => Ending::LapicDone,
        Handler::SpuriousApic => {
            counters.spurious_hits = counters.spurious_hits.wrapping_add(1);
            Ending::LapicDone
        },
        Handler::SpuriousPicMaster => {
            counters.spurious_hits = counters.spurious_hits.wrapping_add(1);
            Ending::Return
        },
        Handler::SpuriousPicSlave => {
            counters.spurious_hits = counters.spurious_hits.wrapping_add(1);
            Ending::PicDone(SPURIOUS_PIC_MASTER_VECTOR)
        },
        _ => Ending::Panic,
    }
}

/// Law: expected noise never stops the kernel. Every vector from the legacy
/// controllers or the APIC that has a handler returns; only processor exceptions
/// other than the breakpoint stop it.
pub proof fn law_noise_is_no_fault(vector: u8)
    requires
        handler_of(vector) is Some,
    ensures
        ending(handler_of(vector)->0) == Ending::Panic <==> vector < 32 && vector != 3,
{
}

/// Law: no device vector collides with a processor exception, and the legacy
/// lines lie in the sixteen vectors of the two controllers.
pub proof fn law_vectors_are_apart(vector: u8)
    requires
        handler_of(vector) is Some,
        !(ending(handler_of(vector)->0) == Ending::Panic),
        vector != 3,
    ensures
        vector >= crate::interrupts::PIC_1_OFFSET,
        ending(handler_of(vector)->0) is PicDone ==> vector < crate::interrupts::PIC_2_OFFSET + 8,
{
}

/// Law: the syscall gate counts. Two software interrupts leave exactly two more
/// hits and no other trace.
pub proof fn law_two_syscalls(c: Counters)
    requires
        c.syscall_hits + crate::syscall::SELF_TEST_HITS <= u64::MAX,
    ensures
        counted(counted(c, Handler::Syscall), Handler::Syscall) == (Counters {
            syscall_hits: (c.syscall_hits + crate::syscall::SELF_TEST_HITS) as u64,
            ..c
        }),
{
}

/// Law: an interrupt reaches its own handler. Each clock ticks on its own vector
/// and on no other, a software interrupt counts on the syscall vector alone, and
/// noise counts as noise. A handler that acknowledges a line of the legacy
/// controllers acknowledges the very vector it came on, except for the phantom of
/// the slave, which the master is told of; the local APIC is told of its own three
/// vectors; nobody is told of a breakpoint, a syscall or a phantom of the master;
/// and every other processor exception stops the kernel.
pub proof fn law_interrupts_reach_their_handler(
    vector: u8,
    h: Handler,
    counters: &mut Counters,
    end: Ending,
)
    requires
        call_ensures(handler, (vector,), Some(h)),
        call_ensures(interrupt, (counters, h), end),
    ensures
        final(counters).timer_ticks == if vector == 32 {
            old(counters).timer_ticks.wrapping_add(1)
        } else {
            old(counters).timer_ticks
        },
        final(counters).apic_ticks == if vector == 0xEF {
            old(counters).apic_ticks.wrapping_add(1)
        } else {
            old(counters).apic_ticks
        },
        final(counters).syscall_hits == if vector == 0x80 {
            old(counters).syscall_hits.wrapping_add(1)
        } else {
            old(counters).syscall_hits
        },
        final(counters).spurious_hits == if vector == 39 || vector == 47 || vector == 0xFF {
            old(counters).spurious_hits.wrapping_add(1)
        } else {
            old(counters).spurious_hits
        },
        match end {
            Ending::PicDone(told) => {
                ||| told == vector && (vector == 32 || vector == 33)
                ||| told == 39 && vector == 47
            },
            Ending::LapicDone => vector == 0xEF || vector == 0xFE || vector == 0xFF,
            Ending::Return => vector == 3 || vector == 0x80 || vector == 39,
            Ending::Panic => vector < 32 && vector != 3,
        },
{
}

/// Law: handlers and vectors name each other. The exceptions sit where the
/// processor raises them, the first two lines of the legacy controllers are the
/// timer and the keyboard, the last line of each is its phantom, and the rest lies
/// above them. Every handler has its vector, and no two vectors share one.
pub proof fn law_vectors_name_their_handler(vector: u8, h: Option<Handler>)
    requires
        call_ensures(handler, (vector,), h),
    ensures
        h == Some(Handler::DivideError) <==> vector == 0,
        h == Some(Handler::Breakpoint) <==> vector == 3,
        h == Some(Handler::InvalidOpcode) <==> vector == 6,
        h == Some(Handler::DoubleFault) <==> vector == 8,
        h == Some(Handler::StackSegment) <==> vector == 12,
        h == Some(Handler::GeneralProtection) <==> vector == 13,
        h == Some(Handler::PageFault) <==> vector == 14,
        h == Some(Handler::Timer) <==> vector == crate::interrupts::PIC_1_OFFSET,
        h == Some(Handler::Keyboard) <==> vector == crate::interrupts::PIC_1_OFFSET + 1,
        h == Some(Handler::SpuriousPicMaster) <==> vector == crate::interrupts::PIC_1_OFFSET + 7,
        h == Some(Handler::SpuriousPicSlave) <==> vector == crate::interrupts::PIC_2_OFFSET + 7,
        h == Some(Handler::Syscall) <==> vector == 0x80,
        h == Some(Handler::LapicTimer) <==> vector == 0xEF,
        h == Some(Handler::LapicError) <==> vector == 0xFE,
        h == Some(Handler::SpuriousApic) <==> vector == 0xFF,
{
}

/// Law: the table and the dispatch agree. A vector has one entry if it has a
/// handler and none if it has not, and its entry names that handler; the double
/// fault, which may come from an overflowed stack, and nothing else runs on an
/// interrupt stack, the first.
pub proof fn law_table_agrees_with_dispatch(gates: [Gate; 15], vector: u8, h: Option<Handler>)
    requires
        call_ensures(init, (), gates),
        call_ensures(handler, (vector,), h),
    ensures
        h is Some <==> exists|i: int| 0 <= i < 15 && (#[trigger] gates@[i]).vector == vector,
        forall|i: int|
            0 <= i < 15 && (#[trigger] gates@[i]).vector == vector ==> h == Some(gates@[i].handler)
                && (gates@[i].ist == if vector == 8 {
                Some(0u16)
            } else {
                None
            }),
        forall|i: int, j: int|
            0 <= i < 15 && 0 <= j < 15 && (#[trigger] gates@[i]).vector == (
            #[trigger] gates@[j]).vector ==> i == j,
{
    assert forall|i: int, j: int|
        0 <= i < 15 && 0 <= j < 15 && (#[trigger] gates@[i]).vector == (
        #[trigger] gates@[j]).vector implies i == j by {
        if i < j {
            assert(gates@[i].vector < gates@[j].vector);
        } else if j < i {
            assert(gates@[j].vector < gates@[i].vector);
        }
    }
}

} // verus!
