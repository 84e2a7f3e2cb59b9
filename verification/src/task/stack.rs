//! Task stacks: backing bytes, the canary at the bottom, and the bootstrap
//! frame at the top from which a task runs for the first time.

use vstd::prelude::*;

verus! {

/// Word planted at the bottom of every task stack. Stacks grow down, so only
/// an overflow touches it.
pub const STACK_CANARY: u64 = 0xDEAD_BEEF_CAFE_F00D;

/// Bytes of the bootstrap frame: six saved registers, a return address and a
/// pad word.
pub const BOOTSTRAP_BYTES: u64 = 64;

/// Saved state of one side of a cooperative switch. The callee-saved registers
/// and the return address are on the stack itself.
#[derive(Debug, Clone, Copy, PartialEq, Eq, Structural)]
pub struct Context {
    pub rsp: u64,
}

impl Context {
    /// The slot of a side that has not been switched away from yet.
    pub fn empty() -> (c: Self)
        ensures
            c.rsp == 0,
    {
        Context { rsp: 0 }
    }
}

/// `bytes` with the little-endian word `value` stored at offset `off`.
pub open spec fn store_word(bytes: Seq<u8>, off: int, value: u64) -> Seq<u8> {
    Seq::new(
        bytes.len(),
        |i: int|
            if off <= i < off + 8 {
                vstd::bytes::spec_u64_to_le_bytes(value)[i - off]
            } else {
                bytes[i]
            },
    )
}

/// The little-endian word at offset `off`.
pub open spec fn load_word(bytes: Seq<u8>, off: int) -> u64 {
    vstd::bytes::spec_u64_from_le_bytes(bytes.subrange(off, off + 8))
}

/// What was stored is read back; a word that does not overlap it is unchanged.
pub proof fn lemma_store_load(bytes: Seq<u8>, off: int, value: u64, at: int)
    requires
        0 <= off,
        off + 8 <= bytes.len(),
        0 <= at,
        at + 8 <= bytes.len(),
    ensures
        store_word(bytes, off, value).len() == bytes.len(),
        at == off ==> load_word(store_word(bytes, off, value), at) == value,
        at + 8 <= off || off + 8 <= at ==> load_word(store_word(bytes, off, value), at)
            == load_word(bytes, at),
{
    vstd::bytes::lemma_auto_spec_u64_to_from_le_bytes();
    let after = store_word(bytes, off, value);
    if at == off {
        assert(after.subrange(at, at + 8) =~= vstd::bytes::spec_u64_to_le_bytes(value));
    }
    if at + 8 <= off || off + 8 <= at {
        assert(after.subrange(at, at + 8) =~= bytes.subrange(at, at + 8));
    }
}

/// A kernel stack of a task.
pub struct TaskStack {
    /// The backing store; dropping the task frees its stack.
    pub backing: Vec<u8>,
    /// Address of the stack top, 16-byte aligned.
    pub top: u64,
    /// Address of the stack bottom.
    pub bottom: u64,
}

/// What a [`TaskStack`] stands for: bytes that live at an address.
pub ghost struct StackState {
    pub bytes: Seq<u8>,
    pub top: int,
    pub bottom: int,
}

impl View for TaskStack {
    type V = StackState;

    open spec fn view(&self) -> StackState {
        StackState { bytes: self.backing@, top: self.top as int, bottom: self.bottom as int }
    }
}

impl StackState {
    /// The bytes have addresses and room for the canary; the top is their end,
    /// rounded down to a multiple of 16, and lies above the bottom.
    pub open spec fn well_formed(self) -> bool {
        let end = self.bottom + self.bytes.len();
        &&& self.bytes.len() >= 8
        &&& 0 <= self.bottom
        &&& end <= u64::MAX
        &&& self.top == end - end % 16
        &&& self.bottom < self.top
    }

    /// The bootstrap frame fits.
    pub open spec fn holds_frame(self) -> bool {
        self.bottom + BOOTSTRAP_BYTES <= self.top
    }

    /// The bootstrap frame fits, and clear of the canary.
    pub open spec fn has_room(self) -> bool {
        self.bottom + 8 + BOOTSTRAP_BYTES <= self.top
    }

    /// The word at address `addr`.
    pub open spec fn word(self, addr: int) -> u64 {
        load_word(self.bytes, addr - self.bottom)
    }

    /// The stack with `value` stored at address `addr`.
    pub open spec fn with_word(self, addr: int, value: u64) -> StackState {
        StackState { bytes: store_word(self.bytes, addr - self.bottom, value), ..self }
    }

    /// The canary at the bottom is intact.
    pub open spec fn canary_intact(self) -> bool {
        self.word(self.bottom) == STACK_CANARY
    }

    /// The stack with `n` zero words stored from address `addr` on.
    pub open spec fn with_zeros(self, addr: int, n: int) -> StackState
        decreases n,
    {
        if n <= 0 {
            self
        } else {
            self.with_zeros(addr, n - 1).with_word(addr + 8 * (n - 1), 0)
        }
    }

    /// The stack with the bootstrap frame of a fresh task on it: six zeroed
    /// registers, the entry point as return address, and a pad word.
    pub open spec fn bootstrapped(self, entry: u64) -> StackState {
        self.with_zeros(self.top - 64, 6).with_word(self.top - 16, entry).with_word(
            self.top - 8,
            0,
        )
    }
}

impl TaskStack {
    /// Make a stack of `backing`, which lives at address `bottom`, and plant
    /// the canary.
    pub fn new(backing: Vec<u8>, bottom: u64) -> (s: Self)
        requires
            backing@.len() >= 8,
            bottom + backing@.len() <= u64::MAX,
            bottom < bottom + backing@.len() - (bottom + backing@.len()) % 16,
        ensures
            s@.well_formed(),
            s@.bottom == bottom,
            s@.top % 16 == 0,
            s@.bytes == store_word(backing@, 0, STACK_CANARY),
            s@.canary_intact(),
    {
        let end: u64 = bottom + backing.len() as u64;
        let top: u64 = end & !0xFu64;
        assert(end & !0xFu64 == end - end % 16) by (bit_vector);
        let mut s = TaskStack { backing, top, bottom };
        s.write_word(0, STACK_CANARY);
        proof {
            lemma_store_load(backing@, 0, STACK_CANARY, 0);
        }
        s
    }

    /// Store a word at an offset from the bottom.
    fn write_word(&mut self, off: usize, value: u64)
        requires
            off + 8 <= old(self)@.bytes.len(),
        ensures
            final(self)@ == (StackState {
                bytes: store_word(old(self)@.bytes, off as int, value),
                ..old(self)@
            }),
    {
        let word: Vec<u8> = vstd::bytes::u64_to_le_bytes(value);
        let len: usize = self.backing.len();
        let mut i: usize = 0;
        while i < 8
            invariant
                i <= 8,
                off + 8 <= len,
                len == old(self)@.bytes.len(),
                word@ == vstd::bytes::spec_u64_to_le_bytes(value),
                word@.len() == 8,
                self.backing@.len() == old(self)@.bytes.len(),
                self.top == old(self).top,
                self.bottom == old(self).bottom,
                forall|j: int|
                    0 <= j < self.backing@.len() ==> self.backing@[j] == if off <= j < off + i {
                        word@[j - off]
                    } else {
                        old(self)@.bytes[j]
                    },
            decreases 8 - i,
        {
            self.backing[off + i] = word[i];
            i = i + 1;
        }
        assert(self@.bytes =~= store_word(old(self)@.bytes, off as int, value));
    }

    /// Whether the canary at the bottom is intact. A mismatch means that the
    /// stack overflowed downwards.
    pub fn canary_ok(&self) -> (ok: bool)
        requires
            self@.well_formed(),
        ensures
            ok == self@.canary_intact(),
    {
        let mut word: Vec<u8> = Vec::new();
        let mut i: usize = 0;
        while i < 8
            invariant
                i <= 8,
                self@.well_formed(),
                word@ == self@.bytes.subrange(0, i as int),
            decreases 8 - i,
        {
            word.push(self.backing[i]);
            i = i + 1;
            assert(word@ =~= self@.bytes.subrange(0, i as int));
        }
        vstd::bytes::u64_from_le_bytes(word.as_slice()) == STACK_CANARY
    }
}

/// The canary and the bootstrap frame are apart, and each word of the frame
/// reads back.
pub proof fn lemma_bootstrapped(s: StackState, entry: u64)
    requires
        s.well_formed(),
        s.holds_frame(),
    ensures
        s.bootstrapped(entry).well_formed(),
        s.bootstrapped(entry).top == s.top,
        s.bootstrapped(entry).bottom == s.bottom,
        s.has_room() ==> s.bootstrapped(entry).word(s.bottom) == s.word(s.bottom),
        forall|i: int| 0 <= i < 6 ==> #[trigger] s.bootstrapped(entry).word(s.top - 64 + 8 * i) == 0,
        s.bootstrapped(entry).word(s.top - 16) == entry,
{
    lemma_zeros(s, s.top - 64, 6);
    let zeros = s.with_zeros(s.top - 64, 6);
    let ret = zeros.with_word(s.top - 16, entry);
    let b = s.bottom;
    lemma_store_load(zeros.bytes, s.top - 16 - b, entry, s.top - 16 - b);
    lemma_store_load(zeros.bytes, s.top - 16 - b, entry, 0);
    lemma_store_load(ret.bytes, s.top - 8 - b, 0, s.top - 16 - b);
    lemma_store_load(ret.bytes, s.top - 8 - b, 0, 0);
    assert forall|i: int| 0 <= i < 6 implies #[trigger] s.bootstrapped(entry).word(
        s.top - 64 + 8 * i,
    ) == 0 by {
        lemma_store_load(zeros.bytes, s.top - 16 - b, entry, s.top - 64 + 8 * i - b);
        lemma_store_load(ret.bytes, s.top - 8 - b, 0, s.top - 64 + 8 * i - b);
        assert(zeros.word(s.top - 64 + 8 * i) == 0);
    }
}

proof fn lemma_zeros(s: StackState, addr: int, n: int)
    requires
        s.bottom <= addr,
        0 <= n,
        addr + 8 * n <= s.bottom + s.bytes.len(),
    ensures
        s.with_zeros(addr, n).bytes.len() == s.bytes.len(),
        s.with_zeros(addr, n).top == s.top,
        s.with_zeros(addr, n).bottom == s.bottom,
        s.bottom + 8 <= addr ==> s.with_zeros(addr, n).word(s.bottom) == s.word(s.bottom),
        forall|i: int| 0 <= i < n ==> #[trigger] s.with_zeros(addr, n).word(addr + 8 * i) == 0,
    decreases n,
{
    if n > 0 {
        lemma_zeros(s, addr, n - 1);
        let before = s.with_zeros(addr, n - 1);
        let off = addr + 8 * (n - 1) - s.bottom;
        lemma_store_load(before.bytes, off, 0, 0);
        assert forall|i: int| 0 <= i < n implies #[trigger] s.with_zeros(addr, n).word(addr + 8 * i)
            == 0 by {
            lemma_store_load(before.bytes, off, 0, addr + 8 * i - s.bottom);
            if i < n - 1 {
                assert(before.word(addr + 8 * i) == 0);
            }
        }
    }
}

/// Build the first frame on a fresh stack: the first switch pops six zeroed
/// registers and returns into `entry` with the stack pointer at `top - 8`,
/// exactly the parity a function sees right after a `call`.
pub fn init_task_context(stack: &mut TaskStack, entry: u64) -> (ctx: Context)
    requires
        old(stack)@.well_formed(),
        old(stack)@.holds_frame(),
    ensures
        final(stack)@.well_formed(),
        final(stack)@ == old(stack)@.bootstrapped(entry),
        ctx.rsp == old(stack)@.top - 64,
        ctx.rsp % 16 == 0,
        (ctx.rsp + 56) % 16 == 8,
{
    let rsp: u64 = stack.top - BOOTSTRAP_BYTES;
    let len: usize = stack.backing.len();
    let off: usize = (rsp - stack.bottom) as usize;
    let mut i: usize = 0;
    while i < 6
        invariant
            i <= 6,
            old(stack)@.well_formed(),
            old(stack)@.holds_frame(),
            len == old(stack)@.bytes.len(),
            off == old(stack)@.top - 64 - old(stack)@.bottom,
            stack@ == old(stack)@.with_zeros(old(stack)@.top - 64, i as int),
            stack@.bytes.len() == len,
            stack@.bottom == old(stack)@.bottom,
        decreases 6 - i,
    {
        stack.write_word(off + 8 * i, 0);
        i = i + 1;
    }
    stack.write_word(off + 48, entry);
    stack.write_word(off + 56, 0);
    proof {
        lemma_bootstrapped(old(stack)@, entry);
    }
    Context { rsp }
}

/// What a switch to a saved stack pointer puts into the processor: six registers
/// popped off the stack, then the return address.
pub ghost struct Resumed {
    pub r15: u64,
    pub r14: u64,
    pub r13: u64,
    pub r12: u64,
    pub rbx: u64,
    pub rbp: u64,
    pub rip: u64,
    pub rsp: int,
}

/// The processor after a switch to stack pointer `rsp` on stack `s`.
pub open spec fn resumed(s: StackState, rsp: int) -> Resumed {
    Resumed {
        r15: s.word(rsp),
        r14: s.word(rsp + 8),
        r13: s.word(rsp + 16),
        r12: s.word(rsp + 24),
        rbx: s.word(rsp + 32),
        rbp: s.word(rsp + 40),
        rip: s.word(rsp + 48),
        rsp: rsp + 56,
    }
}

/// Law: the first switch to a bootstrapped stack enters the task with zeroed
/// registers and the parity of a `call`, and leaves the canary alone.
pub proof fn law_first_switch(s: StackState, entry: u64)
    requires
        s.well_formed(),
        s.has_room(),
        s.canary_intact(),
    ensures
        resumed(s.bootstrapped(entry), s.top - BOOTSTRAP_BYTES) == (Resumed {
            r15: 0,
            r14: 0,
            r13: 0,
            r12: 0,
            rbx: 0,
            rbp: 0,
            rip: entry,
            rsp: s.top - 8,
        }),
        (s.top - 8) % 16 == 8,
        s.bootstrapped(entry).canary_intact(),
{
    lemma_bootstrapped(s, entry);
    let b = s.bootstrapped(entry);
    let at = s.top - 64;
    assert(b.word(at + 8 * 0) == 0);
    assert(b.word(at + 8 * 1) == 0);
    assert(b.word(at + 8 * 2) == 0);
    assert(b.word(at + 8 * 3) == 0);
    assert(b.word(at + 8 * 4) == 0);
    assert(b.word(at + 8 * 5) == 0);
}

/// Law: a fresh stack. It grows down from the last multiple of sixteen that its
/// bytes reach, the canary is the lowest word, and every other byte is as it was
/// given. The canary counts as intact exactly while that word reads as it was
/// planted.
pub proof fn law_fresh_stack(backing: Vec<u8>, bottom: u64, s: TaskStack, probe: TaskStack, ok: bool)
    requires
        backing@.len() >= 8,
        bottom + backing@.len() <= u64::MAX,
        call_ensures(TaskStack::new, (backing, bottom), s),
        probe@.well_formed(),
        call_ensures(TaskStack::canary_ok, (&probe,), ok),
    ensures
        s.bottom == bottom,
        s.top % 16 == 0,
        bottom + backing@.len() - 16 < s.top <= bottom + backing@.len(),
        s.backing@.len() == backing@.len(),
        load_word(s.backing@, 0) == 0xDEAD_BEEF_CAFE_F00D,
        forall|i: int| 8 <= i < backing@.len() ==> #[trigger] s.backing@[i] == backing@[i],
        ok <==> load_word(probe.backing@, 0) == 0xDEAD_BEEF_CAFE_F00D,
{
    lemma_store_load(backing@, 0, STACK_CANARY, 0);
    assert(s@.bytes == s.backing@);
    assert forall|i: int| 8 <= i < backing@.len() implies #[trigger] s.backing@[i] == backing@[i] by {
        assert(store_word(backing@, 0, STACK_CANARY)[i] == backing@[i]);
    }
}

/// Law: what the bootstrap prepares. A switch to the context that it returns pops
/// six zeroed registers and goes to the entry of the task with the stack pointer one
/// word below the top, as a call would have left it; the canary is not touched.
pub proof fn law_bootstrap(stack: &mut TaskStack, entry: u64, ctx: Context)
    requires
        old(stack)@.well_formed(),
        old(stack)@.has_room(),
        old(stack)@.canary_intact(),
        call_ensures(init_task_context, (stack, entry), ctx),
    ensures
        ctx.rsp == old(stack).top - 64,
        final(stack).top == old(stack).top,
        final(stack).bottom == old(stack).bottom,
        resumed(final(stack)@, ctx.rsp as int) == (Resumed {
            r15: 0,
            r14: 0,
            r13: 0,
            r12: 0,
            rbx: 0,
            rbp: 0,
            rip: entry,
            rsp: old(stack).top - 8,
        }),
        (ctx.rsp + 56) % 16 == 8,
        final(stack)@.canary_intact(),
{
    law_first_switch(old(stack)@, entry);
    lemma_bootstrapped(old(stack)@, entry);
    assert(final(stack)@.top == old(stack)@.top && final(stack)@.bottom == old(stack)@.bottom);
}

/// Law: a word is stored byte by byte, the lowest first, and nowhere else.
pub proof fn law_words_are_little_endian(bytes: Seq<u8>, off: int, value: u64, i: int)
    requires
        0 <= off,
        off + 8 <= bytes.len(),
        0 <= i < bytes.len(),
    ensures
        store_word(bytes, off, value).len() == bytes.len(),
        off <= i < off + 8 ==> store_word(bytes, off, value)[i]
            == vstd::bytes::spec_u64_to_le_bytes(value)[i - off],
        i < off || off + 8 <= i ==> store_word(bytes, off, value)[i] == bytes[i],
        load_word(store_word(bytes, off, value), off) == value,
{
    lemma_store_load(bytes, off, value, off);
}

} // verus!
