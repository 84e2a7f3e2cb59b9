//! Geometry of power-of-two frame blocks.
//!
//! A block of order `n` owns `2^n` contiguous 4 KiB frames and starts at a
//! multiple of its own size, so every block of order below the maximum has
//! exactly one neighbour it can be glued to: its buddy.

use vstd::prelude::*;

verus! {

/// Highest order kept. Order 12 is `2^12` frames of 4 KiB, 16 MiB per block.
pub const BUDDY_MAX_ORDER: usize = 12;

/// Number of free lists (orders 0 through `BUDDY_MAX_ORDER`).
pub const BUDDY_ORDERS: usize = 13;

/// Frame size every order is built from.
pub const FRAME_SIZE: u64 = 4096;

/// First address ever handed out: the page at zero belongs to the firmware.
pub const MIN_ADDR: u64 = 0x1000;

/// Bytes in a block of order `order`.
pub open spec fn block_bytes(order: int) -> int {
    vstd::arithmetic::power2::pow2((order + 12) as nat) as int
}

/// Frames in a block of order `order`.
pub open spec fn block_frames(order: int) -> int {
    vstd::arithmetic::power2::pow2(order as nat) as int
}

/// `addr` can be the base of a block of order `order`.
pub open spec fn aligned(addr: int, order: int) -> bool {
    addr % block_bytes(order) == 0
}

/// Base of the only block that can merge with the block of order `order` at
/// `addr`: the other half of the enclosing block of the next order.
pub open spec fn buddy_of(addr: int, order: int) -> int {
    if aligned(addr, order + 1) {
        addr + block_bytes(order)
    } else {
        addr - block_bytes(order)
    }
}

/// The sizes double from order to order, starting at one frame.
pub proof fn lemma_block_bytes(order: int)
    requires
        0 <= order <= BUDDY_MAX_ORDER,
    ensures
        block_bytes(0) == 4096,
        block_bytes(order + 1) == 2 * block_bytes(order),
        4096 <= block_bytes(order) <= 0x100_0000,
        block_bytes(order) % 4096 == 0,
        block_bytes(order) == 4096 * block_frames(order),
        block_frames(0) == 1,
        block_frames(order + 1) == 2 * block_frames(order),
        1 <= block_frames(order) <= 4096,
{
    vstd::arithmetic::power2::lemma2_to64();
    vstd::arithmetic::power2::lemma_pow2_unfold((order + 13) as nat);
    vstd::arithmetic::power2::lemma_pow2_unfold((order + 1) as nat);
    vstd::arithmetic::power2::lemma_pow2_adds(order as nat, 12);
    vstd::arithmetic::power2::lemma_pow2_pos(order as nat);
    if order < 12 {
        vstd::arithmetic::power2::lemma_pow2_strictly_increases(order as nat, 12);
    }
    assert(block_bytes(order) == 4096 * block_frames(order));
}

/// An address aligned to the next order is aligned to this one, and so are
/// both halves of the block there.
pub proof fn lemma_aligned_down(addr: int, order: int)
    requires
        0 <= order < BUDDY_MAX_ORDER,
        aligned(addr, order + 1),
    ensures
        aligned(addr, order),
        aligned(addr + block_bytes(order), order),
        !aligned(addr + block_bytes(order), order + 1),
{
    lemma_block_bytes(order);
    let s = block_bytes(order);
    let q = addr / (2 * s);
    vstd::arithmetic::div_mod::lemma_fundamental_div_mod(addr, 2 * s);
    assert(addr == (2 * q) * s) by (nonlinear_arith)
        requires
            addr == 2 * s * q,
    ;
    assert(addr + s == (2 * q + 1) * s) by (nonlinear_arith)
        requires
            addr == 2 * s * q,
    ;
    vstd::arithmetic::div_mod::lemma_mod_multiples_basic(2 * q, s);
    vstd::arithmetic::div_mod::lemma_mod_multiples_basic(2 * q + 1, s);
    assert(addr + s == q * (2 * s) + s) by (nonlinear_arith)
        requires
            addr == 2 * s * q,
    ;
    vstd::arithmetic::div_mod::lemma_fundamental_div_mod_converse(addr + s, 2 * s, q, s);
}

/// Larger orders have larger blocks, and alignment passes down to smaller ones.
pub proof fn lemma_lower_order(addr: int, low: int, high: int)
    requires
        0 <= low <= high <= BUDDY_MAX_ORDER,
        aligned(addr, high),
    ensures
        aligned(addr, low),
        block_bytes(low) <= block_bytes(high),
        low < high ==> 2 * block_bytes(low) <= block_bytes(high),
    decreases high - low,
{
    if low < high {
        lemma_aligned_down(addr, high - 1);
        lemma_block_bytes(high - 1);
        lemma_lower_order(addr, low, high - 1);
    }
}

/// An address aligned to this order but not to the next one is the upper half
/// of the enclosing block.
pub proof fn lemma_aligned_up(addr: int, order: int)
    requires
        0 <= order < BUDDY_MAX_ORDER,
        aligned(addr, order),
        !aligned(addr, order + 1),
    ensures
        aligned(addr - block_bytes(order), order),
        aligned(addr - block_bytes(order), order + 1),
{
    lemma_block_bytes(order);
    let s = block_bytes(order);
    let q = addr / s;
    vstd::arithmetic::div_mod::lemma_fundamental_div_mod(addr, s);
    assert(addr == q * s) by (nonlinear_arith)
        requires
            addr == s * q,
    ;
    if q % 2 == 0 {
        let h = q / 2;
        assert(addr == h * (2 * s)) by (nonlinear_arith)
            requires
                addr == q * s,
                q == 2 * h,
        ;
        vstd::arithmetic::div_mod::lemma_mod_multiples_basic(h, 2 * s);
        assert(false);
    }
    let h = q / 2;
    assert(addr - s == h * (2 * s)) by (nonlinear_arith)
        requires
            addr == q * s,
            q == 2 * h + 1,
    ;
    assert(addr - s == (q - 1) * s) by (nonlinear_arith)
        requires
            addr == q * s,
    ;
    vstd::arithmetic::div_mod::lemma_mod_multiples_basic(h, 2 * s);
    vstd::arithmetic::div_mod::lemma_mod_multiples_basic(q - 1, s);
}

/// The buddy relation is symmetric, the buddy is aligned as well, and the
/// lower of the two is the base of the block both make together.
pub proof fn lemma_buddy(addr: int, order: int)
    requires
        0 <= order < BUDDY_MAX_ORDER,
        aligned(addr, order),
    ensures
        aligned(buddy_of(addr, order), order),
        buddy_of(buddy_of(addr, order), order) == addr,
        buddy_of(addr, order) != addr,
        ({
            let low = if addr < buddy_of(addr, order) { addr } else { buddy_of(addr, order) };
            &&& aligned(low, order + 1)
            &&& (addr == low && buddy_of(addr, order) == low + block_bytes(order)) || (addr == low
                + block_bytes(order) && buddy_of(addr, order) == low)
        }),
{
    lemma_block_bytes(order);
    if aligned(addr, order + 1) {
        lemma_aligned_down(addr, order);
    } else {
        lemma_aligned_up(addr, order);
    }
}

/// A block that starts below `2^64` also ends there.
pub proof fn lemma_block_in_range(addr: int, order: int)
    requires
        0 <= order <= BUDDY_MAX_ORDER,
        aligned(addr, order),
        0 <= addr <= u64::MAX,
    ensures
        addr + block_bytes(order) <= 0x1_0000_0000_0000_0000,
{
    lemma_block_bytes(order);
    let s = block_bytes(order);
    let k = vstd::arithmetic::power2::pow2((52 - order) as nat) as int;
    vstd::arithmetic::power2::lemma2_to64();
    vstd::arithmetic::power2::lemma_pow2_adds((order + 12) as nat, (52 - order) as nat);
    assert(s * k == 0x1_0000_0000_0000_0000);
    let q = addr / s;
    vstd::arithmetic::div_mod::lemma_fundamental_div_mod(addr, s);
    assert(addr == s * q);
    assert(q < k) by (nonlinear_arith)
        requires
            s > 0,
            s * q < s * k,
    ;
    assert(s * q + s <= s * k) by (nonlinear_arith)
        requires
            s > 0,
            q + 1 <= k,
    ;
}

/// An aligned address is a multiple of the frame size.
pub proof fn lemma_aligned_frame(addr: int, order: int)
    requires
        0 <= order <= BUDDY_MAX_ORDER,
        aligned(addr, order),
    ensures
        addr % 4096 == 0,
{
    lemma_block_bytes(order);
    let s = block_bytes(order);
    let n = block_frames(order);
    let q = addr / s;
    vstd::arithmetic::div_mod::lemma_fundamental_div_mod(addr, s);
    assert(addr == (n * q) * 4096) by (nonlinear_arith)
        requires
            addr == s * q,
            s == 4096 * n,
    ;
    vstd::arithmetic::div_mod::lemma_mod_multiples_basic(n * q, 4096);
}

/// Size in bytes of a block of order `order`.
pub fn block_size(order: usize) -> (size: u64)
    requires
        order <= BUDDY_MAX_ORDER,
    ensures
        size == block_bytes(order as int),
{
    let shift: u64 = order as u64 + 12;
    proof {
        lemma_block_bytes(order as int);
        vstd::bits::lemma_u64_shl_is_mul(1, shift);
    }
    1u64 << shift
}

/// Base of the buddy of the block of order `order` at `addr`.
pub fn buddy_addr(addr: u64, order: usize) -> (buddy: u64)
    requires
        order < BUDDY_MAX_ORDER,
        aligned(addr as int, order as int),
    ensures
        buddy == buddy_of(addr as int, order as int),
{
    let size: u64 = block_size(order);
    proof {
        let shift: u64 = (order + 12) as u64;
        lemma_block_bytes(order as int);
        vstd::bits::lemma_u64_shl_is_mul(1, shift);
        assert(size == 1u64 << shift);
        assert(shift < 64 && size == (1u64 << shift) && (addr >> shift) & 1 == 0 ==> (addr ^ size)
            == addr + size) by (bit_vector);
        assert(shift < 64 && size == (1u64 << shift) && (addr >> shift) & 1 == 1 ==> (addr ^ size)
            == addr - size) by (bit_vector);
        assert((addr >> shift) & 1 == (addr >> shift) % 2) by (bit_vector);
        vstd::bits::lemma_u64_shr_is_div(addr, shift);
        let s = block_bytes(order as int);
        let q = addr as int / s;
        assert((addr >> shift) == q);
        vstd::arithmetic::div_mod::lemma_fundamental_div_mod(addr as int, s);
        if aligned(addr as int, order as int + 1) {
            let h = addr as int / (2 * s);
            vstd::arithmetic::div_mod::lemma_fundamental_div_mod(addr as int, 2 * s);
            assert(s * q == s * (2 * h)) by (nonlinear_arith)
                requires
                    s * q == 2 * s * h,
            ;
            assert(q == 2 * h) by (nonlinear_arith)
                requires
                    s > 0,
                    s * q == s * (2 * h),
            ;
        } else if q % 2 == 0 {
            let h = q / 2;
            assert(addr == h * (2 * s)) by (nonlinear_arith)
                requires
                    addr == s * q,
                    q == 2 * h,
            ;
            vstd::arithmetic::div_mod::lemma_mod_multiples_basic(h, 2 * s);
        }
    }
    addr ^ size
}

/// Law: the size of a block. Order 0 is one frame of 4096 bytes, each order twice
/// the one below, and the highest of the thirteen 16 MiB.
pub proof fn law_block_size(order: usize, size: u64)
    requires
        order <= 12,
        call_ensures(block_size, (order,), size),
    ensures
        size == 4096 * vstd::arithmetic::power2::pow2(order as nat),
        order == 12 ==> size == 16 * 1024 * 1024,
        BUDDY_MAX_ORDER == 12,
        BUDDY_ORDERS == 13,
        MIN_ADDR == 4096,
        FRAME_SIZE == 4096,
{
    lemma_block_bytes(order as int);
    vstd::arithmetic::power2::lemma2_to64();
}

/// Law: buddies. A block and its buddy are as far apart as they are large, each is
/// the buddy of the other, and the lower of the two starts at a multiple of what
/// they make together.
pub proof fn law_buddies(addr: u64, order: usize, size: u64, buddy: u64, back: u64)
    requires
        order < 12,
        call_ensures(block_size, (order,), size),
        addr % size == 0,
        call_ensures(buddy_addr, (addr, order), buddy),
        call_ensures(buddy_addr, (buddy, order), back),
    ensures
        back == addr,
        buddy == addr + size || addr == buddy + size,
        buddy % size == 0,
        (if addr < buddy {
            addr
        } else {
            buddy
        }) as int % (2 * size) == 0,
{
    lemma_block_bytes(order as int);
    lemma_buddy(addr as int, order as int);
}

} // verus!
