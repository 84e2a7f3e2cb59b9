//! Mathematical model of the buddy free lists.
//!
//! The lists are a sequence of sequences: entry `o` holds the base addresses
//! of the free blocks of order `o`. The operations of the allocator are
//! functions on that model, and what they conserve is expressed by measures:
//! a measure assigns a weight to an address interval, and the weight of the
//! lists is the sum over their blocks. Counting how often an address is
//! covered, or how many frames there are, are two such measures.

use vstd::prelude::*;
use crate::memory::block;
use crate::memory::block::{BUDDY_MAX_ORDER, BUDDY_ORDERS, MIN_ADDR};

verus! {

/// Every block sits at a multiple of its size and clear of the zero page.
pub open spec fn well_formed(lists: Seq<Seq<u64>>) -> bool {
    &&& lists.len() == BUDDY_ORDERS
    &&& forall|o: int, i: int|
        0 <= o < BUDDY_ORDERS && 0 <= i < lists[o].len() ==> MIN_ADDR <= #[trigger] lists[o][i]
            && block::aligned(lists[o][i] as int, o)
}

/// No list holds anything.
pub open spec fn empty_lists() -> Seq<Seq<u64>> {
    Seq::new(BUDDY_ORDERS as nat, |o: int| Seq::<u64>::empty())
}

// ---------------------------------------------------------------------------
// Taking a block
// ---------------------------------------------------------------------------
/// The lowest order from `order` on whose list holds a block, or
/// `BUDDY_ORDERS` when there is none.
pub open spec fn first_stocked(lists: Seq<Seq<u64>>, order: int) -> int
    decreases BUDDY_ORDERS - order,
{
    if order >= BUDDY_ORDERS {
        BUDDY_ORDERS as int
    } else if lists[order].len() > 0 {
        order
    } else {
        first_stocked(lists, order + 1)
    }
}

/// The lists after the last block of order `from` was cut down to `order`:
/// the low part leaves, each intermediate order keeps one upper half.
pub open spec fn split_down(lists: Seq<Seq<u64>>, order: int, from: int) -> Seq<Seq<u64>> {
    Seq::new(
        BUDDY_ORDERS as nat,
        |j: int|
            if j == from {
                lists[from].drop_last()
            } else if order <= j < from {
                seq![(lists[from].last() + block::block_bytes(j)) as u64]
            } else {
                lists[j]
            },
    )
}

/// Outcome of asking for one block of exactly `order`: the smallest stocked
/// order that is large enough serves it.
pub open spec fn take(lists: Seq<Seq<u64>>, order: int) -> (Option<u64>, Seq<Seq<u64>>) {
    let from = first_stocked(lists, order);
    if from >= BUDDY_ORDERS {
        (None, lists)
    } else {
        (Some(lists[from].last()), split_down(lists, order, from))
    }
}

pub proof fn lemma_first_stocked(lists: Seq<Seq<u64>>, order: int)
    requires
        0 <= order <= BUDDY_ORDERS,
    ensures
        order <= first_stocked(lists, order) <= BUDDY_ORDERS,
        first_stocked(lists, order) < BUDDY_ORDERS ==> lists[first_stocked(lists, order)].len() > 0,
        forall|j: int| order <= j < first_stocked(lists, order) ==> (#[trigger] lists[j]).len() == 0,
    decreases BUDDY_ORDERS - order,
{
    if order < BUDDY_ORDERS && lists[order].len() == 0 {
        lemma_first_stocked(lists, order + 1);
    }
}

// ---------------------------------------------------------------------------
// Giving a block back
// ---------------------------------------------------------------------------
/// Index of the first `x` in `list` from `from` on, or its length.
pub open spec fn position(list: Seq<u64>, x: int, from: int) -> int
    decreases list.len() - from,
{
    if from >= list.len() || from < 0 {
        list.len() as int
    } else if list[from] == x {
        from
    } else {
        position(list, x, from + 1)
    }
}

/// `list` without entry `p`, whose place the last entry takes.
pub open spec fn swap_out(list: Seq<u64>, p: int) -> Seq<u64> {
    list.update(p, list.last()).drop_last()
}

/// The lists after the block of order `order` at `addr` was given back: as
/// long as its buddy is free the two merge into a block of the next order.
pub open spec fn release(lists: Seq<Seq<u64>>, order: int, addr: int) -> Seq<Seq<u64>>
    decreases BUDDY_MAX_ORDER - order,
{
    if order >= BUDDY_MAX_ORDER {
        lists.update(order, lists[order].push(addr as u64))
    } else {
        let buddy = block::buddy_of(addr, order);
        let p = position(lists[order], buddy, 0);
        if p < lists[order].len() {
            release(
                lists.update(order, swap_out(lists[order], p)),
                order + 1,
                if addr < buddy {
                    addr
                } else {
                    buddy
                },
            )
        } else {
            lists.update(order, lists[order].push(addr as u64))
        }
    }
}

pub proof fn lemma_position(list: Seq<u64>, x: int, from: int)
    requires
        0 <= from <= list.len(),
    ensures
        from <= position(list, x, from) <= list.len(),
        position(list, x, from) < list.len() ==> list[position(list, x, from)] == x,
        forall|j: int| from <= j < position(list, x, from) ==> list[j] != x,
    decreases list.len() - from,
{
    if from < list.len() && list[from] != x {
        lemma_position(list, x, from + 1);
    }
}

// ---------------------------------------------------------------------------
// Carving a region
// ---------------------------------------------------------------------------
/// The largest order up to `order` whose block fits at `start` below `end`.
pub open spec fn largest_order(start: int, end: int, order: int) -> int
    decreases order,
{
    if order <= 0 {
        0
    } else if block::aligned(start, order) && start + block::block_bytes(order) <= end {
        order
    } else {
        largest_order(start, end, order - 1)
    }
}

/// The lists after `[start, end)` was cut, from the bottom up, into the
/// largest aligned blocks that fit.
pub open spec fn carve(lists: Seq<Seq<u64>>, start: int, end: int) -> Seq<Seq<u64>>
    decreases end - start,
{
    if start + 4096 <= end {
        let order = largest_order(start, end, BUDDY_MAX_ORDER as int);
        proof {
            lemma_largest_order(start, end, BUDDY_MAX_ORDER as int);
            block::lemma_block_bytes(order);
        }
        carve(
            lists.update(order, lists[order].push(start as u64)),
            start + block::block_bytes(order),
            end,
        )
    } else {
        lists
    }
}

pub proof fn lemma_largest_order(start: int, end: int, order: int)
    requires
        0 <= order <= BUDDY_MAX_ORDER,
    ensures
        0 <= largest_order(start, end, order) <= order,
        largest_order(start, end, order) > 0 ==> block::aligned(
            start,
            largest_order(start, end, order),
        ) && start + block::block_bytes(largest_order(start, end, order)) <= end,
        forall|o: int|
            largest_order(start, end, order) < o <= order ==> !(#[trigger] block::aligned(start, o)
                && start + block::block_bytes(o) <= end),
    decreases order,
{
    if order > 0 && !(block::aligned(start, order) && start + block::block_bytes(order) <= end) {
        lemma_largest_order(start, end, order - 1);
    }
}

// ---------------------------------------------------------------------------
// Measures
// ---------------------------------------------------------------------------
/// Splitting an interval splits its measure.
pub open spec fn additive(m: spec_fn(int, int) -> int) -> bool {
    forall|s: int, x: int, e: int| s <= x <= e ==> #[trigger] m(s, x) + #[trigger] m(x, e) == m(s, e)
}

/// Measure of the blocks of one list.
pub open spec fn list_weight(list: Seq<u64>, order: int, m: spec_fn(int, int) -> int) -> int
    decreases list.len(),
{
    if list.len() == 0 {
        0
    } else {
        list_weight(list.drop_last(), order, m) + m(
            list.last() as int,
            list.last() + block::block_bytes(order),
        )
    }
}

/// Measure of the blocks of the first `upto` lists.
pub open spec fn weight(lists: Seq<Seq<u64>>, upto: int, m: spec_fn(int, int) -> int) -> int
    decreases upto,
{
    if upto <= 0 {
        0
    } else {
        weight(lists, upto - 1, m) + list_weight(lists[upto - 1], upto - 1, m)
    }
}

/// Whether an interval covers address `f`, as a number.
pub open spec fn covers(f: int) -> spec_fn(int, int) -> int {
    |s: int, e: int|
        if s <= f < e {
            1int
        } else {
            0int
        }
}

/// How many frame boundaries an interval spans.
pub open spec fn frame_span() -> spec_fn(int, int) -> int {
    |s: int, e: int| e / 4096 - s / 4096
}

/// How many free blocks cover address `f`.
pub open spec fn free_copies(lists: Seq<Seq<u64>>, f: int) -> int {
    weight(lists, BUDDY_ORDERS as int, covers(f))
}

/// Frames in the first `upto` lists: every block of order `o` counts `2^o`.
pub open spec fn frame_total(lists: Seq<Seq<u64>>, upto: int) -> int
    decreases upto,
{
    if upto <= 0 {
        0
    } else {
        frame_total(lists, upto - 1) + lists[upto - 1].len() * block::block_frames(upto - 1)
    }
}

/// No address is covered by two free blocks.
pub open spec fn exclusive(lists: Seq<Seq<u64>>) -> bool {
    forall|f: int| #[trigger] free_copies(lists, f) <= 1
}

pub proof fn lemma_measures_additive(f: int)
    ensures
        additive(covers(f)),
        additive(frame_span()),
{
    assert forall|s: int, x: int, e: int| s <= x <= e implies #[trigger] frame_span()(s, x)
        + #[trigger] frame_span()(x, e) == frame_span()(s, e) by {}
}

/// Replacing one list changes the weight by the difference of the two lists.
pub proof fn lemma_weight_update(
    lists: Seq<Seq<u64>>,
    o: int,
    list: Seq<u64>,
    upto: int,
    m: spec_fn(int, int) -> int,
)
    requires
        0 <= o < lists.len(),
        0 <= upto <= lists.len(),
    ensures
        weight(lists.update(o, list), upto, m) == weight(lists, upto, m) + (if o < upto {
            list_weight(list, o, m) - list_weight(lists[o], o, m)
        } else {
            0
        }),
    decreases upto,
{
    if upto > 0 {
        lemma_weight_update(lists, o, list, upto - 1, m);
    }
}

pub proof fn lemma_list_push(list: Seq<u64>, x: u64, o: int, m: spec_fn(int, int) -> int)
    ensures
        list_weight(list.push(x), o, m) == list_weight(list, o, m) + m(
            x as int,
            x + block::block_bytes(o),
        ),
{
    assert(list.push(x).drop_last() =~= list);
}

pub proof fn lemma_list_update(list: Seq<u64>, p: int, x: u64, o: int, m: spec_fn(int, int) -> int)
    requires
        0 <= p < list.len(),
    ensures
        list_weight(list.update(p, x), o, m) == list_weight(list, o, m) - m(
            list[p] as int,
            list[p] + block::block_bytes(o),
        ) + m(x as int, x + block::block_bytes(o)),
    decreases list.len(),
{
    if p == list.len() - 1 {
        assert(list.update(p, x).drop_last() =~= list.drop_last());
    } else {
        assert(list.update(p, x).drop_last() =~= list.drop_last().update(p, x));
        lemma_list_update(list.drop_last(), p, x, o, m);
    }
}

pub proof fn lemma_list_swap_out(list: Seq<u64>, p: int, o: int, m: spec_fn(int, int) -> int)
    requires
        0 <= p < list.len(),
    ensures
        list_weight(swap_out(list, p), o, m) == list_weight(list, o, m) - m(
            list[p] as int,
            list[p] + block::block_bytes(o),
        ),
{
    let last = list.last();
    lemma_list_update(list, p, last, o, m);
    assert(list.update(p, last).last() == last);
}

// ---------------------------------------------------------------------------
// What the operations conserve
// ---------------------------------------------------------------------------
/// Cutting a block down removes exactly the part that leaves.
proof fn lemma_split_down(
    lists: Seq<Seq<u64>>,
    order: int,
    from: int,
    m: spec_fn(int, int) -> int,
)
    requires
        well_formed(lists),
        0 <= order <= from < BUDDY_ORDERS,
        lists[from].len() > 0,
        forall|j: int| order <= j < from ==> (#[trigger] lists[j]).len() == 0,
        additive(m),
    ensures
        well_formed(split_down(lists, order, from)),
        block::aligned(lists[from].last() as int, order),
        weight(split_down(lists, order, from), BUDDY_ORDERS as int, m) == weight(
            lists,
            BUDDY_ORDERS as int,
            m,
        ) - m(lists[from].last() as int, lists[from].last() + block::block_bytes(order)),
    decreases from - order,
{
    let all = BUDDY_ORDERS as int;
    let a = lists[from].last();
    let cut = split_down(lists, order, from);
    assert(lists[from][lists[from].len() - 1] == a);
    block::lemma_lower_order(a as int, order, from);
    block::lemma_block_in_range(a as int, from);
    if order == from {
        assert(cut =~= lists.update(from, lists[from].drop_last()));
        lemma_weight_update(lists, from, lists[from].drop_last(), all, m);
        assert forall|o: int, i: int| 0 <= o < all && 0 <= i < cut[o].len() implies MIN_ADDR
            <= #[trigger] cut[o][i] && block::aligned(cut[o][i] as int, o) by {
            assert(cut[o][i] == lists[o][i]);
        }
    } else {
        let upper = split_down(lists, order + 1, from);
        lemma_split_down(lists, order + 1, from, m);
        block::lemma_block_bytes(order);
        block::lemma_aligned_down(a as int, order);
        let half = (a + block::block_bytes(order)) as u64;
        assert(half == a + block::block_bytes(order));
        assert(cut =~= upper.update(order, seq![half]));
        lemma_weight_update(upper, order, seq![half], all, m);
        assert(upper[order] == lists[order]);
        assert(list_weight(upper[order], order, m) == 0);
        lemma_list_push(Seq::empty(), half, order, m);
        assert(Seq::<u64>::empty().push(half) =~= seq![half]);
        assert(m(a as int, half as int) + m(half as int, half + block::block_bytes(order)) == m(
            a as int,
            a + block::block_bytes(order + 1),
        ));
        assert forall|o: int, i: int| 0 <= o < all && 0 <= i < cut[o].len() implies MIN_ADDR
            <= #[trigger] cut[o][i] && block::aligned(cut[o][i] as int, o) by {
            if o == order {
                assert(cut[o][i] == half);
            } else {
                assert(cut[o][i] == upper[o][i]);
            }
        }
    }
}

/// Taking a block keeps the lists well formed, and every additive measure
/// drops by exactly the block that was handed out.
pub proof fn lemma_take(lists: Seq<Seq<u64>>, order: int, m: spec_fn(int, int) -> int)
    requires
        well_formed(lists),
        0 <= order < BUDDY_ORDERS,
        additive(m),
    ensures
        well_formed(take(lists, order).1),
        match take(lists, order).0 {
            Some(a) => {
                &&& MIN_ADDR <= a
                &&& block::aligned(a as int, order)
                &&& weight(take(lists, order).1, BUDDY_ORDERS as int, m) == weight(
                    lists,
                    BUDDY_ORDERS as int,
                    m,
                ) - m(a as int, a + block::block_bytes(order))
            },
            None => take(lists, order).1 == lists,
        },
{
    lemma_first_stocked(lists, order);
    let from = first_stocked(lists, order);
    if from < BUDDY_ORDERS {
        lemma_split_down(lists, order, from, m);
        assert(lists[from][lists[from].len() - 1] == lists[from].last());
    }
}

/// Giving a block back keeps the lists well formed, and every additive
/// measure grows by exactly that block.
pub proof fn lemma_release(
    lists: Seq<Seq<u64>>,
    order: int,
    addr: int,
    m: spec_fn(int, int) -> int,
)
    requires
        well_formed(lists),
        0 <= order <= BUDDY_MAX_ORDER,
        MIN_ADDR <= addr <= u64::MAX,
        block::aligned(addr, order),
        additive(m),
    ensures
        well_formed(release(lists, order, addr)),
        weight(release(lists, order, addr), BUDDY_ORDERS as int, m) == weight(
            lists,
            BUDDY_ORDERS as int,
            m,
        ) + m(addr, addr + block::block_bytes(order)),
    decreases BUDDY_MAX_ORDER - order,
{
    let all = BUDDY_ORDERS as int;
    let pushed = lists.update(order, lists[order].push(addr as u64));
    lemma_weight_update(lists, order, lists[order].push(addr as u64), all, m);
    lemma_list_push(lists[order], addr as u64, order, m);
    assert forall|o: int, i: int| 0 <= o < all && 0 <= i < pushed[o].len() implies MIN_ADDR
        <= #[trigger] pushed[o][i] && block::aligned(pushed[o][i] as int, o) by {
        if o == order && i == lists[o].len() {
        } else {
            assert(pushed[o][i] == lists[o][i]);
        }
    }
    if order < BUDDY_MAX_ORDER {
        let buddy = block::buddy_of(addr, order);
        let p = position(lists[order], buddy, 0);
        lemma_position(lists[order], buddy, 0);
        if p < lists[order].len() {
            let low = if addr < buddy {
                addr
            } else {
                buddy
            };
            let rest = lists.update(order, swap_out(lists[order], p));
            block::lemma_buddy(addr, order);
            block::lemma_block_bytes(order);
            assert(lists[order][p] == buddy);
            lemma_weight_update(lists, order, swap_out(lists[order], p), all, m);
            lemma_list_swap_out(lists[order], p, order, m);
            assert forall|o: int, i: int| 0 <= o < all && 0 <= i < rest[o].len() implies MIN_ADDR
                <= #[trigger] rest[o][i] && block::aligned(rest[o][i] as int, o) by {
                if o == order && i == p {
                    assert(rest[o][i] == lists[o][lists[o].len() - 1]);
                } else {
                    assert(rest[o][i] == lists[o][i]);
                }
            }
            lemma_release(rest, order + 1, low, m);
            let size = block::block_bytes(order);
            assert(m(low, low + size) + m(low + size, low + 2 * size) == m(low, low + 2 * size));
        }
    }
}

/// Carving an interval adds exactly that interval.
pub proof fn lemma_carve(
    lists: Seq<Seq<u64>>,
    start: int,
    end: int,
    m: spec_fn(int, int) -> int,
)
    requires
        well_formed(lists),
        MIN_ADDR <= start <= end <= u64::MAX,
        start % 4096 == 0,
        end % 4096 == 0,
        additive(m),
    ensures
        well_formed(carve(lists, start, end)),
        weight(carve(lists, start, end), BUDDY_ORDERS as int, m) == weight(
            lists,
            BUDDY_ORDERS as int,
            m,
        ) + m(start, end),
    decreases end - start,
{
    let all = BUDDY_ORDERS as int;
    if start + 4096 <= end {
        let order = largest_order(start, end, BUDDY_MAX_ORDER as int);
        lemma_largest_order(start, end, BUDDY_MAX_ORDER as int);
        block::lemma_block_bytes(order);
        block::lemma_block_bytes(0);
        let size = block::block_bytes(order);
        let list = lists[order].push(start as u64);
        let pushed = lists.update(order, list);
        lemma_weight_update(lists, order, list, all, m);
        lemma_list_push(lists[order], start as u64, order, m);
        assert forall|o: int, i: int| 0 <= o < all && 0 <= i < pushed[o].len() implies MIN_ADDR
            <= #[trigger] pushed[o][i] && block::aligned(pushed[o][i] as int, o) by {
            if o == order && i == lists[o].len() {
            } else {
                assert(pushed[o][i] == lists[o][i]);
            }
        }
        assert(start + size <= end);
        lemma_carve(pushed, start + size, end, m);
        assert(m(start, start + size) + m(start + size, end) == m(start, end));
    } else {
        assert(start == end);
        assert(m(start, start) + m(start, start) == m(start, start));
    }
}

// ---------------------------------------------------------------------------
// Counting frames
// ---------------------------------------------------------------------------
proof fn lemma_list_frames(list: Seq<u64>, o: int)
    requires
        0 <= o < BUDDY_ORDERS,
        forall|i: int| 0 <= i < list.len() ==> block::aligned(#[trigger] list[i] as int, o),
    ensures
        list_weight(list, o, frame_span()) == list.len() * block::block_frames(o),
    decreases list.len(),
{
    if list.len() > 0 {
        let n = block::block_frames(o);
        let a = list[list.len() - 1] as int;
        assert forall|i: int| 0 <= i < list.drop_last().len() implies block::aligned(
            #[trigger] list.drop_last()[i] as int,
            o,
        ) by {
            assert(list.drop_last()[i] == list[i]);
        }
        lemma_list_frames(list.drop_last(), o);
        block::lemma_aligned_frame(a, o);
        block::lemma_block_bytes(o);
        assert((a + 4096 * n) / 4096 - a / 4096 == n) by (nonlinear_arith)
            requires
                a % 4096 == 0,
        ;
        assert((list.len() - 1) * n + n == list.len() * n) by (nonlinear_arith);
    } else {
        assert(0 * block::block_frames(o) == 0) by (nonlinear_arith);
    }
}

/// The frame count is the measure of the lists in frames.
pub proof fn lemma_frame_total(lists: Seq<Seq<u64>>, upto: int)
    requires
        well_formed(lists),
        0 <= upto <= BUDDY_ORDERS,
    ensures
        frame_total(lists, upto) == weight(lists, upto, frame_span()),
        frame_total(lists, upto) >= 0,
    decreases upto,
{
    if upto > 0 {
        lemma_frame_total(lists, upto - 1);
        assert forall|i: int| 0 <= i < lists[upto - 1].len() implies block::aligned(
            #[trigger] lists[upto - 1][i] as int,
            upto - 1,
        ) by {}
        lemma_list_frames(lists[upto - 1], upto - 1);
        block::lemma_block_bytes(upto - 1);
        assert(lists[upto - 1].len() * block::block_frames(upto - 1) >= 0) by (nonlinear_arith)
            requires
                lists[upto - 1].len() >= 0,
                block::block_frames(upto - 1) >= 0,
        ;
    }
}

/// Fewer lists hold fewer frames.
pub proof fn lemma_frame_total_grows(lists: Seq<Seq<u64>>, low: int, high: int)
    requires
        well_formed(lists),
        0 <= low <= high <= BUDDY_ORDERS,
    ensures
        0 <= frame_total(lists, low) <= frame_total(lists, high),
    decreases high - low,
{
    lemma_frame_total(lists, low);
    if low < high {
        lemma_frame_total_grows(lists, low, high - 1);
        block::lemma_block_bytes(high - 1);
        assert(lists[high - 1].len() * block::block_frames(high - 1) >= 0) by (nonlinear_arith)
            requires
                lists[high - 1].len() >= 0,
                block::block_frames(high - 1) >= 0,
        ;
    }
}

/// Frames of an interval that lie below frame number `k`.
spec fn span_below(k: int) -> spec_fn(int, int) -> int {
    |s: int, e: int|
        (if e / 4096 < k {
            e / 4096
        } else {
            k
        }) - (if s / 4096 < k {
            s / 4096
        } else {
            k
        })
}

proof fn lemma_list_span_step(list: Seq<u64>, o: int, k: int)
    requires
        0 <= o < BUDDY_ORDERS,
        0 <= k,
        forall|i: int| 0 <= i < list.len() ==> block::aligned(#[trigger] list[i] as int, o),
    ensures
        list_weight(list, o, span_below(0)) == 0,
        list_weight(list, o, span_below(k + 1)) == list_weight(list, o, span_below(k))
            + list_weight(list, o, covers(4096 * k)),
    decreases list.len(),
{
    if list.len() > 0 {
        let a = list[list.len() - 1] as int;
        assert forall|i: int| 0 <= i < list.drop_last().len() implies block::aligned(
            #[trigger] list.drop_last()[i] as int,
            o,
        ) by {
            assert(list.drop_last()[i] == list[i]);
        }
        lemma_list_span_step(list.drop_last(), o, k);
        block::lemma_aligned_frame(a, o);
        block::lemma_block_bytes(o);
        let e = a + block::block_bytes(o);
        assert(e % 4096 == 0);
        assert(a <= 4096 * k < e <==> a / 4096 <= k < e / 4096);
    }
}

proof fn lemma_span_step(lists: Seq<Seq<u64>>, upto: int, k: int)
    requires
        well_formed(lists),
        0 <= upto <= BUDDY_ORDERS,
        0 <= k,
    ensures
        weight(lists, upto, span_below(0)) == 0,
        weight(lists, upto, span_below(k + 1)) == weight(lists, upto, span_below(k)) + weight(
            lists,
            upto,
            covers(4096 * k),
        ),
    decreases upto,
{
    if upto > 0 {
        lemma_span_step(lists, upto - 1, k);
        assert forall|i: int| 0 <= i < lists[upto - 1].len() implies block::aligned(
            #[trigger] lists[upto - 1][i] as int,
            upto - 1,
        ) by {}
        lemma_list_span_step(lists[upto - 1], upto - 1, k);
    }
}

proof fn lemma_span_bound(lists: Seq<Seq<u64>>, k: int)
    requires
        well_formed(lists),
        exclusive(lists),
        0 <= k,
    ensures
        weight(lists, BUDDY_ORDERS as int, span_below(k)) <= k,
    decreases k,
{
    lemma_span_step(lists, BUDDY_ORDERS as int, 0);
    if k > 0 {
        lemma_span_bound(lists, k - 1);
        lemma_span_step(lists, BUDDY_ORDERS as int, k - 1);
        assert(free_copies(lists, 4096 * (k - 1)) <= 1);
    }
}

proof fn lemma_list_span_all(list: Seq<u64>, o: int)
    requires
        0 <= o < BUDDY_ORDERS,
        forall|i: int| 0 <= i < list.len() ==> block::aligned(#[trigger] list[i] as int, o),
    ensures
        list_weight(list, o, span_below(0x10_0000_0000_0000)) == list_weight(list, o, frame_span()),
    decreases list.len(),
{
    if list.len() > 0 {
        let a = list[list.len() - 1] as int;
        assert forall|i: int| 0 <= i < list.drop_last().len() implies block::aligned(
            #[trigger] list.drop_last()[i] as int,
            o,
        ) by {
            assert(list.drop_last()[i] == list[i]);
        }
        lemma_list_span_all(list.drop_last(), o);
        block::lemma_block_in_range(a, o);
    }
}

proof fn lemma_span_all(lists: Seq<Seq<u64>>, upto: int)
    requires
        well_formed(lists),
        0 <= upto <= BUDDY_ORDERS,
    ensures
        weight(lists, upto, span_below(0x10_0000_0000_0000)) == weight(lists, upto, frame_span()),
    decreases upto,
{
    if upto > 0 {
        lemma_span_all(lists, upto - 1);
        assert forall|i: int| 0 <= i < lists[upto - 1].len() implies block::aligned(
            #[trigger] lists[upto - 1][i] as int,
            upto - 1,
        ) by {}
        lemma_list_span_all(lists[upto - 1], upto - 1);
    }
}

/// Law: lists in which no address is free twice hold at most the `2^52`
/// frames that a 64-bit address space has.
pub proof fn law_exclusive_frames_fit(lists: Seq<Seq<u64>>)
    requires
        well_formed(lists),
        exclusive(lists),
    ensures
        frame_total(lists, BUDDY_ORDERS as int) <= 0x10_0000_0000_0000,
{
    lemma_span_bound(lists, 0x10_0000_0000_0000);
    lemma_span_all(lists, BUDDY_ORDERS as int);
    lemma_frame_total(lists, BUDDY_ORDERS as int);
}

proof fn lemma_list_copies(list: Seq<u64>, o: int, f: int)
    ensures
        list_weight(list, o, covers(f)) >= 0,
    decreases list.len(),
{
    if list.len() > 0 {
        lemma_list_copies(list.drop_last(), o, f);
    }
}

/// An address is free zero times or more.
pub proof fn lemma_copies(lists: Seq<Seq<u64>>, upto: int, f: int)
    ensures
        weight(lists, upto, covers(f)) >= 0,
    decreases upto,
{
    if upto > 0 {
        lemma_copies(lists, upto - 1, f);
        lemma_list_copies(lists[upto - 1], upto - 1, f);
    }
}

/// Empty lists hold no frames.
pub proof fn lemma_empty(upto: int, m: spec_fn(int, int) -> int)
    requires
        0 <= upto <= BUDDY_ORDERS,
    ensures
        well_formed(empty_lists()),
        weight(empty_lists(), upto, m) == 0,
    decreases upto,
{
    if upto > 0 {
        lemma_empty(upto - 1, m);
    }
}

// ---------------------------------------------------------------------------
// Laws
// ---------------------------------------------------------------------------
/// Law: handing out a frame takes exactly that frame out of the free memory.
/// It was free before, it is aligned and not the zero page, the count of free
/// frames drops by one, and every other address is as free as it was.
pub proof fn law_take_frame(lists: Seq<Seq<u64>>)
    requires
        well_formed(lists),
    ensures
        match take(lists, 0).0 {
            Some(a) => {
                &&& well_formed(take(lists, 0).1)
                &&& a % 4096 == 0
                &&& a >= MIN_ADDR
                &&& free_copies(lists, a as int) >= 1
                &&& frame_total(take(lists, 0).1, BUDDY_ORDERS as int) == frame_total(
                    lists,
                    BUDDY_ORDERS as int,
                ) - 1
                &&& forall|f: int| #[trigger]
                    free_copies(take(lists, 0).1, f) == free_copies(lists, f) - (if a <= f < a
                        + 4096 {
                        1int
                    } else {
                        0int
                    })
            },
            None => take(lists, 0).1 == lists,
        },
{
    let after = take(lists, 0).1;
    block::lemma_block_bytes(0);
    lemma_measures_additive(0);
    lemma_take(lists, 0, frame_span());
    lemma_frame_total(lists, BUDDY_ORDERS as int);
    lemma_frame_total(after, BUDDY_ORDERS as int);
    if let Some(a) = take(lists, 0).0 {
        assert forall|f: int| #[trigger]
            free_copies(after, f) == free_copies(lists, f) - (if a <= f < a + 4096 {
                1int
            } else {
                0int
            }) by {
            lemma_measures_additive(f);
            lemma_take(lists, 0, covers(f));
        }
        assert(free_copies(after, a as int) == free_copies(lists, a as int) - 1);
        lemma_copies(after, BUDDY_ORDERS as int, a as int);
    }
}

/// Law: a frame is handed out as long as any is free.
pub proof fn law_take_succeeds(lists: Seq<Seq<u64>>)
    requires
        well_formed(lists),
    ensures
        take(lists, 0).0 is Some <==> frame_total(lists, BUDDY_ORDERS as int) > 0,
{
    lemma_first_stocked(lists, 0);
    let from = first_stocked(lists, 0);
    lemma_no_frames(lists, from);
    if from < BUDDY_ORDERS {
        lemma_frame_total_grows(lists, from + 1, BUDDY_ORDERS as int);
        block::lemma_block_bytes(from);
        assert(lists[from].len() * block::block_frames(from) >= 1) by (nonlinear_arith)
            requires
                lists[from].len() >= 1,
                block::block_frames(from) >= 1,
        ;
    }
}

proof fn lemma_no_frames(lists: Seq<Seq<u64>>, upto: int)
    requires
        forall|j: int| 0 <= j < upto ==> (#[trigger] lists[j]).len() == 0,
    ensures
        frame_total(lists, upto) == 0,
    decreases upto,
{
    if upto > 0 {
        lemma_no_frames(lists, upto - 1);
        assert(lists[upto - 1].len() == 0);
        assert(0 * block::block_frames(upto - 1) == 0) by (nonlinear_arith);
    }
}

/// Law: giving a frame back returns exactly that frame to the free memory,
/// however far it merges: the count of free frames grows by one, and every
/// other address is as free as it was.
pub proof fn law_release_frame(lists: Seq<Seq<u64>>, frame: int)
    requires
        well_formed(lists),
        frame % 4096 == 0,
        MIN_ADDR <= frame <= u64::MAX,
    ensures
        well_formed(release(lists, 0, frame)),
        frame_total(release(lists, 0, frame), BUDDY_ORDERS as int) == frame_total(
            lists,
            BUDDY_ORDERS as int,
        ) + 1,
        forall|f: int| #[trigger]
            free_copies(release(lists, 0, frame), f) == free_copies(lists, f) + (if frame <= f
                < frame + 4096 {
                1int
            } else {
                0int
            }),
{
    let after = release(lists, 0, frame);
    block::lemma_block_bytes(0);
    lemma_measures_additive(0);
    lemma_release(lists, 0, frame, frame_span());
    lemma_frame_total(lists, BUDDY_ORDERS as int);
    lemma_frame_total(after, BUDDY_ORDERS as int);
    assert forall|f: int| #[trigger]
        free_copies(after, f) == free_copies(lists, f) + (if frame <= f < frame + 4096 {
            1int
        } else {
            0int
        }) by {
        lemma_measures_additive(f);
        lemma_release(lists, 0, frame, covers(f));
    }
}

/// Law: a frame that is handed out and given back leaves the free memory as
/// it was, address by address and in number.
pub proof fn law_round_trip(lists: Seq<Seq<u64>>)
    requires
        well_formed(lists),
        take(lists, 0).0 is Some,
    ensures
        ({
            let taken = take(lists, 0);
            let back = release(taken.1, 0, taken.0->0 as int);
            &&& well_formed(back)
            &&& frame_total(back, BUDDY_ORDERS as int) == frame_total(lists, BUDDY_ORDERS as int)
            &&& forall|f: int| #[trigger] free_copies(back, f) == free_copies(lists, f)
        }),
{
    let taken = take(lists, 0);
    let frame = taken.0->0 as int;
    law_take_frame(lists);
    law_release_frame(taken.1, frame);
    let back = release(taken.1, 0, frame);
    assert forall|f: int| #[trigger] free_copies(back, f) == free_copies(lists, f) by {
        assert(free_copies(taken.1, f) == free_copies(lists, f) - (if frame <= f < frame + 4096 {
            1int
        } else {
            0int
        }));
    }
}

/// Law: while no address is free twice, a frame that was handed out is not
/// free any more, so it cannot be handed out again before it is given back.
pub proof fn law_take_is_exclusive(lists: Seq<Seq<u64>>)
    requires
        well_formed(lists),
        exclusive(lists),
    ensures
        exclusive(take(lists, 0).1),
        take(lists, 0).0 matches Some(a) ==> forall|f: int|
            a <= f < a + 4096 ==> #[trigger] free_copies(take(lists, 0).1, f) == 0,
{
    law_take_frame(lists);
    let after = take(lists, 0).1;
    if let Some(a) = take(lists, 0).0 {
        assert forall|f: int| #[trigger] free_copies(after, f) <= 1 by {
            assert(free_copies(lists, f) <= 1);
        }
        assert forall|f: int| a <= f < a + 4096 implies #[trigger] free_copies(after, f) == 0 by {
            assert(free_copies(lists, f) <= 1);
            lemma_copies(after, BUDDY_ORDERS as int, f);
        }
    }
}

/// Law: giving back a frame no part of which is free leaves no address free
/// twice.
pub proof fn law_release_is_exclusive(lists: Seq<Seq<u64>>, frame: int)
    requires
        well_formed(lists),
        exclusive(lists),
        frame % 4096 == 0,
        MIN_ADDR <= frame <= u64::MAX,
        forall|f: int| frame <= f < frame + 4096 ==> #[trigger] free_copies(lists, f) == 0,
    ensures
        exclusive(release(lists, 0, frame)),
{
    law_release_frame(lists, frame);
    let after = release(lists, 0, frame);
    assert forall|f: int| #[trigger] free_copies(after, f) <= 1 by {
        assert(free_copies(lists, f) <= 1);
        if frame <= f < frame + 4096 {
            assert(free_copies(lists, f) == 0);
        }
    }
}

/// No list holds two blocks that are buddies: whatever can merge has merged.
pub open spec fn coalesced(lists: Seq<Seq<u64>>) -> bool {
    forall|o: int, i: int, j: int|
        0 <= o < BUDDY_MAX_ORDER && 0 <= i < lists[o].len() && 0 <= j < lists[o].len()
            ==> #[trigger] lists[o][i] != block::buddy_of(#[trigger] lists[o][j] as int, o)
}

/// Law: handing out a frame leaves no two buddies behind on a list.
pub proof fn law_take_keeps_coalesced(lists: Seq<Seq<u64>>)
    requires
        well_formed(lists),
        coalesced(lists),
    ensures
        coalesced(take(lists, 0).1),
{
    lemma_first_stocked(lists, 0);
    let from = first_stocked(lists, 0);
    if from < BUDDY_ORDERS {
        let after = split_down(lists, 0, from);
        let a = lists[from].last();
        assert(lists[from][lists[from].len() - 1] == a);
        assert forall|o: int, i: int, j: int|
            0 <= o < BUDDY_MAX_ORDER && 0 <= i < after[o].len() && 0 <= j < after[o].len()
                implies #[trigger] after[o][i] != block::buddy_of(
            #[trigger] after[o][j] as int,
            o,
        ) by {
            if o < from {
                block::lemma_lower_order(a as int, o, from);
                block::lemma_lower_order(a as int, o + 1, from);
                block::lemma_block_in_range(a as int, from);
                block::lemma_aligned_down(a as int, o);
                assert(after[o] =~= seq![(a + block::block_bytes(o)) as u64]);
                block::lemma_buddy(a + block::block_bytes(o), o);
            } else {
                assert(after[o][i] == lists[o][i]);
                assert(after[o][j] == lists[o][j]);
            }
        }
    }
}

/// Law: giving a block back merges it as far as it goes; if no list held two
/// buddies before, none does afterwards. Fragmentation heals.
pub proof fn law_release_keeps_coalesced(lists: Seq<Seq<u64>>, order: int, addr: int)
    requires
        well_formed(lists),
        coalesced(lists),
        0 <= order <= BUDDY_MAX_ORDER,
        block::aligned(addr, order),
        MIN_ADDR <= addr <= u64::MAX,
    ensures
        coalesced(release(lists, order, addr)),
    decreases BUDDY_MAX_ORDER - order,
{
    let after = release(lists, order, addr);
    if order < BUDDY_MAX_ORDER {
        let buddy = block::buddy_of(addr, order);
        let p = position(lists[order], buddy, 0);
        lemma_position(lists[order], buddy, 0);
        block::lemma_buddy(addr, order);
        if p < lists[order].len() {
            let rest = lists.update(order, swap_out(lists[order], p));
            assert forall|o: int, i: int| 0 <= o < BUDDY_ORDERS && 0 <= i < rest[o].len() implies (
            #[trigger] rest[o][i]) == lists[o][if o == order && i == p {
                lists[o].len() - 1
            } else {
                i
            }] by {}
            assert(coalesced(rest)) by {
                assert forall|o: int, i: int, j: int|
                    0 <= o < BUDDY_MAX_ORDER && 0 <= i < rest[o].len() && 0 <= j < rest[o].len()
                        implies #[trigger] rest[o][i] != block::buddy_of(
                    #[trigger] rest[o][j] as int,
                    o,
                ) by {
                    let last = lists[o].len() - 1;
                    let ii = if o == order && i == p {
                        last
                    } else {
                        i
                    };
                    let jj = if o == order && j == p {
                        last
                    } else {
                        j
                    };
                    assert(rest[o][i] == lists[o][ii]);
                    assert(rest[o][j] == lists[o][jj]);
                }
            }
            assert(lists[order][p] == buddy);
            assert(well_formed(rest));
            law_release_keeps_coalesced(
                rest,
                order + 1,
                if addr < buddy {
                    addr
                } else {
                    buddy
                },
            );
        } else {
            assert forall|o: int, i: int, j: int|
                0 <= o < BUDDY_MAX_ORDER && 0 <= i < after[o].len() && 0 <= j < after[o].len()
                    implies #[trigger] after[o][i] != block::buddy_of(
                #[trigger] after[o][j] as int,
                o,
            ) by {
                if o == order {
                    let n = lists[o].len() as int;
                    if i < n {
                        assert(after[o][i] == lists[o][i]);
                        block::lemma_buddy(lists[o][i] as int, o);
                    }
                    if j < n {
                        assert(after[o][j] == lists[o][j]);
                        block::lemma_buddy(lists[o][j] as int, o);
                    }
                } else {
                    assert(after[o][i] == lists[o][i]);
                    assert(after[o][j] == lists[o][j]);
                }
            }
        }
    } else {
        assert forall|o: int, i: int, j: int|
            0 <= o < BUDDY_MAX_ORDER && 0 <= i < after[o].len() && 0 <= j < after[o].len()
                implies #[trigger] after[o][i] != block::buddy_of(
            #[trigger] after[o][j] as int,
            o,
        ) by {
            assert(after[o][i] == lists[o][i]);
            assert(after[o][j] == lists[o][j]);
        }
    }
}

/// Every block of the lists lies in `[start, end)`.
pub open spec fn within(lists: Seq<Seq<u64>>, start: int, end: int) -> bool {
    forall|o: int, i: int|
        0 <= o < BUDDY_ORDERS && 0 <= i < lists[o].len() ==> start <= #[trigger] lists[o][i]
            && lists[o][i] + block::block_bytes(o) <= end
}

/// The lists of `a` with those of `b` behind them, order by order.
pub open spec fn joined(a: Seq<Seq<u64>>, b: Seq<Seq<u64>>) -> Seq<Seq<u64>> {
    Seq::new(BUDDY_ORDERS as nat, |o: int| a[o] + b[o])
}

/// Carving appends to the lists what it would list on its own.
pub proof fn lemma_carve_appends(lists: Seq<Seq<u64>>, start: int, end: int)
    requires
        lists.len() == BUDDY_ORDERS,
    ensures
        carve(lists, start, end) == joined(lists, carve(empty_lists(), start, end)),
    decreases end - start,
{
    let none = empty_lists();
    if start + 4096 <= end {
        let order = largest_order(start, end, BUDDY_MAX_ORDER as int);
        lemma_largest_order(start, end, BUDDY_MAX_ORDER as int);
        block::lemma_block_bytes(order);
        let next = start + block::block_bytes(order);
        let pushed = lists.update(order, lists[order].push(start as u64));
        let first = none.update(order, none[order].push(start as u64));
        lemma_carve_appends(pushed, next, end);
        lemma_carve_appends(first, next, end);
        let rest = carve(none, next, end);
        assert forall|o: int| 0 <= o < BUDDY_ORDERS implies #[trigger] joined(pushed, rest)[o]
            == joined(lists, joined(first, rest))[o] by {
            assert(pushed[o] + rest[o] =~= lists[o] + (first[o] + rest[o]));
        }
        assert(joined(pushed, rest) =~= joined(lists, joined(first, rest)));
    } else {
        assert forall|o: int| 0 <= o < BUDDY_ORDERS implies #[trigger] joined(lists, none)[o]
            == lists[o] by {
            assert(lists[o] + none[o] =~= lists[o]);
        }
        assert(joined(lists, none) =~= lists);
    }
}

/// What carving lists lies in the interval, and no two of it are buddies: where
/// two would be, the block of twice the size fitted.
pub proof fn lemma_carve_coalesced(start: int, end: int)
    requires
        MIN_ADDR <= start,
        end <= u64::MAX,
        start % 4096 == 0,
        end % 4096 == 0,
    ensures
        well_formed(carve(empty_lists(), start, end)),
        within(carve(empty_lists(), start, end), start, end),
        coalesced(carve(empty_lists(), start, end)),
    decreases end - start,
{
    let none = empty_lists();
    if start + 4096 <= end {
        let order = largest_order(start, end, BUDDY_MAX_ORDER as int);
        lemma_largest_order(start, end, BUDDY_MAX_ORDER as int);
        block::lemma_block_bytes(order);
        block::lemma_block_bytes(0);
        let size = block::block_bytes(order);
        let next = start + size;
        let first = none.update(order, none[order].push(start as u64));
        lemma_carve_appends(first, next, end);
        lemma_carve_coalesced(next, end);
        let rest = carve(none, next, end);
        let all = carve(none, start, end);
        assert(all == joined(first, rest));
        assert(block::aligned(start, order));
        assert forall|o: int, i: int| 0 <= o < BUDDY_ORDERS && 0 <= i < all[o].len() implies start
            <= #[trigger] all[o][i] && all[o][i] + block::block_bytes(o) <= end && MIN_ADDR
            <= all[o][i] && block::aligned(all[o][i] as int, o) by {
            if o == order {
                if i > 0 {
                    assert(all[o][i] == rest[o][i - 1]);
                } else {
                    assert(all[o][0] == start as u64);
                }
            } else {
                assert(all[o][i] == rest[o][i]);
            }
        }
        assert forall|o: int, i: int, j: int|
            0 <= o < BUDDY_MAX_ORDER && 0 <= i < all[o].len() && 0 <= j < all[o].len()
                implies #[trigger] all[o][i] != block::buddy_of(
            #[trigger] all[o][j] as int,
            o,
        ) by {
            block::lemma_block_bytes(o);
            block::lemma_buddy(all[o][i] as int, o);
            block::lemma_buddy(all[o][j] as int, o);
            if o == order {
                if i > 0 && j > 0 {
                    assert(all[o][i] == rest[o][i - 1]);
                    assert(all[o][j] == rest[o][j - 1]);
                } else if i > 0 {
                    assert(all[o][i] == rest[o][i - 1]);
                    assert(all[o][j] == start as u64);
                    if all[o][i] == block::buddy_of(start, o) {
                        assert(block::aligned(start, o + 1));
                        assert(start + block::block_bytes(o + 1) <= end);
                    }
                } else if j > 0 {
                    assert(all[o][j] == rest[o][j - 1]);
                    assert(all[o][i] == start as u64);
                    if start == block::buddy_of(all[o][j] as int, o) {
                        assert(block::aligned(start, o + 1));
                        assert(start + block::block_bytes(o + 1) <= end);
                    }
                }
            } else {
                assert(all[o][i] == rest[o][i]);
                assert(all[o][j] == rest[o][j]);
            }
        }
    }
}

/// Lists that are coalesced stay so when what was carved from an interval that
/// touches none of their blocks is put behind them.
pub proof fn lemma_joined_coalesced(a: Seq<Seq<u64>>, b: Seq<Seq<u64>>, start: int, end: int)
    requires
        well_formed(a),
        well_formed(b),
        coalesced(a),
        coalesced(b),
        within(b, start, end),
        forall|o: int, i: int|
            0 <= o < BUDDY_ORDERS && 0 <= i < a[o].len() ==> #[trigger] a[o][i]
                + block::block_bytes(o) < start || end < a[o][i],
    ensures
        coalesced(joined(a, b)),
{
    let all = joined(a, b);
    assert forall|o: int, i: int, j: int|
        0 <= o < BUDDY_MAX_ORDER && 0 <= i < all[o].len() && 0 <= j < all[o].len()
            implies #[trigger] all[o][i] != block::buddy_of(#[trigger] all[o][j] as int, o) by {
        let n = a[o].len() as int;
        let x = if i < n {
            a[o][i]
        } else {
            b[o][i - n]
        };
        let y = if j < n {
            a[o][j]
        } else {
            b[o][j - n]
        };
        assert(all[o][i] == x && all[o][j] == y);
        block::lemma_block_bytes(o);
        block::lemma_buddy(y as int, o);
    }
}

/// Law: the smallest block that is large enough serves a request, so large blocks
/// are broken up only when nothing smaller is there. Its lowest frame leaves; of
/// every order below it, which held nothing, one block stays, together the rest of
/// it; all larger blocks are untouched.
pub proof fn law_smallest_block_serves(lists: Seq<Seq<u64>>, from: int, o: int)
    requires
        well_formed(lists),
        0 <= from < 13,
        lists[from].len() > 0,
        forall|j: int| 0 <= j < from ==> (#[trigger] lists[j]).len() == 0,
        0 <= o < 13,
    ensures
        ({
            let a = lists[from].last();
            let after = take(lists, 0).1;
            &&& take(lists, 0).0 == Some(a)
            &&& after.len() == 13
            &&& o > from ==> after[o] == lists[o]
            &&& o == from ==> after[o] == lists[o].drop_last()
            &&& o < from ==> after[o].len() == 1 && after[o][0] == a + 4096
                * vstd::arithmetic::power2::pow2(o as nat)
        }),
{
    lemma_first_stocked(lists, 0);
    assert(first_stocked(lists, 0) == from);
    let a = lists[from].last();
    assert(lists[from][lists[from].len() - 1] == a);
    if o < from {
        block::lemma_block_bytes(o);
        block::lemma_block_in_range(a as int, from);
        block::lemma_lower_order(a as int, o, from);
        assert(take(lists, 0).1[o] == seq![(a + block::block_bytes(o)) as u64]);
    }
}

/// Law: a block whose buddy is not free stays as it is; one whose buddy is free
/// leaves with it, and the two come back as one block of the next order, which
/// starts at the lower of the two.
pub proof fn law_merge_step(lists: Seq<Seq<u64>>, order: int, addr: int, buddy: int)
    requires
        well_formed(lists),
        0 <= order < 12,
        MIN_ADDR <= addr <= u64::MAX,
        addr % block::block_bytes(order) == 0,
        buddy == addr + block::block_bytes(order) || buddy == addr - block::block_bytes(order),
        (if addr < buddy {
            addr
        } else {
            buddy
        }) % (2 * block::block_bytes(order)) == 0,
    ensures
        (forall|i: int| 0 <= i < lists[order].len() ==> #[trigger] lists[order][i] != buddy)
            ==> release(lists, order, addr) == lists.update(
            order,
            lists[order].push(addr as u64),
        ),
        forall|p: int|
            0 <= p < lists[order].len() && #[trigger] lists[order][p] == buddy && (forall|i: int|
                0 <= i < p ==> lists[order][i] != buddy) ==> release(lists, order, addr) == release(
                lists.update(order, lists[order].update(p, lists[order].last()).drop_last()),
                order + 1,
                if addr < buddy {
                    addr
                } else {
                    buddy
                },
            ),
{
    block::lemma_block_bytes(order);
    block::lemma_buddy(addr, order);
    if buddy == addr - block::block_bytes(order) && block::buddy_of(addr, order) != buddy {
        block::lemma_aligned_down(buddy, order);
        assert(false);
    }
    assert(block::buddy_of(addr, order) == buddy);
    lemma_position(lists[order], buddy, 0);
    let at = position(lists[order], buddy, 0);
    assert forall|p: int|
        0 <= p < lists[order].len() && #[trigger] lists[order][p] == buddy && (forall|i: int|
            0 <= i < p ==> lists[order][i] != buddy) implies release(lists, order, addr)
        == release(
        lists.update(order, lists[order].update(p, lists[order].last()).drop_last()),
        order + 1,
        if addr < buddy {
            addr
        } else {
            buddy
        },
    ) by {
        assert(at == p);
    }
}

/// Law: how a stretch of memory is cut. From the bottom up, each time the largest
/// block that starts at a multiple of its own size and still fits; what is less than
/// a frame is left out. A block of the largest size never merges.
pub proof fn law_carving(lists: Seq<Seq<u64>>, start: int, end: int, o: int, low: int, high: int)
    requires
        0 <= o <= 12,
        start % (4096int * vstd::arithmetic::power2::pow2(o as nat)) == 0,
        start + 4096 * vstd::arithmetic::power2::pow2(o as nat) <= end,
        forall|p: int|
            o < p <= 12 ==> start % (4096int * #[trigger] vstd::arithmetic::power2::pow2(p as nat))
                != 0 || start + 4096 * vstd::arithmetic::power2::pow2(p as nat) > end,
        high < low + 4096,
    ensures
        carve(lists, start, end) == carve(
            lists.update(o, lists[o].push(start as u64)),
            start + 4096 * vstd::arithmetic::power2::pow2(o as nat),
            end,
        ),
        carve(lists, low, high) == lists,
        release(lists, 12, start) == lists.update(12, lists[12].push(start as u64)),
{
    block::lemma_block_bytes(o);
    let found = largest_order(start, end, 12);
    lemma_largest_order(start, end, 12);
    block::lemma_block_bytes(found);
    if found < o {
        assert(!(block::aligned(start, o) && start + block::block_bytes(o) <= end));
    }
    if found > o {
        assert(vstd::arithmetic::power2::pow2(found as nat) > 0);
    }
    assert(found == o);
}

} // verus!
