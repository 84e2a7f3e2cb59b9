//! Calibration of the APIC timer against the legacy timer.
//!
//! Three one-shot rounds: load the full count, wait ten ticks of the legacy
//! timer, read the count. The median of the three wins, so that a round with a
//! late edge does not set the clock.

use vstd::prelude::*;
use super::{lapic_reg, Access, ApicError, Lapic};
use super::{CCR_OFFSET, DCR_OFFSET, ICR_OFFSET};

verus! {

/// Rate of the legacy timer.
pub const PIT_HZ: u32 = 100;

/// Ticks of the legacy timer in one round.
pub const CALIB_PIT_TICKS: u32 = 10;

/// Rounds of a calibration.
pub const CALIB_ROUNDS: usize = 3;

/// Polls after which a round gives up on the legacy timer.
pub const SPIN_GUARD: u64 = 10_000_000;

/// Divide configuration: by 16.
pub const DIVIDE_BY_16: u32 = 0x3;

/// The count that a round starts from.
pub const FULL_COUNT: u32 = 0xFFFF_FFFF;

/// Timer ticks per 10 ms, if `delta` of them went by in `pit_ticks` ticks of a
/// clock of `pit_hz`. Zero where the inputs make no sense.
pub open spec fn scaled(delta: u32, pit_hz: u32, pit_ticks: u32) -> int {
    if pit_hz == 0 || pit_ticks == 0 {
        0
    } else {
        delta * pit_hz / (100 * pit_ticks)
    }
}

/// Scale the count of one round to 10 ms.
pub fn calibrate_ticks(delta: u32, pit_hz: u32, pit_ticks: u32) -> (n: u64)
    ensures
        n == scaled(delta, pit_hz, pit_ticks),
{
    if pit_hz == 0 || pit_ticks == 0 {
        return 0;
    }
    assert(0 <= delta * pit_hz <= 0xFFFF_FFFF * 0xFFFF_FFFF) by (nonlinear_arith)
        requires
            0 <= delta <= 0xFFFF_FFFF,
            0 <= pit_hz <= 0xFFFF_FFFF,
    ;
    // There are 100 windows of 10 ms in a second.
    (delta as u64) * (pit_hz as u64) / (100 * pit_ticks as u64)
}

/// `m` is the middle one of three values: it is one of them, one of the others
/// is not above it and one not below.
pub open spec fn middle(m: u32, a: u32, b: u32, c: u32) -> bool {
    ||| m == a && (b <= a <= c || c <= a <= b)
    ||| m == b && (a <= b <= c || c <= b <= a)
    ||| m == c && (a <= c <= b || b <= c <= a)
}

/// Largest of three values minus the smallest.
pub open spec fn spread_of(a: int, b: int, c: int) -> int {
    vstd::math::max(vstd::math::max(a, b), c) - vstd::math::min(vstd::math::min(a, b), c)
}

fn smaller(a: u32, b: u32) -> (r: u32)
    ensures
        r == if a <= b {
            a
        } else {
            b
        },
{
    if a <= b {
        a
    } else {
        b
    }
}

fn larger(a: u32, b: u32) -> (r: u32)
    ensures
        r == if a <= b {
            b
        } else {
            a
        },
{
    if a <= b {
        b
    } else {
        a
    }
}

/// The middle one of three counts.
pub fn median(a: u32, b: u32, c: u32) -> (m: u32)
    ensures
        middle(m, a, b, c),
{
    larger(smaller(a, b), smaller(c, larger(a, b)))
}

/// Law: three values have one middle.
pub proof fn law_one_middle(m: u32, n: u32, a: u32, b: u32, c: u32)
    requires
        middle(m, a, b, c),
        middle(n, a, b, c),
    ensures
        m == n,
{
}

/// Law: one bad round does not move the median out of the range of the other
/// two.
pub proof fn law_median_shrugs_off_an_outlier(m: u32, a: u32, b: u32, bad: u32)
    requires
        middle(m, a, b, bad),
        a <= b,
    ensures
        a <= m <= b,
{
}

/// A calibration under way.
pub struct Calibration {
    /// Address of the register window.
    pub win: u64,
    /// Counts of the rounds that are over.
    pub deltas: Vec<u32>,
    /// Tick at which the current round started.
    pub start: u64,
    /// Polls of the current round.
    pub spins: u64,
}

impl Calibration {
    pub open spec fn well_formed(&self) -> bool {
        &&& self.win + 0xFFF <= u64::MAX
        &&& self.deltas@.len() <= CALIB_ROUNDS
        &&& self.spins <= SPIN_GUARD
        &&& forall|i: int| 0 <= i < self.deltas@.len() ==> #[trigger] self.deltas@[i] != 0
    }

    /// Begin a calibration. The access to be made first sets the divider.
    pub fn new(lapic: &Lapic) -> (r: Result<(Calibration, Access), ApicError>)
        requires
            lapic.well_formed(),
        ensures
            match r {
                Ok((c, a)) => {
                    &&& lapic.virt != 0
                    &&& c.well_formed()
                    &&& c.win == lapic.virt
                    &&& c.deltas@.len() == 0
                    &&& a == (Access::Write {
                        addr: (lapic.virt + DCR_OFFSET) as u64,
                        value: DIVIDE_BY_16,
                    })
                },
                Err(e) => lapic.virt == 0 && e == ApicError::CalibrateBeforeInit,
            },
    {
        let win: u64 = lapic.virt;
        if win == 0 {
            return Err(ApicError::CalibrateBeforeInit);
        }
        let addr: u64 = lapic_reg(win, DCR_OFFSET)?;
        Ok(
            (
                Calibration { win, deltas: Vec::new(), start: 0, spins: 0 },
                Access::Write { addr, value: DIVIDE_BY_16 },
            ),
        )
    }

    /// Whether all rounds are over.
    pub fn is_complete(&self) -> (done: bool)
        requires
            self.well_formed(),
        ensures
            done == (self.deltas@.len() == CALIB_ROUNDS),
    {
        self.deltas.len() == CALIB_ROUNDS
    }

    /// The access that starts a round: the full count.
    pub fn load_count(&self) -> (r: Result<Access, ApicError>)
        requires
            self.well_formed(),
        ensures
            r == Ok::<Access, ApicError>(
                Access::Write { addr: (self.win + ICR_OFFSET) as u64, value: FULL_COUNT },
            ),
    {
        let addr: u64 = lapic_reg(self.win, ICR_OFFSET)?;
        Ok(Access::Write { addr, value: FULL_COUNT })
    }

    /// The round starts at tick `ticks` of the legacy timer.
    pub fn begin_round(&mut self, ticks: u64)
        requires
            old(self).well_formed(),
        ensures
            final(self).well_formed(),
            *final(self) == (Calibration { start: ticks, spins: 0, ..*old(self) }),
    {
        self.start = ticks;
        self.spins = 0;
    }

    /// The legacy timer stands at `ticks`: is the round over? A round that is
    /// polled too often gives up.
    pub fn poll(&mut self, ticks: u64) -> (r: Result<bool, ApicError>)
        requires
            old(self).well_formed(),
        ensures
            match r {
                Ok(true) => {
                    &&& ticks.wrapping_sub(old(self).start) >= CALIB_PIT_TICKS
                    &&& *final(self) == *old(self)
                },
                Ok(false) => {
                    &&& ticks.wrapping_sub(old(self).start) < CALIB_PIT_TICKS
                    &&& old(self).spins < SPIN_GUARD
                    &&& final(self).well_formed()
                    &&& *final(self) == (Calibration {
                        spins: (old(self).spins + 1) as u64,
                        ..*old(self)
                    })
                },
                Err(e) => {
                    &&& ticks.wrapping_sub(old(self).start) < CALIB_PIT_TICKS
                    &&& old(self).spins == SPIN_GUARD
                    &&& e == ApicError::PitSilent
                    &&& *final(self) == (Calibration {
                        spins: (SPIN_GUARD + 1) as u64,
                        ..*old(self)
                    })
                },
            },
    {
        if ticks.wrapping_sub(self.start) >= CALIB_PIT_TICKS as u64 {
            return Ok(true);
        }
        self.spins = self.spins + 1;
        if self.spins > SPIN_GUARD {
            return Err(ApicError::PitSilent);
        }
        Ok(false)
    }

    /// The access that ends a round: the current count.
    pub fn read_count(&self) -> (r: Result<Access, ApicError>)
        requires
            self.well_formed(),
        ensures
            r == Ok::<Access, ApicError>(Access::Read { addr: (self.win + CCR_OFFSET) as u64 }),
    {
        let addr: u64 = lapic_reg(self.win, CCR_OFFSET)?;
        Ok(Access::Read { addr })
    }

    /// The round ends with the counter at `count`. A counter that did not move
    /// means that the writes were lost.
    pub fn end_round(&mut self, count: u32) -> (r: Result<(), ApicError>)
        requires
            old(self).well_formed(),
            old(self).deltas@.len() < CALIB_ROUNDS,
        ensures
            match r {
                Ok(_) => {
                    &&& count != FULL_COUNT
                    &&& final(self).well_formed()
                    &&& final(self).deltas@ == old(self).deltas@.push((FULL_COUNT - count) as u32)
                    &&& final(self).win == old(self).win
                    &&& final(self).start == old(self).start
                    &&& final(self).spins == old(self).spins
                },
                Err(e) => {
                    &&& count == FULL_COUNT
                    &&& e == ApicError::CountStuck
                    &&& *final(self) == *old(self)
                },
            },
    {
        let delta: u32 = FULL_COUNT.wrapping_sub(count);
        if delta == 0 {
            return Err(ApicError::CountStuck);
        }
        self.deltas.push(delta);
        Ok(())
    }
}

proof fn lemma_round_scale(delta: u32)
    ensures
        scaled(delta, PIT_HZ, CALIB_PIT_TICKS) == delta as int / 10,
{
    assert(delta * PIT_HZ == delta * 100);
    assert(100 * CALIB_PIT_TICKS == 1000);
}

/// What a calibration found.
#[derive(Debug, Clone, Copy, PartialEq, Eq, Structural)]
pub struct Rate {
    pub median: u32,
    /// Largest count minus smallest.
    pub spread: u32,
    pub per_10ms: u64,
}

/// Settle a calibration: the median count, scaled to 10 ms, becomes the rate. A
/// rate of zero is refused.
pub fn calibrate(lapic: &mut Lapic, rounds: &Calibration) -> (r: Result<Rate, ApicError>)
    requires
        rounds.well_formed(),
        rounds.deltas@.len() == CALIB_ROUNDS,
    ensures
        r is Err <==> ({
            let (a, b, c) = (rounds.deltas@[0], rounds.deltas@[1], rounds.deltas@[2]);
            (a < 10 && b < 10) || (b < 10 && c < 10) || (a < 10 && c < 10)
        }),
        match r {
            Ok(rate) => {
                let (a, b, c) = (rounds.deltas@[0], rounds.deltas@[1], rounds.deltas@[2]);
                &&& middle(rate.median, a, b, c)
                &&& rate.per_10ms == scaled(rate.median, PIT_HZ, CALIB_PIT_TICKS)
                &&& 0 < rate.per_10ms <= u32::MAX
                &&& *final(lapic) == (Lapic { ticks_per_10ms: rate.per_10ms, ..*old(lapic) })
                &&& rate.spread == spread_of(a as int, b as int, c as int)
            },
            Err(e) => {
                &&& e == ApicError::ZeroRate
                &&& *final(lapic) == *old(lapic)
                &&& forall|m: u32| #[trigger]
                    middle(m, rounds.deltas@[0], rounds.deltas@[1], rounds.deltas@[2]) ==> scaled(
                        m,
                        PIT_HZ,
                        CALIB_PIT_TICKS,
                    ) == 0
            },
        },
{
    let a: u32 = rounds.deltas[0];
    let b: u32 = rounds.deltas[1];
    let c: u32 = rounds.deltas[2];
    let m: u32 = median(a, b, c);
    let spread: u32 = larger(larger(a, b), c) - smaller(smaller(a, b), c);
    let per_10ms: u64 = calibrate_ticks(m, PIT_HZ, CALIB_PIT_TICKS);
    proof {
        lemma_round_scale(m);
    }
    if per_10ms == 0 {
        return Err(ApicError::ZeroRate);
    }
    lapic.ticks_per_10ms = per_10ms;
    Ok(Rate { median: m, spread, per_10ms })
}

/// Law: whoever maps the window and calibrates may start the timer and promote
/// it: the rate of a settled calibration is never zero and fits the counter.
pub proof fn law_calibrated_timer_is_ready(lapic: Lapic, median: u32)
    requires
        lapic.virt != 0,
        scaled(median, PIT_HZ, CALIB_PIT_TICKS) != 0,
    ensures
        (Lapic { ticks_per_10ms: scaled(median, PIT_HZ, CALIB_PIT_TICKS) as u64, ..lapic }).ready(),
{
    lemma_round_scale(median);
}

/// Law: what the rate means. Of `delta` counts that went by in `pit_ticks` ticks of
/// a clock of `pit_hz`, the rate is as many as fit into 10 ms, a hundredth of a
/// second, rounded down. At a hundred ticks a second it is the share of one tick.
/// Inputs that make no sense give no rate.
pub proof fn law_rate(delta: u32, pit_hz: u32, pit_ticks: u32, n: u64)
    requires
        call_ensures(calibrate_ticks, (delta, pit_hz, pit_ticks), n),
    ensures
        pit_hz == 0 || pit_ticks == 0 ==> n == 0,
        pit_hz != 0 && pit_ticks != 0 ==> {
            &&& n * pit_ticks * 100 <= delta * pit_hz
            &&& delta * pit_hz < (n + 1) * pit_ticks * 100
        },
        pit_hz == 100 && pit_ticks != 0 ==> n == delta as int / pit_ticks as int,
{
    if pit_hz != 0 && pit_ticks != 0 {
        let d = 100 * pit_ticks as int;
        let x = delta as int * pit_hz as int;
        vstd::arithmetic::div_mod::lemma_fundamental_div_mod(x, d);
        vstd::arithmetic::div_mod::lemma_mod_bound(x, d);
        let q = x / d;
        let r = x % d;
        let t = pit_ticks as int;
        assert(q * t * 100 <= x && x < (q + 1) * t * 100) by (nonlinear_arith)
            requires
                x == d * q + r,
                0 <= r < d,
                d == 100 * t,
        ;
        if pit_hz == 100 {
            let e = delta as int;
            assert(q * t <= e && e < q * t + t) by (nonlinear_arith)
                requires
                    q * t * 100 <= e * 100,
                    e * 100 < (q + 1) * t * 100,
            ;
            vstd::arithmetic::div_mod::lemma_fundamental_div_mod_converse(e, t, q, e - q * t);
        }
    }
}

/// Law: the median is the one between the two others, whichever way round they
/// come.
pub proof fn law_median(a: u32, b: u32, c: u32, m: u32, n: u32)
    requires
        call_ensures(median, (a, b, c), m),
        call_ensures(median, (c, a, b), n),
    ensures
        m == n,
        m == a || m == b || m == c,
        a <= b <= c ==> m == b,
        c <= b <= a ==> m == b,
        b <= a <= c ==> m == a,
        c <= a <= b ==> m == a,
        a <= c <= b ==> m == c,
        b <= c <= a ==> m == c,
{
}

/// Law: the registers of a calibration. It divides by sixteen, and each round
/// loads the full count and reads the count that is left, each register at its
/// place in the window.
pub proof fn law_calibration_registers(
    lapic: Lapic,
    started: Result<(Calibration, Access), ApicError>,
    c: Calibration,
    load: Result<Access, ApicError>,
    read: Result<Access, ApicError>,
)
    requires
        lapic.well_formed(),
        call_ensures(Calibration::new, (&lapic,), started),
        c.well_formed(),
        call_ensures(Calibration::load_count, (&c,), load),
        call_ensures(Calibration::read_count, (&c,), read),
    ensures
        started is Ok <==> lapic.virt != 0,
        started matches Ok((fresh, divide)) ==> {
            &&& divide == (Access::Write { addr: (lapic.virt + 0x3E0) as u64, value: 0b0011 })
            &&& fresh.win == lapic.virt
            &&& fresh.deltas@.len() == 0
        },
        started matches Err(e) ==> e == ApicError::CalibrateBeforeInit,
        load == Ok::<Access, ApicError>(
            Access::Write { addr: (c.win + 0x380) as u64, value: u32::MAX },
        ),
        read == Ok::<Access, ApicError>(Access::Read { addr: (c.win + 0x390) as u64 }),
{
}

/// Law: a round lasts ten ticks of the legacy timer from its start, and gives up
/// on a timer that has not made them after ten million polls.
pub proof fn law_round_lasts_ten_ticks(
    begun: &mut Calibration,
    start: u64,
    polled: &mut Calibration,
    passed: u64,
    ticks: u64,
    r: Result<bool, ApicError>,
)
    requires
        old(begun).well_formed(),
        call_ensures(Calibration::begin_round, (begun, start), ()),
        old(polled).well_formed(),
        old(polled).start == start,
        ticks == start + passed,
        call_ensures(Calibration::poll, (polled, ticks), r),
    ensures
        final(begun).start == start,
        final(begun).spins == 0,
        final(begun).deltas == old(begun).deltas,
        final(begun).win == old(begun).win,
        r == Ok::<bool, ApicError>(true) <==> passed >= 10,
        r == Ok::<bool, ApicError>(false) <==> passed < 10 && old(polled).spins < 10_000_000,
        r == Err::<bool, ApicError>(ApicError::PitSilent) <==> passed < 10 && old(polled).spins
            == 10_000_000,
        passed < 10 ==> final(polled).spins == old(polled).spins + 1,
        final(polled).deltas == old(polled).deltas,
        final(polled).start == start,
{
}

/// Law: a round measures how far the counter ran down from the full count; one
/// that did not run is an error. Three measurements make a calibration.
pub proof fn law_round_measures(
    c: &mut Calibration,
    count: u32,
    r: Result<(), ApicError>,
    done: bool,
)
    requires
        old(c).well_formed(),
        old(c).deltas@.len() < 3,
        call_ensures(Calibration::end_round, (c, count), r),
        call_ensures(Calibration::is_complete, (&*final(c),), done),
    ensures
        r is Ok <==> count != 0xFFFF_FFFF,
        r is Ok ==> {
            &&& final(c).deltas@.len() == old(c).deltas@.len() + 1
            &&& final(c).deltas@.last() + count == 0xFFFF_FFFF
            &&& final(c).deltas@.drop_last() == old(c).deltas@
            &&& done <==> old(c).deltas@.len() == 2
        },
        r matches Err(e) ==> e == ApicError::CountStuck && final(c).deltas == old(c).deltas,
{
}

/// Law: what a calibration settles. Of three rounds the middle one sets the rate, a
/// tenth of it, since a round is ten windows of 10 ms long; the spread is the
/// largest difference between two rounds. A rate of zero is refused and nothing is
/// stored.
pub proof fn law_calibration_settles(
    lapic: &mut Lapic,
    rounds: Calibration,
    r: Result<Rate, ApicError>,
)
    requires
        rounds.well_formed(),
        rounds.deltas@.len() == 3,
        call_ensures(calibrate, (lapic, &rounds), r),
    ensures
        ({
            let (a, b, c) = (rounds.deltas@[0], rounds.deltas@[1], rounds.deltas@[2]);
            &&& r matches Ok(rate) ==> {
                &&& rate.median == a || rate.median == b || rate.median == c
                &&& a <= b <= c ==> rate.median == b && rate.spread == c - a
                &&& c <= b <= a ==> rate.median == b && rate.spread == a - c
                &&& b <= a <= c ==> rate.median == a && rate.spread == c - b
                &&& c <= a <= b ==> rate.median == a && rate.spread == b - c
                &&& a <= c <= b ==> rate.median == c && rate.spread == b - a
                &&& b <= c <= a ==> rate.median == c && rate.spread == a - b
                &&& rate.per_10ms == rate.median as int / 10
                &&& rate.per_10ms > 0
                &&& final(lapic).ticks_per_10ms == rate.per_10ms
                &&& final(lapic).virt == old(lapic).virt
            }
            &&& r matches Err(e) ==> {
                &&& e == ApicError::ZeroRate
                &&& *final(lapic) == *old(lapic)
                &&& (a < 10 && b < 10) || (b < 10 && c < 10) || (a < 10 && c < 10)
            }
            &&& r is Err <==> (a < 10 && b < 10) || (b < 10 && c < 10) || (a < 10 && c < 10)
        }),
{
    if let Ok(rate) = r {
        lemma_round_scale(rate.median);
    }
}

} // verus!
