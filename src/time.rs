//! Game clock management.
//!
//! Time spans are counted in hundredths of a second.

use vstd::arithmetic::div_mod::lemma_add_mod_noop;
use vstd::prelude::*;

verus! {

/// The number of hundredths of a second between two simulation steps.
pub const SIMULATION_PERIOD_UNITS: u32 = 100;

/// The interval between simulation frames.
pub fn simulation_period() -> (r: Time)
    ensures
        r.0 == SIMULATION_PERIOD_UNITS,
{
    Time(SIMULATION_PERIOD_UNITS)
}

/// Synchronized time span, in hundredths of a second.
#[derive(Debug, Clone, Copy, PartialEq, Eq, Structural, PartialOrd, Ord, Hash)]
pub struct Time(pub u32);

impl Time {
    /// The number of hundredths of a second in this span.
    pub fn value(self) -> (r: u32)
        ensures
            r == self.0,
    {
        self.0
    }

    /// An empty interval.
    pub fn zero() -> (r: Self)
        ensures
            r.0 == 0,
    {
        Time(0)
    }

    /// Returns the integer quotient of the two time spans.
    pub fn int_div(self, other: Self) -> (r: u32)
        requires
            other.0 != 0,
        ensures
            r == self.0 / other.0,
    {
        self.0 / other.0
    }
}

impl Default for Time {
    fn default() -> (r: Self)
        ensures
            r.0 == 0,
    {
        Time(0)
    }
}

impl std::ops::Add<Time> for Time {
    type Output = Time;

    fn add(self, other: Time) -> Time {
        Time(self.0 + other.0)
    }
}

impl vstd::std_specs::ops::AddSpecImpl<Time> for Time {
    open spec fn obeys_add_spec() -> bool {
        true
    }

    open spec fn add_req(self, other: Time) -> bool {
        self.0 + other.0 <= u32::MAX
    }

    open spec fn add_spec(self, other: Time) -> Time {
        Time((self.0 + other.0) as u32)
    }
}

impl std::ops::Sub<Time> for Time {
    type Output = Time;

    fn sub(self, other: Time) -> Time {
        Time(self.0 - other.0)
    }
}

impl vstd::std_specs::ops::SubSpecImpl<Time> for Time {
    open spec fn obeys_sub_spec() -> bool {
        true
    }

    open spec fn sub_req(self, other: Time) -> bool {
        self.0 >= other.0
    }

    open spec fn sub_spec(self, other: Time) -> Time {
        Time((self.0 - other.0) as u32)
    }
}

impl std::ops::Rem<Time> for Time {
    type Output = Time;

    fn rem(self, other: Time) -> Time {
        Time(self.0 % other.0)
    }
}

impl vstd::std_specs::ops::RemSpecImpl<Time> for Time {
    open spec fn obeys_rem_spec() -> bool {
        true
    }

    open spec fn rem_req(self, other: Time) -> bool {
        other.0 != 0
    }

    open spec fn rem_spec(self, other: Time) -> Time {
        Time((self.0 % other.0) as u32)
    }
}

/// A specific point of time, represented as a duration since game epoch.
#[derive(Debug, Clone, Copy, PartialEq, Eq, Structural, PartialOrd, Ord, Hash)]
pub struct Instant(pub Time);

impl Instant {
    /// The game epoch.
    pub fn epoch() -> (r: Self)
        ensures
            r.0.0 == 0,
    {
        Instant(Time(0))
    }

    /// Returns the time since epoch.
    pub fn since_epoch(self) -> (r: Time)
        ensures
            r == self.0,
    {
        self.0
    }
}

impl Default for Instant {
    fn default() -> (r: Self)
        ensures
            r.0.0 == 0,
    {
        Instant(Time(0))
    }
}

impl std::ops::Add<Time> for Instant {
    type Output = Instant;

    fn add(self, other: Time) -> Instant {
        Instant(self.0 + other)
    }
}

impl vstd::std_specs::ops::AddSpecImpl<Time> for Instant {
    open spec fn obeys_add_spec() -> bool {
        true
    }

    open spec fn add_req(self, other: Time) -> bool {
        self.0.0 + other.0 <= u32::MAX
    }

    open spec fn add_spec(self, other: Time) -> Instant {
        Instant(Time((self.0.0 + other.0) as u32))
    }
}

impl std::ops::Sub<Time> for Instant {
    type Output = Instant;

    fn sub(self, other: Time) -> Instant {
        Instant(self.0 - other)
    }
}

impl vstd::std_specs::ops::SubSpecImpl<Time> for Instant {
    open spec fn obeys_sub_spec() -> bool {
        true
    }

    open spec fn sub_req(self, other: Time) -> bool {
        self.0.0 >= other.0
    }

    open spec fn sub_spec(self, other: Time) -> Instant {
        Instant(Time((self.0.0 - other.0) as u32))
    }
}

impl std::ops::Sub<Instant> for Instant {
    type Output = Time;

    fn sub(self, other: Instant) -> Time {
        self.0 - other.0
    }
}

impl vstd::std_specs::ops::SubSpecImpl<Instant> for Instant {
    open spec fn obeys_sub_spec() -> bool {
        true
    }

    open spec fn sub_req(self, other: Instant) -> bool {
        self.0.0 >= other.0.0
    }

    open spec fn sub_spec(self, other: Instant) -> Time {
        Time((self.0.0 - other.0.0) as u32)
    }
}

/// The clock value `now + delta`, wrapped to the width of a time span.
pub open spec fn wrapped_sum(now: u32, delta: u32) -> u32 {
    ((now + delta) % 0x1_0000_0000) as u32
}

/// `next` is a clock that one advancement reached from `prev`: the new
/// instant is the previous one moved by the recorded delta.
pub open spec fn clock_step(prev: ClockState, next: ClockState) -> bool {
    next.now.0.0 == wrapped_sum(prev.now.0.0, next.delta.0)
}

/// The clock after `inc_time(t)` on `c`.
pub open spec fn advanced(c: ClockState, t: Time) -> ClockState {
    ClockState { now: Instant(Time((c.now.0.0 + t.0) as u32)), delta: t }
}

/// What a clock reads: the current instant and the time since the last frame.
pub struct ClockState {
    /// The current time.
    pub now: Instant,
    /// Time since the last frame.
    pub delta: Time,
}

/// A resource for time read/write.
#[derive(Debug)]
pub struct Clock {
    now: Instant,
    delta: Time,
}

impl View for Clock {
    type V = ClockState;

    closed spec fn view(&self) -> ClockState {
        ClockState { now: self.now, delta: self.delta }
    }
}

impl Clock {
    /// A clock at the epoch that has not advanced yet.
    pub fn new() -> (r: Self)
        ensures
            r@.now.0.0 == 0,
            r@.delta.0 == 0,
    {
        Clock { now: Instant(Time(0)), delta: Time(0) }
    }

    /// The current time.
    pub fn now(&self) -> (r: Instant)
        ensures
            r == self@.now,
    {
        self.now
    }

    /// Time since the last frame.
    pub fn delta(&self) -> (r: Time)
        ensures
            r == self@.delta,
    {
        self.delta
    }

    /// Increases the time for the specified span.
    pub fn inc_time(&mut self, time: Time)
        requires
            old(self)@.now.0.0 + time.0 <= u32::MAX,
        ensures
            final(self)@.now.0.0 == old(self)@.now.0.0 + time.0,
            final(self)@.delta == time,
            final(self)@ == advanced(old(self)@, time),
            clock_step(old(self)@, final(self)@),
    {
        self.now = self.now + time;
        self.delta = time;
    }

    /// Sets the time to the specified instant.
    ///
    /// When `now` lies before the current instant the recorded delta is the
    /// regression wrapped to the width of a time span.
    pub fn set_time(&mut self, now: Instant)
        ensures
            final(self)@.now == now,
            old(self)@.now.0.0 <= now.0.0 ==> final(self)@.delta.0 == now.0.0 - old(self)@.now.0.0,
            now.0.0 < old(self)@.now.0.0 ==> final(self)@.delta.0 == 0x1_0000_0000 + now.0.0
                - old(self)@.now.0.0,
            clock_step(old(self)@, final(self)@),
    {
        self.delta = Time(now.0.0.wrapping_sub(self.now.0.0));
        self.now = now;
    }
}

impl Default for Clock {
    fn default() -> (r: Self)
        ensures
            r@.now.0.0 == 0,
            r@.delta.0 == 0,
    {
        Clock::new()
    }
}

/// The rate of change: the inner value is the amount of change over one second.
#[derive(Debug, Clone, Copy)]
pub struct Rate<T>(pub T);

/// Subscribe to this event to execute updates once per simulation step.
#[derive(Debug, Clone, Copy, PartialEq, Eq, Structural)]
pub struct SimulationEvent;

/// The index of the simulation step that an instant falls in.
pub open spec fn step_index(t: Instant) -> int {
    (t.0.0 / SIMULATION_PERIOD_UNITS) as int
}

/// Whether a simulation step begins when the clock reads `now` and the last
/// step began at `last`.
pub open spec fn sim_fires(last: Instant, now: Instant) -> bool {
    step_index(now) != step_index(last)
}

/// Decides whether a simulation step event is due.
///
/// Returns `true` exactly when the clock's instant lies in another
/// simulation period than `last_sim_time`; in that case `last_sim_time`
/// becomes the clock's instant, otherwise it is kept.
pub fn sim_trigger(clock: &Clock, last_sim_time: &mut Instant) -> (fired: bool)
    ensures
        fired == sim_fires(*old(last_sim_time), clock@.now),
        *final(last_sim_time) == if fired { clock@.now } else { *old(last_sim_time) },
{
    let now = clock.now().since_epoch().int_div(simulation_period());
    let last = last_sim_time.since_epoch().int_div(simulation_period());
    if now != last {
        *last_sim_time = clock.now();
        true
    } else {
        false
    }
}

/// The number of distinct values of a time span.
pub open spec fn span_modulus() -> int {
    0x1_0000_0000
}

/// The sum of the deltas that a sequence of clock states recorded.
pub open spec fn sum_deltas(steps: Seq<ClockState>) -> int
    decreases steps.len(),
{
    if steps.len() == 0 {
        0
    } else {
        sum_deltas(steps.drop_last()) + steps.last().delta.0
    }
}

/// The instant of the last clock state of `steps`, or of `start` when there is none.
pub open spec fn final_now(start: ClockState, steps: Seq<ClockState>) -> int {
    if steps.len() == 0 {
        start.now.0.0 as int
    } else {
        steps.last().now.0.0 as int
    }
}

/// The clock state before the `i`-th state of `steps`.
pub open spec fn state_before(start: ClockState, steps: Seq<ClockState>, i: int) -> ClockState {
    if i == 0 {
        start
    } else {
        steps[i - 1]
    }
}

/// `steps` is a sequence of clock states that successive `inc_time` or
/// `set_time` calls produced from `start`.
pub open spec fn valid_clock_run(start: ClockState, steps: Seq<ClockState>) -> bool {
    forall|i: int|
        0 <= i < steps.len() ==> #[trigger] clock_step(state_before(start, steps, i), steps[i])
}

/// After any sequence of `inc_time` and `set_time` calls, the time since
/// epoch equals the starting instant plus the sum of all recorded deltas,
/// taken modulo the width of a time span; when that sum does not leave the
/// range of a span, the equality is exact.
pub proof fn lemma_clock_run_sums_deltas(start: ClockState, steps: Seq<ClockState>)
    requires
        valid_clock_run(start, steps),
    ensures
        final_now(start, steps) == (start.now.0.0 + sum_deltas(steps)) % span_modulus(),
        start.now.0.0 + sum_deltas(steps) <= u32::MAX ==> final_now(start, steps)
            == start.now.0.0 + sum_deltas(steps),
    decreases steps.len(),
{
    if steps.len() > 0 {
        let prefix = steps.drop_last();
        assert forall|i: int| 0 <= i < prefix.len() implies #[trigger] clock_step(
            state_before(start, prefix, i),
            prefix[i],
        ) by {
            assert(clock_step(state_before(start, steps, i), steps[i]));
        }
        lemma_clock_run_sums_deltas(start, prefix);
        let last = steps.len() - 1;
        assert(clock_step(state_before(start, steps, last), steps[last]));
        let a = start.now.0.0 + sum_deltas(prefix);
        let d = steps.last().delta.0 as int;
        lemma_add_mod_noop(a, d, span_modulus());
        lemma_small_mod_is_id(d);
        assert(final_now(start, prefix) == a % span_modulus());
        assert(sum_deltas(steps) == sum_deltas(prefix) + d);
    } else {
        lemma_small_mod_is_id(start.now.0.0 as int);
    }
    if start.now.0.0 + sum_deltas(steps) <= u32::MAX {
        lemma_nonneg_sum(steps);
        lemma_small_mod_is_id(start.now.0.0 + sum_deltas(steps));
    }
}

proof fn lemma_small_mod_is_id(x: int)
    requires
        0 <= x < span_modulus(),
    ensures
        x % span_modulus() == x,
{
}

proof fn lemma_nonneg_sum(steps: Seq<ClockState>)
    ensures
        sum_deltas(steps) >= 0,
    decreases steps.len(),
{
    if steps.len() > 0 {
        lemma_nonneg_sum(steps.drop_last());
    }
}

/// The clock after `inc_time` was called on `start` with each of `spans`
/// in turn.
pub open spec fn advance_all(start: ClockState, spans: Seq<Time>) -> ClockState
    decreases spans.len(),
{
    if spans.len() == 0 {
        start
    } else {
        advanced(advance_all(start, spans.drop_last()), spans.last())
    }
}

/// The sum of a sequence of spans.
pub open spec fn sum_spans(spans: Seq<Time>) -> int
    decreases spans.len(),
{
    if spans.len() == 0 {
        0
    } else {
        sum_spans(spans.drop_last()) + spans.last().0
    }
}

/// After a chain of `inc_time` calls whose spans sum to no more than the
/// largest instant, the time since epoch is the starting instant plus the
/// sum of the spans (so the order of the spans does not matter), and the
/// delta is the last span.
pub proof fn lemma_advance_sums_spans(start: ClockState, spans: Seq<Time>)
    requires
        start.now.0.0 + sum_spans(spans) <= u32::MAX,
    ensures
        advance_all(start, spans).now.0.0 == start.now.0.0 + sum_spans(spans),
        spans.len() > 0 ==> advance_all(start, spans).delta == spans.last(),
    decreases spans.len(),
{
    if spans.len() > 0 {
        let prefix = spans.drop_last();
        assert(sum_spans(spans) == sum_spans(prefix) + spans.last().0);
        lemma_advance_sums_spans(start, prefix);
    }
}

/// Moving an instant forward by a span and then measuring the distance back
/// to the starting instant gives that span: `(a + d) - a == d`.
pub proof fn lemma_instant_round_trip(a: Instant, d: Time)
    requires
        a.0.0 + d.0 <= u32::MAX,
    ensures
        <Instant as vstd::std_specs::ops::SubSpec<Instant>>::sub_spec(
            <Instant as vstd::std_specs::ops::AddSpec<Time>>::add_spec(a, d),
            a,
        ) == d,
{
}

/// Tick-boundary detection within one period: when the last step began at
/// a multiple of the period, no clock reading before the next multiple
/// starts a step.
pub proof fn lemma_no_step_within_period(last: Instant, now: Instant)
    requires
        last.0.0 % SIMULATION_PERIOD_UNITS == 0,
        last.0.0 <= now.0.0 < last.0.0 + SIMULATION_PERIOD_UNITS,
    ensures
        !sim_fires(last, now),
{
}

/// Tick-boundary detection across boundaries: a clock reading past one or
/// more multiples of the period starts exactly one step, however many
/// boundaries the advancement crossed, and a second check at the same
/// reading starts none.
pub proof fn lemma_one_step_per_crossing(last: Instant, now: Instant, boundary: int)
    requires
        boundary % (SIMULATION_PERIOD_UNITS as int) == 0,
        last.0.0 < boundary <= now.0.0,
    ensures
        sim_fires(last, now),
        !sim_fires(now, now),
{
    assert(step_index(last) < boundary / (SIMULATION_PERIOD_UNITS as int));
    assert(boundary / (SIMULATION_PERIOD_UNITS as int) <= step_index(now));
}

} // verus!
