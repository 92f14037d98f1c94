//! Suspension bookkeeping: wraparound-safe time arithmetic on a
//! free-running 32-bit counter, the choice between busy-polling and arming
//! a hardware alarm, the single-slot waker channel that hands a suspended
//! task from the interrupt handler back to the scheduler, and a simulated
//! timer line that ties them together.
//!
//! The host's interrupt handler body is exactly: disarm the trigger, take
//! the slot, resume what was taken. Everything it decides is modelled
//! here; only the suspension itself lives outside.

use vstd::prelude::*;

verus! {

/// Below this many microseconds, busy-polling the counter is cheaper than
/// arming the hardware alarm.
pub const SHORT_WAIT_LIMIT: u32 = 20;

/// The counter's modulus: it wraps every 2^32 microseconds.
pub open spec fn counter_modulus() -> int {
    0x1_0000_0000
}

/// Wrap-safe elapsed time from `start` to `now`.
pub open spec fn spec_elapsed(now: u32, start: u32) -> u32 {
    (((now as int) - (start as int)) % counter_modulus()) as u32
}

/// Wrap-safe counter addition.
pub open spec fn wrap_add(a: u32, b: u32) -> u32 {
    (((a as int) + (b as int)) % counter_modulus()) as u32
}

/// Runtime wrap-safe elapsed time: subtraction, never an absolute
/// comparison, so a wrapped counter still measures correctly.
pub fn wrapping_elapsed(now: u32, start: u32) -> (r: u32)
    ensures
        r == spec_elapsed(now, start),
{
    if now >= start {
        now - start
    } else {
        (0xFFFF_FFFFu32 - start) + now + 1
    }
}

/// Runtime wrap-safe counter addition.
pub fn wrapping_add_u32(a: u32, b: u32) -> (r: u32)
    ensures
        r == wrap_add(a, b),
{
    if b <= 0xFFFF_FFFFu32 - a {
        a + b
    } else {
        b - (0xFFFF_FFFFu32 - a) - 1
    }
}

/// How a wait of the given length suspends.
#[derive(Clone, Copy, PartialEq, Eq, Debug, Structural)]
pub enum WaitPlan {
    /// Spin on the counter: shorter than the cost of arming the alarm.
    BusyPoll,
    /// Arm the one-shot hardware alarm and suspend until its interrupt.
    HardwareAlarm,
}

/// The plan for a delay: busy-poll strictly below the threshold.
pub open spec fn spec_plan(delay: u32) -> WaitPlan {
    if delay < SHORT_WAIT_LIMIT {
        WaitPlan::BusyPoll
    } else {
        WaitPlan::HardwareAlarm
    }
}

/// Decide how a wait of `delay` microseconds suspends.
pub fn plan_wait(delay: u32) -> (r: WaitPlan)
    ensures
        r == spec_plan(delay),
{
    if delay < SHORT_WAIT_LIMIT {
        WaitPlan::BusyPoll
    } else {
        WaitPlan::HardwareAlarm
    }
}

/// A busy-poll wait: the counter value at the start and the length.
pub struct BusyWait {
    start: u32,
    delay: u32,
}

impl BusyWait {
    /// The counter value when the wait began.
    pub closed spec fn spec_start(&self) -> u32 {
        self.start
    }

    /// The length of the wait.
    pub closed spec fn spec_delay(&self) -> u32 {
        self.delay
    }

    /// Begin a busy-poll wait at the given counter value.
    pub fn begin(now: u32, delay: u32) -> (r: Self)
        ensures
            r.spec_start() == now,
            r.spec_delay() == delay,
    {
        BusyWait { start: now, delay }
    }

    /// One poll: done exactly when the wrap-safe elapsed time has reached
    /// the delay.
    pub fn poll(&self, now: u32) -> (done: bool)
        ensures
            done == (spec_elapsed(now, self.spec_start()) >= self.spec_delay()),
    {
        wrapping_elapsed(now, self.start) >= self.delay
    }
}

/// The single-slot waker channel of one alarm line: holds at most one
/// pending resumption handle by construction. Registering overwrites any
/// previous registration; taking empties the slot, so a handle is resumed
/// at most once.
pub struct AlarmSlot<W> {
    pending: Option<W>,
}

impl<W> AlarmSlot<W> {
    /// The registered handle, if a wait is pending.
    pub closed spec fn spec_pending(&self) -> Option<W> {
        self.pending
    }

    /// Whether a wait is pending.
    pub open spec fn has_pending(&self) -> bool {
        self.spec_pending() is Some
    }

    /// An empty slot.
    pub fn new() -> (r: Self)
        ensures
            !r.has_pending(),
    {
        AlarmSlot { pending: None }
    }

    /// Register a resumption handle, deterministically overwriting any
    /// previous one: the call sites guarantee the previous waiter was
    /// already resumed or abandoned.
    pub fn register(&mut self, waker: W)
        ensures
            final(self).spec_pending() == Some(waker),
    {
        self.pending = Some(waker);
    }

    /// Take the pending handle, emptying the slot: what the servicing
    /// interrupt handler does, so each handle is handed out at most once.
    pub fn take(&mut self) -> (r: Option<W>)
        ensures
            r == old(self).spec_pending(),
            !final(self).has_pending(),
    {
        self.pending.take()
    }
}

/// What one poll of an alarm-backed wait must do next.
#[derive(Clone, Copy, PartialEq, Eq, Debug, Structural)]
pub enum AlarmPollAction {
    /// First poll: clear and enable the alarm interrupt, schedule the
    /// alarm for the wait's delay, register the waker, and suspend.
    ArmAndSuspend,
    /// The alarm has fired: the wait is over.
    Complete,
    /// Woken before the alarm fired: register the waker again and
    /// suspend.
    Suspend,
}

/// The task-side state of one alarm-backed wait: whether the alarm was
/// already armed by an earlier poll.
pub struct AlarmWait {
    delay: u32,
    started: bool,
}

impl AlarmWait {
    /// The length of the wait.
    pub closed spec fn spec_delay(&self) -> u32 {
        self.delay
    }

    /// Whether a poll has already armed the alarm.
    pub closed spec fn spec_started(&self) -> bool {
        self.started
    }

    /// A wait of `delay` microseconds that has not armed anything yet.
    pub fn begin(delay: u32) -> (r: Self)
        ensures
            r.spec_delay() == delay,
            !r.spec_started(),
    {
        AlarmWait { delay, started: false }
    }

    /// Decide what this poll does: the first poll arms and suspends;
    /// afterwards the wait completes exactly when the alarm has fired and
    /// re-registers otherwise.
    pub fn poll_step(&mut self, alarm_finished: bool) -> (r: AlarmPollAction)
        ensures
            final(self).spec_delay() == old(self).spec_delay(),
            final(self).spec_started(),
            r == (if !old(self).spec_started() {
                AlarmPollAction::ArmAndSuspend
            } else if alarm_finished {
                AlarmPollAction::Complete
            } else {
                AlarmPollAction::Suspend
            }),
    {
        if !self.started {
            self.started = true;
            AlarmPollAction::ArmAndSuspend
        } else if alarm_finished {
            AlarmPollAction::Complete
        } else {
            AlarmPollAction::Suspend
        }
    }
}

/// The state of one timer line, for specifications: counter, alarm and
/// slot.
pub struct TimerState<W> {
    pub now: u32,
    pub armed: bool,
    pub armed_at: u32,
    pub delay: u32,
    pub pending: Option<W>,
}

/// Scheduling a wait arms the alarm for `delay` from the current counter
/// and registers the handle.
pub open spec fn sched_state<W>(t: TimerState<W>, delay: u32, waker: W) -> TimerState<W> {
    TimerState { armed: true, armed_at: t.now, delay, pending: Some(waker), ..t }
}

/// Whether advancing the counter by `k` makes the alarm fire: it is armed
/// and the wrap-safe time since arming reaches the programmed delay.
pub open spec fn advance_fires<W>(t: TimerState<W>, k: u32) -> bool {
    t.armed && spec_elapsed(wrap_add(t.now, k), t.armed_at) >= t.delay
}

/// The state after advancing by `k`: the counter moves; a firing alarm
/// disarms itself and empties the slot.
pub open spec fn advance_state<W>(t: TimerState<W>, k: u32) -> TimerState<W> {
    if advance_fires(t, k) {
        TimerState { now: wrap_add(t.now, k), armed: false, pending: None, ..t }
    } else {
        TimerState { now: wrap_add(t.now, k), ..t }
    }
}

/// The handle resumed by advancing by `k`: the registered one exactly when
/// the alarm fires, nothing otherwise.
pub open spec fn advance_resumes<W>(t: TimerState<W>, k: u32) -> Option<W> {
    if advance_fires(t, k) {
        t.pending
    } else {
        None
    }
}

/// A simulated timer line: a counter that only advances on request, a
/// one-shot alarm, and the waker slot its interrupt handler serves.
pub struct SimTimer<W> {
    now: u32,
    armed: bool,
    armed_at: u32,
    delay: u32,
    slot: AlarmSlot<W>,
}

impl<W> SimTimer<W> {
    /// The timer as a state for specifications.
    pub closed spec fn view_state(&self) -> TimerState<W> {
        TimerState {
            now: self.now,
            armed: self.armed,
            armed_at: self.armed_at,
            delay: self.delay,
            pending: self.slot.spec_pending(),
        }
    }

    /// A timer at the given counter value, disarmed, with an empty slot.
    pub fn new(now: u32) -> (r: Self)
        ensures
            r.view_state() == (TimerState {
                now,
                armed: false,
                armed_at: 0u32,
                delay: 0u32,
                pending: None::<W>,
            }),
    {
        SimTimer { now, armed: false, armed_at: 0, delay: 0, slot: AlarmSlot::new() }
    }

    /// The current counter value.
    pub fn counter(&self) -> (r: u32)
        ensures
            r == self.view_state().now,
    {
        self.now
    }

    /// Begin a timed wait: arm the alarm for `delay` from now and register
    /// the resumption handle, overwriting any stale registration.
    pub fn schedule_wait(&mut self, delay: u32, waker: W)
        ensures
            final(self).view_state() == sched_state(old(self).view_state(), delay, waker),
    {
        self.armed = true;
        self.armed_at = self.now;
        self.delay = delay;
        self.slot.register(waker);
    }

    /// Advance the counter by `k` microseconds. If the alarm fires within
    /// this advance, do what the interrupt handler does — disarm, take the
    /// slot — and hand back the handle to resume.
    pub fn advance(&mut self, k: u32) -> (r: Option<W>)
        ensures
            final(self).view_state() == advance_state(old(self).view_state(), k),
            r == advance_resumes(old(self).view_state(), k),
    {
        self.now = wrapping_add_u32(self.now, k);
        if self.armed && wrapping_elapsed(self.now, self.armed_at) >= self.delay {
            self.armed = false;
            self.slot.take()
        } else {
            None
        }
    }
}

/// A wait scheduled for `delay` resumes its handle exactly once, exactly
/// at `delay`: one microsecond earlier resumes nothing, reaching `delay`
/// resumes the registered handle, and afterwards nothing ever fires again
/// until a new wait is scheduled.
pub proof fn lemma_alarm_exactly_once<W>(t: TimerState<W>, delay: u32, waker: W, later: u32)
    requires
        1 <= delay,
    ensures
        advance_resumes(sched_state(t, delay, waker), (delay - 1) as u32) is None,
        advance_resumes(
            advance_state(sched_state(t, delay, waker), (delay - 1) as u32),
            1,
        ) == Some(waker),
        advance_resumes(
            advance_state(
                advance_state(sched_state(t, delay, waker), (delay - 1) as u32),
                1,
            ),
            later,
        ) is None,
{
    let t1 = sched_state(t, delay, waker);
    assert(spec_elapsed(wrap_add(t1.now, (delay - 1) as u32), t1.now) == delay - 1);
    let t2 = advance_state(t1, (delay - 1) as u32);
    assert(wrap_add(t2.now, 1) == wrap_add(t1.now, delay));
    assert(spec_elapsed(wrap_add(t1.now, delay), t1.now) == delay);
}

/// A busy-poll wait of length `delay` is still pending one microsecond
/// before its deadline and done exactly at it, wherever in the counter's
/// range it started.
pub proof fn lemma_busy_wait_boundary(start: u32, delay: u32)
    requires
        1 <= delay,
    ensures
        spec_elapsed(wrap_add(start, (delay - 1) as u32), start) < delay,
        spec_elapsed(wrap_add(start, delay), start) >= delay,
{
    assert(spec_elapsed(wrap_add(start, (delay - 1) as u32), start) == delay - 1);
    assert(spec_elapsed(wrap_add(start, delay), start) == delay);
}

} // verus!
