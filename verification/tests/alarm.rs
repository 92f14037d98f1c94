use sh1107::alarm::plan_wait;
use sh1107::alarm::wrapping_add_u32;
use sh1107::alarm::wrapping_elapsed;
use sh1107::alarm::AlarmPollAction;
use sh1107::alarm::AlarmSlot;
use sh1107::alarm::AlarmWait;
use sh1107::alarm::BusyWait;
use sh1107::alarm::SimTimer;
use sh1107::alarm::WaitPlan;

#[test]
fn elapsed_without_wrap() {
    assert_eq!(wrapping_elapsed(10, 10), 0);
    assert_eq!(wrapping_elapsed(25, 10), 15);
}

#[test]
fn elapsed_across_wrap() {
    assert_eq!(wrapping_elapsed(5, u32::MAX), 6);
    assert_eq!(wrapping_elapsed(0, u32::MAX), 1);
}

#[test]
fn wrapping_add_wraps() {
    assert_eq!(wrapping_add_u32(u32::MAX, 1), 0);
    assert_eq!(wrapping_add_u32(u32::MAX - 2, 10), 7);
    assert_eq!(wrapping_add_u32(3, 4), 7);
}

#[test]
fn short_delays_busy_poll_longer_delays_arm() {
    assert_eq!(plan_wait(0), WaitPlan::BusyPoll);
    assert_eq!(plan_wait(19), WaitPlan::BusyPoll);
    assert_eq!(plan_wait(20), WaitPlan::HardwareAlarm);
    assert_eq!(plan_wait(u32::MAX), WaitPlan::HardwareAlarm);
}

#[test]
fn busy_wait_boundary() {
    let w = BusyWait::begin(100, 10);
    assert!(!w.poll(100));
    assert!(!w.poll(109));
    assert!(w.poll(110));
    assert!(w.poll(200));
}

#[test]
fn busy_wait_across_counter_wrap() {
    let w = BusyWait::begin(u32::MAX - 5, 10);
    assert!(!w.poll(u32::MAX));
    assert!(!w.poll(3));
    assert!(w.poll(4));
}

#[test]
fn slot_holds_at_most_one_handle() {
    let mut slot: AlarmSlot<u32> = AlarmSlot::new();
    assert_eq!(slot.take(), None);
    slot.register(7);
    slot.register(8);
    // The later registration deterministically overwrote the earlier.
    assert_eq!(slot.take(), Some(8));
    // Taking emptied the slot: the handle comes out at most once.
    assert_eq!(slot.take(), None);
}

#[test]
fn alarm_fires_exactly_at_the_deadline() {
    let mut t: SimTimer<u32> = SimTimer::new(500);
    t.schedule_wait(1000, 42);
    // One short of the deadline: nothing resumes.
    assert_eq!(t.advance(999), None);
    // Reaching the deadline resumes exactly the registered handle.
    assert_eq!(t.advance(1), Some(42));
    // And never again.
    assert_eq!(t.advance(1), None);
    assert_eq!(t.advance(100_000), None);
}

#[test]
fn alarm_fires_across_counter_wrap() {
    let mut t: SimTimer<u32> = SimTimer::new(u32::MAX - 10);
    t.schedule_wait(100, 1);
    assert_eq!(t.advance(99), None);
    assert_eq!(t.advance(1), Some(1));
}

#[test]
fn alarm_overshoot_still_fires_once() {
    let mut t: SimTimer<u32> = SimTimer::new(0);
    t.schedule_wait(50, 9);
    assert_eq!(t.advance(200), Some(9));
    assert_eq!(t.advance(200), None);
}

#[test]
fn rescheduling_reuses_the_line() {
    let mut t: SimTimer<u32> = SimTimer::new(0);
    t.schedule_wait(10, 1);
    assert_eq!(t.advance(10), Some(1));
    t.schedule_wait(20, 2);
    assert_eq!(t.advance(19), None);
    assert_eq!(t.advance(1), Some(2));
}

#[test]
fn alarm_wait_polls_arm_then_wait_then_complete() {
    let mut w = AlarmWait::begin(100);
    // The first poll always arms, whatever the alarm line reports.
    assert_eq!(w.poll_step(false), AlarmPollAction::ArmAndSuspend);
    // Spurious wakeups re-register and keep waiting.
    assert_eq!(w.poll_step(false), AlarmPollAction::Suspend);
    assert_eq!(w.poll_step(false), AlarmPollAction::Suspend);
    // Once the alarm fired, the wait completes.
    assert_eq!(w.poll_step(true), AlarmPollAction::Complete);
}

#[test]
fn counter_reads_back_advances() {
    let mut t: SimTimer<u32> = SimTimer::new(10);
    assert_eq!(t.counter(), 10);
    t.advance(5);
    assert_eq!(t.counter(), 15);
}
