use mxrox::interrupt::IoOp;
use mxrox::time::{init_pit, init_pit_legacy, pit_divisor, Clock, SleepStep, Timer};

#[test]
fn new_clock_is_at_zero() {
    let c = Clock::new();
    assert_eq!(c.get_time_seconds(), 0);
    assert_eq!(c.get_time_millis(), 0);
    assert_eq!(c.timer_list(), vec![]);
}

#[test]
fn thousand_ticks_make_a_second() {
    let mut c = Clock::new();
    for i in 0..999 {
        assert!(!c.tick());
        assert_eq!(c.get_time_millis(), i + 1);
    }
    assert_eq!(c.get_time_seconds(), 0);
    assert!(c.tick());
    assert_eq!(c.get_time_seconds(), 1);
    assert_eq!(c.get_time_millis(), 1000);
    assert!(!c.tick());
    assert_eq!(c.get_time_millis(), 1001);
}

#[test]
fn sleep_waits_until_counter_reaches_millis() {
    let mut c = Clock::new();
    let id = c.start_sleep();
    assert_eq!(id, 0);
    assert_eq!(c.timer_list(), vec![Timer { id: 0, ticks: 0 }]);
    for _ in 0..3 {
        c.tick();
    }
    assert_eq!(c.timer_list(), vec![Timer { id: 0, ticks: 3 }]);
    assert_eq!(c.sleep(id, 5), SleepStep::Wait);
    c.tick();
    c.tick();
    assert_eq!(c.sleep(id, 5), SleepStep::Done);
    assert_eq!(c.timer_list(), vec![]);
}

#[test]
fn sleep_of_zero_is_done_at_once() {
    let mut c = Clock::new();
    let id = c.start_sleep();
    assert_eq!(c.sleep(id, 0), SleepStep::Done);
    assert_eq!(c.timer_list(), vec![]);
}

#[test]
fn ending_one_sleep_keeps_the_others() {
    let mut c = Clock::new();
    let a = c.start_sleep();
    let b = c.start_sleep();
    assert_eq!(b, 1);
    c.tick();
    assert_eq!(c.sleep(a, 1), SleepStep::Done);
    assert_eq!(c.timer_list(), vec![Timer { id: b, ticks: 1 }]);
    assert_eq!(c.sleep(a, 1), SleepStep::Done);
}

#[test]
fn tick_timers_leaves_time_alone() {
    let mut c = Clock::new();
    c.start_sleep();
    c.tick_timers();
    assert_eq!(c.get_time_millis(), 0);
    assert_eq!(c.timer_list(), vec![Timer { id: 0, ticks: 1 }]);
}

#[test]
fn pit_divisors() {
    assert_eq!(pit_divisor(100), 11936);
    assert_eq!(pit_divisor(1000), 1193);
}

#[test]
fn pit_programming() {
    assert_eq!(
        init_pit(),
        vec![
            IoOp::Out { port: 0x43, value: 0x36 },
            IoOp::Cli,
            IoOp::Out { port: 0x40, value: 0xA0 },
            IoOp::Out { port: 0x40, value: 0 },
        ]
    );
    assert_eq!(
        init_pit_legacy(),
        vec![
            IoOp::Write8 { addr: 0x43, value: 0x36 },
            IoOp::Write8 { addr: 0x40, value: 0xA9 },
            IoOp::Write8 { addr: 0x40, value: 0x04 },
        ]
    );
}
