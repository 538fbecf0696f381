use easyfibers::builder::Builder;
use easyfibers::dns_message::Ipv4;
use easyfibers::duration::Duration;
use easyfibers::error::Error;
use easyfibers::ids::fiber_id;
use easyfibers::poller::{Poller, Stack, StackNeed};
use easyfibers::wheel::{Token, Wheel};

fn ms(n: u64) -> Duration {
    Duration::from_millis(n)
}

fn poller() -> Poller {
    Poller::new(false, None, Some("nameserver 10.0.0.1\n")).ok().unwrap()
}

const MILLI: u128 = 1_000_000;

#[test]
fn wheel_reports_timers_in_the_order_of_their_ticks() {
    let mut w = Wheel::new(&Builder::new().num_slots(4));
    let a = w.reserve().unwrap();
    let b = w.reserve().unwrap();
    let c = w.reserve().unwrap();
    // more than one turn of the wheel
    w.set_timeout(a, 900 * MILLI, 1);
    w.set_timeout(b, 101 * MILLI, 2);
    w.set_timeout(c, 100 * MILLI, 3);
    assert_eq!(w.poll(99 * MILLI), None);
    assert_eq!(w.poll(150 * MILLI), Some((c, 3)));
    // due on the second tick, as it is armed for a time after the first one
    assert_eq!(w.poll(150 * MILLI), None);
    assert_eq!(w.poll(5000 * MILLI), Some((b, 2)));
    assert_eq!(w.poll(5000 * MILLI), Some((a, 1)));
    assert_eq!(w.poll(5000 * MILLI), None);
}

#[test]
fn wheel_takes_as_many_timers_as_it_was_built_for() {
    let mut w = Wheel::new(&Builder::new().max_capacity(2));
    let a = w.reserve().unwrap();
    assert!(w.reserve().is_some());
    assert_eq!(w.reserve(), None);
    w.cancel(a);
    assert!(w.reserve().is_some());
    assert_eq!(w.reserve(), None);
}

#[test]
fn wheel_timer_that_is_armed_anew_fires_once() {
    let mut w = Wheel::new(&Builder::new());
    let a = w.reserve().unwrap();
    w.set_timeout(a, 100 * MILLI, 1);
    w.set_timeout(a, 300 * MILLI, 2);
    assert_eq!(w.poll(200 * MILLI), None);
    assert_eq!(w.poll(300 * MILLI), Some((a, 2)));
    assert_eq!(w.poll(9000 * MILLI), None);
}

#[test]
fn cancelled_timer_is_not_reported() {
    let mut w = Wheel::new(&Builder::new());
    let a = w.reserve().unwrap();
    let b = w.reserve().unwrap();
    assert_ne!(a, b);
    w.set_timeout(a, 100 * MILLI, 1);
    w.set_timeout(b, 100 * MILLI, 2);
    w.cancel(a);
    w.cancel(Token { key: 77, serial: 0 });
    assert_eq!(w.poll(1000 * MILLI), Some((b, 2)));
    assert_eq!(w.poll(1000 * MILLI), None);
}

#[test]
fn one_poller_for_a_thread() {
    assert_eq!(Poller::new(true, None, None).err(), Some(Error::PollerExists));
    assert!(Poller::new(false, None, None).is_ok());
}

#[test]
fn stacks_are_rounded_up_to_a_power_of_two() {
    let sizes = [(1, 1), (4096 * 10, 65536), (65536, 65536), (65537, 131072), (0, 1)];
    for (asked, size) in sizes.iter() {
        let mut p = Poller::new(false, Some(*asked), None).ok().unwrap();
        assert_eq!(p.stack_pop(), Stack { number: 0, need: StackNeed::Sized(*size) });
    }
    let mut p = Poller::new(false, Some(usize::MAX), None).ok().unwrap();
    assert_eq!(p.stack_pop(), Stack { number: 0, need: StackNeed::Sized(usize::MAX) });
}

#[test]
fn stack_that_was_left_is_used_next() {
    let mut p = poller();
    assert_eq!(p.stack_pop(), Stack { number: 0, need: StackNeed::Default });
    assert_eq!(p.stack_pop(), Stack { number: 1, need: StackNeed::Default });
    assert_eq!(p.stack_pop(), Stack { number: 2, need: StackNeed::Default });
    p.stack_push(0);
    p.stack_push(2);
    assert_eq!(p.stack_pop(), Stack { number: 2, need: StackNeed::Reuse });
    assert_eq!(p.stack_pop(), Stack { number: 0, need: StackNeed::Reuse });
    assert_eq!(p.stack_pop(), Stack { number: 3, need: StackNeed::Default });
    assert_eq!(p.stack_count(), 4);
}

#[test]
fn signalled_fibers_go_to_their_runners_in_order() {
    let mut p = poller();
    let ids = vec![fiber_id(2, 5), fiber_id(0, 1), fiber_id(2, 3)];
    assert!(p.poll(Some(&ids), ms(0), &vec![]));
    assert!(p.refers_to(2, 6));
    assert!(!p.refers_to(2, 5));
    assert_eq!(p.toexec_pop(2), Some(5));
    assert_eq!(p.toexec_pop(2), Some(3));
    assert_eq!(p.toexec_pop(2), None);
    assert_eq!(p.toexec_pop(0), Some(1));
    assert_eq!(p.toexec_pop(1), None);
}

#[test]
fn poll_without_anything_new_changes_nothing() {
    let mut p = poller();
    assert!(!p.poll(Some(&vec![]), ms(10), &vec![]));
    assert_eq!(p.toexec_pop(0), None);
    assert_eq!(p.timedout_pop(0), None);
    assert_eq!(p.dns_check(0), None);
}

#[test]
fn failed_poll_takes_nothing_in() {
    let mut p = poller();
    let t = p.timer_reg(fiber_id(0, 4), Some(ms(100)), ms(0)).unwrap();
    let found = vec![(fiber_id(0, 1), 0, Ipv4 { a: 1, b: 2, c: 3, d: 4 })];
    assert!(!p.poll(None, ms(10_000), &found));
    assert_eq!(p.timedout_pop(0), None);
    assert_eq!(p.dns_check(0), None);
    assert!(p.poll(Some(&vec![]), ms(10_000), &vec![]));
    assert_eq!(p.timedout_pop(0), Some((4, t)));
}

#[test]
fn lookups_go_to_their_runners() {
    let mut p = poller();
    let address = Ipv4 { a: 1, b: 2, c: 3, d: 4 };
    let found = vec![(fiber_id(1, 6), 9, address)];
    assert!(p.poll(Some(&vec![]), ms(0), &found));
    assert_eq!(p.dns_check(0), None);
    assert_eq!(p.dns_check(1), Some((6, 9, address)));
    assert_eq!(p.dns_check(1), None);
}

#[test]
fn timer_is_neither_early_nor_more_than_a_tick_late() {
    for dur in [0u64, 1, 249, 250, 251, 600, 20_000].iter() {
        for start in [0u64, 1, 130, 250, 999].iter() {
            let mut p = poller();
            p.poll(Some(&vec![]), ms(*start), &vec![]);
            let t = p.timer_reg(fiber_id(3, 8), Some(ms(*dur)), ms(*start)).unwrap();
            if start + dur > 0 {
                p.poll(Some(&vec![]), ms(start + dur - 1), &vec![]);
                assert_eq!(p.timedout_pop(3), None);
            }
            p.poll(Some(&vec![]), ms(start + dur + 250), &vec![]);
            assert_eq!(p.timedout_pop(3), Some((8, t)));
            // one-shot
            p.poll(Some(&vec![]), ms(start + dur + 99_999), &vec![]);
            assert_eq!(p.timedout_pop(3), None);
        }
    }
}

#[test]
fn timer_without_a_duration_takes_a_tick() {
    let mut p = poller();
    let t = p.timer_reg(fiber_id(0, 1), None, ms(500)).unwrap();
    assert!(!p.poll(Some(&vec![]), ms(749), &vec![]));
    assert!(p.poll(Some(&vec![]), ms(750), &vec![]));
    assert_eq!(p.timedout_pop(0), Some((1, t)));
}

#[test]
fn cancelled_timer_of_a_poller_does_not_fire() {
    let mut p = poller();
    let a = p.timer_reg(fiber_id(0, 1), Some(ms(250)), ms(0)).unwrap();
    let b = p.timer_reg(fiber_id(0, 2), Some(ms(250)), ms(0)).unwrap();
    p.timer_cancel(a);
    assert!(p.poll(Some(&vec![]), ms(1000), &vec![]));
    assert_eq!(p.timedout_pop(0), Some((2, b)));
    assert_eq!(p.timedout_pop(0), None);
}

#[test]
fn token_of_a_timer_that_has_fired_cancels_no_other() {
    let mut w = Wheel::new(&Builder::new());
    let a = w.reserve().unwrap();
    w.set_timeout(a, 100 * MILLI, 1);
    assert_eq!(w.poll(100 * MILLI), Some((a, 1)));
    // the place is used again, the number is not
    let b = w.reserve().unwrap();
    assert_eq!(a.key, b.key);
    assert_ne!(a.serial, b.serial);
    w.set_timeout(b, 200 * MILLI, 2);
    w.cancel(a);
    assert_eq!(w.poll(200 * MILLI), Some((b, 2)));
}

#[test]
fn poller_knows_whether_a_fiber_is_to_be_run() {
    let mut p = poller();
    assert!(!p.pending());
    p.toexec_push(19, 3);
    assert!(p.pending());
    assert_eq!(p.toexec_pop(19), Some(3));
    assert!(!p.pending());
}
