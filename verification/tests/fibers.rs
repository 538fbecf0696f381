use easyfibers::dns_message::Ipv4;
use easyfibers::duration::Duration;
use easyfibers::error::Error;
use easyfibers::fiber::Fiber;
use easyfibers::ids::fiber_id;
use easyfibers::poller::{Poller, Stack, StackNeed};
use easyfibers::runner::children::Child;
use easyfibers::runner::io::{IoResult, IoStep, TlsResult};
use easyfibers::runner::run::{Connect, RunAction, RunStage};
use easyfibers::runner::table::RunnerTable;
use easyfibers::runner::{Entry, LookupStart, Runner};
use easyfibers::slot::{FiberSock, Ready, Registration, SocketType};

type Run = Runner<u32, &'static str>;

fn ms(n: u64) -> Duration {
    Duration::from_millis(n)
}

fn setup() -> (Poller, Run) {
    let p = Poller::new(false, None, Some("nameserver 10.0.0.1\n")).ok().unwrap();
    let mut table = RunnerTable::new();
    let r = Run::new(&mut table).ok().unwrap();
    (p, r)
}

/// The actions of one run, up to the one that ends it, without performing any.
fn actions(p: &mut Poller, r: &mut Run, now: Duration) -> Vec<String> {
    assert!(r.knows(p));
    let mut stage = RunStage::Ready;
    let mut out = vec![];
    loop {
        let (next, action) = r.run(p, stage, now);
        stage = next;
        out.push(format!("{:?}", action));
        if let RunAction::Finished(_) = action {
            return out;
        }
    }
}

/// Enters a fiber that begins, and returns its parameter.
fn begin(p: &mut Poller, r: &mut Run, pos: usize) -> u32 {
    assert!(r.can_enter(pos));
    assert!(matches!(r.step_into(p, pos), Entry::Begin(_)));
    r.begin_kept(pos)
}

#[test]
fn runners_get_the_lowest_number_that_is_free() {
    let mut table = RunnerTable::new();
    let mut all: Vec<Run> = vec![];
    for i in 0..20 {
        let r = Run::new(&mut table).ok().unwrap();
        assert_eq!(r.number(), i);
        all.push(r);
    }
    assert_eq!(Run::new(&mut table).err(), Some(Error::NoSpace));
    table.release(7);
    table.release(3);
    assert_eq!(Run::new(&mut table).ok().unwrap().number(), 3);
    assert_eq!(Run::new(&mut table).ok().unwrap().number(), 7);
    assert_eq!(Run::new(&mut table).err(), Some(Error::NoSpace));
}

#[test]
fn fiber_with_a_socket_runs_and_returns_its_result() {
    let (mut p, mut r) = setup();
    assert!(r.has_room());
    let pos = r.new_tcp(&mut p, 42).ok().unwrap();
    assert_eq!(pos, 0);
    assert_eq!(r.fiber_count(), 1);
    assert_eq!(r.sock_of(pos), FiberSock::Tcp);
    assert_eq!(actions(&mut p, &mut r, ms(0)), vec!["Enter(0)", "Finished(false)"]);
    assert_eq!(begin(&mut p, &mut r, pos), 42);
    assert!(r.on_stack(pos));
    r.finish(pos, Some("done"));
    assert_eq!(r.stepped_out(&mut p, pos), None);
    assert!(!r.on_stack(pos));
    assert_eq!(r.sock_of(pos), FiberSock::Empty);
    assert_eq!(actions(&mut p, &mut r, ms(0)), vec!["Finished(true)"]);
    assert_eq!(r.get_response(&mut p), Some("done"));
    assert_eq!(r.get_response(&mut p), None);
    // its slot is the next to be used, with a new generation
    assert_eq!(r.generation_of(pos), 0);
    let how = Registration { id: fiber_id(0, 0), ready: Ready::Readable, again: false };
    assert_eq!(r.listens_as(), how);
    assert_eq!(r.new_udp(&mut p, 1).ok(), Some(0));
    assert_eq!(r.generation_of(pos), 1);
    assert_eq!(r.id_of(pos), fiber_id(0, 0));
}

#[test]
fn listener_that_can_not_be_registered() {
    let (mut p, mut r) = setup();
    assert_eq!(r.new_listener(&mut p, 1, false), Err(Error::System));
    assert_eq!(r.fiber_count(), 0);
    assert_eq!(r.new_listener(&mut p, 1, true), Ok(0));
    assert_eq!(r.accept_tcp(0, IoResult::WouldBlock), IoStep::Wait(None));
    assert_eq!(r.accept_tcp(0, IoResult::Done(1)), IoStep::Done(1));
    assert_eq!(r.accept_tcp(0, IoResult::Interrupted), IoStep::Again);
    assert_eq!(r.accept_tcp(0, IoResult::Failed), IoStep::Failed(Error::System));
    assert_eq!(r.read(0, 4, IoResult::Done(4)), IoStep::Failed(Error::ListenRead));
    assert_eq!(r.write(0, 4, IoResult::Done(4)), IoStep::Failed(Error::ListenWrite));
}

#[test]
fn slot_of_a_listener_that_can_not_be_registered_is_not_used_again() {
    let (mut p, mut r) = setup();
    for _ in 0..2 {
        let pos = r.new_tcp(&mut p, 0).ok().unwrap();
        actions(&mut p, &mut r, ms(0));
        begin(&mut p, &mut r, pos);
    }
    for pos in 0..2 {
        r.finish(pos, None);
        r.stepped_out(&mut p, pos);
    }
    assert_eq!(r.new_listener(&mut p, 1, false), Err(Error::System));
    assert_eq!(r.generation_of(0), 0);
    assert_eq!(actions(&mut p, &mut r, ms(0)), vec!["Finished(false)"]);
    // the slot that was free next, and then a new one
    assert_eq!(r.new_tcp(&mut p, 1), Ok(1));
    assert_eq!(r.new_tcp(&mut p, 1), Ok(2));
}

/// A poller that has no timer left.
fn out_of_timers() -> (Poller, Run) {
    let (mut p, r) = setup();
    let mut n = 0;
    while p.timer_reg(fiber_id(19, 0), None, ms(0)).is_some() {
        n += 1;
    }
    assert_eq!(n, 4_194_304);
    (p, r)
}

#[test]
fn timer_that_is_not_to_be_had_leaves_its_slot_behind() {
    let (mut p, mut r) = out_of_timers();
    assert!(r.new_timer(&mut p, ms(0), ms(10), "never").is_none());
    assert!(r.new_fiber_timer(&mut p, ms(0), ms(10), 7).is_none());
    assert_eq!(r.fiber_count(), 2);
    assert!(!r.can_enter(0));
    assert!(!r.can_enter(1));
    assert_eq!(actions(&mut p, &mut r, ms(5000)), vec!["Finished(false)"]);
    assert_eq!(r.get_response(&mut p), None);
    assert_eq!(r.new_tcp(&mut p, 1), Ok(2));
}

#[test]
fn lookup_that_can_not_begin_frees_its_slot_with_its_timer() {
    let (mut p, mut r) = setup();
    let pos = r.new_resolve_connect(&mut p, ms(0), "a.b", ms(3000), 5).ok().unwrap();
    r.lookup_started(&mut p, pos, LookupStart::Failed, SocketType::Tcp, 80, "a.b").ok();
    assert_eq!(r.new_tcp(&mut p, 1), Ok(pos));
    // without a timer the slot is not used again
    let (mut p, mut r) = out_of_timers();
    let pos = r.new_resolve_connect(&mut p, ms(0), "a.b", ms(3000), 5).ok().unwrap();
    assert_eq!(
        r.lookup_started(&mut p, pos, LookupStart::Failed, SocketType::Tcp, 80, "a.b"),
        Err(Error::System)
    );
    assert!(!r.awaits_address(pos));
    assert!(!r.can_enter(pos));
    assert_eq!(r.new_tcp(&mut p, 1), Ok(1));
}

#[test]
fn joined_child_is_one_more() {
    let (mut p, mut r) = setup();
    let parent = r.new_tcp(&mut p, 0).ok().unwrap();
    actions(&mut p, &mut r, ms(0));
    begin(&mut p, &mut r, parent);
    let f: Fiber<u32, &'static str> = Fiber::new(r.number(), parent);
    assert!(matches!(f.get_child(&mut r, &mut p), Child::Finished));
    let a = f.join_tcp(&mut r, &mut p, 1).ok().unwrap();
    let b = f.join_udp(&mut r, &mut p, 2).ok().unwrap();
    assert!(a != parent && b != parent && a != b);
    // the fiber goes on, on its stack
    assert!(r.on_stack(parent));
    for (pos, text) in [(a, "a"), (b, "b")] {
        assert!(matches!(f.get_child(&mut r, &mut p), Child::Wait));
        begin(&mut p, &mut r, pos);
        r.finish(pos, Some(text));
        r.stepped_out(&mut p, pos);
        assert!(matches!(f.get_child(&mut r, &mut p), Child::Result(t) if t == text));
    }
    assert!(matches!(f.get_child(&mut r, &mut p), Child::Finished));
    assert_eq!(r.get_response(&mut p), None);
}

#[test]
fn no_two_fibers_share_a_stack() {
    let (mut p, mut r) = setup();
    let mut numbers: Vec<usize> = vec![];
    for i in 0..4 {
        let pos = r.new_tcp(&mut p, 0).ok().unwrap();
        match r.step_into(&mut p, pos) {
            Entry::Begin(stack) => numbers.push(stack.number),
            _ => panic!("fiber {} has a stack", i),
        }
        r.begin(pos);
    }
    assert_eq!(numbers, vec![0, 1, 2, 3]);
    r.finish(2, None);
    r.stepped_out(&mut p, 2);
    let pos = r.new_tcp(&mut p, 0).ok().unwrap();
    assert_eq!(pos, 2);
    let again = Stack { number: 2, need: StackNeed::Reuse };
    assert_eq!(r.step_into(&mut p, pos), Entry::Begin(again));
}

#[test]
fn each_call_of_main_is_handed_out_once() {
    let (mut p, mut r) = setup();
    for _ in 0..3 {
        let pos = r.new_tcp(&mut p, 0).ok().unwrap();
        begin(&mut p, &mut r, pos);
        r.join_main(pos);
        r.stepped_out(&mut p, pos);
    }
    for pos in 0..3 {
        assert_eq!(r.get_fiber().unwrap().id(), pos);
    }
    assert!(r.get_fiber().is_none());
}

#[test]
fn responses_come_in_the_order_in_which_fibers_give_them() {
    let (mut p, mut r) = setup();
    for (i, text) in ["a", "b", "c"].iter().enumerate() {
        let pos = r.new_tcp(&mut p, 0).ok().unwrap();
        assert_eq!(pos, i);
        begin(&mut p, &mut r, pos);
        r.resp_chunk(pos, text);
        assert_eq!(r.stepped_out(&mut p, pos), None);
    }
    assert_eq!(r.get_response(&mut p), Some("a"));
    assert_eq!(r.get_response(&mut p), Some("b"));
    assert_eq!(r.get_response(&mut p), Some("c"));
    assert_eq!(r.get_response(&mut p), None);
}

#[test]
fn fiber_that_streams_waits_until_the_main_stack_has_received() {
    let (mut p, mut r) = setup();
    let pos = r.new_tcp(&mut p, 0).ok().unwrap();
    actions(&mut p, &mut r, ms(0));
    begin(&mut p, &mut r, pos);
    r.resp_chunk(pos, "one");
    r.stepped_out(&mut p, pos);
    // it keeps its stack, and nothing runs it on
    assert!(r.on_stack(pos));
    assert_eq!(actions(&mut p, &mut r, ms(0)), vec!["Finished(true)"]);
    p.poll(Some(&vec![r.id_of(pos)]), ms(1), &vec![]);
    assert_eq!(actions(&mut p, &mut r, ms(1)), vec!["Finished(true)"]);
    assert!(!r.can_enter(pos));
    // until its response is received
    assert_eq!(r.get_response(&mut p), Some("one"));
    assert!(p.pending());
    assert_eq!(actions(&mut p, &mut r, ms(1)), vec!["Enter(0)", "Finished(false)"]);
    assert_eq!(r.step_into(&mut p, pos), Entry::Resume);
    r.resp_chunk(pos, "two");
    r.stepped_out(&mut p, pos);
    assert_eq!(r.get_response(&mut p), Some("two"));
    assert_eq!(r.get_response(&mut p), None);
}

#[test]
fn child_does_not_go_on_before_its_parent_has_its_chunk() {
    let (mut p, mut r) = setup();
    let parent = r.new_tcp(&mut p, 0).ok().unwrap();
    begin(&mut p, &mut r, parent);
    let f: Fiber<u32, &'static str> = Fiber::new(r.number(), parent);
    let child = f.join_tcp(&mut r, &mut p, 1).ok().unwrap();
    // the parent waits for its own socket meanwhile
    f.read(&mut r, 1, IoResult::WouldBlock);
    r.timed_step_out(&mut p, ms(0), parent);
    r.stepped_out(&mut p, parent);
    actions(&mut p, &mut r, ms(0));
    begin(&mut p, &mut r, child);
    r.resp_chunk(child, "one");
    assert_eq!(r.stepped_out(&mut p, child), None);
    p.poll(Some(&vec![r.id_of(child)]), ms(1), &vec![]);
    assert_eq!(actions(&mut p, &mut r, ms(1)), vec!["Finished(false)"]);
    p.poll(Some(&vec![r.id_of(parent)]), ms(2), &vec![]);
    assert_eq!(actions(&mut p, &mut r, ms(2)), vec!["Enter(0)", "Finished(false)"]);
    r.step_into(&mut p, parent);
    assert_eq!(r.timed_step_in(&mut p, parent, Error::ReadTimeout), Ok(()));
    assert!(matches!(f.get_child(&mut r, &mut p), Child::Result("one")));
    assert_eq!(actions(&mut p, &mut r, ms(2)), vec!["Enter(1)", "Finished(false)"]);
    assert_eq!(r.get_response(&mut p), None);
}

#[test]
fn results_of_children_go_to_their_parent() {
    let (mut p, mut r) = setup();
    let parent = r.new_tcp(&mut p, 0).ok().unwrap();
    begin(&mut p, &mut r, parent);
    let f: Fiber<u32, &'static str> = Fiber::new(r.number(), parent);
    assert_eq!(f.id(), parent);
    assert!(matches!(f.get_child(&mut r, &mut p), Child::Finished));
    let a = f.join_tcp(&mut r, &mut p, 1).ok().unwrap();
    let b = f.join_udp(&mut r, &mut p, 2).ok().unwrap();
    assert!(matches!(f.get_child(&mut r, &mut p), Child::Wait));
    assert_eq!(r.stepped_out(&mut p, parent), None);
    actions(&mut p, &mut r, ms(0));

    assert_eq!(begin(&mut p, &mut r, b), 2);
    let child: Fiber<u32, &'static str> = Fiber::new(r.number(), b);
    child.resp_chunk(&mut r, "chunk");
    assert_eq!(r.stepped_out(&mut p, b), Some(parent));
    assert_eq!(r.step_into(&mut p, parent), Entry::Resume);
    assert!(matches!(f.get_child(&mut r, &mut p), Child::Result("chunk")));
    // the child goes on
    assert_eq!(actions(&mut p, &mut r, ms(0)), vec!["Enter(2)", "Finished(false)"]);
    assert!(matches!(f.get_child(&mut r, &mut p), Child::Wait));

    begin(&mut p, &mut r, a);
    r.finish(a, None);
    assert_eq!(r.stepped_out(&mut p, a), Some(parent));
    r.step_into(&mut p, b);
    r.finish(b, Some("last"));
    assert_eq!(r.stepped_out(&mut p, b), Some(parent));
    assert!(matches!(f.get_child(&mut r, &mut p), Child::Result("last")));
    assert!(matches!(f.get_child(&mut r, &mut p), Child::Finished));
    assert_eq!(r.get_response(&mut p), None);
    // both slots are free again, in the order in which they were taken back
    assert_eq!(r.new_tcp(&mut p, 0).ok(), Some(a));
    assert_eq!(r.new_tcp(&mut p, 0).ok(), Some(b));
}

#[test]
fn read_outcomes() {
    let (mut p, mut r) = setup();
    let pos = r.new_tcp(&mut p, 0).ok().unwrap();
    let f: Fiber<u32, &'static str> = Fiber::new(r.number(), pos);
    assert_eq!(f.read(&mut r, 10, IoResult::Done(3)), IoStep::Done(3));
    assert_eq!(f.read(&mut r, 10, IoResult::Done(0)), IoStep::Failed(Error::SocketClosed));
    assert_eq!(f.read(&mut r, 0, IoResult::Done(0)), IoStep::Done(0));
    assert_eq!(f.read(&mut r, 10, IoResult::Interrupted), IoStep::Again);
    assert_eq!(f.read(&mut r, 10, IoResult::Failed), IoStep::Failed(Error::System));
    let id = fiber_id(0, 0);
    let first = Registration { id, ready: Ready::Readable, again: false };
    assert_eq!(f.read(&mut r, 10, IoResult::WouldBlock), IoStep::Wait(Some(first)));
    assert_eq!(f.read(&mut r, 10, IoResult::WouldBlock), IoStep::Wait(None));
    let then = Registration { id, ready: Ready::Writable, again: true };
    assert_eq!(f.write(&mut r, 10, IoResult::WouldBlock), IoStep::Wait(Some(then)));
    assert_eq!(f.flush(&r), Ok(()));
    assert_eq!(f.accept_tcp(&r, IoResult::Done(1)), IoStep::Failed(Error::NotListening));
}

#[test]
fn write_outcomes() {
    let (mut p, mut r) = setup();
    let pos = r.new_udp(&mut p, 0).ok().unwrap();
    let f: Fiber<u32, &'static str> = Fiber::new(r.number(), pos);
    assert_eq!(f.write(&mut r, 10, IoResult::Done(3)), IoStep::Done(3));
    assert_eq!(f.write(&mut r, 10, IoResult::Done(0)), IoStep::Done(0));
    assert_eq!(f.write(&mut r, 0, IoResult::Done(0)), IoStep::Failed(Error::SocketClosed));
    assert_eq!(f.write(&mut r, 10, IoResult::Interrupted), IoStep::Again);
    assert_eq!(f.write(&mut r, 10, IoResult::Failed), IoStep::Failed(Error::System));
}

#[test]
fn wait_for_a_socket_times_out() {
    let (mut p, mut r) = setup();
    let pos = r.new_tcp(&mut p, 0).ok().unwrap();
    actions(&mut p, &mut r, ms(0));
    begin(&mut p, &mut r, pos);
    let f: Fiber<u32, &'static str> = Fiber::new(r.number(), pos);
    f.socket_timeout(&mut r, Some(ms(500)));
    f.read(&mut r, 1, IoResult::WouldBlock);
    assert!(r.timed_step_out(&mut p, ms(0), pos).is_some());
    r.stepped_out(&mut p, pos);
    p.poll(Some(&vec![]), ms(499), &vec![]);
    assert_eq!(actions(&mut p, &mut r, ms(499)), vec!["Finished(false)"]);
    p.poll(Some(&vec![]), ms(500), &vec![]);
    assert_eq!(actions(&mut p, &mut r, ms(500)), vec!["Enter(0)", "Finished(false)"]);
    assert_eq!(r.step_into(&mut p, pos), Entry::Resume);
    assert_eq!(r.timed_step_in(&mut p, pos, Error::ReadTimeout), Err(Error::ReadTimeout));
    // the next wait starts afresh
    assert_eq!(r.timed_step_in(&mut p, pos, Error::ReadTimeout), Ok(()));
}

#[test]
fn wait_that_the_socket_ends_does_not_time_out() {
    let (mut p, mut r) = setup();
    let pos = r.new_tcp(&mut p, 0).ok().unwrap();
    actions(&mut p, &mut r, ms(0));
    begin(&mut p, &mut r, pos);
    // 20 seconds unless something else is set
    assert!(r.timed_step_out(&mut p, ms(0), pos).is_some());
    p.poll(Some(&vec![r.id_of(pos)]), ms(19_999), &vec![]);
    assert_eq!(actions(&mut p, &mut r, ms(19_999)), vec!["Enter(0)", "Finished(false)"]);
    assert_eq!(r.timed_step_in(&mut p, pos, Error::WriteTimeout), Ok(()));
    p.poll(Some(&vec![]), ms(90_000), &vec![]);
    assert_eq!(actions(&mut p, &mut r, ms(90_000)), vec!["Finished(false)"]);
    // without a timeout there is no timer
    r.socket_timeout(pos, None);
    assert_eq!(r.timed_step_out(&mut p, ms(90_000), pos), None);
}

#[test]
fn tls_handshake_outcomes() {
    let (mut p, mut r) = setup();
    let pos = r.new_tcp(&mut p, 0).ok().unwrap();
    let f: Fiber<u32, &'static str> = Fiber::new(r.number(), pos);
    assert_eq!(f.tcp_tls_connect(&mut r), Ok(()));
    assert_eq!(r.sock_of(pos), FiberSock::Empty);
    let how = Registration { id: r.id_of(pos), ready: Ready::Readable, again: false };
    assert_eq!(r.tls_handshake(pos, TlsResult::Interrupted), IoStep::Wait(Some(how)));
    assert_eq!(r.sock_of(pos), FiberSock::TlsTemp);
    assert_eq!(r.tls_resume(pos), Ok(()));
    assert_eq!(r.tls_resume(pos), Err(Error::TlsFailure));
    assert_eq!(r.tls_handshake(pos, TlsResult::Failed), IoStep::Failed(Error::TlsFailure));
    assert_eq!(r.tls_handshake(pos, TlsResult::Done), IoStep::Done(0));
    assert_eq!(r.sock_of(pos), FiberSock::Tls);
    assert_eq!(f.read(&mut r, 1, IoResult::Done(1)), IoStep::Done(1));
    assert_eq!(r.sock_of(pos).evented(), Ok(()));
    // a TLS stream waits as any other socket does
    let how = Registration { id: r.id_of(pos), ready: Ready::Writable, again: true };
    assert_eq!(f.write(&mut r, 1, IoResult::WouldBlock), IoStep::Wait(Some(how)));
    let how = Registration { id: r.id_of(pos), ready: Ready::Readable, again: true };
    assert_eq!(f.read(&mut r, 1, IoResult::WouldBlock), IoStep::Wait(Some(how)));
    // only a plain TCP socket can be turned into a TLS stream
    assert_eq!(f.tcp_tls_accept(&mut r), Err(Error::InvalidSocket));
    assert_eq!(r.sock_of(pos), FiberSock::Empty);
}

#[test]
fn kinds_of_sockets() {
    assert!(FiberSock::Empty.is_empty());
    assert!(!FiberSock::Udp.is_empty());
    assert_eq!(FiberSock::Listener.evented(), Ok(()));
    assert_eq!(FiberSock::TlsTemp.evented(), Ok(()));
    assert_eq!(FiberSock::Empty.evented(), Err(Error::NoSocket));
    assert_eq!(FiberSock::Listener.accept_tcp(), Ok(()));
    assert_eq!(FiberSock::Tcp.accept_tcp(), Err(Error::NotListening));
    assert_eq!(FiberSock::TlsTemp.read(), Err(Error::NoSocket));
    assert_eq!(FiberSock::Tls.write(), Ok(()));
    assert_eq!(FiberSock::Listener.flush(), Err(Error::ListenFlush));
}

#[test]
fn join_main_gets_what_the_main_stack_answers() {
    let (mut p, mut r) = setup();
    let pos = r.new_tcp(&mut p, 0).ok().unwrap();
    actions(&mut p, &mut r, ms(0));
    begin(&mut p, &mut r, pos);
    let f: Fiber<u32, &'static str> = Fiber::new(r.number(), pos);
    f.join_main(&mut r);
    assert_eq!(r.stepped_out(&mut p, pos), None);
    assert!(r.signaled());
    let called = r.get_fiber().unwrap();
    assert_eq!(called.id(), pos);
    assert!(r.get_fiber().is_none());
    called.resume_fiber(&mut r, &mut p, Some("answer"));
    assert_eq!(actions(&mut p, &mut r, ms(0)), vec!["Enter(0)", "Finished(false)"]);
    assert_eq!(r.step_into(&mut p, pos), Entry::Resume);
    assert_eq!(f.main_response(&mut r), Some("answer"));
    assert_eq!(f.main_response(&mut r), None);
}

#[test]
fn join_main_blocks_whatever_else_wakes_the_fiber() {
    let (mut p, mut r) = setup();
    let pos = r.new_tcp(&mut p, 0).ok().unwrap();
    actions(&mut p, &mut r, ms(0));
    begin(&mut p, &mut r, pos);
    let f: Fiber<u32, &'static str> = Fiber::new(r.number(), pos);
    let child = f.join_tcp(&mut r, &mut p, 1).ok().unwrap();
    f.join_main(&mut r);
    assert_eq!(r.stepped_out(&mut p, pos), None);
    // an event on its socket
    p.poll(Some(&vec![r.id_of(pos)]), ms(1), &vec![]);
    assert_eq!(actions(&mut p, &mut r, ms(1)), vec!["Enter(1)", "Finished(true)"]);
    // a child that is done
    begin(&mut p, &mut r, child);
    r.finish(child, Some("of the child"));
    assert_eq!(r.stepped_out(&mut p, child), None);
    let called = r.get_fiber().unwrap();
    p.poll(Some(&vec![r.id_of(pos)]), ms(2), &vec![]);
    assert_eq!(actions(&mut p, &mut r, ms(2)), vec!["Finished(false)"]);
    called.resume_fiber(&mut r, &mut p, Some("answer"));
    assert_eq!(actions(&mut p, &mut r, ms(2)), vec!["Enter(0)", "Finished(false)"]);
    r.step_into(&mut p, pos);
    assert_eq!(f.main_response(&mut r), Some("answer"));
    assert!(matches!(f.get_child(&mut r, &mut p), Child::Result("of the child")));
}

#[test]
fn answer_of_main_does_not_go_to_the_parent() {
    let (mut p, mut r) = setup();
    let parent = r.new_tcp(&mut p, 0).ok().unwrap();
    begin(&mut p, &mut r, parent);
    let f: Fiber<u32, &'static str> = Fiber::new(r.number(), parent);
    let pos = f.join_tcp(&mut r, &mut p, 1).ok().unwrap();
    assert!(matches!(f.get_child(&mut r, &mut p), Child::Wait));
    r.stepped_out(&mut p, parent);
    begin(&mut p, &mut r, pos);
    let child: Fiber<u32, &'static str> = Fiber::new(r.number(), pos);
    child.join_main(&mut r);
    r.stepped_out(&mut p, pos);
    r.get_fiber().unwrap().resume_fiber(&mut r, &mut p, Some("answer"));
    assert!(matches!(f.get_child(&mut r, &mut p), Child::Wait));
    r.step_into(&mut p, pos);
    assert_eq!(child.main_response(&mut r), Some("answer"));
}

#[test]
fn hibernated_fiber_gets_no_answer_and_begins_again() {
    let (mut p, mut r) = setup();
    let pos = r.new_tcp(&mut p, 42).ok().unwrap();
    actions(&mut p, &mut r, ms(0));
    assert_eq!(begin(&mut p, &mut r, pos), 42);
    let f: Fiber<u32, &'static str> = Fiber::new(r.number(), pos);
    f.hibernate_join_main(&mut r);
    assert_eq!(r.stepped_out(&mut p, pos), None);
    assert!(!r.on_stack(pos));
    r.get_fiber().unwrap().resume_fiber(&mut r, &mut p, Some("answer"));
    assert_eq!(actions(&mut p, &mut r, ms(0)), vec!["Enter(0)", "Finished(false)"]);
    // on the stack that it has left
    let stack = Stack { number: 0, need: StackNeed::Reuse };
    assert_eq!(r.step_into(&mut p, pos), Entry::Begin(stack));
    assert_eq!(r.begin_kept(pos), 42);
    assert_eq!(f.main_response(&mut r), None);
}

#[test]
fn hibernated_fiber_waits_for_reads() {
    let (mut p, mut r) = setup();
    let pos = r.new_tcp(&mut p, 42).ok().unwrap();
    actions(&mut p, &mut r, ms(0));
    begin(&mut p, &mut r, pos);
    let f: Fiber<u32, &'static str> = Fiber::new(r.number(), pos);
    let how = Registration { id: r.id_of(pos), ready: Ready::Readable, again: false };
    assert_eq!(f.hibernate_for_read(&mut r), Ok(Some(how)));
    assert_eq!(r.stepped_out(&mut p, pos), None);
    assert_eq!(r.sock_of(pos), FiberSock::Tcp);
    p.poll(Some(&vec![r.id_of(pos)]), ms(1), &vec![]);
    assert_eq!(actions(&mut p, &mut r, ms(1)), vec!["Enter(0)", "Finished(false)"]);
    assert_eq!(begin(&mut p, &mut r, pos), 42);
    // registered before
    assert_eq!(f.hibernate_for_read(&mut r), Ok(None));
    // that did not work: the fiber keeps its stack
    f.hibernate_failed(&mut r);
    r.stepped_out(&mut p, pos);
    assert!(r.on_stack(pos));
}

#[test]
fn hibernation_without_a_socket_fails() {
    let (mut p, mut r) = setup();
    r.new_fiber_timer(&mut p, ms(0), ms(250), 9).unwrap();
    p.poll(Some(&vec![]), ms(250), &vec![]);
    actions(&mut p, &mut r, ms(250));
    begin(&mut p, &mut r, 0);
    assert_eq!(r.hibernate_for_read(0), Err(Error::NoSocket));
    r.stepped_out(&mut p, 0);
    assert!(r.on_stack(0));
}

/// A parameter that can not be cloned.
struct Unique(u32);

#[test]
fn function_gets_the_parameter_itself() {
    let mut p = Poller::new(false, None, None).ok().unwrap();
    let mut r: Runner<Unique, u32> = Runner::new(&mut RunnerTable::new()).ok().unwrap();
    let pos = r.new_tcp(&mut p, Unique(7)).ok().unwrap();
    assert!(matches!(r.step_into(&mut p, pos), Entry::Begin(_)));
    assert_eq!(r.begin(pos).0, 7);
    assert!(r.can_enter(pos));
    r.finish(pos, Some(1));
    r.stepped_out(&mut p, pos);
    assert!(!r.can_enter(pos));
}

#[test]
fn timer_returns_its_response_once() {
    let (mut p, mut r) = setup();
    let t = r.new_timer(&mut p, ms(0), ms(600), "late").unwrap();
    p.poll(Some(&vec![]), ms(600), &vec![]);
    assert_eq!(actions(&mut p, &mut r, ms(600)), vec!["Finished(false)"]);
    p.poll(Some(&vec![]), ms(850), &vec![]);
    assert_eq!(actions(&mut p, &mut r, ms(850)), vec!["Enter(0)", "Finished(false)"]);
    assert_eq!(r.step_into(&mut p, 0), Entry::Ended);
    assert_eq!(r.stepped_out(&mut p, 0), None);
    assert!(r.signaled());
    assert_eq!(r.get_response(&mut p), Some("late"));
    // it has fired: dropping the reference does nothing
    t.cancel(&mut r, &mut p);
    p.poll(Some(&vec![]), ms(9000), &vec![]);
    assert_eq!(actions(&mut p, &mut r, ms(9000)), vec!["Finished(false)"]);
    assert_eq!(r.new_tcp(&mut p, 0).ok(), Some(0));
    assert_eq!(r.new_tcp(&mut p, 0).ok(), Some(1));
}

#[test]
fn expiry_of_a_timer_is_not_taken_for_the_next_timer_in_its_slot() {
    let (mut p, mut r) = setup();
    let t = r.new_timer(&mut p, ms(0), ms(250), "first").unwrap();
    p.poll(Some(&vec![]), ms(250), &vec![]);
    t.cancel(&mut r, &mut p);
    let hour = r.new_timer(&mut p, ms(250), ms(3_600_000), "in an hour").unwrap();
    assert_eq!(hour.id(), 0);
    assert_eq!(actions(&mut p, &mut r, ms(250)), vec!["Finished(false)"]);
    // nor does an event run it
    p.poll(Some(&vec![r.id_of(0)]), ms(300), &vec![]);
    assert_eq!(actions(&mut p, &mut r, ms(300)), vec!["Finished(false)"]);
    p.poll(Some(&vec![]), ms(3_600_500), &vec![]);
    assert_eq!(actions(&mut p, &mut r, ms(3_600_500)), vec!["Enter(0)", "Finished(false)"]);
    r.step_into(&mut p, 0);
    r.stepped_out(&mut p, 0);
    assert_eq!(r.get_response(&mut p), Some("in an hour"));
}

#[test]
fn old_timer_reference_leaves_its_slot_alone() {
    let (mut p, mut r) = setup();
    let t = r.new_timer(&mut p, ms(0), ms(250), "first").unwrap();
    p.poll(Some(&vec![]), ms(250), &vec![]);
    actions(&mut p, &mut r, ms(250));
    r.step_into(&mut p, 0);
    r.stepped_out(&mut p, 0);
    // another timer uses the slot
    r.new_timer(&mut p, ms(250), ms(250), "second").unwrap();
    t.cancel(&mut r, &mut p);
    p.poll(Some(&vec![]), ms(500), &vec![]);
    assert_eq!(actions(&mut p, &mut r, ms(500)), vec!["Enter(0)", "Finished(true)"]);
}

#[test]
fn event_for_a_fiber_that_is_done_is_skipped() {
    let (mut p, mut r) = setup();
    let pos = r.new_tcp(&mut p, 0).ok().unwrap();
    p.poll(Some(&vec![r.id_of(pos)]), ms(0), &vec![]);
    assert!(matches!(r.run(&mut p, RunStage::Ready, ms(0)).1, RunAction::Enter(0)));
    begin(&mut p, &mut r, pos);
    r.finish(pos, None);
    r.stepped_out(&mut p, pos);
    assert_eq!(actions(&mut p, &mut r, ms(0)), vec!["Finished(false)"]);
}

#[test]
fn timer_reference_that_is_dropped_cancels_its_timer() {
    let (mut p, mut r) = setup();
    let t = r.new_timer(&mut p, ms(0), ms(600), "late").unwrap();
    assert_eq!(t.id(), 0);
    t.cancel(&mut r, &mut p);
    assert!(!p.poll(Some(&vec![]), ms(9000), &vec![]));
    assert_eq!(actions(&mut p, &mut r, ms(9000)), vec!["Finished(false)"]);
    assert_eq!(r.new_tcp(&mut p, 0).ok(), Some(0));
}

#[test]
fn fiber_timer_runs_its_fiber_without_a_socket() {
    let (mut p, mut r) = setup();
    assert!(r.new_fiber_timer(&mut p, ms(0), ms(250), 9).is_some());
    p.poll(Some(&vec![]), ms(250), &vec![]);
    assert_eq!(actions(&mut p, &mut r, ms(250)), vec!["Enter(0)", "Finished(false)"]);
    assert_eq!(begin(&mut p, &mut r, 0), 9);
    let f: Fiber<u32, &'static str> = Fiber::new(r.number(), 0);
    assert_eq!(f.read(&mut r, 1, IoResult::Failed), IoStep::Failed(Error::NoSocket));
    assert_eq!(f.write(&mut r, 1, IoResult::Failed), IoStep::Failed(Error::NoSocket));
    assert_eq!(f.flush(&r), Err(Error::NoSocket));
}

fn reply(d: u8) -> Vec<u8> {
    let mut m = vec![0, 7, 0x81, 0x80, 0, 1, 0, 1, 0, 0, 0, 0];
    m.extend_from_slice(b"\x01a\x01b\x00\x00\x01\x00\x01");
    m.extend_from_slice(b"\xc0\x0c\x00\x01\x00\x01\x00\x00\x00\x3c\x00\x04");
    m.extend_from_slice(&[10, 0, 0, d]);
    m
}

#[test]
fn empty_domain_is_refused() {
    let (mut p, mut r) = setup();
    assert_eq!(
        r.new_resolve_connect(&mut p, ms(0), "", ms(3000), 0),
        Err(Error::EmptyDomain)
    );
    assert_eq!(r.fiber_count(), 0);
}

#[test]
fn lookup_over_a_socket_connects_the_fiber() {
    let (mut p, mut r) = setup();
    let pos = r.new_resolve_connect(&mut p, ms(0), "a.b", ms(3000), 5).ok().unwrap();
    let how = r
        .lookup_started(&mut p, pos, LookupStart::Socket, SocketType::Tcp, 80, "a.b")
        .ok()
        .unwrap();
    let id = r.id_of(pos);
    assert_eq!(how, Some(Registration { id, ready: Ready::Readable, again: false }));
    assert_eq!(r.sock_of(pos), FiberSock::Udp);
    assert!(r.awaits_address(pos));
    p.poll(Some(&vec![id]), ms(20), &vec![]);
    assert_eq!(actions(&mut p, &mut r, ms(20)), vec!["ReadReply(0)", "Finished(false)"]);
    assert_eq!(r.dns_reply(&mut p, pos, &[1, 2, 3]), None);
    assert!(r.awaits_address(pos));
    let address = Ipv4 { a: 10, b: 0, c: 0, d: 9 };
    let to = Connect { pos, address, port: 80, st: SocketType::Tcp };
    assert_eq!(r.dns_reply(&mut p, pos, &reply(9)), Some(to));
    assert!(!r.awaits_address(pos));
    let how = Registration { id, ready: Ready::Writable, again: false };
    assert_eq!(r.connect_done(pos, Some(SocketType::Tcp)), Some(how));
    assert_eq!(r.sock_of(pos), FiberSock::Tcp);
    // the tick of the lookup is gone
    assert!(!p.poll(Some(&vec![]), ms(9000), &vec![]));
    p.poll(Some(&vec![id]), ms(9001), &vec![]);
    assert_eq!(actions(&mut p, &mut r, ms(9001)), vec!["Enter(0)", "Finished(false)"]);
    assert_eq!(begin(&mut p, &mut r, pos), 5);
}

#[test]
fn fiber_that_can_not_be_connected_runs_without_a_socket() {
    let (mut p, mut r) = setup();
    let pos = r.new_resolve_connect(&mut p, ms(0), "a.b", ms(3000), 5).ok().unwrap();
    r.lookup_started(&mut p, pos, LookupStart::Socket, SocketType::Tcp, 80, "a.b").ok();
    assert!(r.dns_reply(&mut p, pos, &reply(9)).is_some());
    assert_eq!(r.connect_done(pos, None), None);
    assert_eq!(begin(&mut p, &mut r, pos), 5);
    assert_eq!(r.write(pos, 1, IoResult::Failed), IoStep::Failed(Error::NoSocket));
}

#[test]
fn lookup_that_nobody_answers_is_repeated_and_then_runs_the_fiber() {
    let (mut p, mut r) = setup();
    // three ticks
    let pos = r.new_resolve_connect(&mut p, ms(0), "a.b", ms(999), 5).ok().unwrap();
    r.lookup_started(&mut p, pos, LookupStart::Socket, SocketType::Tcp, 80, "a.b").ok();
    p.poll(Some(&vec![]), ms(250), &vec![]);
    assert_eq!(
        actions(&mut p, &mut r, ms(250)),
        vec!["Resend { pos: 0, attempt: 2, host: \"a.b\" }", "Finished(false)"]
    );
    p.poll(Some(&vec![]), ms(500), &vec![]);
    assert_eq!(
        actions(&mut p, &mut r, ms(500)),
        vec!["Resend { pos: 0, attempt: 1, host: \"a.b\" }", "Finished(false)"]
    );
    p.poll(Some(&vec![]), ms(750), &vec![]);
    assert_eq!(actions(&mut p, &mut r, ms(750)), vec!["Enter(0)", "Finished(false)"]);
    assert_eq!(r.sock_of(pos), FiberSock::Empty);
    assert_eq!(begin(&mut p, &mut r, pos), 5);
    assert_eq!(r.read(pos, 1, IoResult::Failed), IoStep::Failed(Error::NoSocket));
}

#[test]
fn lookup_ticks_are_bounded() {
    let (mut p, mut r) = setup();
    // at least one tick
    let pos = r.new_resolve_connect(&mut p, ms(0), "a.b", ms(1), 5).ok().unwrap();
    r.lookup_started(&mut p, pos, LookupStart::Elsewhere, SocketType::Udp, 53, "a.b").ok();
    p.poll(Some(&vec![]), ms(250), &vec![]);
    assert_eq!(actions(&mut p, &mut r, ms(250)), vec!["Enter(0)", "Finished(false)"]);
    // and at most 255
    let pos = r.new_resolve_connect(&mut p, ms(0), "a.b", ms(1_000_000), 5).ok().unwrap();
    r.lookup_started(&mut p, pos, LookupStart::Elsewhere, SocketType::Udp, 53, "a.b").ok();
    for i in 0..254 {
        let now = ms(500 + i * 250);
        p.poll(Some(&vec![]), now, &vec![]);
        assert_eq!(actions(&mut p, &mut r, now), vec!["Ticked(1)", "Finished(false)"]);
    }
    p.poll(Some(&vec![]), ms(500 + 254 * 250), &vec![]);
    assert_eq!(
        actions(&mut p, &mut r, ms(500 + 254 * 250)),
        vec!["Enter(1)", "Finished(false)"]
    );
}

#[test]
fn lookup_that_runs_elsewhere_connects_the_fiber() {
    let (mut p, mut r) = setup();
    let pos = r.new_resolve_connect(&mut p, ms(0), "a.b", ms(3000), 5).ok().unwrap();
    let how = r.lookup_started(&mut p, pos, LookupStart::Elsewhere, SocketType::Udp, 53, "a.b");
    assert_eq!(how, Ok(None));
    assert_eq!(r.sock_of(pos), FiberSock::Empty);
    let address = Ipv4 { a: 10, b: 0, c: 0, d: 9 };
    p.poll(Some(&vec![]), ms(1), &vec![(r.id_of(pos), r.generation_of(pos), address)]);
    let (stage, action) = r.run(&mut p, RunStage::Ready, ms(1));
    assert_eq!(stage, RunStage::Lookups);
    let to = Connect { pos, address, port: 53, st: SocketType::Udp };
    assert!(matches!(action, RunAction::Connect(c) if c == to));
    assert!(r.connect_done(pos, Some(SocketType::Udp)).is_some());
    assert_eq!(r.sock_of(pos), FiberSock::Udp);
}

#[test]
fn late_lookup_does_not_reach_the_next_fiber_in_the_slot() {
    let (mut p, mut r) = setup();
    let pos = r.new_resolve_connect(&mut p, ms(0), "a.b", ms(3000), 5).ok().unwrap();
    let started = (r.id_of(pos), r.generation_of(pos), Ipv4 { a: 10, b: 0, c: 0, d: 9 });
    assert_eq!(
        r.lookup_started(&mut p, pos, LookupStart::Failed, SocketType::Tcp, 80, "a.b"),
        Err(Error::System)
    );
    let next = r.new_resolve_connect(&mut p, ms(0), "c.d", ms(3000), 6).ok().unwrap();
    assert_eq!(next, pos);
    r.lookup_started(&mut p, next, LookupStart::Elsewhere, SocketType::Tcp, 80, "c.d").ok();
    p.poll(Some(&vec![]), ms(1), &vec![started]);
    assert_eq!(actions(&mut p, &mut r, ms(1)), vec!["Finished(false)"]);
    assert!(r.awaits_address(next));
}

#[test]
fn child_whose_lookup_can_not_begin_is_gone() {
    let (mut p, mut r) = setup();
    let parent = r.new_tcp(&mut p, 0).ok().unwrap();
    begin(&mut p, &mut r, parent);
    let f: Fiber<u32, &'static str> = Fiber::new(r.number(), parent);
    let pos = f.join_resolve_connect(&mut r, &mut p, ms(0), "a.b", ms(3000), 5).ok().unwrap();
    let kept = f.join_tcp(&mut r, &mut p, 6).ok().unwrap();
    assert!(matches!(f.get_child(&mut r, &mut p), Child::Wait));
    r.lookup_started(&mut p, pos, LookupStart::Failed, SocketType::Tcp, 80, "a.b").ok();
    // the other child is still there
    assert!(matches!(f.get_child(&mut r, &mut p), Child::Wait));
    begin(&mut p, &mut r, kept);
    r.finish(kept, None);
    r.stepped_out(&mut p, kept);
    assert!(matches!(f.get_child(&mut r, &mut p), Child::Finished));
    assert!(!p.poll(Some(&vec![]), ms(9000), &vec![]));
    assert_eq!(f.new_resolve_connect(&mut r, &mut p, ms(0), "a.b", ms(1), 5), Ok(pos));
    assert_eq!(f.new_tcp(&mut r, &mut p, 0), Ok(kept));
    assert_eq!(f.new_udp(&mut r, &mut p, 0), Ok(3));
    assert_eq!(f.new_listener(&mut r, &mut p, 0, true), Ok(4));
    // none of these is a child
    assert!(matches!(f.get_child(&mut r, &mut p), Child::Finished));
}

#[test]
fn run_takes_ready_fibers_before_lookups_and_timers() {
    let (mut p, mut r) = setup();
    let waits = r.new_resolve_connect(&mut p, ms(0), "a.b", ms(3000), 5).ok().unwrap();
    r.lookup_started(&mut p, waits, LookupStart::Elsewhere, SocketType::Tcp, 80, "a.b").ok();
    r.new_timer(&mut p, ms(0), ms(250), "late").unwrap();
    let ready = r.new_tcp(&mut p, 1).ok().unwrap();
    let found = vec![(r.id_of(waits), 0, Ipv4 { a: 1, b: 2, c: 3, d: 4 })];
    p.poll(Some(&vec![r.id_of(ready)]), ms(300), &found);
    let all = actions(&mut p, &mut r, ms(300));
    assert_eq!(all.len(), 5);
    assert_eq!(all[0], "Enter(2)");
    assert_eq!(all[1], "Enter(2)");
    assert!(all[2].starts_with("Connect"));
    assert_eq!(all[3], "Enter(1)");
    assert_eq!(all[4], "Finished(false)");
}

#[test]
fn runner_does_not_know_slots_that_it_does_not_have() {
    let (mut p, mut r) = setup();
    assert!(r.knows(&p));
    p.poll(Some(&vec![fiber_id(0, 3)]), ms(0), &vec![]);
    assert!(!r.knows(&p));
    assert!(!r.can_enter(3));
    for _ in 0..4 {
        r.new_tcp(&mut p, 0).ok();
    }
    assert!(r.knows(&p));
}

/// A proxy: a listener accepts a connection, the fiber on it has a child that looks a host
/// up, connects and streams what it reads, and writes each piece to its own socket.
#[test]
fn proxied_request() {
    let (mut p, mut r) = setup();
    let n = r.number();
    let acceptor = r.new_listener(&mut p, 1, true).ok().unwrap();
    assert_eq!(actions(&mut p, &mut r, ms(0)), vec!["Enter(0)", "Finished(false)"]);
    begin(&mut p, &mut r, acceptor);
    let listener: Fiber<u32, &'static str> = Fiber::new(n, acceptor);
    assert_eq!(listener.accept_tcp(&r, IoResult::WouldBlock), IoStep::Wait(None));
    assert_eq!(r.stepped_out(&mut p, acceptor), None);

    // somebody connects
    p.poll(Some(&vec![r.id_of(acceptor)]), ms(10), &vec![]);
    assert_eq!(actions(&mut p, &mut r, ms(10)), vec!["Enter(0)", "Finished(false)"]);
    assert_eq!(r.step_into(&mut p, acceptor), Entry::Resume);
    assert_eq!(listener.accept_tcp(&r, IoResult::Done(1)), IoStep::Done(1));
    let serving = listener.new_tcp(&mut r, &mut p, 2).ok().unwrap();
    listener.accept_tcp(&r, IoResult::WouldBlock);
    r.stepped_out(&mut p, acceptor);

    // the fiber on the connection starts a child and waits for it
    assert_eq!(actions(&mut p, &mut r, ms(10)), vec!["Enter(1)", "Finished(false)"]);
    assert_eq!(begin(&mut p, &mut r, serving), 2);
    let server: Fiber<u32, &'static str> = Fiber::new(n, serving);
    let child = server
        .join_resolve_connect(&mut r, &mut p, ms(10), "a.b", ms(3000), 3)
        .ok()
        .unwrap();
    r.lookup_started(&mut p, child, LookupStart::Socket, SocketType::Tcp, 80, "a.b").ok();
    assert!(matches!(server.get_child(&mut r, &mut p), Child::Wait));
    r.stepped_out(&mut p, serving);

    // the name server answers, and the child is connected
    p.poll(Some(&vec![r.id_of(child)]), ms(20), &vec![]);
    assert_eq!(actions(&mut p, &mut r, ms(20)), vec!["ReadReply(2)", "Finished(false)"]);
    assert!(r.dns_reply(&mut p, child, &reply(1)).is_some());
    assert!(r.connect_done(child, Some(SocketType::Tcp)).is_some());
    p.poll(Some(&vec![r.id_of(child)]), ms(30), &vec![]);
    assert_eq!(actions(&mut p, &mut r, ms(30)), vec!["Enter(2)", "Finished(false)"]);
    assert_eq!(begin(&mut p, &mut r, child), 3);
    let client: Fiber<u32, &'static str> = Fiber::new(n, child);
    assert_eq!(client.write(&mut r, 50, IoResult::Done(50)), IoStep::Done(50));

    // it reads in pieces and streams them to its parent
    for piece in ["HTTP/1.1 200 OK", "body"].iter() {
        assert_eq!(client.read(&mut r, 500, IoResult::Done(15)), IoStep::Done(15));
        client.resp_chunk(&mut r, piece);
        assert_eq!(r.stepped_out(&mut p, child), Some(serving));
        assert_eq!(r.step_into(&mut p, serving), Entry::Resume);
        assert!(matches!(server.get_child(&mut r, &mut p), Child::Result(got) if got == *piece));
        assert_eq!(server.write(&mut r, 15, IoResult::Done(15)), IoStep::Done(15));
        assert!(matches!(server.get_child(&mut r, &mut p), Child::Wait));
        assert_eq!(r.stepped_out(&mut p, serving), None);
        assert_eq!(actions(&mut p, &mut r, ms(30)), vec!["Enter(2)", "Finished(false)"]);
        assert_eq!(r.step_into(&mut p, child), Entry::Resume);
    }

    // the other side closes
    assert_eq!(client.read(&mut r, 500, IoResult::Done(0)), IoStep::Failed(Error::SocketClosed));
    r.finish(child, Some("done"));
    assert_eq!(r.stepped_out(&mut p, child), Some(serving));
    assert_eq!(r.step_into(&mut p, serving), Entry::Resume);
    assert!(matches!(server.get_child(&mut r, &mut p), Child::Result("done")));
    assert!(matches!(server.get_child(&mut r, &mut p), Child::Finished));
    r.finish(serving, None);
    assert_eq!(r.stepped_out(&mut p, serving), None);
    assert_eq!(actions(&mut p, &mut r, ms(30)), vec!["Finished(false)"]);
    assert_eq!(r.get_response(&mut p), None);
}
