//! Fibers from their start to their end: timers, results, calls of the main stack,
//! hibernation, stacks and slots.
use crate::dns_message::Ipv4;
use crate::error::Error;
use crate::poller::{PollerView, Stack, StackNeed};
use crate::runner::io::{IoResult, IoStep};
use crate::runner::run::{RunAction, RunStage};
use crate::runner::{Entry, RunnerView};
use crate::slot::{FiberSock, FiberView, Ready};
use crate::wheel::Token;
use vstd::prelude::*;

verus! {

/// When the timer of a response fires the response is one for the main stack, once, and
/// nothing of the timer is left: its slot is free.
///
/// `v` is the runner when it fires, with the timer as it was started.
pub proof fn law_timer_returns_its_response<P, R>(
    before: RunnerView<P, R>,
    poller: PollerView,
    start: nat,
    dur: nat,
    resp: R,
    pos: usize,
    token: Token,
    started: RunnerView<P, R>,
    poller_started: PollerView,
    v: RunnerView<P, R>,
    p: PollerView,
    now: nat,
    after: RunnerView<P, R>,
    p_after: PollerView,
    action: RunAction,
)
    requires
        before.in_range(),
        before.has_room(),
        crate::runner::timer_started(
            before,
            poller,
            start,
            false,
            dur,
            None,
            Some(resp),
            Some((pos, token)),
            started,
            poller_started,
        ),
        v.has(pos),
        v.fibers[pos as int] == started.fibers[pos as int],
        v.timer_step(p, pos, now, after, p_after, action),
    ensures
        action == RunAction::Enter(pos),
        after.can_enter(pos),
        after.entry(p_after, pos) is Ended,
        ({
            let done = after.entered(p_after, pos).left(pos);
            &&& done.results == v.results.push((resp, None))
            &&& done.free == v.free.push(pos)
            &&& done.tomain == v.tomain
            &&& done.fibers[pos as int].result is None
            &&& done.fibers[pos as int].wtoken is None
            &&& !done.can_enter(pos)
        }),
        after.entered(p_after, pos).wakes(pos) is None,
{
    let placed = before.registered(false, FiberSock::Empty, None, None);
    if before.free.len() > 0 {
        assert(before.free[0] < before.fibers.len());
    }
    assert(placed.fibers[pos as int] == before.fresh(false, FiberSock::Empty, None, None));
    assert(started.fibers[pos as int].parent is None);
}

/// When the timer of a fiber fires the fiber begins, with the parameter that it was
/// started with, and without a socket.
///
/// `v` is the runner when it fires, with the timer as it was started.
pub proof fn law_fiber_timer_runs_its_fiber<P, R>(
    before: RunnerView<P, R>,
    poller: PollerView,
    start: nat,
    dur: nat,
    param: P,
    pos: usize,
    token: Token,
    started: RunnerView<P, R>,
    poller_started: PollerView,
    v: RunnerView<P, R>,
    p: PollerView,
    now: nat,
    after: RunnerView<P, R>,
    p_after: PollerView,
    action: RunAction,
)
    requires
        before.in_range(),
        before.has_room(),
        crate::runner::timer_started(
            before,
            poller,
            start,
            true,
            dur,
            Some(param),
            None,
            Some((pos, token)),
            started,
            poller_started,
        ),
        v.has(pos),
        v.fibers[pos as int] == started.fibers[pos as int],
        v.timer_step(p, pos, now, after, p_after, action),
    ensures
        action == RunAction::Enter(pos),
        after.can_enter(pos),
        after.entry(p_after, pos) == Entry::Begin(p_after.next_stack()),
        after.fibers[pos as int].param == Some(param),
        after.fibers[pos as int].sock is Empty,
{
    let placed = before.registered(true, FiberSock::Empty, Some(param), None);
    if before.free.len() > 0 {
        assert(before.free[0] < before.fibers.len());
    }
    assert(placed.fibers[pos as int] == before.fresh(true, FiberSock::Empty, Some(param), None));
}

/// A timer that is cancelled before it has run leaves nothing to run and nothing to report,
/// and its slot is free. Only this timer is cancelled.
pub proof fn law_cancelled_timer_is_gone<P, R>(
    v: RunnerView<P, R>,
    p: PollerView,
    pos: usize,
    token: Token,
)
    requires
        v.has(pos),
        v.fibers[pos as int].wtoken == Some(token),
    ensures
        v.dropped(pos).free == v.free.push(pos),
        v.dropped(pos).fibers[pos as int].result is None,
        v.dropped(pos).fibers[pos as int].wtoken is None,
        !v.dropped(pos).can_enter(pos),
        v.dropped(pos).results == v.results,
        !p.cancelled(Some(token)).wheel.timers.contains_key(token),
        forall|t: Token|
            t != token && p.wheel.timers.contains_key(t) ==> #[trigger] p.cancelled(
                Some(token),
            ).wheel.timers.contains_key(t),
{
}

/// The results of a fiber without a parent go to the main stack: when it is back there,
/// its result, if it has one, is the last of those that wait. The slot of a fiber that is
/// done is free. One that is not done is to be run on when its result is received there.
pub proof fn law_results_go_to_main<P, R>(v: RunnerView<P, R>, p: PollerView, pos: usize)
    requires
        v.in_range(),
        v.has(pos),
        v.fibers[pos as int].parent is None,
    ensures
        v.wakes(pos) is None,
        v.left(pos).fibers[pos as int].result is None,
        v.left_poller(p, pos).toexec == p.toexec,
        v.fibers[pos as int].state is Closed ==> v.left(pos).free == v.free.push(pos),
        !(v.fibers[pos as int].state is Closed) ==> v.left(pos).free == v.free,
        v.left(pos).results == (match v.fibers[pos as int].result {
            Some(r) => v.results.push(
                (
                    r,
                    if v.fibers[pos as int].state is Closed {
                        None
                    } else {
                        Some(pos)
                    },
                ),
            ),
            None => v.results,
        }),
{
}

/// A fiber without a parent that gives an intermediate result can not be entered until the
/// main stack has received it; then it is to be run on.
///
/// `w` is the runner when the result is the next to be received, with the fiber as it was.
pub proof fn law_chunk_blocks_until_main_has_it<P, R>(
    v: RunnerView<P, R>,
    pos: usize,
    chunk: R,
    w: RunnerView<P, R>,
    p: PollerView,
)
    requires
        v.in_range(),
        v.has(pos),
        p.ok(),
        v.fibers[pos as int].parent is None,
        v.fibers[pos as int].state is Stacked,
        v.fibers[pos as int].stack is Some,
        w.in_range(),
        w.has(pos),
        w.fibers[pos as int] == v.chunk_given(pos, chunk).left(pos).fibers[pos as int],
        w.results.len() > 0,
        w.results[0] == (chunk, Some(pos)),
    ensures
        v.chunk_given(pos, chunk).left(pos).results == v.results.push((chunk, Some(pos))),
        !v.chunk_given(pos, chunk).left(pos).can_enter(pos),
        !w.can_enter(pos),
        w.received().results == w.results.drop_first(),
        w.received().can_enter(pos),
        w.received_poller(p) == p.exec_pushed(w.pos as int, pos),
{
}

/// A fiber that calls the main stack and keeps its stack can not be entered until the main
/// stack resumes it. It then gets what the main stack resumes it with, and is to be run.
///
/// `w` is the runner when it is resumed, with the fiber as it was.
pub proof fn law_join_main_gets_the_response<P, R>(
    v: RunnerView<P, R>,
    pos: usize,
    w: RunnerView<P, R>,
    p: PollerView,
    resp: Option<R>,
)
    requires
        v.has(pos),
        w.in_range(),
        w.has(pos),
        p.ok(),
        v.fibers[pos as int].state is Stacked,
        v.fibers[pos as int].stack is Some,
        w.fibers[pos as int] == v.called_main(pos).fibers[pos as int],
    ensures
        v.called_main(pos).tomain.last() == pos,
        v.called_main(pos).signaled(),
        !v.called_main(pos).can_enter(pos),
        !w.can_enter(pos),
        w.resumed(pos, resp).can_enter(pos),
        w.resumed(pos, resp).fibers[pos as int].answer == resp,
        w.resumed(pos, resp).fibers[pos as int].result == w.fibers[pos as int].result,
        w.resumed_poller(p, pos).toexec[w.pos as int] == p.toexec[w.pos as int].push(pos),
{
}

/// A fiber that hibernates until the main stack resumes it does not get the response.
pub proof fn law_hibernated_fiber_gets_no_response<P, R>(
    v: RunnerView<P, R>,
    pos: usize,
    resp: Option<R>,
)
    requires
        v.has(pos),
    ensures
        !v.hibernates(pos).called_main(pos).can_enter(pos),
        v.hibernates(pos).called_main(pos).resumed(pos, resp).fibers[pos as int].answer is None,
        v.hibernates(pos).called_main(pos).resumed(pos, resp).fibers[pos as int].wait is Open,
{
}

/// A fiber that hibernates until its socket can be read leaves its stack to the next fiber
/// that needs one, and begins from the start when it is entered, with the parameter that
/// was kept for it. Its socket is registered for reads.
pub proof fn law_hibernated_fiber_begins_again<P, R>(
    v: RunnerView<P, R>,
    p: PollerView,
    pos: usize,
    stack: usize,
)
    requires
        v.has(pos),
        v.fibers[pos as int].func,
        v.fibers[pos as int].stack == Some(stack),
        v.fibers[pos as int].param is Some,
        v.fibers[pos as int].wakes_on_read() is Ok,
    ensures
        ({
            let off = v.sleeps(pos).left(pos);
            let q = v.sleeps(pos).left_poller(p, pos);
            &&& off.fibers[pos as int].stack is None
            &&& off.fibers[pos as int].param == v.fibers[pos as int].param
            &&& off.fibers[pos as int].sock == v.fibers[pos as int].sock
            &&& off.fibers[pos as int].ready is Readable
            &&& q.next_stack() == (Stack { number: stack, need: StackNeed::Reuse })
            &&& off.can_enter(pos)
            &&& forall|later: PollerView| #[trigger]
                off.entry(later, pos) == Entry::Begin(later.next_stack())
        }),
{
    let q = v.sleeps(pos).left_poller(p, pos);
    assert(q.free_stacks[0] == stack);
}

/// A fiber that could not hibernate keeps its stack: an operation of it that would block
/// blocks as ever, and when the wait is over the fiber goes on where it left off. This is so
/// whether its socket can not be registered or the registration has failed.
pub proof fn law_failed_hibernation_keeps_the_stack<P, R>(
    v: RunnerView<P, R>,
    pos: usize,
    token: Option<Token>,
)
    requires
        v.has(pos),
        v.fibers[pos as int].func,
        v.fibers[pos as int].state is Stacked,
        v.fibers[pos as int].stack is Some,
    ensures
        ({
            let failed = v.sleeps(pos).stays(pos);
            let blocked = v.wait_timed(pos, token).left(pos);
            let blocked_too = failed.wait_timed(pos, token).left(pos);
            &&& failed.fibers[pos as int].state is Stacked
            &&& blocked.fibers[pos as int].stack == v.fibers[pos as int].stack
            &&& blocked_too.fibers[pos as int].stack == v.fibers[pos as int].stack
            &&& forall|later: PollerView| #[trigger] blocked.entry(later, pos) is Resume
            &&& forall|later: PollerView| #[trigger] blocked_too.entry(later, pos) is Resume
        }),
{
}

/// A fiber whose operation would block is woken by its socket: the socket is registered
/// under the id of the fiber, a poll that reports this id queues the fiber with its runner,
/// and when its turn comes the fiber is entered.
///
/// `q` is the poller when the fiber is the first that is ready.
pub proof fn law_blocked_fiber_is_woken_by_its_socket<P, R>(
    v: RunnerView<P, R>,
    pos: usize,
    ready: Ready,
    p: PollerView,
    ids: Seq<u64>,
    tokens: Seq<Token>,
    found: Seq<(u64, usize, Ipv4)>,
    now: nat,
    q: PollerView,
    after: RunnerView<P, R>,
    q_after: PollerView,
    stage_after: RunStage,
    action: RunAction,
)
    requires
        v.in_range(),
        v.has(pos),
        p.ok(),
        v.can_enter(pos),
        !v.awaits_address(pos),
        ids.contains(v.fibers[pos as int].me),
        q.toexec[v.pos as int].len() > 0,
        q.toexec[v.pos as int][0] == pos,
        v.run_step(q, RunStage::Ready, now, after, q_after, stage_after, action),
    ensures
        crate::runner::io::wait_for(v.fibers[pos as int], ready) matches IoStep::Wait(Some(how))
            ==> how.id == v.fibers[pos as int].me && how.ready == ready,
        p.polled(ids, tokens, found, now).toexec[v.pos as int].contains(pos),
        action == RunAction::Enter(pos),
{
    assert(v.slot_in_range(pos as int));
    crate::laws::events::law_signalled_fiber_is_queued(p, ids, v.pos);
    assert(p.polled(ids, tokens, found, now).toexec == p.with_events(ids).toexec);
    assert(ids.contains(crate::ids::fiber_id_of(v.pos, pos)));
}

/// A socket can be waited for whatever it is: an operation that would block on a plain
/// socket or on a TLS stream has the fiber wait.
pub proof fn law_blocking_operations_wait<P, R>(f: FiberView<P, R>, n: usize, ready: Ready)
    requires
        f.sock is Tcp || f.sock is Udp || f.sock is Tls,
    ensures
        crate::runner::io::wait_for(f, ready) is Wait,
        crate::runner::io::after_read(f, n, IoResult::WouldBlock) is Wait,
        crate::runner::io::after_write(f, n, IoResult::WouldBlock) is Wait,
        f.wakes_on_read() is Ok,
{
}

/// A runner that is gone leaves the numbers as they were before it was started.
pub proof fn law_release_undoes_start(table: Seq<bool>, pos: int)
    requires
        crate::runner::table::first_free(table, pos),
    ensures
        table.update(pos, true).update(pos, false) == table,
{
    assert(table.update(pos, true).update(pos, false) =~= table);
}

/// Two runners that exist at the same time have different numbers.
pub proof fn law_runners_have_their_own_numbers(table: Seq<bool>, pos: int, other: int)
    requires
        crate::runner::table::first_free(table, pos),
        crate::runner::table::first_free(table.update(pos, true), other),
    ensures
        pos != other,
{
}

/// The id under which a listening socket is registered before its fiber is started is the
/// id that the fiber then has, and the fiber counts as registered for reads.
pub proof fn law_listener_is_registered_under_its_id<P, R>(
    v: RunnerView<P, R>,
    func: bool,
    param: Option<P>,
    parent: Option<usize>,
)
    requires
        v.in_range(),
        v.has_room(),
        parent matches Some(q) ==> v.has(q),
    ensures
        ({
            let f = v.registered(func, FiberSock::Listener, param, parent).fibers[v.next_slot() as int];
            f.me == v.listens_as().id && f.ready == v.listens_as().ready
        }),
{
    if v.free.len() > 0 {
        assert(v.free[0] < v.fibers.len());
    }
}

/// What is queued for a runner refers to its slots after a fiber was started, if it did
/// before.
pub proof fn law_started_fiber_is_known<P, R>(
    before: RunnerView<P, R>,
    p: PollerView,
    func: bool,
    sock: FiberSock,
    param: Option<P>,
    parent: Option<usize>,
    registered: bool,
    slot: Result<usize, Error>,
    after: RunnerView<P, R>,
    p_after: PollerView,
)
    requires
        before.in_range(),
        before.has_room(),
        p.ok(),
        before.knows(p),
        parent matches Some(q) ==> before.has(q),
        crate::runner::started(
            before,
            p,
            func,
            sock,
            param,
            parent,
            registered,
            slot,
            after,
            p_after,
        ),
    ensures
        after.knows(p_after),
{
    if before.free.len() > 0 {
        assert(before.free[0] < before.fibers.len());
    }
    let r = before.pos as int;
    assert forall|k: int| 0 <= k < p_after.toexec[r].len() implies (
    #[trigger] p_after.toexec[r][k]) < after.fibers.len() by {
        if k < p.toexec[r].len() {
            assert(p_after.toexec[r][k] == p.toexec[r][k]);
        }
    }
}

/// What is queued for a runner refers to its slots after a timer was started, if it did
/// before.
pub proof fn law_started_timer_is_known<P, R>(
    v: RunnerView<P, R>,
    p: PollerView,
    now: nat,
    func: bool,
    dur: nat,
    param: Option<P>,
    resp: Option<R>,
    slot: Option<(usize, Token)>,
    w: RunnerView<P, R>,
    q: PollerView,
)
    requires
        v.in_range(),
        v.has_room(),
        v.knows(p),
        crate::runner::timer_started(v, p, now, func, dur, param, resp, slot, w, q),
    ensures
        w.knows(q),
{
}

/// What is queued for a runner refers to its slots after a fiber was started that waits for
/// an address, if it did before.
pub proof fn law_started_lookup_is_known<P, R>(
    v: RunnerView<P, R>,
    p: PollerView,
    now: nat,
    parent: Option<usize>,
    domain: Seq<char>,
    func: bool,
    to: nat,
    param: P,
    slot: Result<usize, Error>,
    w: RunnerView<P, R>,
    q: PollerView,
)
    requires
        v.in_range(),
        v.has_room(),
        v.knows(p),
        parent matches Some(g) ==> v.has(g),
        crate::runner::resolve_started(v, p, now, parent, domain, func, to, param, slot, w, q),
    ensures
        w.knows(q),
{
    assert(w.fibers.len() >= v.fibers.len());
}

/// What is queued for a runner refers to its slots after a fiber was back on the main
/// stack or was resumed, a result was received, or a fiber has asked for a result of its
/// children, if it did before.
pub proof fn law_queues_stay_known<P, R>(
    v: RunnerView<P, R>,
    p: PollerView,
    pos: usize,
    resp: Option<R>,
)
    requires
        v.in_range(),
        v.has(pos),
        p.ok(),
        v.knows(p),
    ensures
        v.left(pos).knows(v.left_poller(p, pos)),
        v.resumed(pos, resp).knows(v.resumed_poller(p, pos)),
        v.results.len() > 0 ==> v.received().knows(v.received_poller(p)),
        v.child_step(p, pos).runner.knows(v.child_step(p, pos).poller),
{
    let r = v.pos as int;
    crate::laws::children::lemma_child_step_spares(v, p, pos);
    let s = v.child_step(p, pos).poller;
    assert forall|k: int| 0 <= k < s.toexec[r].len() implies (#[trigger] s.toexec[r][k])
        < v.fibers.len() by {
        if k < p.toexec[r].len() {
            assert(s.toexec[r][k] == p.toexec[r][k]);
        }
    }
    if v.results.len() > 0 {
        assert(v.results[0].1 matches Some(q) ==> q < v.fibers.len());
        let y = v.received_poller(p);
        assert forall|k: int| 0 <= k < y.toexec[r].len() implies (#[trigger] y.toexec[r][k])
            < v.fibers.len() by {
            if k < p.toexec[r].len() {
                assert(y.toexec[r][k] == p.toexec[r][k]);
            }
        }
    }
    let q = p.exec_pushed(r, pos);
    assert forall|k: int| 0 <= k < q.toexec[r].len() implies (#[trigger] q.toexec[r][k])
        < v.fibers.len() by {
        if k < p.toexec[r].len() {
            assert(q.toexec[r][k] == p.toexec[r][k]);
        }
    }
}

} // verus!
