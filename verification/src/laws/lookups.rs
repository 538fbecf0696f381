//! Fibers that wait for an address.
use crate::dns_message::Ipv4;
use crate::error::Error;
use crate::poller::PollerView;
use crate::runner::io::{IoResult, IoStep};
use crate::runner::run::{Connect, RunAction, RunStage};
use crate::runner::RunnerView;
use crate::slot::FiberSock;
use vstd::prelude::*;

verus! {

/// A tick of a lookup either leaves one tick fewer, and the fiber goes on waiting for the
/// same address, or the last one is over and the fiber is run without a socket.
pub proof fn law_lookup_ticks_down<P, R>(
    v: RunnerView<P, R>,
    p: PollerView,
    pos: usize,
    now: nat,
    after: RunnerView<P, R>,
    p_after: PollerView,
    action: RunAction,
)
    requires
        v.has(pos),
        v.fibers[pos as int].connect is Some,
        v.timer_step(p, pos, now, after, p_after, action),
    ensures
        v.fibers[pos as int].timed_out > 1 ==> {
            &&& !(action is Enter)
            &&& after.fibers[pos as int].timed_out == v.fibers[pos as int].timed_out - 1
            &&& after.fibers[pos as int].connect == v.fibers[pos as int].connect
        },
        v.fibers[pos as int].timed_out <= 1 ==> {
            &&& action == RunAction::Enter(pos)
            &&& after.fibers[pos as int].connect is None
            &&& after.fibers[pos as int].sock is Empty
        },
{
}

/// A lookup that nobody answers ends after as many ticks as fit into the time that it was
/// given, at least one and at most 255: on that tick, and on none before it, the fiber is
/// run.
pub proof fn law_unanswered_lookup_runs_the_fiber<P, R>(
    before: Seq<RunnerView<P, R>>,
    after: Seq<RunnerView<P, R>>,
    p: Seq<PollerView>,
    p_after: Seq<PollerView>,
    now: Seq<nat>,
    actions: Seq<RunAction>,
    pos: usize,
    to: nat,
)
    requires
        before.len() == crate::runner::lookup_ticks(to),
        forall|i: int|
            0 <= i < before.len() ==> (#[trigger] before[i]).has(pos) && before[i].timer_step(
                p[i],
                pos,
                now[i],
                after[i],
                p_after[i],
                actions[i],
            ),
        forall|i: int|
            0 < i < before.len() ==> (#[trigger] before[i]).fibers[pos as int] == after[i
                - 1].fibers[pos as int],
        before[0].fibers[pos as int].connect is Some,
        before[0].fibers[pos as int].timed_out == crate::runner::lookup_ticks(to),
    ensures
        forall|i: int| 0 <= i < before.len() - 1 ==> !(#[trigger] actions[i] is Enter),
        actions[before.len() - 1] == RunAction::Enter(pos),
        after[before.len() - 1].fibers[pos as int].sock is Empty,
{
    let n = before.len() as int;
    assert forall|i: int| 0 <= i < n implies (#[trigger] before[i]).fibers[pos as int].connect is Some
        && before[i].fibers[pos as int].timed_out == n - i by {
        lemma_ticks(before, after, p, p_after, now, actions, pos, i);
    }
    assert forall|i: int| 0 <= i < n - 1 implies !(#[trigger] actions[i] is Enter) by {
        assert(before[i].has(pos));
        assert(before[i].fibers[pos as int].timed_out == n - i);
    }
    assert(before[n - 1].has(pos));
    assert(before[n - 1].fibers[pos as int].timed_out == 1);
}

proof fn lemma_ticks<P, R>(
    before: Seq<RunnerView<P, R>>,
    after: Seq<RunnerView<P, R>>,
    p: Seq<PollerView>,
    p_after: Seq<PollerView>,
    now: Seq<nat>,
    actions: Seq<RunAction>,
    pos: usize,
    i: int,
)
    requires
        0 <= i < before.len(),
        forall|i: int|
            0 <= i < before.len() ==> (#[trigger] before[i]).has(pos) && before[i].timer_step(
                p[i],
                pos,
                now[i],
                after[i],
                p_after[i],
                actions[i],
            ),
        forall|i: int|
            0 < i < before.len() ==> (#[trigger] before[i]).fibers[pos as int] == after[i
                - 1].fibers[pos as int],
        before[0].fibers[pos as int].connect is Some,
        before[0].fibers[pos as int].timed_out == before.len(),
    ensures
        before[i].fibers[pos as int].connect is Some,
        before[i].fibers[pos as int].timed_out == before.len() - i,
    decreases i,
{
    if i > 0 {
        lemma_ticks(before, after, p, p_after, now, actions, pos, i - 1);
        assert(before[i - 1].has(pos));
        assert(before[i].fibers[pos as int] == after[i - 1].fibers[pos as int]);
        law_lookup_ticks_down(
            before[i - 1],
            p[i - 1],
            pos,
            now[i - 1],
            after[i - 1],
            p_after[i - 1],
            actions[i - 1],
        );
    }
}

/// Whatever it tries, a fiber without a socket fails: to read, to write, to accept, to
/// flush, and to hibernate until it can read.
pub proof fn law_operations_without_a_socket_fail<P, R>(
    v: RunnerView<P, R>,
    pos: usize,
    n: usize,
    got: IoResult,
)
    requires
        v.has(pos),
        v.fibers[pos as int].sock is Empty,
    ensures
        crate::runner::io::after_read(v.fibers[pos as int], n, got) == IoStep::Failed(
            Error::NoSocket,
        ),
        crate::runner::io::after_write(v.fibers[pos as int], n, got) == IoStep::Failed(
            Error::NoSocket,
        ),
        v.after_accept(pos, got) == IoStep::Failed(Error::NotListening),
        v.fibers[pos as int].sock.stream(Error::ListenFlush) == Err::<(), Error>(Error::NoSocket),
        v.fibers[pos as int].wakes_on_read() is Err,
{
}

/// A fiber that could not be connected has no socket.
pub proof fn law_unconnected_fiber_has_no_socket<P, R>(v: RunnerView<P, R>, pos: usize)
    requires
        v.has(pos),
    ensures
        v.addressed(pos).fibers[pos as int].sock is Empty,
        v.addressed(pos).fibers[pos as int].connect is None,
        v.addressed(pos).fibers[pos as int].wtoken is None,
        !(v.addressed(pos).fibers[pos as int].wait is Start),
{
}

/// A slot that is used again counts its generation up: a lookup that was begun for the
/// fiber before is not for the fiber that is in the slot now.
pub proof fn law_late_lookup_is_not_for_the_next_fiber<P, R>(
    v: RunnerView<P, R>,
    func: bool,
    sock: FiberSock,
    param: Option<P>,
    parent: Option<usize>,
    address: Ipv4,
)
    requires
        v.in_range(),
        v.has_room(),
        v.free.len() > 0,
        parent matches Some(q) ==> v.has(q),
    ensures
        !v.registered(func, sock, param, parent).lookup_current(
            (v.next_slot(), v.fibers[v.next_slot() as int].generation, address),
        ),
{
    let pos = v.next_slot() as int;
    assert(v.free[0] < v.fibers.len());
    assert(v.registered(func, sock, param, parent).fibers[pos].generation
        == v.fibers[pos].generation + 1);
}

/// A fiber is connected only to an address that was found for it: one of the lookups that
/// have come back has its slot, its generation and that address, and the fiber waits for
/// one.
pub proof fn law_fiber_gets_its_own_address<P, R>(
    v: RunnerView<P, R>,
    p: PollerView,
    stage: RunStage,
    now: nat,
    after: RunnerView<P, R>,
    p_after: PollerView,
    stage_after: RunStage,
    to: Connect,
)
    requires
        v.run_step(p, stage, now, after, p_after, stage_after, RunAction::Connect(to)),
    ensures
        v.awaits_address(to.pos),
        p.lookups[v.pos as int].contains(
            (to.pos, v.fibers[to.pos as int].generation, to.address),
        ),
{
    let found = p.lookups[v.pos as int];
    lemma_next_lookup(v, found, 0);
    let i = v.next_lookup(found, 0);
    assert(0 <= i < found.len() && found[i] == (
        to.pos,
        v.fibers[to.pos as int].generation,
        to.address,
    ));
}

pub(crate) proof fn lemma_next_lookup<P, R>(
    v: RunnerView<P, R>,
    found: Seq<crate::poller::Lookup>,
    from: int,
)
    requires
        0 <= from,
    ensures
        v.next_lookup(found, from) >= from,
        v.next_lookup(found, from) < found.len() ==> v.lookup_current(
            found[v.next_lookup(found, from)],
        ),
    decreases found.len() - from,
{
    if from < found.len() && !v.lookup_current(found[from]) {
        lemma_next_lookup(v, found, from + 1);
    }
}

/// A run asks for something at most once for each entry that is queued for the runner: with
/// every step but the last, what is queued gets shorter.
pub proof fn law_run_steps_use_up_what_is_queued<P, R>(
    v: RunnerView<P, R>,
    p: PollerView,
    stage: RunStage,
    now: nat,
    after: RunnerView<P, R>,
    p_after: PollerView,
    stage_after: RunStage,
    action: RunAction,
)
    requires
        p.ok(),
        v.in_range(),
        v.run_step(p, stage, now, after, p_after, stage_after, action),
        !(action is Finished),
    ensures
        queued(p_after, v.pos as int) < queued(p, v.pos as int),
{
    let r = v.pos as int;
    let found = p.lookups[r];
    let fired = p.timedout[r];
    lemma_next_ready(v, p.toexec[r], 0);
    lemma_next_lookup(v, found, 0);
    lemma_next_timer(v, fired, 0);
}

/// How much is queued for the runner `r`.
pub open spec fn queued(p: PollerView, r: int) -> nat {
    p.toexec[r].len() + p.lookups[r].len() + p.timedout[r].len()
}

pub(crate) proof fn lemma_next_ready<P, R>(v: RunnerView<P, R>, ready: Seq<usize>, from: int)
    requires
        0 <= from,
    ensures
        v.next_ready(ready, from) >= from,
        v.next_ready(ready, from) < ready.len() ==> v.takes_turn(
            ready[v.next_ready(ready, from)],
        ),
    decreases ready.len() - from,
{
    if from < ready.len() && !v.takes_turn(ready[from]) {
        lemma_next_ready(v, ready, from + 1);
    }
}

pub(crate) proof fn lemma_next_timer<P, R>(
    v: RunnerView<P, R>,
    fired: Seq<crate::poller::Fired>,
    from: int,
)
    requires
        0 <= from,
    ensures
        v.next_timer(fired, from) >= from,
        v.next_timer(fired, from) < fired.len() ==> v.timer_current(
            fired[v.next_timer(fired, from)],
        ),
        forall|k: int|
            from <= k < fired.len() && v.timer_current(#[trigger] fired[k]) ==> v.next_timer(
                fired,
                from,
            ) <= k,
    decreases fired.len() - from,
{
    if from < fired.len() && !v.timer_current(fired[from]) {
        lemma_next_timer(v, fired, from + 1);
    }
}

} // verus!
