//! A run of a runner: what is taken from which queue, in which order, and what comes of it.
use crate::laws::steps::{can_run, only_slot_changes};
use crate::poller::PollerView;
use crate::runner::run::{Connect, RunAction, RunStage};
use crate::runner::{LookupStart, RunnerView};
use crate::slot::{ConnectView, FiberSock, FiberView, FiberWait, Ready, Registration, SocketType};
use vstd::prelude::*;

verus! {

/// The fiber was started to wait for an address, and still does.
pub open spec fn looks_up<P, R>(f: FiberView<P, R>) -> bool {
    f.connect is Some && f.wait == FiberWait::Start
}

/// The fiber can go on when its socket is signalled or it was queued to be run.
pub open spec fn goes_on<P, R>(f: FiberView<P, R>) -> bool {
    can_run(f) && (f.wait == FiberWait::Open || f.wait == FiberWait::Socket)
}

/// There is something to do for a fiber that is ready.
pub open spec fn has_turn<P, R>(f: FiberView<P, R>) -> bool {
    looks_up(f) || goes_on(f)
}

/// A timer that has fired is the one that the fiber waits for: for its start, for the next
/// tick of its lookup, or for the end of a wait.
pub open spec fn waits_for_timer<P, R>(f: FiberView<P, R>, token: crate::wheel::Token) -> bool {
    &&& f.wtoken == Some(token)
    &&& can_run(f)
    &&& f.wait == FiberWait::Start || f.wait == FiberWait::Socket
}

/// No fiber that is ready has a turn.
pub open spec fn no_turn_left<P, R>(v: RunnerView<P, R>, p: PollerView) -> bool {
    forall|k: int|
        0 <= k < p.toexec[v.pos as int].len() ==> !has_turn(
            v.fibers[(#[trigger] p.toexec[v.pos as int][k]) as int],
        )
}

/// A lookup that has come back is for the fiber that is in its slot.
pub open spec fn is_for<P, R>(v: RunnerView<P, R>, l: crate::poller::Lookup) -> bool {
    looks_up(v.fibers[l.0 as int]) && v.fibers[l.0 as int].generation == l.1
}

/// No lookup that has come back is for a fiber that is there.
pub open spec fn no_lookup_left<P, R>(v: RunnerView<P, R>, p: PollerView) -> bool {
    forall|k: int|
        0 <= k < p.lookups[v.pos as int].len() ==> !is_for(v, #[trigger] p.lookups[v.pos as int][k])
}

/// No timer that has fired is one that a fiber waits for.
pub open spec fn no_timer_left<P, R>(v: RunnerView<P, R>, p: PollerView) -> bool {
    forall|k: int|
        0 <= k < p.timedout[v.pos as int].len() ==> !waits_for_timer(
            v.fibers[(#[trigger] p.timedout[v.pos as int][k]).0 as int],
            p.timedout[v.pos as int][k].1,
        )
}

proof fn lemma_first_ready<P, R>(v: RunnerView<P, R>, ready: Seq<usize>, from: int, k: int)
    requires
        0 <= from <= k <= ready.len(),
        forall|j: int| 0 <= j < ready.len() ==> (#[trigger] ready[j]) < v.fibers.len(),
        forall|j: int| from <= j < k ==> !has_turn(v.fibers[(#[trigger] ready[j]) as int]),
        k < ready.len() ==> has_turn(v.fibers[ready[k] as int]),
    ensures
        v.next_ready(ready, from) == k,
    decreases k - from,
{
    if from < k {
        assert(!has_turn(v.fibers[ready[from] as int]));
        lemma_first_ready(v, ready, from + 1, k);
    }
}

proof fn lemma_first_lookup<P, R>(
    v: RunnerView<P, R>,
    found: Seq<crate::poller::Lookup>,
    from: int,
    k: int,
)
    requires
        0 <= from <= k <= found.len(),
        forall|j: int| from <= j < k ==> !is_for(v, #[trigger] found[j]),
        k < found.len() ==> is_for(v, found[k]),
    ensures
        v.next_lookup(found, from) == k,
    decreases k - from,
{
    if from < k {
        assert(!is_for(v, found[from]));
        lemma_first_lookup(v, found, from + 1, k);
    }
}

proof fn lemma_first_timer<P, R>(
    v: RunnerView<P, R>,
    fired: Seq<crate::poller::Fired>,
    from: int,
    k: int,
)
    requires
        0 <= from <= k <= fired.len(),
        forall|j: int|
            from <= j < k ==> !waits_for_timer(
                v.fibers[(#[trigger] fired[j]).0 as int],
                fired[j].1,
            ),
        k < fired.len() ==> waits_for_timer(v.fibers[fired[k].0 as int], fired[k].1),
    ensures
        v.next_timer(fired, from) == k,
    decreases k - from,
{
    if from < k {
        assert(!waits_for_timer(v.fibers[fired[from].0 as int], fired[from].1));
        lemma_first_timer(v, fired, from + 1, k);
    }
}

/// A run takes the fibers that are ready in the order in which they were queued: the first
/// that has a turn gets it, and those before it are taken from the queue for nothing. Nothing
/// else changes, and the run goes on with the fibers that are ready.
pub proof fn law_ready_fibers_have_their_turn_in_order<P, R>(
    v: RunnerView<P, R>,
    p: PollerView,
    k: int,
    now: nat,
    after: RunnerView<P, R>,
    p_after: PollerView,
    stage_after: RunStage,
    action: RunAction,
)
    requires
        v.in_range(),
        p.ok(),
        v.knows(p),
        0 <= k < p.toexec[v.pos as int].len(),
        has_turn(v.fibers[p.toexec[v.pos as int][k] as int]),
        forall|j: int|
            0 <= j < k ==> !has_turn(v.fibers[(#[trigger] p.toexec[v.pos as int][j]) as int]),
        v.run_step(p, RunStage::Ready, now, after, p_after, stage_after, action),
    ensures
        ({
            let r = v.pos as int;
            let pos = p.toexec[r][k];
            let f = v.fibers[pos as int];
            &&& action == (if looks_up(f) {
                RunAction::ReadReply(pos)
            } else {
                RunAction::Enter(pos)
            })
            &&& stage_after == RunStage::Ready
            &&& after == v
            &&& p_after.toexec[r] == p.toexec[r].subrange(k + 1, p.toexec[r].len() as int)
            &&& only_queue_of(p, p_after, r)
            &&& p_after.lookups == p.lookups
            &&& p_after.timedout == p.timedout
            &&& p_after.wheel == p.wheel
        }),
{
    let r = v.pos as int;
    assert forall|j: int| 0 <= j < p.toexec[r].len() implies (#[trigger] p.toexec[r][j])
        < v.fibers.len() by {}
    lemma_first_ready(v, p.toexec[r], 0, k);
    assert(p.toexec[r].skip(k + 1) =~= p.toexec[r].subrange(k + 1, p.toexec[r].len() as int));
}

/// What the poller has for other runners, its stacks and its servers are as they were.
pub open spec fn only_queue_of(p: PollerView, q: PollerView, r: int) -> bool {
    &&& q.toexec.len() == p.toexec.len()
    &&& q.lookups.len() == p.lookups.len()
    &&& q.timedout.len() == p.timedout.len()
    &&& forall|i: int| 0 <= i < p.toexec.len() && i != r ==> #[trigger] q.toexec[i] == p.toexec[i]
    &&& forall|i: int|
        0 <= i < p.lookups.len() && i != r ==> #[trigger] q.lookups[i] == p.lookups[i]
    &&& forall|i: int|
        0 <= i < p.timedout.len() && i != r ==> #[trigger] q.timedout[i] == p.timedout[i]
    &&& q.free_stacks == p.free_stacks
    &&& q.stacks == p.stacks
    &&& q.stack_size == p.stack_size
    &&& q.servers == p.servers
}

/// When no fiber that is ready has a turn, the lookups that have come back are next, in their
/// order: the first that is for the fiber in its slot has that fiber connected, to the
/// address that was found and to the port and by the type of socket that were asked for. The
/// fiber then waits for its socket, without the timer of the lookup.
pub proof fn law_lookups_come_next_in_order<P, R>(
    v: RunnerView<P, R>,
    p: PollerView,
    stage: RunStage,
    k: int,
    now: nat,
    after: RunnerView<P, R>,
    p_after: PollerView,
    stage_after: RunStage,
    action: RunAction,
)
    requires
        v.in_range(),
        p.ok(),
        v.knows(p),
        stage == RunStage::Lookups || (stage == RunStage::Ready && no_turn_left(v, p)),
        0 <= k < p.lookups[v.pos as int].len(),
        is_for(v, p.lookups[v.pos as int][k]),
        forall|j: int| 0 <= j < k ==> !is_for(v, #[trigger] p.lookups[v.pos as int][j]),
        v.run_step(p, stage, now, after, p_after, stage_after, action),
    ensures
        ({
            let r = v.pos as int;
            let pos = p.lookups[r][k].0;
            let f = v.fibers[pos as int];
            &&& stage_after == RunStage::Lookups
            &&& action matches RunAction::Connect(to) && {
                &&& to.pos == pos
                &&& to.address == p.lookups[r][k].2
                &&& f.connect matches Some(cp) && to.port == cp.port && to.st == cp.st
            }
            &&& only_slot_changes(v, after, pos)
            &&& after.fibers[pos as int] == waits_for_connect(f)
            &&& p_after.lookups[r] == p.lookups[r].subrange(k + 1, p.lookups[r].len() as int)
            &&& p_after.toexec[r] == (if stage == RunStage::Ready {
                Seq::<usize>::empty()
            } else {
                p.toexec[r]
            })
            &&& p_after.timedout == p.timedout
            &&& only_queue_of(p, p_after, r)
            &&& p_after.wheel == without_timer(p.wheel, f.wtoken)
        }),
{
    let r = v.pos as int;
    if stage == RunStage::Ready {
        let ready = p.toexec[r];
        assert forall|j: int| 0 <= j < ready.len() implies (#[trigger] ready[j]) < v.fibers.len() by {
            assert(p.toexec[r][j] < v.fibers.len());
        }
        assert forall|j: int| 0 <= j < ready.len() implies !has_turn(
            v.fibers[(#[trigger] ready[j]) as int],
        ) by {
            assert(!has_turn(v.fibers[p.toexec[r][j] as int]));
        }
        lemma_first_ready(v, ready, 0, ready.len() as int);
        assert(ready.skip(ready.len() as int) =~= Seq::empty());
    }
    lemma_first_lookup(v, p.lookups[r], 0, k);
    assert(v.has(p.lookups[r][k].0));
    assert(p.lookups[r].skip(k + 1) =~= p.lookups[r].subrange(k + 1, p.lookups[r].len() as int));
}

/// The fiber when it has its address and is to be connected.
pub open spec fn waits_for_connect<P, R>(f: FiberView<P, R>) -> FiberView<P, R> {
    FiberView {
        sock: FiberSock::Empty,
        ready: Ready::Empty,
        timed_out: 0,
        wtoken: None,
        connect: None,
        wait: FiberWait::Socket,
        ..f
    }
}

/// The wheel without the timer `token`, if there is one.
pub open spec fn without_timer(
    w: crate::wheel::WheelView,
    token: Option<crate::wheel::Token>,
) -> crate::wheel::WheelView {
    match token {
        Some(t) => crate::wheel::WheelView { timers: w.timers.remove(t), ..w },
        None => w,
    }
}

/// When no lookup that has come back is left, the timers that have fired are next, in their
/// order: the first that a fiber waits for is taken, and what follows is what that timer was
/// for. Those before it are taken for nothing.
pub proof fn law_timers_come_last_in_order<P, R>(
    v: RunnerView<P, R>,
    p: PollerView,
    stage: RunStage,
    k: int,
    now: nat,
    after: RunnerView<P, R>,
    p_after: PollerView,
    stage_after: RunStage,
    action: RunAction,
)
    requires
        v.in_range(),
        p.ok(),
        v.knows(p),
        stage == RunStage::Ready ==> no_turn_left(v, p),
        stage != RunStage::Timers ==> no_lookup_left(v, p),
        0 <= k < p.timedout[v.pos as int].len(),
        waits_for_timer(
            v.fibers[p.timedout[v.pos as int][k].0 as int],
            p.timedout[v.pos as int][k].1,
        ),
        forall|j: int|
            0 <= j < k ==> !waits_for_timer(
                v.fibers[(#[trigger] p.timedout[v.pos as int][j]).0 as int],
                p.timedout[v.pos as int][j].1,
            ),
        v.run_step(p, stage, now, after, p_after, stage_after, action),
    ensures
        ({
            let r = v.pos as int;
            let pos = p.timedout[r][k].0;
            let f = v.fibers[pos as int];
            &&& stage_after == RunStage::Timers
            &&& only_slot_changes(v, after, pos)
            &&& p_after.timedout[r] == p.timedout[r].subrange(k + 1, p.timedout[r].len() as int)
            &&& p_after.lookups[r] == (if stage == RunStage::Timers {
                p.lookups[r]
            } else {
                Seq::<crate::poller::Lookup>::empty()
            })
            &&& p_after.toexec[r] == (if stage == RunStage::Ready {
                Seq::<usize>::empty()
            } else {
                p.toexec[r]
            })
            &&& only_queue_of(p, p_after, r)
            &&& timer_taken_for(f, pos, after.fibers[pos as int], action)
            &&& f.connect is None || f.timed_out <= 1 ==> p_after.wheel == p.wheel
            &&& f.connect is Some && f.timed_out > 1 ==> exists|q: PollerView|
                q.wheel == p.wheel && #[trigger] q.armed_as(
                    after.fibers[pos as int].wtoken,
                    f.me,
                    250_000_000,
                    now,
                    p_after,
                )
        }),
{
    let r = v.pos as int;
    lemma_nothing_ready(v, p, stage);
    lemma_first_timer(v, p.timedout[r], 0, k);
    assert(v.has(p.timedout[r][k].0));
    assert(p.timedout[r].skip(k + 1) =~= p.timedout[r].subrange(k + 1, p.timedout[r].len() as int));
    let idle = if stage == RunStage::Ready {
        p.exec_popped(r, p.toexec[r].len() as int)
    } else {
        p
    };
    let q = if stage == RunStage::Timers {
        idle
    } else {
        idle.lookups_popped(r, p.lookups[r].len() as int)
    };
    assert(p.toexec[r].skip(p.toexec[r].len() as int) =~= Seq::empty());
    assert(p.lookups[r].skip(p.lookups[r].len() as int) =~= Seq::empty());
    let f = v.fibers[p.timedout[r][k].0 as int];
    if f.connect is Some && f.timed_out > 1 {
        let taken = q.timedout_popped(r, k + 1);
        assert(taken.wheel == p.wheel);
        assert(taken.armed_as(
            after.fibers[p.timedout[r][k].0 as int].wtoken,
            f.me,
            250_000_000,
            now,
            p_after,
        ));
    }
}

proof fn lemma_nothing_ready<P, R>(v: RunnerView<P, R>, p: PollerView, stage: RunStage)
    requires
        v.in_range(),
        p.ok(),
        v.knows(p),
        stage == RunStage::Ready ==> no_turn_left(v, p),
        stage != RunStage::Timers ==> no_lookup_left(v, p),
    ensures
        stage == RunStage::Ready ==> v.next_ready(p.toexec[v.pos as int], 0)
            == p.toexec[v.pos as int].len(),
        stage != RunStage::Timers ==> v.next_lookup(p.lookups[v.pos as int], 0)
            == p.lookups[v.pos as int].len(),
{
    let r = v.pos as int;
    if stage == RunStage::Ready {
        let ready = p.toexec[r];
        assert forall|j: int| 0 <= j < ready.len() implies (#[trigger] ready[j]) < v.fibers.len()
            && !has_turn(v.fibers[ready[j] as int]) by {
            assert(p.toexec[r][j] < v.fibers.len());
            assert(!has_turn(v.fibers[p.toexec[r][j] as int]));
        }
        lemma_first_ready(v, ready, 0, ready.len() as int);
    }
    if stage != RunStage::Timers {
        let found = p.lookups[r];
        assert forall|j: int| 0 <= j < found.len() implies !is_for(v, #[trigger] found[j]) by {
            assert(!is_for(v, p.lookups[r][j]));
        }
        lemma_first_lookup(v, found, 0, found.len() as int);
    }
}

/// What the timer of the fiber `f` in the slot `pos` was for. A lookup that has time left has
/// one tick less of it, and is made once more for the same host if the fiber looks up over its
/// own socket, with the number of ticks that are left. A lookup that has none left is over:
/// the fiber is run without a socket. Any other fiber is run, and has timed out.
pub open spec fn timer_taken_for<P, R>(
    f: FiberView<P, R>,
    pos: usize,
    g: FiberView<P, R>,
    action: RunAction,
) -> bool {
    match f.connect {
        Some(cp) if f.timed_out > 1 => {
            &&& g.timed_out == f.timed_out - 1
            &&& g == (FiberView { timed_out: g.timed_out, wtoken: g.wtoken, ..f })
            &&& f.sock == FiberSock::Udp ==> {
                action matches RunAction::Resend { pos: to, attempt, host } && to == pos && attempt
                    == f.timed_out - 1 && host@ == cp.host
            }
            &&& f.sock != FiberSock::Udp ==> action == RunAction::Ticked(pos)
        },
        Some(cp) => {
            &&& g == (FiberView {
                sock: FiberSock::Empty,
                wtoken: None,
                connect: None,
                timed_out: 0,
                wait: FiberWait::Open,
                ..f
            })
            &&& action == RunAction::Enter(pos)
        },
        None => {
            &&& g == (FiberView { wtoken: None, timed_out: 1, wait: FiberWait::Open, ..f })
            &&& action == RunAction::Enter(pos)
        },
    }
}

/// A run is over when nothing is left that was queued for the runner, and says whether there
/// is something for the main stack. Nothing but the queues has changed.
pub proof fn law_run_ends_when_nothing_is_left<P, R>(
    v: RunnerView<P, R>,
    p: PollerView,
    stage: RunStage,
    now: nat,
    after: RunnerView<P, R>,
    p_after: PollerView,
    stage_after: RunStage,
    action: RunAction,
)
    requires
        v.in_range(),
        p.ok(),
        v.knows(p),
        stage == RunStage::Ready ==> no_turn_left(v, p),
        stage != RunStage::Timers ==> no_lookup_left(v, p),
        no_timer_left(v, p),
        v.run_step(p, stage, now, after, p_after, stage_after, action),
    ensures
        action == RunAction::Finished(v.tomain.len() > 0 || v.results.len() > 0),
        after == v,
        only_queue_of(p, p_after, v.pos as int),
        p_after.wheel == p.wheel,
        p_after.timedout[v.pos as int].len() == 0,
        stage != RunStage::Timers ==> p_after.lookups[v.pos as int].len() == 0,
        stage == RunStage::Ready ==> p_after.toexec[v.pos as int].len() == 0,
{
    let r = v.pos as int;
    lemma_nothing_ready(v, p, stage);
    let fired = p.timedout[r];
    assert forall|j: int| 0 <= j < fired.len() implies !waits_for_timer(
        v.fibers[(#[trigger] fired[j]).0 as int],
        fired[j].1,
    ) by {
        assert(!waits_for_timer(v.fibers[p.timedout[r][j].0 as int], p.timedout[r][j].1));
    }
    lemma_first_timer(v, fired, 0, fired.len() as int);
}

/// A fiber is connected to the port, and by the type of socket, that its lookup was started
/// for, whichever port that is and wherever the lookup ran: when a reply gives an address, and
/// when a run takes a lookup that has come back. The address is the one that was found.
///
/// `w` is the runner then, with the fiber still to be connected as it was when its lookup
/// began.
pub proof fn law_fiber_is_connected_to_what_was_asked_for<P, R>(
    v: RunnerView<P, R>,
    pos: usize,
    begun: LookupStart,
    st: SocketType,
    port: u16,
    domain: Seq<char>,
    w: RunnerView<P, R>,
    p: PollerView,
    reply: Seq<u8>,
    to: Option<Connect>,
    after: RunnerView<P, R>,
    p_after: PollerView,
    stage: RunStage,
    now: nat,
    ran: RunnerView<P, R>,
    p_ran: PollerView,
    stage_after: RunStage,
    action: RunAction,
)
    requires
        v.has(pos),
        begun != LookupStart::Failed,
        w.has(pos),
        w.fibers[pos as int].connect == v.lookup_begun(pos, begun, st, port, domain).fibers[
        pos as int].connect,
        w.replied(p, pos, reply, to, after, p_after),
        w.run_step(p, stage, now, ran, p_ran, stage_after, action),
    ensures
        to matches Some(c) ==> c.pos == pos && c.port == port && c.st == st && Some(c.address)
            == crate::dns_message::first_address(reply),
        to is None <==> crate::dns_message::first_address(reply) is None,
        action matches RunAction::Connect(c) ==> (c.pos == pos ==> c.port == port && c.st == st),
{
}

/// What a lookup was started for is kept until the fiber is to be connected or the lookup has
/// timed out: no step of a run changes it but one that connects or enters this fiber.
pub proof fn law_port_is_kept_while_the_lookup_lasts<P, R>(
    v: RunnerView<P, R>,
    pos: usize,
    p: PollerView,
    stage: RunStage,
    now: nat,
    after: RunnerView<P, R>,
    p_after: PollerView,
    stage_after: RunStage,
    action: RunAction,
    other: usize,
)
    requires
        v.in_range(),
        p.ok(),
        v.knows(p),
        v.has(pos),
        v.has(other),
        v.run_step(p, stage, now, after, p_after, stage_after, action),
        !(action matches RunAction::Connect(c) && c.pos == pos),
        action != RunAction::Enter(pos),
    ensures
        after.fibers[pos as int].connect == v.fibers[pos as int].connect,
        other != pos ==> {
            &&& v.left(other).fibers[pos as int].connect == v.fibers[pos as int].connect
            &&& v.entered(p, other).fibers[pos as int].connect == v.fibers[pos as int].connect
            &&& v.addressed(other).fibers[pos as int].connect == v.fibers[pos as int].connect
        },
{
    let r = v.pos as int;
    crate::laws::lookups::lemma_next_lookup(v, p.lookups[r], 0);
    crate::laws::lookups::lemma_next_timer(v, p.timedout[r], 0);
}

/// A lookup that has begun leaves the fiber with what it is to be connected to, and with the
/// host to ask for again if it looks up over its own socket, which is registered for reads.
/// Nothing else changes. Where it could not begin, that is an error of the system.
pub proof fn law_lookup_begins<P, R>(
    v: RunnerView<P, R>,
    pos: usize,
    st: SocketType,
    port: u16,
    domain: Seq<char>,
)
    requires
        v.has(pos),
    ensures
        ({
            let w = v.lookup_begun(pos, LookupStart::Elsewhere, st, port, domain);
            &&& only_slot_changes(v, w, pos)
            &&& w.fibers[pos as int] == (FiberView {
                connect: Some(ConnectView { port, st, host: Seq::empty() }),
                ..v.fibers[pos as int]
            })
            &&& v.lookup_registers(pos, LookupStart::Elsewhere) == Ok::<
                Option<Registration>,
                crate::error::Error,
            >(None)
        }),
        ({
            let w = v.lookup_begun(pos, LookupStart::Socket, st, port, domain);
            &&& only_slot_changes(v, w, pos)
            &&& w.fibers[pos as int] == (FiberView {
                connect: Some(ConnectView { port, st, host: domain }),
                sock: FiberSock::Udp,
                ready: Ready::Readable,
                ..v.fibers[pos as int]
            })
            &&& v.lookup_registers(pos, LookupStart::Socket) == Ok::<
                Option<Registration>,
                crate::error::Error,
            >(
                Some(
                    Registration {
                        id: v.fibers[pos as int].me,
                        ready: Ready::Readable,
                        again: v.fibers[pos as int].ready != Ready::Empty,
                    },
                ),
            )
        }),
        v.lookup_registers(pos, LookupStart::Failed) == Err::<
            Option<Registration>,
            crate::error::Error,
        >(crate::error::Error::System),
{
}

/// A fiber that has its address waits for its socket, without a lookup, a timer and a socket,
/// and nothing else changes. When it was connected it has a socket of the type that was asked
/// for, registered for writes under its id; where it could not be it has none.
pub proof fn law_fiber_is_connected<P, R>(
    v: RunnerView<P, R>,
    p: PollerView,
    pos: usize,
    reply: Seq<u8>,
    to: Option<Connect>,
    after: RunnerView<P, R>,
    p_after: PollerView,
)
    requires
        v.has(pos),
        v.replied(p, pos, reply, to, after, p_after),
    ensures
        to is Some ==> {
            &&& only_slot_changes(v, after, pos)
            &&& after.fibers[pos as int] == waits_for_connect(v.fibers[pos as int])
            &&& p_after == (PollerView {
                wheel: without_timer(p.wheel, v.fibers[pos as int].wtoken),
                ..p
            })
        },
        to is None ==> after == v && p_after == p,
        ({
            let how = Registration {
                id: v.fibers[pos as int].me,
                ready: Ready::Writable,
                again: v.fibers[pos as int].ready != Ready::Empty,
            };
            &&& only_slot_changes(v, v.connected(pos, Some(SocketType::Tcp)), pos)
            &&& v.connected(pos, Some(SocketType::Tcp)).fibers[pos as int] == (FiberView {
                sock: FiberSock::Tcp,
                ready: Ready::Writable,
                ..v.fibers[pos as int]
            })
            &&& v.connect_registers(pos, Some(SocketType::Tcp)) == Some(how)
            &&& only_slot_changes(v, v.connected(pos, Some(SocketType::Udp)), pos)
            &&& v.connected(pos, Some(SocketType::Udp)).fibers[pos as int] == (FiberView {
                sock: FiberSock::Udp,
                ready: Ready::Writable,
                ..v.fibers[pos as int]
            })
            &&& v.connect_registers(pos, Some(SocketType::Udp)) == Some(how)
            &&& v.connected(pos, None) == v
            &&& v.connect_registers(pos, None) is None
        }),
{
}

/// A lookup may take as many ticks of 250 milliseconds as fit into the time that it was given,
/// but at least one and at most 255.
pub proof fn law_lookup_lasts_as_long_as_it_may(to: nat)
    ensures
        ({
            let ticks = crate::runner::lookup_ticks(to) as nat;
            &&& 1 <= ticks <= 255
            &&& to >= 250_000_000 ==> ticks * 250_000_000 <= to
            &&& to < 64_000_000_000 ==> to < (ticks + 1) * 250_000_000
            &&& to >= 63_750_000_000 ==> ticks == 255
        }),
{
}

} // verus!
