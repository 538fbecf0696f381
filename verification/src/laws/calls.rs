//! What comes of calls that follow each other, and of single calls: the results that are
//! handed back, and what is then in the runner and in the poller.
use crate::dns_message::Ipv4;
use crate::duration::Duration;
use crate::error::Error;
use crate::fiber::{Fiber, FiberRef, TimerRef};
use crate::laws::sockets::{has_stream, registers};
use crate::laws::steps::{can_run, only_queued, only_slot_changes};
use crate::poller::{Poller, Stack};
use crate::runner::children::Child;
use crate::runner::io::{IoResult, IoStep, TlsResult};
use crate::runner::run::{Connect, RunAction, RunStage};
use crate::runner::{Entry, LookupStart, Runner};
use crate::slot::{FiberSock, FiberState, FiberView, FiberWait, Ready, Registration, SocketType};
use crate::wheel::Token;
use vstd::prelude::*;

verus! {

/// A fiber that reads is told of all the bytes that its socket gave, and of no others, by the
/// runner as by its handle: for every buffer and every number of bytes.
pub proof fn law_call_of_read_gives_what_came<P, R>(
    r: &mut Runner<P, R>,
    f: &Fiber<P, R>,
    s: &mut Runner<P, R>,
    wanted: usize,
    n: usize,
    step: IoStep,
    handled: IoStep,
)
    requires
        f.is_of(old(r)@),
        old(s)@ == old(r)@,
        has_stream(old(r)@.fibers[f.slot() as int]),
        call_ensures(Runner::<P, R>::read, (r, f.slot(), wanted, IoResult::Done(n)), step),
        call_ensures(Fiber::<P, R>::read, (f, s, wanted, IoResult::Done(n)), handled),
    ensures
        handled == step,
        n > 0 || wanted == 0 ==> step == IoStep::Done(n),
        n == 0 && wanted > 0 ==> step == IoStep::Failed(Error::SocketClosed),
        final(r)@ == old(r)@,
        final(s)@ == old(r)@,
{
    assert(final(r)@.fibers =~= old(r)@.fibers);
    assert(final(s)@.fibers =~= old(r)@.fibers);
}

/// A fiber that writes is told of all the bytes that its socket took, and of no others, by the
/// runner as by its handle: for every buffer and every number of bytes.
pub proof fn law_call_of_write_gives_what_was_taken<P, R>(
    r: &mut Runner<P, R>,
    f: &Fiber<P, R>,
    s: &mut Runner<P, R>,
    given: usize,
    n: usize,
    step: IoStep,
    handled: IoStep,
)
    requires
        f.is_of(old(r)@),
        old(s)@ == old(r)@,
        has_stream(old(r)@.fibers[f.slot() as int]),
        call_ensures(Runner::<P, R>::write, (r, f.slot(), given, IoResult::Done(n)), step),
        call_ensures(Fiber::<P, R>::write, (f, s, given, IoResult::Done(n)), handled),
    ensures
        handled == step,
        n > 0 || given > 0 ==> step == IoStep::Done(n),
        n == 0 && given == 0 ==> step == IoStep::Failed(Error::SocketClosed),
        final(r)@ == old(r)@,
        final(s)@ == old(r)@,
{
    assert(final(r)@.fibers =~= old(r)@.fibers);
    assert(final(s)@.fibers =~= old(r)@.fibers);
}

/// A read or a write that would block has the fiber wait: for reads or for writes, registered
/// under its id where it is not. One that a signal interrupted is made again, one that failed
/// fails, and neither changes anything.
pub proof fn law_call_that_blocks_waits<P, R>(
    f: &Fiber<P, R>,
    r: &mut Runner<P, R>,
    s: &mut Runner<P, R>,
    n: usize,
    got: IoResult,
    read: IoStep,
    written: IoStep,
)
    requires
        f.is_of(old(r)@),
        f.is_of(old(s)@),
        has_stream(old(r)@.fibers[f.slot() as int]),
        has_stream(old(s)@.fibers[f.slot() as int]),
        call_ensures(Fiber::<P, R>::read, (f, r, n, got), read),
        call_ensures(Fiber::<P, R>::write, (f, s, n, got), written),
    ensures
        got == IoResult::WouldBlock ==> {
            let a = old(r)@.fibers[f.slot() as int];
            let b = old(s)@.fibers[f.slot() as int];
            &&& registers(a, Ready::Readable, read)
            &&& registers(b, Ready::Writable, written)
            &&& only_slot_changes(old(r)@, final(r)@, f.slot())
            &&& only_slot_changes(old(s)@, final(s)@, f.slot())
            &&& final(r)@.fibers[f.slot() as int] == (FiberView { ready: Ready::Readable, ..a })
            &&& final(s)@.fibers[f.slot() as int] == (FiberView { ready: Ready::Writable, ..b })
        },
        got == IoResult::Interrupted ==> read == IoStep::Again && written == IoStep::Again,
        got == IoResult::Failed ==> read == IoStep::Failed(Error::System) && written
            == IoStep::Failed(Error::System),
{
}

/// Only a listening socket accepts, and hands on what it accepted; a socket is flushed where it
/// is a stream.
pub proof fn law_call_of_accept<P, R>(
    f: &Fiber<P, R>,
    r: &Runner<P, R>,
    got: IoResult,
    step: IoStep,
    same: IoStep,
    flushed: Result<(), Error>,
)
    requires
        f.is_of(r@),
        call_ensures(Fiber::<P, R>::accept_tcp, (f, r, got), step),
        call_ensures(Runner::<P, R>::accept_tcp, (r, f.slot(), got), same),
        call_ensures(Fiber::<P, R>::flush, (f, r), flushed),
    ensures
        same == step,
        r@.fibers[f.slot() as int].sock is Listener ==> step == (match got {
            IoResult::Done(n) => IoStep::Done(n),
            IoResult::WouldBlock => IoStep::Wait(None),
            IoResult::Interrupted => IoStep::Again,
            IoResult::Failed => IoStep::Failed(Error::System),
        }),
        !(r@.fibers[f.slot() as int].sock is Listener) ==> step == IoStep::Failed(
            Error::NotListening,
        ),
        flushed is Ok <==> has_stream(r@.fibers[f.slot() as int]),
{
}

/// A TLS handshake begins on a plain TCP socket alone, whether the fiber connects or accepts,
/// and goes on where one is under way. The socket is taken for it, and when it is through the
/// fiber has a stream that can be read and written.
pub proof fn law_call_of_tls<P, R>(
    f: &Fiber<P, R>,
    r: &mut Runner<P, R>,
    s: &mut Runner<P, R>,
    t: &mut Runner<P, R>,
    u: &mut Runner<P, R>,
    connects: Result<(), Error>,
    accepts: Result<(), Error>,
    goes_on: Result<(), Error>,
    got: TlsResult,
    step: IoStep,
)
    requires
        f.is_of(old(r)@),
        f.is_of(old(t)@),
        f.is_of(old(u)@),
        old(s)@ == old(r)@,
        call_ensures(Fiber::<P, R>::tcp_tls_connect, (f, r), connects),
        call_ensures(Fiber::<P, R>::tcp_tls_accept, (f, s), accepts),
        call_ensures(Runner::<P, R>::tls_resume, (t, f.slot()), goes_on),
        call_ensures(Runner::<P, R>::tls_handshake, (u, f.slot(), got), step),
    ensures
        connects == (if old(r)@.fibers[f.slot() as int].sock is Tcp {
            Ok::<(), Error>(())
        } else {
            Err::<(), Error>(Error::InvalidSocket)
        }),
        accepts == connects,
        goes_on == (if old(t)@.fibers[f.slot() as int].sock is TlsTemp {
            Ok::<(), Error>(())
        } else {
            Err::<(), Error>(Error::TlsFailure)
        }),
        only_slot_changes(old(r)@, final(r)@, f.slot()),
        final(r)@.fibers[f.slot() as int] == (FiberView {
            sock: FiberSock::Empty,
            ..old(r)@.fibers[f.slot() as int]
        }),
        final(s)@ == final(r)@,
        only_slot_changes(old(t)@, final(t)@, f.slot()),
        final(t)@.fibers[f.slot() as int] == (FiberView {
            sock: FiberSock::Empty,
            ..old(t)@.fibers[f.slot() as int]
        }),
        only_slot_changes(old(u)@, final(u)@, f.slot()),
        got == TlsResult::Done ==> step == IoStep::Done(0) && final(u)@.fibers[f.slot() as int].sock
            is Tls,
        got == TlsResult::Interrupted ==> step is Wait && final(u)@.fibers[f.slot() as int].sock
            is TlsTemp && final(u)@.fibers[f.slot() as int].ready is Readable,
        got == TlsResult::Failed ==> step == IoStep::Failed(Error::TlsFailure) && final(u)@
            == old(u)@,
{
}

/// A fiber that waits for its socket has a timer for its own timeout from now on, and none
/// where it has no timeout. When it is back it gives that timer up, and is told that the wait
/// took too long exactly if its timer has run; it can then wait anew.
pub proof fn law_call_that_waits_has_its_timeout<P, R>(
    r: &mut Runner<P, R>,
    p: &mut Poller,
    now: Duration,
    pos: usize,
    token: Option<Token>,
    s: &mut Runner<P, R>,
    q: &mut Poller,
    on_timeout: Error,
    waited: Result<(), Error>,
)
    requires
        old(r)@.has(pos),
        old(s)@.has(pos),
        call_ensures(Runner::<P, R>::timed_step_out, (r, p, now, pos), token),
        call_ensures(Runner::<P, R>::timed_step_in, (s, q, pos, on_timeout), waited),
    ensures
        old(r)@.fibers[pos as int].timeout matches Some(dur) ==> old(p)@.armed_as(
            token,
            old(r)@.fibers[pos as int].me,
            dur@,
            now@,
            final(p)@,
        ),
        old(r)@.fibers[pos as int].timeout is None ==> token is None && final(p)@ == old(p)@,
        only_slot_changes(old(r)@, final(r)@, pos),
        final(r)@.fibers[pos as int] == (FiberView {
            timed_out: 0,
            wtoken: token,
            wait: FiberWait::Socket,
            ..old(r)@.fibers[pos as int]
        }),
        waited == (if old(s)@.fibers[pos as int].timed_out > 0 {
            Err::<(), Error>(on_timeout)
        } else {
            Ok::<(), Error>(())
        }),
        only_slot_changes(old(s)@, final(s)@, pos),
        final(s)@.fibers[pos as int] == (FiberView {
            timed_out: 0,
            wtoken: None,
            ..old(s)@.fibers[pos as int]
        }),
        old(s)@.fibers[pos as int].wtoken is None ==> final(q)@ == old(q)@,
        old(s)@.fibers[pos as int].wtoken matches Some(t) ==> final(q)@.wheel.timers
            == old(q)@.wheel.timers.remove(t),
{
}

/// A child that returns a result, and whose parent has only its children to wait for, has the
/// parent entered when it is back on the main stack, however many children the parent has. If
/// no child before it has anything to give, asking for a result gives the parent exactly this
/// one.
///
/// The calls follow each other: the function of the child returns, the child is back on the
/// main stack, and the parent asks.
pub proof fn law_result_of_a_child_reaches_its_parent<P, R>(
    r: &mut Runner<P, R>,
    c: usize,
    result: R,
    s: &mut Runner<P, R>,
    p: &mut Poller,
    next: Option<usize>,
    parent: &Fiber<P, R>,
    t: &mut Runner<P, R>,
    q: &mut Poller,
    got: Child<R>,
    k: int,
)
    requires
        old(r).wf(),
        old(r)@.has(c),
        parent.is_of(old(r)@),
        c != parent.slot(),
        old(r)@.fibers[c as int].parent == Some(parent.slot()),
        old(r)@.fibers[parent.slot() as int].wait == FiberWait::Open,
        old(r)@.fibers[parent.slot() as int].connect is None,
        can_run(old(r)@.fibers[parent.slot() as int]),
        0 <= k < old(r)@.fibers[parent.slot() as int].children.len(),
        old(r)@.fibers[parent.slot() as int].children[k] == c,
        forall|j: int|
            0 <= j < k ==> {
                let d = #[trigger] old(r)@.fibers[parent.slot() as int].children[j];
                d != c && old(r)@.fibers[d as int].state != FiberState::Closed
                    && old(r)@.fibers[d as int].result is None
            },
        call_ensures(Runner::<P, R>::finish, (r, c, Some(result)), ()),
        old(s)@ == final(r)@,
        call_ensures(Runner::<P, R>::stepped_out, (s, p, c), next),
        old(t)@ == final(s)@,
        old(q)@ == final(p)@,
        call_ensures(Fiber::<P, R>::get_child, (parent, t, q), got),
        old(p)@.ok(),
    ensures
        next == Some(parent.slot()),
        got == Child::Result(result),
        final(t)@.fibers[c as int].result is None,
        final(t)@.results == old(r)@.results,
{
    let v = old(r)@;
    let a = final(r)@;
    let b = final(s)@;
    let kids = v.fibers[parent.slot() as int].children;
    assert(a.fibers[parent.slot() as int] == v.fibers[parent.slot() as int]);
    assert(kids.contains(c));
    crate::laws::steps::law_child_wakes_its_parent(a, c, parent.slot());
    crate::laws::steps::law_fiber_leaves_what_it_has_for_others(a, old(p)@, c);
    assert(b.fibers[parent.slot() as int].children == kids);
    assert(v.slot_in_range(parent.slot() as int));
    assert(b.in_range());
    assert forall|j: int| 0 <= j < k implies !crate::laws::children::has_something(
        b.fibers[(#[trigger] b.fibers[parent.slot() as int].children[j]) as int],
    ) by {
        let d = v.fibers[parent.slot() as int].children[j];
        assert(v.has(kids[j]));
        assert(b.fibers[d as int] == v.fibers[d as int]);
    }
    crate::laws::children::law_parent_gets_the_first_result(b, old(q)@, parent.slot(), k);
}

/// An intermediate result of a fiber without a parent is what the main stack receives, when no
/// other result waits there before it; then the fiber is queued to be run on, and not before.
pub proof fn law_intermediate_result_reaches_main<P, R>(
    f: &Fiber<P, R>,
    r: &mut Runner<P, R>,
    chunk: R,
    s: &mut Runner<P, R>,
    p: &mut Poller,
    next: Option<usize>,
    t: &mut Runner<P, R>,
    q: &mut Poller,
    response: Option<R>,
)
    requires
        f.is_of(old(r)@),
        old(r)@.fibers[f.slot() as int].parent is None,
        old(r)@.fibers[f.slot() as int].state == FiberState::Stacked,
        old(r)@.results.len() == 0,
        call_ensures(Fiber::<P, R>::resp_chunk, (f, r, chunk), ()),
        old(s)@ == final(r)@,
        call_ensures(Runner::<P, R>::stepped_out, (s, p, f.slot()), next),
        old(t)@ == final(s)@,
        old(q)@ == final(p)@,
        call_ensures(Runner::<P, R>::get_response, (t, q), response),
        0 <= old(r)@.pos < old(p)@.toexec.len(),
    ensures
        next is None,
        final(p)@.toexec == old(p)@.toexec,
        response == Some(chunk),
        final(t)@.results.len() == 0,
        only_queued(final(p)@, final(q)@, old(r)@.pos as int, f.slot()),
        final(t)@.fibers[f.slot() as int] == (FiberView {
            wait: FiberWait::Open,
            result: None,
            ..old(r)@.fibers[f.slot() as int]
        }),
{
    assert(final(s)@.results =~= seq![(chunk, Some(f.slot()))]);
}

/// A fiber that calls the main stack is handed out there, when no other waits before it; what
/// it is then resumed with is what it gets, and it is queued to be run on.
pub proof fn law_answer_of_main_reaches_its_fiber<P, R>(
    f: &Fiber<P, R>,
    r: &mut Runner<P, R>,
    s: &mut Runner<P, R>,
    handed: Option<FiberRef<P, R>>,
    by: FiberRef<P, R>,
    t: &mut Runner<P, R>,
    p: &mut Poller,
    resp: Option<R>,
    u: &mut Runner<P, R>,
    answer: Option<R>,
)
    requires
        f.is_of(old(r)@),
        old(r)@.fibers[f.slot() as int].state == FiberState::Stacked,
        old(r)@.tomain.len() == 0,
        call_ensures(Fiber::<P, R>::join_main, (f, r), ()),
        old(s)@ == final(r)@,
        call_ensures(Runner::<P, R>::get_fiber, (s,), handed),
        handed == Some(by),
        old(t)@ == final(s)@,
        call_ensures(FiberRef::<P, R>::resume_fiber, (by, t, p, resp), ()),
        old(u)@ == final(t)@,
        call_ensures(Fiber::<P, R>::main_response, (f, u), answer),
        0 <= old(r)@.pos < old(p)@.toexec.len(),
    ensures
        by.slot() == f.slot(),
        by.runner() == old(r)@.pos,
        answer == resp,
        only_queued(old(p)@, final(p)@, old(r)@.pos as int, f.slot()),
        final(u)@.tomain.len() == 0,
        final(u)@.fibers[f.slot() as int].wait == FiberWait::Open,
        final(u)@.fibers[f.slot() as int].answer is None,
{
    assert(final(r)@.tomain =~= seq![f.slot()]);
}

/// Calls of the main stack are handed out in their order, each once, and results likewise.
pub proof fn law_main_takes_what_is_first<P, R>(
    r: &mut Runner<P, R>,
    handed: Option<FiberRef<P, R>>,
    s: &mut Runner<P, R>,
    p: &mut Poller,
    response: Option<R>,
)
    requires
        call_ensures(Runner::<P, R>::get_fiber, (r,), handed),
        call_ensures(Runner::<P, R>::get_response, (s, p), response),
    ensures
        handed is None <==> old(r)@.tomain.len() == 0,
        handed matches Some(f) ==> f.slot() == old(r)@.tomain[0] && f.runner() == old(r)@.pos
            && old(r)@.tomain == seq![f.slot()] + final(r)@.tomain && final(r)@.fibers
            == old(r)@.fibers && final(r)@.results == old(r)@.results && final(r)@.free
            == old(r)@.free,
        handed is None ==> final(r)@ == old(r)@,
        response is None <==> old(s)@.results.len() == 0,
        response matches Some(x) ==> x == old(s)@.results[0].0 && old(s)@.results == seq![
            old(s)@.results[0],
        ] + final(s)@.results,
        response is None ==> final(s)@ == old(s)@ && final(p)@ == old(p)@,
{
    if old(r)@.tomain.len() > 0 {
        assert(old(r)@.tomain =~= seq![old(r)@.tomain[0]] + old(r)@.tomain.drop_first());
    }
    if old(s)@.results.len() > 0 {
        assert(old(s)@.results =~= seq![old(s)@.results[0]] + old(s)@.results.drop_first());
    }
}

/// A fiber that resolves a domain is connected to the address in the reply, and to the port
/// and by the type of socket that it asked for: every port, and every message.
///
/// The calls follow each other: the lookup began over a socket or elsewhere, and a reply came.
pub proof fn law_reply_connects_to_the_port_asked_for<P, R>(
    r: &mut Runner<P, R>,
    p: &mut Poller,
    pos: usize,
    begun: LookupStart,
    st: SocketType,
    port: u16,
    domain: &str,
    how: Result<Option<Registration>, Error>,
    s: &mut Runner<P, R>,
    q: &mut Poller,
    reply: &[u8],
    message: crate::laws::messages::Message,
    k: int,
    to: Option<Connect>,
)
    requires
        old(r)@.has(pos),
        begun != LookupStart::Failed,
        call_ensures(
            Runner::<P, R>::lookup_started,
            (r, p, pos, begun, st, port, domain),
            how,
        ),
        old(s)@ == final(r)@,
        reply@ == message.bytes(),
        message.formed(),
        message.sized(),
        0 <= k < message.answers.len(),
        message.answers[k].is_address(),
        forall|i: int| 0 <= i < k ==> !(#[trigger] message.answers[i]).is_address(),
        call_ensures(Runner::<P, R>::dns_reply, (s, q, pos, reply), to),
    ensures
        ({
            let data = message.answers[k].data;
            to == Some(
                Connect {
                    pos,
                    address: Ipv4 { a: data[0], b: data[1], c: data[2], d: data[3] },
                    port,
                    st,
                },
            )
        }),
        how is Ok,
{
    crate::laws::messages::law_reply_gives_its_first_address(message, k);
}

/// When a run asks for a fiber to be connected it is to the port and by the type of socket that
/// its lookup was started for: every port.
pub proof fn law_run_connects_to_the_port_asked_for<P, R>(
    r: &mut Runner<P, R>,
    p: &mut Poller,
    pos: usize,
    begun: LookupStart,
    st: SocketType,
    port: u16,
    domain: &str,
    how: Result<Option<Registration>, Error>,
    s: &mut Runner<P, R>,
    q: &mut Poller,
    stage: RunStage,
    now: Duration,
    next: (RunStage, RunAction),
    to: Connect,
)
    requires
        old(r)@.has(pos),
        begun != LookupStart::Failed,
        call_ensures(
            Runner::<P, R>::lookup_started,
            (r, p, pos, begun, st, port, domain),
            how,
        ),
        old(s)@.has(pos),
        old(s)@.fibers[pos as int].connect == final(r)@.fibers[pos as int].connect,
        call_ensures(Runner::<P, R>::run, (s, q, stage, now), next),
        next.1 == RunAction::Connect(to),
        to.pos == pos,
    ensures
        to.port == port,
        to.st == st,
        old(q)@.lookups[old(s)@.pos as int].contains(
            (pos, old(s)@.fibers[pos as int].generation, to.address),
        ),
{
    crate::laws::lookups::law_fiber_gets_its_own_address(
        old(s)@,
        old(q)@,
        stage,
        now@,
        final(s)@,
        final(q)@,
        next.0,
        to,
    );
}

/// A run is one step of what is queued, and what it asks to enter can be entered.
pub proof fn law_call_of_run_takes_one_step<P, R>(
    r: &mut Runner<P, R>,
    p: &mut Poller,
    stage: RunStage,
    now: Duration,
    next: (RunStage, RunAction),
)
    requires
        call_ensures(Runner::<P, R>::run, (r, p, stage, now), next),
    ensures
        old(r)@.run_step(old(p)@, stage, now@, final(r)@, final(p)@, next.0, next.1),
        next.1 matches RunAction::Enter(pos) ==> pos < final(r)@.fibers.len() && can_run(
            final(r)@.fibers[pos as int],
        ),
{
}

/// A fiber that is connected has a socket of the type that it was connected by, registered for
/// writes; one that is not connected is as it was.
pub proof fn law_call_of_connect_done<P, R>(
    r: &mut Runner<P, R>,
    pos: usize,
    by: Option<SocketType>,
    how: Option<Registration>,
)
    requires
        old(r)@.has(pos),
        call_ensures(Runner::<P, R>::connect_done, (r, pos, by), how),
    ensures
        by is None ==> how is None && final(r)@ == old(r)@,
        by matches Some(st) ==> {
            let f = old(r)@.fibers[pos as int];
            &&& how == Some(
                Registration { id: f.me, ready: Ready::Writable, again: f.ready != Ready::Empty },
            )
            &&& only_slot_changes(old(r)@, final(r)@, pos)
            &&& final(r)@.fibers[pos as int] == (FiberView {
                sock: if st == SocketType::Tcp {
                    FiberSock::Tcp
                } else {
                    FiberSock::Udp
                },
                ready: Ready::Writable,
                ..f
            })
        },
{
}

/// What starts a fiber on a socket starts it on that socket, with its function and its
/// parameter, and without a parent; what joins one starts it as a child of the fiber that
/// joins it.
pub proof fn law_fibers_are_started_as_asked<P, R>(
    f: &Fiber<P, R>,
    r: &mut Runner<P, R>,
    p: &mut Poller,
    param: P,
    slot: Result<usize, Error>,
    s: &mut Runner<P, R>,
    q: &mut Poller,
    joined: Result<usize, Error>,
)
    requires
        call_ensures(Fiber::<P, R>::new_tcp, (f, r, p, param), slot) || call_ensures(
            Runner::<P, R>::new_tcp,
            (r, p, param),
            slot,
        ),
        call_ensures(Fiber::<P, R>::join_tcp, (f, s, q, param), joined),
    ensures
        slot == Ok::<usize, Error>(old(r)@.next_slot()),
        final(r)@ == old(r)@.registered(true, FiberSock::Tcp, Some(param), None),
        final(p)@ == old(p)@.exec_pushed(old(r)@.pos as int, old(r)@.next_slot()),
        joined == Ok::<usize, Error>(old(s)@.next_slot()),
        final(s)@ == old(s)@.registered(true, FiberSock::Tcp, Some(param), Some(f.slot())),
        final(q)@ == old(q)@.exec_pushed(old(s)@.pos as int, old(s)@.next_slot()),
{
}

/// The same for UDP sockets.
pub proof fn law_udp_fibers_are_started_as_asked<P, R>(
    f: &Fiber<P, R>,
    r: &mut Runner<P, R>,
    p: &mut Poller,
    param: P,
    slot: Result<usize, Error>,
    s: &mut Runner<P, R>,
    q: &mut Poller,
    joined: Result<usize, Error>,
)
    requires
        call_ensures(Fiber::<P, R>::new_udp, (f, r, p, param), slot) || call_ensures(
            Runner::<P, R>::new_udp,
            (r, p, param),
            slot,
        ),
        call_ensures(Fiber::<P, R>::join_udp, (f, s, q, param), joined),
    ensures
        slot == Ok::<usize, Error>(old(r)@.next_slot()),
        final(r)@ == old(r)@.registered(true, FiberSock::Udp, Some(param), None),
        final(p)@ == old(p)@.exec_pushed(old(r)@.pos as int, old(r)@.next_slot()),
        joined == Ok::<usize, Error>(old(s)@.next_slot()),
        final(s)@ == old(s)@.registered(true, FiberSock::Udp, Some(param), Some(f.slot())),
        final(q)@ == old(q)@.exec_pushed(old(s)@.pos as int, old(s)@.next_slot()),
{
}

/// The same for listening sockets, if they could be registered; where not there is no fiber.
pub proof fn law_listeners_are_started_as_asked<P, R>(
    f: &Fiber<P, R>,
    r: &mut Runner<P, R>,
    p: &mut Poller,
    param: P,
    registered: bool,
    slot: Result<usize, Error>,
)
    requires
        call_ensures(Fiber::<P, R>::new_listener, (f, r, p, param, registered), slot)
            || call_ensures(Runner::<P, R>::new_listener, (r, p, param, registered), slot),
    ensures
        registered ==> {
            &&& slot == Ok::<usize, Error>(old(r)@.next_slot())
            &&& final(r)@ == old(r)@.registered(true, FiberSock::Listener, Some(param), None)
            &&& final(p)@ == old(p)@.exec_pushed(old(r)@.pos as int, old(r)@.next_slot())
        },
        !registered ==> slot == Err::<usize, Error>(Error::System) && final(p)@ == old(p)@,
{
}

/// A lookup is started for the domain, with the time and the parameter that were given, by the
/// runner or a fiber for nobody, and by a fiber that joins it as its child.
pub proof fn law_lookups_are_started_as_asked<P, R>(
    f: &Fiber<P, R>,
    r: &mut Runner<P, R>,
    p: &mut Poller,
    now: Duration,
    domain: &str,
    timeout: Duration,
    param: P,
    slot: Result<usize, Error>,
    s: &mut Runner<P, R>,
    q: &mut Poller,
    joined: Result<usize, Error>,
)
    requires
        call_ensures(
            Fiber::<P, R>::new_resolve_connect,
            (f, r, p, now, domain, timeout, param),
            slot,
        ) || call_ensures(
            Runner::<P, R>::new_resolve_connect,
            (r, p, now, domain, timeout, param),
            slot,
        ),
        call_ensures(
            Fiber::<P, R>::join_resolve_connect,
            (f, s, q, now, domain, timeout, param),
            joined,
        ),
    ensures
        crate::runner::resolve_started(
            old(r)@,
            old(p)@,
            now@,
            None,
            domain@,
            true,
            timeout@,
            param,
            slot,
            final(r)@,
            final(p)@,
        ),
        crate::runner::resolve_started(
            old(s)@,
            old(q)@,
            now@,
            Some(f.slot()),
            domain@,
            true,
            timeout@,
            param,
            joined,
            final(s)@,
            final(q)@,
        ),
{
}

/// A timer is started with the response or the parameter that was given, for the time that was
/// asked for; the reference names its slot and its timer. Dropping the reference cancels that
/// timer if the fiber in the slot still waits for it, and else does nothing.
pub proof fn law_timers_are_started_as_asked<P, R>(
    r: &mut Runner<P, R>,
    p: &mut Poller,
    now: Duration,
    dur: Duration,
    resp: R,
    timer: Option<TimerRef<P, R>>,
    s: &mut Runner<P, R>,
    q: &mut Poller,
    param: P,
    run: Option<TimerRef<P, R>>,
    by: TimerRef<P, R>,
    t: &mut Runner<P, R>,
    u: &mut Poller,
)
    requires
        call_ensures(Runner::<P, R>::new_timer, (r, p, now, dur, resp), timer),
        call_ensures(Runner::<P, R>::new_fiber_timer, (s, q, now, dur, param), run),
        call_ensures(TimerRef::<P, R>::cancel, (by, t, u), ()),
    ensures
        crate::runner::timer_started(
            old(r)@,
            old(p)@,
            now@,
            false,
            dur@,
            None,
            Some(resp),
            match timer {
                Some(x) => Some((x.slot(), x.token())),
                None => None,
            },
            final(r)@,
            final(p)@,
        ),
        timer matches Some(x) ==> x.runner() == old(r)@.pos,
        crate::runner::timer_started(
            old(s)@,
            old(q)@,
            now@,
            true,
            dur@,
            Some(param),
            None,
            match run {
                Some(x) => Some((x.slot(), x.token())),
                None => None,
            },
            final(s)@,
            final(q)@,
        ),
        run matches Some(x) ==> x.runner() == old(s)@.pos,
        old(t)@.fibers[by.slot() as int].wtoken == Some(by.token()) ==> final(t)@
            == old(t)@.dropped(by.slot()) && final(u)@ == old(u)@.cancelled(Some(by.token())),
        old(t)@.fibers[by.slot() as int].wtoken != Some(by.token()) ==> final(t)@ == old(t)@
            && final(u)@ == old(u)@,
{
}

/// A fiber is entered as its slot says, on the stack that it has or on the next one, and only
/// one that begins takes a stack. It gets the very parameter that is in its slot.
pub proof fn law_call_of_step_into<P, R>(
    r: &mut Runner<P, R>,
    p: &mut Poller,
    pos: usize,
    how: Entry,
    s: &mut Runner<P, R>,
    param: P,
)
    requires
        old(r)@.has(pos),
        old(s)@.has(pos),
        old(s)@.fibers[pos as int].param is Some,
        call_ensures(Runner::<P, R>::step_into, (r, p, pos), how),
        call_ensures(Runner::<P, R>::begin, (s, pos), param),
    ensures
        how == old(r)@.entry(old(p)@, pos),
        final(r)@ == old(r)@.entered(old(p)@, pos),
        how is Begin ==> final(p)@ == old(p)@.stack_popped(),
        !(how is Begin) ==> final(p)@ == old(p)@,
        Some(param) == old(s)@.fibers[pos as int].param,
        final(s)@ == old(s)@.begun(pos, None),
{
}

/// A fiber that may begin again gets the very parameter that is in its slot, which keeps a
/// clone of it.
pub proof fn law_call_of_begin_kept<P: Clone, R>(s: &mut Runner<P, R>, pos: usize, param: P)
    requires
        old(s)@.has(pos),
        old(s)@.fibers[pos as int].param is Some,
        call_ensures(Runner::<P, R>::begin_kept, (s, pos), param),
    ensures
        Some(param) == old(s)@.fibers[pos as int].param,
        final(s)@.fibers[pos as int].param matches Some(kept) && cloned(param, kept),
        only_slot_changes(old(s)@, final(s)@, pos),
        final(s)@.fibers[pos as int].state == FiberState::Stacked,
{
}

/// What a handle does is done with the fiber in its slot.
pub proof fn law_handles_act_on_their_slot<P, R>(
    f: &Fiber<P, R>,
    t: Option<Duration>,
    a: &mut Runner<P, R>,
    b: &mut Runner<P, R>,
    c: &mut Runner<P, R>,
    d: &mut Runner<P, R>,
    how: Result<Option<Registration>, Error>,
    pos: usize,
)
    requires
        call_ensures(Fiber::<P, R>::socket_timeout, (f, a, t), ()),
        call_ensures(Fiber::<P, R>::hibernate_for_read, (f, b), how),
        call_ensures(Fiber::<P, R>::hibernate_failed, (f, c), ()),
        call_ensures(Fiber::<P, R>::hibernate_join_main, (f, d), ()),
        call_ensures(Fiber::<P, R>::id, (f,), pos),
    ensures
        final(a)@ == old(a)@.timeout_set(f.slot(), t),
        how == old(b)@.fibers[f.slot() as int].wakes_on_read(),
        how is Ok ==> final(b)@ == old(b)@.sleeps(f.slot()),
        how is Err ==> final(b)@ == old(b)@,
        final(c)@ == old(c)@.stays(f.slot()),
        final(d)@ == old(d)@.hibernates(f.slot()).called_main(f.slot()),
        pos == f.slot(),
{
}

/// What a runner says of itself and of its slots is so.
pub proof fn law_runner_tells_the_truth<P, R>(
    r: &Runner<P, R>,
    p: &Poller,
    pos: usize,
    count: usize,
    number: i8,
    id: u64,
    generation: usize,
    sock: FiberSock,
    on_stack: bool,
    enters: bool,
    signaled: bool,
    knows: bool,
    room: bool,
    waits: bool,
)
    requires
        r@.has(pos),
        call_ensures(Runner::<P, R>::fiber_count, (r,), count),
        call_ensures(Runner::<P, R>::number, (r,), number),
        call_ensures(Runner::<P, R>::id_of, (r, pos), id),
        call_ensures(Runner::<P, R>::generation_of, (r, pos), generation),
        call_ensures(Runner::<P, R>::sock_of, (r, pos), sock),
        call_ensures(Runner::<P, R>::on_stack, (r, pos), on_stack),
        call_ensures(Runner::<P, R>::can_enter, (r, pos), enters),
        call_ensures(Runner::<P, R>::signaled, (r,), signaled),
        call_ensures(Runner::<P, R>::knows, (r, p), knows),
        call_ensures(Runner::<P, R>::has_room, (r,), room),
        call_ensures(Runner::<P, R>::awaits_address, (r, pos), waits),
    ensures
        count == r@.fibers.len(),
        number == r@.pos,
        id == r@.fibers[pos as int].me,
        generation == r@.fibers[pos as int].generation,
        sock == r@.fibers[pos as int].sock,
        on_stack <==> r@.fibers[pos as int].stack is Some,
        enters <==> can_run(r@.fibers[pos as int]) && (r@.fibers[pos as int].wait
            == FiberWait::Open || r@.fibers[pos as int].wait == FiberWait::Socket),
        signaled <==> r@.tomain.len() > 0 || r@.results.len() > 0,
        knows <==> p@.refers_to(r@.pos as int, r@.fibers.len() as int),
        room == r@.has_room(),
        waits <==> r@.fibers[pos as int].connect is Some && r@.fibers[pos as int].wait
            == FiberWait::Start,
{
}

/// A poll takes in all that it is given, and says whether that was anything. A poll of the
/// sockets that failed takes in nothing.
pub proof fn law_call_of_poll(
    p: &mut Poller,
    ids: &Vec<u64>,
    now: Duration,
    found: &Vec<(u64, usize, Ipv4)>,
    changed: bool,
    q: &mut Poller,
    failed: bool,
)
    requires
        old(p).wf(),
        call_ensures(Poller::poll, (p, Some(ids), now, found), changed),
        call_ensures(Poller::poll, (q, None, now, found), failed),
    ensures
        exists|tokens: Seq<Token>|
            #![trigger old(p)@.wheel.all_due(tokens, now@)]
            {
                &&& old(p)@.wheel.all_due(tokens, now@)
                &&& final(p)@ == old(p)@.polled(ids@, tokens, found@, now@)
                &&& changed <==> ids@.len() > 0 || tokens.len() > 0 || found@.len() > 0
            },
        !failed,
        final(q)@ == old(q)@,
{
}

/// A timer is armed for the time that was given, or for one tick of 250 milliseconds where none
/// was; a stack is the next one, and one that is left is the next to be used.
pub proof fn law_calls_of_the_poller(
    p: &mut Poller,
    id: u64,
    dur: Option<Duration>,
    now: Duration,
    token: Option<Token>,
    q: &mut Poller,
    stack: Stack,
    s: &mut Poller,
    number: usize,
    t: &mut Poller,
    cancels: Token,
)
    requires
        call_ensures(Poller::timer_reg, (p, id, dur, now), token),
        call_ensures(Poller::stack_pop, (q,), stack),
        call_ensures(Poller::stack_push, (s, number), ()),
        call_ensures(Poller::timer_cancel, (t, cancels), ()),
    ensures
        dur matches Some(d) ==> old(p)@.armed_as(token, id, d@, now@, final(p)@),
        dur is None ==> old(p)@.armed_as(token, id, 250 * 1_000_000, now@, final(p)@),
        stack == old(q)@.next_stack(),
        final(q)@ == old(q)@.stack_popped(),
        final(s)@ == old(s)@.stack_pushed(Some(number)),
        final(t)@ == old(t)@.cancelled(Some(cancels)),
{
}

/// A new poller has nothing queued, no timers and no stacks, and its clock stands at zero. It
/// asks the servers that the system names, and makes stacks of the size that was asked for,
/// rounded up. A thread that has one gets no other.
pub proof fn law_call_of_new_poller(
    exists: bool,
    stack_size: Option<usize>,
    conf: Option<&'static str>,
    p: Result<Poller, Error>,
)
    requires
        call_ensures(Poller::new, (exists, stack_size, conf), p),
    ensures
        p is Err <==> exists,
        p matches Err(e) ==> e == Error::PollerExists,
        p matches Ok(x) ==> {
            let v = x@;
            &&& v.ok()
            &&& forall|r: int|
                0 <= r < v.toexec.len() ==> (#[trigger] v.toexec[r]).len() == 0
            &&& forall|r: int|
                0 <= r < v.timedout.len() ==> (#[trigger] v.timedout[r]).len() == 0
            &&& forall|r: int|
                0 <= r < v.lookups.len() ==> (#[trigger] v.lookups[r]).len() == 0
            &&& v.wheel.timers == Map::<Token, Option<crate::wheel::Timer>>::empty()
            &&& v.wheel.tick == 0
            &&& v.free_stacks.len() == 0
            &&& v.stacks == 0
            &&& stack_size is None ==> v.stack_size is None
            &&& stack_size matches Some(n) ==> (v.stack_size matches Some(m)
                && crate::poller::rounds_up(n, m))
            &&& conf matches Some(text) ==> v.servers == crate::dns::servers_from(text@, 0)
            &&& conf is None ==> v.servers == seq!["8.8.8.8"@, "8.8.4.4"@]
        },
{
}

/// A fiber that steps out leaves what it has for others, and its parent is the one to be
/// entered next, if any is. One whose function has returned is done, with its result.
pub proof fn law_call_of_stepped_out<P, R>(
    r: &mut Runner<P, R>,
    p: &mut Poller,
    pos: usize,
    next: Option<usize>,
    s: &mut Runner<P, R>,
    result: Option<R>,
)
    requires
        old(r)@.has(pos),
        call_ensures(Runner::<P, R>::stepped_out, (r, p, pos), next),
        call_ensures(Runner::<P, R>::finish, (s, pos, result), ()),
    ensures
        next == old(r)@.wakes(pos),
        next matches Some(q) ==> old(r)@.fibers[pos as int].parent == Some(q),
        final(r)@ == old(r)@.left(pos),
        final(p)@ == old(r)@.left_poller(old(p)@, pos),
        final(s)@ == old(s)@.returned(pos, result),
{
}

/// A fiber that asks for a result of its children gets the same from its handle as from the
/// runner, and both change the same.
pub proof fn law_call_of_get_child<P, R>(
    f: &Fiber<P, R>,
    r: &mut Runner<P, R>,
    p: &mut Poller,
    got: Child<R>,
    s: &mut Runner<P, R>,
    q: &mut Poller,
    same: Child<R>,
)
    requires
        old(s)@ == old(r)@,
        old(q)@ == old(p)@,
        call_ensures(Fiber::<P, R>::get_child, (f, r, p), got),
        call_ensures(Runner::<P, R>::child_iter, (s, q, f.slot()), same),
    ensures
        ({
            let step = old(r)@.child_step(old(p)@, f.slot());
            &&& got == step.got
            &&& final(r)@ == step.runner
            &&& final(p)@ == step.poller
        }),
        same == got,
        final(s)@ == final(r)@,
        final(q)@ == final(p)@,
{
}

/// What the runner does for a fiber it does for the one in the slot that is given.
pub proof fn law_runner_acts_on_the_slot_given<P, R>(
    pos: usize,
    a: &mut Runner<P, R>,
    t: Option<Duration>,
    b: &mut Runner<P, R>,
    how: Result<Option<Registration>, Error>,
    c: &mut Runner<P, R>,
    d: &mut Runner<P, R>,
    e: &mut Runner<P, R>,
    f: &mut Runner<P, R>,
    answer: Option<R>,
    g: &mut Runner<P, R>,
    chunk: R,
    h: &mut Runner<P, R>,
    p: &mut Poller,
    resp: Option<R>,
    i: &mut Runner<P, R>,
    can: Result<(), Error>,
)
    requires
        call_ensures(Runner::<P, R>::socket_timeout, (a, pos, t), ()),
        call_ensures(Runner::<P, R>::hibernate_for_read, (b, pos), how),
        call_ensures(Runner::<P, R>::hibernate_failed, (c, pos), ()),
        call_ensures(Runner::<P, R>::hibernate_join_main, (d, pos), ()),
        call_ensures(Runner::<P, R>::join_main, (e, pos), ()),
        call_ensures(Runner::<P, R>::join_main_done, (f, pos), answer),
        call_ensures(Runner::<P, R>::resp_chunk, (g, pos, chunk), ()),
        call_ensures(Runner::<P, R>::resume_fiber, (h, p, pos, resp), ()),
        call_ensures(Runner::<P, R>::tls_begin, (i, pos), can),
    ensures
        final(a)@ == old(a)@.timeout_set(pos, t),
        how == old(b)@.fibers[pos as int].wakes_on_read(),
        how is Ok ==> final(b)@ == old(b)@.sleeps(pos),
        how is Err ==> final(b)@ == old(b)@,
        final(c)@ == old(c)@.stays(pos),
        final(d)@ == old(d)@.hibernates(pos).called_main(pos),
        final(e)@ == old(e)@.called_main(pos),
        answer == old(f)@.fibers[pos as int].answer,
        final(f)@ == old(f)@.response_taken(pos),
        final(g)@ == old(g)@.chunk_given(pos, chunk),
        final(h)@ == old(h)@.resumed(pos, resp),
        final(p)@ == old(h)@.resumed_poller(old(p)@, pos),
        can is Ok <==> old(i)@.fibers[pos as int].sock is Tcp,
        final(i)@ == old(i)@.sock_taken(pos),
{
}

/// A fiber is registered with what it is given; a lookup is started and begins with what it is
/// given; and a timer is cancelled where the fiber in the slot waits for it, and else not.
pub proof fn law_slots_are_filled_as_asked<P, R>(
    a: &mut Runner<P, R>,
    p: &mut Poller,
    func: bool,
    sock: FiberSock,
    param: Option<P>,
    parent: Option<usize>,
    registered: bool,
    slot: Result<usize, Error>,
    b: &mut Runner<P, R>,
    q: &mut Poller,
    now: Duration,
    domain: &str,
    to: Duration,
    given: P,
    looks: Result<usize, Error>,
    c: &mut Runner<P, R>,
    x: &mut Poller,
    pos: usize,
    begun: LookupStart,
    st: SocketType,
    port: u16,
    how: Result<Option<Registration>, Error>,
    d: &mut Runner<P, R>,
    y: &mut Poller,
    token: Token,
)
    requires
        call_ensures(
            Runner::<P, R>::register,
            (a, p, func, sock, param, parent, registered),
            slot,
        ),
        call_ensures(
            Runner::<P, R>::new_resolve,
            (b, q, now, parent, domain, func, to, given),
            looks,
        ),
        call_ensures(
            Runner::<P, R>::lookup_started,
            (c, x, pos, begun, st, port, domain),
            how,
        ),
        call_ensures(Runner::<P, R>::cancel_timer, (d, y, pos, token), ()),
    ensures
        crate::runner::started(
            old(a)@,
            old(p)@,
            func,
            sock,
            param,
            parent,
            registered,
            slot,
            final(a)@,
            final(p)@,
        ),
        crate::runner::resolve_started(
            old(b)@,
            old(q)@,
            now@,
            parent,
            domain@,
            func,
            to@,
            given,
            looks,
            final(b)@,
            final(q)@,
        ),
        final(c)@ == old(c)@.lookup_begun(pos, begun, st, port, domain@),
        how == old(c)@.lookup_registers(pos, begun),
        begun == LookupStart::Failed ==> final(x)@ == old(x)@.cancelled(
            old(c)@.fibers[pos as int].wtoken,
        ) && final(c)@ == old(c)@.lookup_failed(pos),
        begun != LookupStart::Failed ==> final(x)@ == old(x)@,
        old(d)@.fibers[pos as int].wtoken == Some(token) ==> final(d)@ == old(d)@.dropped(pos)
            && final(y)@ == old(y)@.cancelled(Some(token)),
        old(d)@.fibers[pos as int].wtoken != Some(token) ==> final(d)@ == old(d)@ && final(y)@
            == old(y)@,
{
}

/// A handle is that of the slot that it was made for, and so are the references.
pub proof fn law_handles_name_their_slot<P, R>(
    runner: i8,
    pos: usize,
    f: Fiber<P, R>,
    g: &FiberRef<P, R>,
    h: &TimerRef<P, R>,
    a: usize,
    b: usize,
    r: &Runner<P, R>,
    how: Registration,
)
    requires
        call_ensures(Fiber::<P, R>::new, (runner, pos), f),
        call_ensures(FiberRef::<P, R>::id, (g,), a),
        call_ensures(TimerRef::<P, R>::id, (h,), b),
        call_ensures(Runner::<P, R>::listens_as, (r,), how),
    ensures
        f.runner() == runner,
        f.slot() == pos,
        a == g.slot(),
        b == h.slot(),
        how == r@.listens_as(),
{
}

} // verus!
