//! What fibers do on their sockets, from what a call on the socket gave to what the fiber
//! is told and what is left in its slot.
use crate::duration::Duration;
use crate::error::{Error, ErrorKind};
use crate::laws::steps::only_slot_changes;
use crate::runner::io::{IoResult, IoStep, TlsResult};
use crate::runner::RunnerView;
use crate::slot::{FiberSock, FiberState, FiberView, FiberWait, Ready, Registration};
use crate::wheel::Token;
use vstd::prelude::*;

verus! {

/// The fiber has a socket that can be read and written.
pub open spec fn has_stream<P, R>(f: FiberView<P, R>) -> bool {
    f.sock is Tcp || f.sock is Udp || f.sock is Tls
}

/// The fiber waits for `ready`: its socket is registered for that under the id of the fiber,
/// unless it is, and anew if it was registered for something else.
pub open spec fn registers<P, R>(f: FiberView<P, R>, ready: Ready, step: IoStep) -> bool {
    match step {
        IoStep::Wait(None) => f.ready == ready,
        IoStep::Wait(Some(how)) => {
            &&& f.ready != ready
            &&& how.id == f.me
            &&& how.ready == ready
            &&& how.again <==> f.ready == Ready::Readable || f.ready == Ready::Writable
        },
        _ => false,
    }
}

/// A read that went through is done with the bytes that the socket gave, however many those
/// are: none is made up and none is kept back. Where nothing came and something was wanted
/// the other side has closed the socket.
pub proof fn law_read_hands_on_what_came<P, R>(f: FiberView<P, R>, wanted: usize, n: usize)
    requires
        has_stream(f),
    ensures
        n > 0 || wanted == 0 ==> crate::runner::io::after_read(f, wanted, IoResult::Done(n))
            == IoStep::Done(n),
        n == 0 && wanted > 0 ==> crate::runner::io::after_read(f, wanted, IoResult::Done(n))
            == IoStep::Failed(Error::SocketClosed),
{
}

/// A write that went through is done with the bytes that the socket took, however many those
/// are, so that the fiber knows what is left to write. Only a write of nothing that wrote
/// nothing counts as one on a closed socket.
pub proof fn law_write_hands_on_what_was_taken<P, R>(f: FiberView<P, R>, given: usize, n: usize)
    requires
        has_stream(f),
    ensures
        n > 0 || given > 0 ==> crate::runner::io::after_write(f, given, IoResult::Done(n))
            == IoStep::Done(n),
        n == 0 && given == 0 ==> crate::runner::io::after_write(f, given, IoResult::Done(n))
            == IoStep::Failed(Error::SocketClosed),
{
}

/// An operation that would block waits, one that a signal interrupted is tried again, and one
/// that failed fails with the error of the call, whatever was wanted.
pub proof fn law_stream_goes_on_or_fails<P, R>(f: FiberView<P, R>, n: usize)
    requires
        has_stream(f),
    ensures
        registers(
            f,
            Ready::Readable,
            crate::runner::io::after_read(f, n, IoResult::WouldBlock),
        ),
        registers(
            f,
            Ready::Writable,
            crate::runner::io::after_write(f, n, IoResult::WouldBlock),
        ),
        crate::runner::io::after_read(f, n, IoResult::Interrupted) == IoStep::Again,
        crate::runner::io::after_write(f, n, IoResult::Interrupted) == IoStep::Again,
        crate::runner::io::after_read(f, n, IoResult::Failed) == IoStep::Failed(Error::System),
        crate::runner::io::after_write(f, n, IoResult::Failed) == IoStep::Failed(Error::System),
{
}

/// A fiber whose socket is no stream can not read, write or flush it, whatever the call gave.
pub proof fn law_only_streams_are_read_and_written<P, R>(
    f: FiberView<P, R>,
    n: usize,
    got: IoResult,
)
    ensures
        f.sock is Listener ==> {
            &&& crate::runner::io::after_read(f, n, got) == IoStep::Failed(Error::ListenRead)
            &&& crate::runner::io::after_write(f, n, got) == IoStep::Failed(Error::ListenWrite)
            &&& f.sock.stream(Error::ListenFlush) == Err::<(), Error>(Error::ListenFlush)
        },
        f.sock is Empty || f.sock is TlsTemp ==> {
            &&& crate::runner::io::after_read(f, n, got) == IoStep::Failed(Error::NoSocket)
            &&& crate::runner::io::after_write(f, n, got) == IoStep::Failed(Error::NoSocket)
            &&& f.sock.stream(Error::ListenFlush) == Err::<(), Error>(Error::NoSocket)
        },
        has_stream(f) ==> f.sock.stream(Error::ListenFlush) == Ok::<(), Error>(()),
{
}

/// A read or a write leaves everything as it is, but that a fiber whose operation would block
/// is then registered for what it waits for.
pub proof fn law_stream_registers_and_no_more<P, R>(
    v: RunnerView<P, R>,
    pos: usize,
    got: IoResult,
    ready: Ready,
)
    requires
        v.has(pos),
    ensures
        only_slot_changes(v, v.streams(pos, got, ready), pos),
        ({
            let f = v.fibers[pos as int];
            let g = v.streams(pos, got, ready).fibers[pos as int];
            &&& g == (FiberView { ready: g.ready, ..f })
            &&& got == IoResult::WouldBlock && has_stream(f) ==> g.ready == ready
            &&& got != IoResult::WouldBlock || !has_stream(f) ==> g.ready == f.ready
        }),
{
}

/// A listening socket hands on what it accepted, waits without being registered anew, for it
/// is registered from the start, and tries again or fails as any other. No other socket
/// accepts.
pub proof fn law_listening_sockets_accept<P, R>(v: RunnerView<P, R>, pos: usize, n: usize, got: IoResult)
    requires
        v.has(pos),
    ensures
        v.fibers[pos as int].sock is Listener ==> {
            &&& v.after_accept(pos, IoResult::Done(n)) == IoStep::Done(n)
            &&& v.after_accept(pos, IoResult::WouldBlock) == IoStep::Wait(None)
            &&& v.after_accept(pos, IoResult::Interrupted) == IoStep::Again
            &&& v.after_accept(pos, IoResult::Failed) == IoStep::Failed(Error::System)
        },
        !(v.fibers[pos as int].sock is Listener) ==> v.after_accept(pos, got) == IoStep::Failed(
            Error::NotListening,
        ),
{
}

/// Every socket can be registered, under the id of its fiber, and counts as registered from
/// then on; without one there is nothing to register.
pub proof fn law_sockets_are_registered_under_their_fiber<P, R>(f: FiberView<P, R>, ready: Ready)
    ensures
        f.sock is Empty ==> {
            &&& f.registration(ready) == Err::<Registration, Error>(Error::NoSocket)
            &&& f.registered(ready) == f
        },
        !(f.sock is Empty) ==> {
            &&& f.registration(ready) == Ok::<Registration, Error>(
                Registration { id: f.me, ready, again: f.ready != Ready::Empty },
            )
            &&& f.registered(ready) == (FiberView { ready, ..f })
        },
{
}

/// A handshake that is through leaves a TLS stream, one that has to wait is registered for
/// reads and goes on with the same socket, and one that failed leaves no socket. Only a plain
/// TCP socket begins one.
pub proof fn law_handshake_turns_tcp_into_tls<P, R>(v: RunnerView<P, R>, pos: usize)
    requires
        v.has(pos),
    ensures
        only_slot_changes(v, v.sock_taken(pos), pos),
        v.sock_taken(pos).fibers[pos as int] == (FiberView {
            sock: FiberSock::Empty,
            ..v.fibers[pos as int]
        }),
        ({
            let w = v.handshake(pos, TlsResult::Done);
            &&& only_slot_changes(v, w, pos)
            &&& w.fibers[pos as int] == (FiberView { sock: FiberSock::Tls, ..v.fibers[pos as int] })
            &&& has_stream(w.fibers[pos as int])
            &&& v.handshake_step(pos, TlsResult::Done) == IoStep::Done(0)
        }),
        ({
            let w = v.handshake(pos, TlsResult::Interrupted);
            &&& only_slot_changes(v, w, pos)
            &&& w.fibers[pos as int] == (FiberView {
                sock: FiberSock::TlsTemp,
                ready: Ready::Readable,
                ..v.fibers[pos as int]
            })
            &&& v.handshake_step(pos, TlsResult::Interrupted) == IoStep::Wait(
                Some(
                    Registration {
                        id: v.fibers[pos as int].me,
                        ready: Ready::Readable,
                        again: v.fibers[pos as int].ready != Ready::Empty,
                    },
                ),
            )
        }),
        v.handshake(pos, TlsResult::Failed) == v,
        v.handshake_step(pos, TlsResult::Failed) == IoStep::Failed(Error::TlsFailure),
{
}

/// A fiber that waits for its socket has the timer that ends the wait and has not timed out;
/// nothing else of it changes. A wait has failed where its timer has run, and else not; when
/// it is over the fiber has no timer, and the next wait begins anew.
pub proof fn law_wait_begins_and_ends<P, R>(
    v: RunnerView<P, R>,
    pos: usize,
    token: Option<Token>,
    on_timeout: Error,
)
    requires
        v.has(pos),
    ensures
        only_slot_changes(v, v.wait_timed(pos, token), pos),
        v.wait_timed(pos, token).fibers[pos as int] == (FiberView {
            timed_out: 0,
            wtoken: token,
            wait: FiberWait::Socket,
            ..v.fibers[pos as int]
        }),
        v.fibers[pos as int].timed_out == 0 ==> v.waited(pos, on_timeout) == Ok::<(), Error>(()),
        v.fibers[pos as int].timed_out != 0 ==> v.waited(pos, on_timeout) == Err::<(), Error>(
            on_timeout,
        ),
        only_slot_changes(v, v.wait_over(pos), pos),
        v.wait_over(pos).fibers[pos as int] == (FiberView {
            timed_out: 0,
            wtoken: None,
            ..v.fibers[pos as int]
        }),
{
}

/// The timeout of a fiber is what it was set to, and nothing else changes.
pub proof fn law_timeout_is_what_it_was_set_to<P, R>(
    v: RunnerView<P, R>,
    pos: usize,
    t: Option<Duration>,
)
    requires
        v.has(pos),
    ensures
        only_slot_changes(v, v.timeout_set(pos, t), pos),
        v.timeout_set(pos, t).fibers[pos as int] == (FiberView {
            timeout: t,
            ..v.fibers[pos as int]
        }),
{
}

/// A fiber hibernates until its socket can be read where it has one: the socket is registered
/// for that, unless it is. It is then marked as off its stack and as waiting for its socket,
/// and where it does not hibernate after all it is on its stack and waits for nothing.
pub proof fn law_hibernation_waits_for_reads<P, R>(v: RunnerView<P, R>, pos: usize)
    requires
        v.has(pos),
    ensures
        ({
            let f = v.fibers[pos as int];
            &&& f.sock is Empty ==> f.wakes_on_read() == Err::<Option<Registration>, Error>(
                Error::NoSocket,
            )
            &&& !(f.sock is Empty) ==> match f.wakes_on_read() {
                Ok(how) => registers(f, Ready::Readable, IoStep::Wait(how)),
                Err(_) => false,
            }
        }),
        only_slot_changes(v, v.sleeps(pos), pos),
        !(v.fibers[pos as int].sock is Empty) ==> v.sleeps(pos).fibers[pos as int] == (FiberView {
            state: FiberState::Unstacked,
            wait: FiberWait::Socket,
            ready: Ready::Readable,
            ..v.fibers[pos as int]
        }),
        only_slot_changes(v, v.stays(pos), pos),
        v.stays(pos).fibers[pos as int] == (FiberView {
            state: FiberState::Stacked,
            wait: FiberWait::Open,
            ..v.fibers[pos as int]
        }),
        only_slot_changes(v, v.hibernates(pos), pos),
        v.hibernates(pos).fibers[pos as int] == (FiberView {
            state: FiberState::Unstacked,
            ..v.fibers[pos as int]
        }),
{
}

/// The errors of a wait that took too long are told apart by their kind, so are those of a
/// socket that was closed, and those of an operation that the socket can not do.
pub proof fn law_errors_have_their_kinds(e: Error)
    ensures
        e.spec_kind() == ErrorKind::TimedOut <==> e == Error::ReadTimeout || e
            == Error::WriteTimeout,
        e.spec_kind() == ErrorKind::NotConnected <==> e == Error::SocketClosed || e
            == Error::PollerExists,
        e.spec_kind() == ErrorKind::Other <==> e == Error::TlsFailure || e == Error::EmptyDomain || e
            == Error::NoSpace || e == Error::System,
{
}

} // verus!
