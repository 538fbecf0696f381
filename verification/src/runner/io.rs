//! What a fiber does while it is on its stack: reads, writes, accepts and handshakes
//! that may have to wait, results that it hands over, and calls of the main stack.
use super::{Runner, RunnerView};
use crate::duration::Duration;
use crate::error::Error;
use crate::poller::{Poller, PollerView};
use crate::slot::{FiberSock, FiberState, FiberView, FiberWait, Ready, Registration};
use crate::wheel::Token;
use vstd::prelude::*;

verus! {

/// What a call on a socket gave.
#[derive(Clone, Copy, Debug, PartialEq, Eq, Structural)]
pub enum IoResult {
    /// It went through, with so many bytes.
    Done(usize),
    /// It would have to wait.
    WouldBlock,
    /// A signal came in between.
    Interrupted,
    /// It failed.
    Failed,
}

/// What follows from that.
#[derive(Clone, Copy, Debug, PartialEq, Eq, Structural)]
pub enum IoStep {
    /// The operation is through, with so many bytes.
    Done(usize),
    /// The fiber steps out and tries again when it is entered. Before that its socket is
    /// registered with the poll, where it says how; if that fails, so does the operation.
    Wait(Option<Registration>),
    /// The call is made again.
    Again,
    /// The operation fails. `Error::System` stands for the error that the call gave.
    Failed(Error),
}

/// What a TLS handshake gave.
#[derive(Clone, Copy, Debug, PartialEq, Eq, Structural)]
pub enum TlsResult {
    /// It is through.
    Done,
    /// It is under way and would have to wait.
    Interrupted,
    /// It failed.
    Failed,
}

/// A call that would have to wait for `ready`: the socket of `f` is registered for it,
/// unless it is. Without a socket there is nothing to wait for.
pub open spec fn wait_for<P, R>(f: FiberView<P, R>, ready: Ready) -> IoStep {
    match f.registration(ready) {
        Ok(registration) => if f.ready == ready {
            IoStep::Wait(None)
        } else {
            IoStep::Wait(Some(registration))
        },
        Err(e) => IoStep::Failed(e),
    }
}

/// The fiber after a call on its socket that waits for `ready`.
pub open spec fn waiting<P, R>(f: FiberView<P, R>, got: IoResult, ready: Ready) -> FiberView<P, R> {
    if got is WouldBlock && f.ready != ready {
        f.registered(ready)
    } else {
        f
    }
}

/// What follows from a read for `wanted` bytes: nothing read where something was wanted
/// says that the socket is closed. A socket that can not be read fails at once.
pub open spec fn after_read<P, R>(f: FiberView<P, R>, wanted: usize, got: IoResult) -> IoStep {
    match f.sock.stream(Error::ListenRead) {
        Ok(()) => match got {
            IoResult::Done(n) => if n == 0 && wanted > 0 {
                IoStep::Failed(Error::SocketClosed)
            } else {
                IoStep::Done(n)
            },
            IoResult::WouldBlock => wait_for(f, Ready::Readable),
            IoResult::Interrupted => IoStep::Again,
            IoResult::Failed => IoStep::Failed(Error::System),
        },
        Err(e) => IoStep::Failed(e),
    }
}

/// What follows from a write of `given` bytes: a write of no bytes that writes none is
/// taken for one on a closed socket. A socket that can not be written fails at once.
pub open spec fn after_write<P, R>(f: FiberView<P, R>, given: usize, got: IoResult) -> IoStep {
    match f.sock.stream(Error::ListenWrite) {
        Ok(()) => match got {
            IoResult::Done(n) => if n == 0 && given == 0 {
                IoStep::Failed(Error::SocketClosed)
            } else {
                IoStep::Done(n)
            },
            IoResult::WouldBlock => wait_for(f, Ready::Writable),
            IoResult::Interrupted => IoStep::Again,
            IoResult::Failed => IoStep::Failed(Error::System),
        },
        Err(e) => IoStep::Failed(e),
    }
}

impl<P, R> FiberView<P, R> {
    /// How the socket of a fiber that hibernates until it can be read is registered with
    /// the poll, where it is not.
    pub open spec fn wakes_on_read(self) -> Result<Option<Registration>, Error> {
        match self.registration(Ready::Readable) {
            Ok(registration) => if self.ready is Readable {
                Ok(None)
            } else {
                Ok(Some(registration))
            },
            Err(e) => Err(e),
        }
    }
}

impl<P, R> RunnerView<P, R> {
    /// The fiber in the slot `pos` waits for its socket for `dur` at most.
    pub open spec fn timeout_set(self, pos: usize, dur: Option<Duration>) -> RunnerView<P, R> {
        self.with(pos, FiberView { timeout: dur, ..self.fibers[pos as int] })
    }

    /// A call on the socket of the fiber in the slot `pos` gave `got`; where it has to
    /// wait it waits for `ready`.
    pub open spec fn waits(self, pos: usize, got: IoResult, ready: Ready) -> RunnerView<P, R> {
        self.with(pos, waiting(self.fibers[pos as int], got, ready))
    }

    /// A stream operation of the fiber in the slot `pos` gave `got`; where it has to wait it
    /// waits for `ready`.
    pub open spec fn streams(self, pos: usize, got: IoResult, ready: Ready) -> RunnerView<P, R> {
        if self.fibers[pos as int].sock.stream(Error::NoSocket) is Ok {
            self.waits(pos, got, ready)
        } else {
            self
        }
    }

    /// What follows from an attempt of the fiber in the slot `pos` to accept.
    pub open spec fn after_accept(self, pos: usize, got: IoResult) -> IoStep {
        if self.fibers[pos as int].sock is Listener {
            match got {
                IoResult::Done(n) => IoStep::Done(n),
                IoResult::WouldBlock => IoStep::Wait(None),
                IoResult::Interrupted => IoStep::Again,
                IoResult::Failed => IoStep::Failed(Error::System),
            }
        } else {
            IoStep::Failed(Error::NotListening)
        }
    }

    /// The fiber in the slot `pos` waits for its socket until the timer `token` ends the wait,
    /// if one does.
    pub open spec fn wait_timed(self, pos: usize, token: Option<Token>) -> RunnerView<P, R> {
        self.with(
            pos,
            FiberView {
                timed_out: 0,
                wtoken: token,
                wait: FiberWait::Socket,
                ..self.fibers[pos as int]
            },
        )
    }

    /// What the wait of the fiber in the slot `pos` has come to: `on_timeout` where it has
    /// timed out.
    pub open spec fn waited(self, pos: usize, on_timeout: Error) -> Result<(), Error> {
        if self.fibers[pos as int].timed_out > 0 {
            Err(on_timeout)
        } else {
            Ok(())
        }
    }

    /// The wait of the fiber in the slot `pos` is over.
    pub open spec fn wait_over(self, pos: usize) -> RunnerView<P, R> {
        self.with(pos, FiberView { timed_out: 0, wtoken: None, ..self.fibers[pos as int] })
    }

    /// The socket of the fiber in the slot `pos` has been taken out of it.
    pub open spec fn sock_taken(self, pos: usize) -> RunnerView<P, R> {
        self.with(pos, FiberView { sock: FiberSock::Empty, ..self.fibers[pos as int] })
    }

    /// The TLS handshake of the fiber in the slot `pos` has come this far: it has its stream,
    /// or it has to wait until its socket can be read.
    pub open spec fn handshake(self, pos: usize, got: TlsResult) -> RunnerView<P, R> {
        let f = self.fibers[pos as int];
        match got {
            TlsResult::Done => self.with(pos, FiberView { sock: FiberSock::Tls, ..f }),
            TlsResult::Interrupted => self.with(
                pos,
                FiberView { sock: FiberSock::TlsTemp, ready: Ready::Readable, ..f },
            ),
            TlsResult::Failed => self,
        }
    }

    /// What follows from that.
    pub open spec fn handshake_step(self, pos: usize, got: TlsResult) -> IoStep {
        let f = self.fibers[pos as int];
        match got {
            TlsResult::Done => IoStep::Done(0),
            TlsResult::Interrupted => IoStep::Wait(
                Some(
                    Registration { id: f.me, ready: Ready::Readable, again: !(f.ready is Empty) },
                ),
            ),
            TlsResult::Failed => IoStep::Failed(Error::TlsFailure),
        }
    }

    /// The fiber in the slot `pos` has called the main stack, and waits for it.
    pub open spec fn called_main(self, pos: usize) -> RunnerView<P, R> {
        RunnerView {
            tomain: self.tomain.push(pos),
            ..self.with(
                pos,
                FiberView { wait: FiberWait::Main, answer: None, ..self.fibers[pos as int] },
            )
        }
    }

    /// The main stack has resumed the fiber in the slot `pos` with `resp`, if the fiber waits
    /// for it. A fiber that hibernates does not get the response.
    pub open spec fn resumed(self, pos: usize, resp: Option<R>) -> RunnerView<P, R> {
        let f = self.fibers[pos as int];
        if f.wait is Main {
            self.with(
                pos,
                FiberView {
                    wait: FiberWait::Open,
                    answer: if f.state is Unstacked {
                        None
                    } else {
                        resp
                    },
                    ..f
                },
            )
        } else {
            self
        }
    }

    /// The poller then: the fiber is to be run.
    pub open spec fn resumed_poller(self, p: PollerView, pos: usize) -> PollerView {
        if self.fibers[pos as int].wait is Main {
            p.exec_pushed(self.pos as int, pos)
        } else {
            p
        }
    }

    /// The fiber in the slot `pos` has taken what the main stack resumed it with.
    pub open spec fn response_taken(self, pos: usize) -> RunnerView<P, R> {
        self.with(pos, FiberView { answer: None, ..self.fibers[pos as int] })
    }

    /// The fiber in the slot `pos` has an intermediate result, and waits until it is
    /// received.
    pub open spec fn chunk_given(self, pos: usize, chunk: R) -> RunnerView<P, R> {
        self.with(
            pos,
            FiberView {
                result: Some(chunk),
                wait: FiberWait::Chunk,
                ..self.fibers[pos as int]
            },
        )
    }

    /// The fiber in the slot `pos` is about to leave its stack, to begin again.
    pub open spec fn hibernates(self, pos: usize) -> RunnerView<P, R> {
        self.with(pos, FiberView { state: FiberState::Unstacked, ..self.fibers[pos as int] })
    }

    /// The fiber in the slot `pos` hibernates until its socket can be read.
    pub open spec fn sleeps(self, pos: usize) -> RunnerView<P, R> {
        let f = self.fibers[pos as int];
        self.with(
            pos,
            FiberView {
                state: FiberState::Unstacked,
                wait: FiberWait::Socket,
                ..waiting(f, IoResult::WouldBlock, Ready::Readable)
            },
        )
    }

    /// The fiber in the slot `pos` does not hibernate after all.
    pub open spec fn stays(self, pos: usize) -> RunnerView<P, R> {
        self.with(
            pos,
            FiberView {
                state: FiberState::Stacked,
                wait: FiberWait::Open,
                ..self.fibers[pos as int]
            },
        )
    }
}

impl<P, R> Runner<P, R> {
    /// How long to wait on socket operations before timing out.
    pub fn socket_timeout(&mut self, pos: usize, dur: Option<Duration>)
        requires
            old(self).wf(),
            old(self)@.has(pos),
        ensures
            final(self).wf(),
            final(self)@ == old(self)@.timeout_set(pos, dur),
    {
        let ghost g = FiberView { timeout: dur, ..old(self)@.fibers[pos as int] };
        self.fibers[pos].timeout = dur;
        proof {
            old(self)@.lemma_same_links(pos, g);
            assert(self@.fibers =~= old(self)@.with(pos, g).fibers);
        }
    }

    /// The socket of the fiber waits for `ready`.
    fn wait(&mut self, pos: usize, ready: Ready) -> (step: IoStep)
        requires
            old(self).wf(),
            old(self)@.has(pos),
        ensures
            final(self).wf(),
            step == wait_for(old(self)@.fibers[pos as int], ready),
            final(self)@ == old(self)@.waits(pos, IoResult::WouldBlock, ready),
    {
        let ghost g = waiting(old(self)@.fibers[pos as int], IoResult::WouldBlock, ready);
        proof {
            old(self)@.lemma_same_links(pos, g);
        }
        if self.fibers[pos].ready == ready && !self.fibers[pos].sock.is_empty() {
            assert(self@.fibers =~= old(self)@.with(pos, g).fibers);
            return IoStep::Wait(None);
        }
        let how = self.fibers[pos].register(ready);
        assert(self@.fibers =~= old(self)@.with(pos, g).fibers);
        match how {
            Ok(registration) => IoStep::Wait(Some(registration)),
            Err(e) => IoStep::Failed(e),
        }
    }

    /// The fiber has tried to read `wanted` bytes.
    pub fn read(&mut self, pos: usize, wanted: usize, got: IoResult) -> (step: IoStep)
        requires
            old(self).wf(),
            old(self)@.has(pos),
        ensures
            final(self).wf(),
            step == after_read(old(self)@.fibers[pos as int], wanted, got),
            final(self)@ == old(self)@.streams(pos, got, Ready::Readable),
    {
        let ghost f = old(self)@.fibers[pos as int];
        assert(old(self)@.fibers =~= old(self)@.with(pos, f).fibers);
        if let Err(e) = self.fibers[pos].sock.read() {
            return IoStep::Failed(e);
        }
        match got {
            IoResult::Done(n) => if n == 0 && wanted > 0 {
                IoStep::Failed(Error::SocketClosed)
            } else {
                IoStep::Done(n)
            },
            IoResult::WouldBlock => self.wait(pos, Ready::Readable),
            IoResult::Interrupted => IoStep::Again,
            IoResult::Failed => IoStep::Failed(Error::System),
        }
    }

    /// The fiber has tried to write `given` bytes.
    pub fn write(&mut self, pos: usize, given: usize, got: IoResult) -> (step: IoStep)
        requires
            old(self).wf(),
            old(self)@.has(pos),
        ensures
            final(self).wf(),
            step == after_write(old(self)@.fibers[pos as int], given, got),
            final(self)@ == old(self)@.streams(pos, got, Ready::Writable),
    {
        let ghost f = old(self)@.fibers[pos as int];
        assert(old(self)@.fibers =~= old(self)@.with(pos, f).fibers);
        if let Err(e) = self.fibers[pos].sock.write() {
            return IoStep::Failed(e);
        }
        match got {
            IoResult::Done(n) => if n == 0 && given == 0 {
                IoStep::Failed(Error::SocketClosed)
            } else {
                IoStep::Done(n)
            },
            IoResult::WouldBlock => self.wait(pos, Ready::Writable),
            IoResult::Interrupted => IoStep::Again,
            IoResult::Failed => IoStep::Failed(Error::System),
        }
    }

    /// The fiber has tried to accept. Only a listening socket accepts; it is registered from
    /// the start, and waits without a timeout.
    pub fn accept_tcp(&self, pos: usize, got: IoResult) -> (step: IoStep)
        requires
            self.wf(),
            self@.has(pos),
        ensures
            step == self@.after_accept(pos, got),
    {
        if let Err(e) = self.fibers[pos].sock.accept_tcp() {
            return IoStep::Failed(e);
        }
        match got {
            IoResult::Done(n) => IoStep::Done(n),
            IoResult::WouldBlock => IoStep::Wait(None),
            IoResult::Interrupted => IoStep::Again,
            IoResult::Failed => IoStep::Failed(Error::System),
        }
    }

    /// The fiber is about to step out until its socket is signalled, for as long as its
    /// timeout allows. Returns the timer that ends the wait, if one does.
    pub fn timed_step_out(&mut self, poller: &mut Poller, now: Duration, pos: usize) -> (token: Option<
        Token,
    >)
        requires
            old(self).wf(),
            old(poller).wf(),
            old(self)@.has(pos),
        ensures
            final(self).wf(),
            final(poller).wf(),
            match old(self)@.fibers[pos as int].timeout {
                Some(dur) => old(poller)@.armed_as(
                    token,
                    old(self)@.fibers[pos as int].me,
                    dur@,
                    now@,
                    final(poller)@,
                ),
                None => token is None && final(poller)@ == old(poller)@,
            },
            final(self)@ == old(self)@.wait_timed(pos, token),
    {
        let token: Option<Token> = match self.fibers[pos].timeout {
            Some(dur) => {
                proof {
                    assert(old(self)@.slot_in_range(pos as int));
                    crate::ids::law_id_round_trip(old(self)@.pos, pos);
                }
                poller.timer_reg(self.fibers[pos].me, Some(dur), now)
            },
            None => None,
        };
        self.fibers[pos].timed_out = 0;
        self.fibers[pos].wtoken = token;
        self.fibers[pos].wait = FiberWait::Socket;
        proof {
            old(self)@.lemma_same_links(
                pos,
                old(self)@.wait_timed(pos, token).fibers[pos as int],
            );
            assert(self@.fibers =~= old(self)@.wait_timed(pos, token).fibers);
        }
        token
    }

    /// The fiber is back on its stack after a wait. It fails with `on_timeout` where the
    /// wait has timed out.
    pub fn timed_step_in(&mut self, poller: &mut Poller, pos: usize, on_timeout: Error) -> (waited:
        Result<(), Error>)
        requires
            old(self).wf(),
            old(poller).wf(),
            old(self)@.has(pos),
        ensures
            final(self).wf(),
            final(poller).wf(),
            waited == old(self)@.waited(pos, on_timeout),
            final(self)@ == old(self)@.wait_over(pos),
            final(poller)@ == old(poller)@.cancelled(old(self)@.fibers[pos as int].wtoken),
    {
        let ghost g = FiberView { timed_out: 0, wtoken: None, ..old(self)@.fibers[pos as int] };
        proof {
            old(self)@.lemma_same_links(pos, g);
        }
        if let Some(token) = self.fibers[pos].wtoken {
            poller.timer_cancel(token);
            self.fibers[pos].wtoken = None;
        }
        if self.fibers[pos].timed_out > 0 {
            self.fibers[pos].timed_out = 0;
            assert(self@.fibers =~= old(self)@.with(pos, g).fibers);
            return Err(on_timeout);
        }
        assert(self@.fibers =~= old(self)@.with(pos, g).fibers);
        Ok(())
    }

    /// A TLS handshake is about to begin on the socket of the fiber, which is taken for
    /// it: only a plain TCP socket can be turned into a TLS stream.
    pub fn tls_begin(&mut self, pos: usize) -> (can: Result<(), Error>)
        requires
            old(self).wf(),
            old(self)@.has(pos),
        ensures
            final(self).wf(),
            can == (if old(self)@.fibers[pos as int].sock is Tcp {
                Ok::<(), Error>(())
            } else {
                Err::<(), Error>(Error::InvalidSocket)
            }),
            final(self)@ == old(self)@.sock_taken(pos),
    {
        let sock: FiberSock = self.take_sock(pos);
        if sock == FiberSock::Tcp {
            Ok(())
        } else {
            Err(Error::InvalidSocket)
        }
    }

    /// Takes the socket of the fiber.
    fn take_sock(&mut self, pos: usize) -> (sock: FiberSock)
        requires
            old(self).wf(),
            old(self)@.has(pos),
        ensures
            final(self).wf(),
            sock == old(self)@.fibers[pos as int].sock,
            final(self)@ == old(self)@.sock_taken(pos),
    {
        let ghost g = FiberView { sock: FiberSock::Empty, ..old(self)@.fibers[pos as int] };
        let sock: FiberSock = self.fibers[pos].sock;
        self.fibers[pos].sock = FiberSock::Empty;
        proof {
            old(self)@.lemma_same_links(pos, g);
            assert(self@.fibers =~= old(self)@.with(pos, g).fibers);
        }
        sock
    }

    /// The TLS handshake of the fiber has come this far. Where it has to wait, it waits
    /// until the socket can be read.
    pub fn tls_handshake(&mut self, pos: usize, got: TlsResult) -> (step: IoStep)
        requires
            old(self).wf(),
            old(self)@.has(pos),
        ensures
            final(self).wf(),
            step == old(self)@.handshake_step(pos, got),
            final(self)@ == old(self)@.handshake(pos, got),
    {
        let ghost f = old(self)@.fibers[pos as int];
        match got {
            TlsResult::Done => {
                self.fibers[pos].sock = FiberSock::Tls;
                proof {
                    let g = FiberView { sock: FiberSock::Tls, ..f };
                    old(self)@.lemma_same_links(pos, g);
                    assert(self@.fibers =~= old(self)@.with(pos, g).fibers);
                }
                IoStep::Done(0)
            },
            TlsResult::Interrupted => {
                self.fibers[pos].sock = FiberSock::TlsTemp;
                let how = self.fibers[pos].register(Ready::Readable);
                proof {
                    let g = FiberView { sock: FiberSock::TlsTemp, ready: Ready::Readable, ..f };
                    old(self)@.lemma_same_links(pos, g);
                    assert(self@.fibers =~= old(self)@.with(pos, g).fibers);
                }
                match how {
                    Ok(registration) => IoStep::Wait(Some(registration)),
                    Err(e) => IoStep::Failed(e),
                }
            },
            TlsResult::Failed => IoStep::Failed(Error::TlsFailure),
        }
    }

    /// The TLS handshake of the fiber goes on after a wait: its socket is taken for it.
    pub fn tls_resume(&mut self, pos: usize) -> (can: Result<(), Error>)
        requires
            old(self).wf(),
            old(self)@.has(pos),
        ensures
            final(self).wf(),
            can == (if old(self)@.fibers[pos as int].sock is TlsTemp {
                Ok::<(), Error>(())
            } else {
                Err::<(), Error>(Error::TlsFailure)
            }),
            final(self)@ == old(self)@.sock_taken(pos),
    {
        let sock: FiberSock = self.take_sock(pos);
        if sock == FiberSock::TlsTemp {
            Ok(())
        } else {
            Err(Error::TlsFailure)
        }
    }

    /// Call main stack: the fiber steps out until the main stack resumes it.
    pub fn join_main(&mut self, pos: usize)
        requires
            old(self).wf(),
            old(self)@.has(pos),
        ensures
            final(self).wf(),
            final(self)@ == old(self)@.called_main(pos),
    {
        self.fibers[pos].wait = FiberWait::Main;
        self.fibers[pos].answer = None;
        proof {
            let g = old(self)@.called_main(pos).fibers[pos as int];
            let marked = old(self)@.with(pos, g);
            old(self)@.lemma_same_links(pos, g);
            assert(self@.fibers =~= marked.fibers);
            marked.lemma_queues(marked.free, marked.tomain.push(pos), marked.results);
        }
        self.tomain_fibers.push_back(pos);
    }

    /// What the main stack has resumed the fiber with.
    pub fn join_main_done(&mut self, pos: usize) -> (resp: Option<R>)
        requires
            old(self).wf(),
            old(self)@.has(pos),
        ensures
            final(self).wf(),
            resp == old(self)@.fibers[pos as int].answer,
            final(self)@ == old(self)@.response_taken(pos),
    {
        let ghost g = FiberView { answer: None, ..old(self)@.fibers[pos as int] };
        let resp: Option<R> = self.fibers[pos].answer.take();
        proof {
            old(self)@.lemma_same_links(pos, g);
            assert(self@.fibers =~= old(self)@.with(pos, g).fibers);
        }
        resp
    }

    /// The main stack resumes a fiber that has called it: the fiber is to be run on. It
    /// gets the response if it has kept its stack; one that hibernates does not.
    pub fn resume_fiber(&mut self, poller: &mut Poller, pos: usize, resp: Option<R>)
        requires
            old(self).wf(),
            old(poller).wf(),
            old(self)@.has(pos),
        ensures
            final(self).wf(),
            final(poller).wf(),
            final(self)@ == old(self)@.resumed(pos, resp),
            final(poller)@ == old(self)@.resumed_poller(old(poller)@, pos),
    {
        if self.fibers[pos].wait != FiberWait::Main {
            return;
        }
        self.fibers[pos].wait = FiberWait::Open;
        self.fibers[pos].answer = if self.fibers[pos].state == FiberState::Unstacked {
            None
        } else {
            resp
        };
        proof {
            old(self)@.lemma_same_links(pos, old(self)@.resumed(pos, resp).fibers[pos as int]);
            assert(self@.fibers =~= old(self)@.resumed(pos, resp).fibers);
        }
        self.push_toexec(poller, pos);
    }

    /// Return intermediate result: the fiber steps out until it is received.
    pub fn resp_chunk(&mut self, pos: usize, chunk: R)
        requires
            old(self).wf(),
            old(self)@.has(pos),
        ensures
            final(self).wf(),
            final(self)@ == old(self)@.chunk_given(pos, chunk),
    {
        let ghost g = old(self)@.chunk_given(pos, chunk).fibers[pos as int];
        self.fibers[pos].result = Some(chunk);
        self.fibers[pos].wait = FiberWait::Chunk;
        proof {
            old(self)@.lemma_same_links(pos, g);
            assert(self@.fibers =~= old(self)@.with(pos, g).fibers);
        }
    }

    /// The fiber leaves its stack when it next steps out, and begins again once its socket
    /// can be read. Says how the socket is registered with the poll, where it is not; if that
    /// fails, [`Runner::hibernate_failed`] is to be called. Where the socket can not be
    /// registered the fiber does not hibernate: it is told so, and goes on on its stack, where
    /// its operations block until they are through.
    pub fn hibernate_for_read(&mut self, pos: usize) -> (how: Result<Option<Registration>, Error>)
        requires
            old(self).wf(),
            old(self)@.has(pos),
        ensures
            final(self).wf(),
            how == old(self)@.fibers[pos as int].wakes_on_read(),
            final(self)@ == (if how is Ok {
                old(self)@.sleeps(pos)
            } else {
                old(self)@
            }),
    {
        let step: IoStep = self.wait(pos, Ready::Readable);
        let how: Result<Option<Registration>, Error> = match step {
            IoStep::Wait(registration) => Ok(registration),
            IoStep::Failed(e) => Err(e),
            _ => Ok(None),
        };
        if how.is_ok() {
            let ghost mid = self@;
            self.fibers[pos].state = FiberState::Unstacked;
            self.fibers[pos].wait = FiberWait::Socket;
            proof {
                mid.lemma_same_links(pos, old(self)@.sleeps(pos).fibers[pos as int]);
                assert(self@.fibers =~= mid.with(
                    pos,
                    old(self)@.sleeps(pos).fibers[pos as int],
                ).fibers);
                assert(self@.fibers =~= old(self)@.sleeps(pos).fibers);
            }
        } else {
            assert(self@.fibers =~= old(self)@.fibers);
        }
        how
    }

    /// The socket of a fiber that was to hibernate could not be registered: it does not, and
    /// goes on on its stack.
    pub fn hibernate_failed(&mut self, pos: usize)
        requires
            old(self).wf(),
            old(self)@.has(pos),
        ensures
            final(self).wf(),
            final(self)@ == old(self)@.stays(pos),
    {
        proof {
            old(self)@.lemma_same_links(pos, old(self)@.stays(pos).fibers[pos as int]);
        }
        self.fibers[pos].state = FiberState::Stacked;
        self.fibers[pos].wait = FiberWait::Open;
        assert(self@.fibers =~= old(self)@.stays(pos).fibers);
    }

    /// Call main stack and leave the stack: once the main stack resumes the fiber, it
    /// begins again.
    pub fn hibernate_join_main(&mut self, pos: usize)
        requires
            old(self).wf(),
            old(self)@.has(pos),
        ensures
            final(self).wf(),
            final(self)@ == old(self)@.hibernates(pos).called_main(pos),
    {
        let ghost g = FiberView { state: FiberState::Unstacked, ..old(self)@.fibers[pos as int] };
        self.fibers[pos].state = FiberState::Unstacked;
        proof {
            old(self)@.lemma_same_links(pos, g);
            assert(self@.fibers =~= old(self)@.with(pos, g).fibers);
        }
        self.join_main(pos);
    }
}

} // verus!
