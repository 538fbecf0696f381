//! Handles on fibers and timers.
use crate::duration::Duration;
use crate::error::Error;
use crate::poller::Poller;
use crate::runner::children::{Child, ChildStep};
use crate::runner::io::{IoResult, IoStep};
use crate::runner::{Runner, RunnerView};
use crate::slot::{FiberSock, Ready, Registration};
use crate::wheel::Token;
use std::marker::PhantomData;
use vstd::prelude::*;

verus! {

/// Available within the fiber execute function to configure fiber or create child fibers.
/// Child fibers return results to parent fibers instead of the main stack.
#[derive(PartialEq, Debug)]
pub struct Fiber<P, R> {
    pub(crate) runner: i8,
    pub(crate) id: usize,
    param: PhantomData<P>,
    resp: PhantomData<R>,
}

impl<P, R> Fiber<P, R> {
    /// The number of the runner.
    pub closed spec fn runner(self) -> i8 {
        self.runner
    }

    /// The slot of the fiber there.
    pub closed spec fn slot(self) -> usize {
        self.id
    }

    /// The fiber is one of the runner.
    pub open spec fn is_of(self, r: RunnerView<P, R>) -> bool {
        self.runner() == r.pos && r.has(self.slot())
    }

    /// The handle of the fiber in the slot `pos` of a runner.
    pub fn new(runner: i8, pos: usize) -> (f: Fiber<P, R>)
        ensures
            f.runner() == runner,
            f.slot() == pos,
    {
        Fiber { runner, id: pos, param: PhantomData, resp: PhantomData }
    }

    /// The slot of the fiber in its runner.
    pub fn id(&self) -> (pos: usize)
        ensures
            pos == self.slot(),
    {
        self.id
    }

    /// How long to wait on socket operations before timing out. You probably want to set something.
    pub fn socket_timeout(&self, runner: &mut Runner<P, R>, t: Option<Duration>)
        requires
            old(runner).wf(),
            self.is_of(old(runner)@),
        ensures
            final(runner).wf(),
            final(runner)@ == old(runner)@.timeout_set(self.slot(), t),
    {
        runner.socket_timeout(self.id, t)
    }

    /// Return intermediate result. A fiber can stream responses to the main stack or to its
    /// parent fiber.
    ///
    /// The fiber steps out after this until response is received by the main stack or the parent.
    pub fn resp_chunk(&self, runner: &mut Runner<P, R>, chunk: R)
        requires
            old(runner).wf(),
            self.is_of(old(runner)@),
        ensures
            final(runner).wf(),
            final(runner)@ == old(runner)@.chunk_given(self.slot(), chunk),
    {
        runner.resp_chunk(self.id, chunk)
    }

    /// A read for `wanted` bytes from the socket has given `got`. If no data is available to
    /// read, fiber will be scheduled out for another one, until there is data available.
    pub fn read(&self, runner: &mut Runner<P, R>, wanted: usize, got: IoResult) -> (step: IoStep)
        requires
            old(runner).wf(),
            self.is_of(old(runner)@),
        ensures
            final(runner).wf(),
            step == crate::runner::io::after_read(
                old(runner)@.fibers[self.slot() as int],
                wanted,
                got,
            ),
            final(runner)@ == old(runner)@.streams(self.slot(), got, Ready::Readable),
    {
        runner.read(self.id, wanted, got)
    }

    /// A write of `given` bytes to the socket has given `got`. If data can not be written at
    /// this time, fiber will be scheduled out for another one until it can.
    pub fn write(&self, runner: &mut Runner<P, R>, given: usize, got: IoResult) -> (step: IoStep)
        requires
            old(runner).wf(),
            self.is_of(old(runner)@),
        ensures
            final(runner).wf(),
            step == crate::runner::io::after_write(
                old(runner)@.fibers[self.slot() as int],
                given,
                got,
            ),
            final(runner)@ == old(runner)@.streams(self.slot(), got, Ready::Writable),
    {
        runner.write(self.id, given, got)
    }

    /// Convert fiber from a TCP stream that has connected to a TLS stream: its socket is taken
    /// for the handshake.
    pub fn tcp_tls_connect(&self, runner: &mut Runner<P, R>) -> (can: Result<(), Error>)
        requires
            old(runner).wf(),
            self.is_of(old(runner)@),
        ensures
            final(runner).wf(),
            can == (if old(runner)@.fibers[self.slot() as int].sock is Tcp {
                Ok::<(), Error>(())
            } else {
                Err::<(), Error>(Error::InvalidSocket)
            }),
            final(runner)@ == old(runner)@.sock_taken(self.slot()),
    {
        runner.tls_begin(self.id)
    }

    /// Convert fiber from a TCP stream that was accepted to a TLS stream: its socket is taken
    /// for the handshake.
    pub fn tcp_tls_accept(&self, runner: &mut Runner<P, R>) -> (can: Result<(), Error>)
        requires
            old(runner).wf(),
            self.is_of(old(runner)@),
        ensures
            final(runner).wf(),
            can == (if old(runner)@.fibers[self.slot() as int].sock is Tcp {
                Ok::<(), Error>(())
            } else {
                Err::<(), Error>(Error::InvalidSocket)
            }),
            final(runner)@ == old(runner)@.sock_taken(self.slot()),
    {
        runner.tls_begin(self.id)
    }

    /// Start fiber on TCP socket.
    ///
    /// This function does not block and fiber gets executed on next poll(). There is no
    /// relationship between calling and created fiber.
    pub fn new_tcp(
        &self,
        runner: &mut Runner<P, R>,
        poller: &mut Poller,
        param: P,
    ) -> (slot: Result<usize, Error>)
        requires
            old(runner).wf(),
            old(poller).wf(),
            self.is_of(old(runner)@),
            old(runner)@.has_room(),
        ensures
            final(runner).wf(),
            final(poller).wf(),
            crate::runner::started(
                old(runner)@,
                old(poller)@,
                true,
                FiberSock::Tcp,
                Some(param),
                None,
                true,
                slot,
                final(runner)@,
                final(poller)@,
            ),
    {
        runner.register(
            poller,
            true,
            FiberSock::Tcp,
            Some(param),
            None,
            true,
        )
    }

    /// Start fiber on TCP listener. `registered` says whether its socket could be registered
    /// with the poll (see [`Runner::register`]).
    ///
    /// This function does not block and fiber gets executed on next poll(). There is no
    /// relationship between calling and created fiber.
    pub fn new_listener(
        &self,
        runner: &mut Runner<P, R>,
        poller: &mut Poller,
        param: P, registered: bool,
    ) -> (slot: Result<usize, Error>)
        requires
            old(runner).wf(),
            old(poller).wf(),
            self.is_of(old(runner)@),
            old(runner)@.has_room(),
        ensures
            final(runner).wf(),
            final(poller).wf(),
            crate::runner::started(
                old(runner)@,
                old(poller)@,
                true,
                FiberSock::Listener,
                Some(param),
                None,
                registered,
                slot,
                final(runner)@,
                final(poller)@,
            ),
    {
        runner.register(
            poller,
            true,
            FiberSock::Listener,
            Some(param),
            None,
            registered,
        )
    }

    /// Start fiber on UDP socket.
    ///
    /// This function does not block and fiber gets executed on next poll(). There is no
    /// relationship between calling and created fiber.
    pub fn new_udp(
        &self,
        runner: &mut Runner<P, R>,
        poller: &mut Poller,
        param: P,
    ) -> (slot: Result<usize, Error>)
        requires
            old(runner).wf(),
            old(poller).wf(),
            self.is_of(old(runner)@),
            old(runner)@.has_room(),
        ensures
            final(runner).wf(),
            final(poller).wf(),
            crate::runner::started(
                old(runner)@,
                old(poller)@,
                true,
                FiberSock::Udp,
                Some(param),
                None,
                true,
                slot,
                final(runner)@,
                final(poller)@,
            ),
    {
        runner.register(
            poller,
            true,
            FiberSock::Udp,
            Some(param),
            None,
            true,
        )
    }

    /// Start a child fiber with tcp socket.
    ///
    /// This function does not block current fiber.
    pub fn join_tcp(
        &self,
        runner: &mut Runner<P, R>,
        poller: &mut Poller,
        param: P,
    ) -> (slot: Result<usize, Error>)
        requires
            old(runner).wf(),
            old(poller).wf(),
            self.is_of(old(runner)@),
            old(runner)@.has_room(),
        ensures
            final(runner).wf(),
            final(poller).wf(),
            crate::runner::started(
                old(runner)@,
                old(poller)@,
                true,
                FiberSock::Tcp,
                Some(param),
                Some(self.slot()),
                true,
                slot,
                final(runner)@,
                final(poller)@,
            ),
    {
        runner.register(
            poller,
            true,
            FiberSock::Tcp,
            Some(param),
            Some(self.id),
            true,
        )
    }

    /// Start a child fiber with an udp socket.
    ///
    /// This function does not block current fiber.
    pub fn join_udp(
        &self,
        runner: &mut Runner<P, R>,
        poller: &mut Poller,
        param: P,
    ) -> (slot: Result<usize, Error>)
        requires
            old(runner).wf(),
            old(poller).wf(),
            self.is_of(old(runner)@),
            old(runner)@.has_room(),
        ensures
            final(runner).wf(),
            final(poller).wf(),
            crate::runner::started(
                old(runner)@,
                old(poller)@,
                true,
                FiberSock::Udp,
                Some(param),
                Some(self.slot()),
                true,
                slot,
                final(runner)@,
                final(poller)@,
            ),
    {
        runner.register(
            poller,
            true,
            FiberSock::Udp,
            Some(param),
            Some(self.id),
            true,
        )
    }

    /// Resolve domain, connect and run fiber.
    /// In case domain resolve or connect fails, fiber will still be run but all
    /// socket operations will fail.
    ///
    /// This function does not block. There is no relationship between calling and created
    /// fiber. The lookup is begun by the caller (see [`Runner::new_resolve`]).
    pub fn new_resolve_connect(
        &self,
        runner: &mut Runner<P, R>,
        poller: &mut Poller,
        now: Duration,
        domain: &str,
        timeout: Duration,
        param: P,
    ) -> (slot: Result<usize, Error>)
        requires
            old(runner).wf(),
            old(poller).wf(),
            self.is_of(old(runner)@),
            old(runner)@.has_room(),
        ensures
            final(runner).wf(),
            final(poller).wf(),
            crate::runner::resolve_started(
                old(runner)@,
                old(poller)@,
                now@,
                None,
                domain@,
                true,
                timeout@,
                param,
                slot,
                final(runner)@,
                final(poller)@,
            ),
    {
        runner.new_resolve(poller, now, None, domain, true, timeout, param)
    }

    /// Start a child fiber that resolves domain, connects and runs fiber.
    /// In case domain resolve or connect fails, fiber will still be run but all
    /// socket operations will fail.
    ///
    /// This function does not block. The lookup is begun by the caller (see
    /// [`Runner::new_resolve`]).
    pub fn join_resolve_connect(
        &self,
        runner: &mut Runner<P, R>,
        poller: &mut Poller,
        now: Duration,
        domain: &str,
        timeout: Duration,
        param: P,
    ) -> (slot: Result<usize, Error>)
        requires
            old(runner).wf(),
            old(poller).wf(),
            self.is_of(old(runner)@),
            old(runner)@.has_room(),
        ensures
            final(runner).wf(),
            final(poller).wf(),
            crate::runner::resolve_started(
                old(runner)@,
                old(poller)@,
                now@,
                Some(self.slot()),
                domain@,
                true,
                timeout@,
                param,
                slot,
                final(runner)@,
                final(poller)@,
            ),
    {
        runner.new_resolve(poller, now, Some(self.id), domain, true, timeout, param)
    }

    /// Call main stack.
    ///
    /// The fiber steps out after this until main stack produces response.
    pub fn join_main(&self, runner: &mut Runner<P, R>)
        requires
            old(runner).wf(),
            self.is_of(old(runner)@),
        ensures
            final(runner).wf(),
            final(runner)@ == old(runner)@.called_main(self.slot()),
    {
        runner.join_main(self.id)
    }

    /// What the main stack has produced.
    pub fn main_response(&self, runner: &mut Runner<P, R>) -> (resp: Option<R>)
        requires
            old(runner).wf(),
            self.is_of(old(runner)@),
        ensures
            final(runner).wf(),
            resp == old(runner)@.fibers[self.slot() as int].answer,
            final(runner)@ == old(runner)@.response_taken(self.slot()),
    {
        runner.join_main_done(self.id)
    }

    /// Get result of child. If fiber has multiple children it will return first available
    /// result. Where nothing is available immediately the fiber steps out, and asks again.
    ///
    /// All children have finished executing if that is what is returned.
    pub fn get_child(&self, runner: &mut Runner<P, R>, poller: &mut Poller) -> (got: Child<R>)
        requires
            old(runner).wf(),
            old(poller).wf(),
            self.is_of(old(runner)@),
        ensures
            final(runner).wf(),
            final(poller).wf(),
            (ChildStep { runner: final(runner)@, poller: final(poller)@, got }) == old(
                runner,
            )@.child_step(old(poller)@, self.slot()),
    {
        runner.child_iter(poller, self.id)
    }

    /// Remove stack from current fiber and reuse on other fibers. Once socket becomes
    /// signalled for reads, resume from the start of its function.
    pub fn hibernate_for_read(&self, runner: &mut Runner<P, R>) -> (how: Result<Option<Registration>, Error>)
        requires
            old(runner).wf(),
            self.is_of(old(runner)@),
        ensures
            final(runner).wf(),
            how == old(runner)@.fibers[self.slot() as int].wakes_on_read(),
            final(runner)@ == (if how is Ok {
                old(runner)@.sleeps(self.slot())
            } else {
                old(runner)@
            }),
    {
        runner.hibernate_for_read(self.id)
    }

    /// The socket could not be registered: the fiber does not hibernate.
    pub fn hibernate_failed(&self, runner: &mut Runner<P, R>)
        requires
            old(runner).wf(),
            self.is_of(old(runner)@),
        ensures
            final(runner).wf(),
            final(runner)@ == old(runner)@.stays(self.slot()),
    {
        runner.hibernate_failed(self.id)
    }

    /// Remove stack from current fiber and reuse on other fibers. Once main resumes fiber
    /// it will start from beginning of its function.
    pub fn hibernate_join_main(&self, runner: &mut Runner<P, R>)
        requires
            old(runner).wf(),
            self.is_of(old(runner)@),
        ensures
            final(runner).wf(),
            final(runner)@ == old(runner)@.hibernates(self.slot()).called_main(self.slot()),
    {
        runner.hibernate_join_main(self.id)
    }

    /// An attempt to accept a TCP socket has given `got`. Works only on fibers from a
    /// listener.
    pub fn accept_tcp(&self, runner: &Runner<P, R>, got: IoResult) -> (step: IoStep)
        requires
            runner.wf(),
            self.is_of(runner@),
        ensures
            step == runner@.after_accept(self.slot(), got),
    {
        runner.accept_tcp(self.id, got)
    }

    /// Flush the socket: it has to be one that can be.
    pub fn flush(&self, runner: &Runner<P, R>) -> (can: Result<(), Error>)
        requires
            runner.wf(),
            self.is_of(runner@),
        ensures
            can == runner@.fibers[self.slot() as int].sock.stream(Error::ListenFlush),
    {
        runner.sock_of(self.id).flush()
    }
}

/// Reference to fiber on main stack.
pub struct FiberRef<P, R> {
    pub(crate) runner: i8,
    pub(crate) id: usize,
    p: PhantomData<P>,
    r: PhantomData<R>,
}

impl<P, R> FiberRef<P, R> {
    /// The number of the runner.
    pub closed spec fn runner(self) -> i8 {
        self.runner
    }

    /// The slot of the fiber there.
    pub closed spec fn slot(self) -> usize {
        self.id
    }

    pub(crate) fn new(runner: i8, id: usize) -> (f: FiberRef<P, R>)
        ensures
            f.runner() == runner,
            f.slot() == id,
    {
        FiberRef { runner, id, p: PhantomData, r: PhantomData }
    }

    /// The slot of the fiber in its runner.
    pub fn id(&self) -> (pos: usize)
        ensures
            pos == self.slot(),
    {
        self.id
    }

    /// Resume fiber with response from main stack if fiber waiting on join_main function.
    /// If fiber has been stopped with hibernate_join_main response will not be passed to it.
    ///
    /// This function does not block, fiber gets resumed on next poll(). A reference that is
    /// dropped resumes its fiber without a response.
    pub fn resume_fiber(self, runner: &mut Runner<P, R>, poller: &mut Poller, resp: Option<R>)
        requires
            old(runner).wf(),
            old(poller).wf(),
            self.runner() == old(runner)@.pos,
            old(runner)@.has(self.slot()),
        ensures
            final(runner).wf(),
            final(poller).wf(),
            final(runner)@ == old(runner)@.resumed(self.slot(), resp),
            final(poller)@ == old(runner)@.resumed_poller(old(poller)@, self.slot()),
    {
        runner.resume_fiber(poller, self.id, resp)
    }
}

/// Reference to timer on main stack.
pub struct TimerRef<P, R> {
    pub(crate) runner: i8,
    pub(crate) id: usize,
    pub(crate) token: Token,
    p: PhantomData<P>,
    r: PhantomData<R>,
}

impl<P, R> TimerRef<P, R> {
    /// The number of the runner.
    pub closed spec fn runner(self) -> i8 {
        self.runner
    }

    /// The slot of the timer there.
    pub closed spec fn slot(self) -> usize {
        self.id
    }

    /// The timer.
    pub closed spec fn token(self) -> Token {
        self.token
    }

    pub(crate) fn new(runner: i8, id: usize, token: Token) -> (t: TimerRef<P, R>)
        ensures
            t.runner() == runner,
            t.slot() == id,
            t.token() == token,
    {
        TimerRef { runner, id, token, p: PhantomData, r: PhantomData }
    }

    /// The slot of the timer in its runner.
    pub fn id(&self) -> (pos: usize)
        ensures
            pos == self.slot(),
    {
        self.id
    }

    /// Drop the reference: its timer is cancelled, unless it has run. What uses its slot
    /// since then is left alone.
    pub fn cancel(self, runner: &mut Runner<P, R>, poller: &mut Poller)
        requires
            old(runner).wf(),
            old(poller).wf(),
            self.runner() == old(runner)@.pos,
            old(runner)@.has(self.slot()),
        ensures
            final(runner).wf(),
            final(poller).wf(),
            if old(runner)@.fibers[self.slot() as int].wtoken == Some(self.token()) {
                &&& final(runner)@ == old(runner)@.dropped(self.slot())
                &&& final(poller)@ == old(poller)@.cancelled(Some(self.token()))
            } else {
                &&& final(runner)@ == old(runner)@
                &&& final(poller)@ == old(poller)@
            },
    {
        runner.cancel_timer(poller, self.id, self.token)
    }
}

} // verus!
