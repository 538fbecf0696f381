//! The slots of a runner, one for each fiber, and what the runner knows of the fiber in
//! it.
use crate::duration::Duration;
use crate::error::Error;
use crate::wheel::Token;
use std::collections::VecDeque;
use vstd::prelude::*;

verus! {

/// Where a fiber stands.
#[derive(Clone, Copy, Debug, PartialEq, Eq, Structural)]
pub enum FiberState {
    /// Its function has returned.
    Closed,
    /// It is on a stack.
    Stacked,
    /// It is on no stack, or about to leave it: it begins from the start of its function.
    Unstacked,
}

/// What a fiber that is not running waits for.
#[derive(Clone, Copy, Debug, PartialEq, Eq, Structural)]
pub enum FiberWait {
    /// Anything: it looks again for what it needs when it is entered.
    Open,
    /// What starts it: its timer, or its address.
    Start,
    /// Its socket, or the timer that ends the wait for it.
    Socket,
    /// The main stack, which it has called.
    Main,
    /// That its intermediate result is received.
    Chunk,
}

/// Socket type to connect to once a domain is resolved. For SSL/TLS use tcp first, then
/// turn the socket into a TLS stream inside the fiber.
#[derive(Clone, Copy, Debug, PartialEq, Eq, Structural)]
pub enum SocketType {
    Tcp,
    Udp,
}

/// What a fiber's socket is registered for.
#[derive(Clone, Copy, Debug, PartialEq, Eq, Structural)]
pub enum Ready {
    Empty,
    Readable,
    Writable,
}

/// The socket that a fiber runs on, by its kind.
#[derive(Clone, Copy, Debug, PartialEq, Eq, Structural)]
pub enum FiberSock {
    Tcp,
    Udp,
    Listener,
    /// A TLS stream starts as a TCP socket and becomes one through a handshake.
    Tls,
    /// A TLS handshake is under way.
    TlsTemp,
    Empty,
}

impl FiberSock {
    /// There is no socket.
    pub fn is_empty(&self) -> (yes: bool)
        ensures
            yes == (*self is Empty),
    {
        match self {
            FiberSock::Empty => true,
            _ => false,
        }
    }

    /// What registering the socket with the poll comes to.
    pub open spec fn spec_evented(self) -> Result<(), Error> {
        match self {
            FiberSock::Empty => Err(Error::NoSocket),
            _ => Ok(()),
        }
    }

    /// The socket can be registered with the poll, if there is one.
    pub fn evented(&self) -> (can: Result<(), Error>)
        ensures
            can == self.spec_evented(),
    {
        match self {
            FiberSock::Empty => Err(Error::NoSocket),
            _ => Ok(()),
        }
    }

    /// The socket can accept: it is a listening one.
    pub fn accept_tcp(&self) -> (can: Result<(), Error>)
        ensures
            can == (if *self is Listener {
                Ok::<(), Error>(())
            } else {
                Err::<(), Error>(Error::NotListening)
            }),
    {
        match self {
            FiberSock::Listener => Ok(()),
            _ => Err(Error::NotListening),
        }
    }

    /// What a stream operation on the socket comes to, where `listen` is the error of a
    /// listening socket.
    pub open spec fn stream(self, listen: Error) -> Result<(), Error> {
        match self {
            FiberSock::Tcp | FiberSock::Udp | FiberSock::Tls => Ok(()),
            FiberSock::Listener => Err(listen),
            FiberSock::TlsTemp | FiberSock::Empty => Err(Error::NoSocket),
        }
    }

    fn check_stream(&self, listen: Error) -> (can: Result<(), Error>)
        ensures
            can == self.stream(listen),
    {
        match self {
            FiberSock::Tcp | FiberSock::Udp | FiberSock::Tls => Ok(()),
            FiberSock::Listener => Err(listen),
            FiberSock::TlsTemp | FiberSock::Empty => Err(Error::NoSocket),
        }
    }

    /// The socket can be read.
    pub fn read(&self) -> (can: Result<(), Error>)
        ensures
            can == self.stream(Error::ListenRead),
    {
        self.check_stream(Error::ListenRead)
    }

    /// The socket can be written.
    pub fn write(&self) -> (can: Result<(), Error>)
        ensures
            can == self.stream(Error::ListenWrite),
    {
        self.check_stream(Error::ListenWrite)
    }

    /// The socket can be flushed.
    pub fn flush(&self) -> (can: Result<(), Error>)
        ensures
            can == self.stream(Error::ListenFlush),
    {
        self.check_stream(Error::ListenFlush)
    }
}

/// What a fiber that waits for an address connects to.
pub struct ConnectParam {
    pub port: u16,
    pub st: SocketType,
    /// The host to ask for again; empty where the lookup runs elsewhere.
    pub host: String,
}

/// What a [`ConnectParam`] is.
#[verifier::ext_equal]
pub struct ConnectView {
    pub port: u16,
    pub st: SocketType,
    pub host: Seq<char>,
}

impl View for ConnectParam {
    type V = ConnectView;

    open spec fn view(&self) -> ConnectView {
        ConnectView { port: self.port, st: self.st, host: self.host@ }
    }
}

/// How a socket is registered with the poll: under the id of its fiber, for one kind of
/// readiness, and whether it was registered before.
#[derive(Clone, Copy, Debug, PartialEq, Eq, Structural)]
pub struct Registration {
    pub id: u64,
    pub ready: Ready,
    pub again: bool,
}

/// A fiber in its slot.
pub struct FiberInt<P, R> {
    pub runner: i8,
    pub ready: Ready,
    pub param: Option<P>,
    pub state: FiberState,
    // full fiber id
    pub me: u64,
    // Fiber slots get reused, this is to keep track of how many times
    // fiber has been reused. Useful if this ID gets sent someplace outside
    // (like DNS resolver) and we don't know when we get response.
    pub generation: usize,
    // Whether there is a function to run; a timer may have none.
    pub func: bool,
    pub connect_param: Option<ConnectParam>,
    pub sock: FiberSock,
    // The stack that the fiber is on.
    pub stack: Option<usize>,
    // If a fiber is waiting on it
    pub parent: Option<usize>,
    pub children: VecDeque<usize>,
    // Will hold result of fiber function.
    pub result: Option<R>,
    // What the main stack has answered.
    pub answer: Option<R>,
    pub wait: FiberWait,
    pub wtoken: Option<Token>,
    pub timeout: Option<Duration>,
    pub timed_out: u8,
}

/// What a [`FiberInt`] is.
#[verifier::ext_equal]
pub struct FiberView<P, R> {
    pub runner: i8,
    pub ready: Ready,
    pub param: Option<P>,
    pub state: FiberState,
    pub me: u64,
    pub generation: usize,
    pub func: bool,
    pub connect: Option<ConnectView>,
    pub sock: FiberSock,
    pub stack: Option<usize>,
    pub parent: Option<usize>,
    pub children: Seq<usize>,
    pub result: Option<R>,
    pub answer: Option<R>,
    pub wait: FiberWait,
    pub wtoken: Option<Token>,
    pub timeout: Option<Duration>,
    pub timed_out: u8,
}

impl<P, R> View for FiberInt<P, R> {
    type V = FiberView<P, R>;

    open spec fn view(&self) -> FiberView<P, R> {
        FiberView {
            runner: self.runner,
            ready: self.ready,
            param: self.param,
            state: self.state,
            me: self.me,
            generation: self.generation,
            func: self.func,
            connect: match self.connect_param {
                Some(cp) => Some(cp@),
                None => None,
            },
            sock: self.sock,
            stack: self.stack,
            parent: self.parent,
            children: self.children@,
            result: self.result,
            answer: self.answer,
            wait: self.wait,
            wtoken: self.wtoken,
            timeout: self.timeout,
            timed_out: self.timed_out,
        }
    }
}

impl<P, R> FiberView<P, R> {
    /// The fiber can be run: it is not done, and it has no function, or it is on a stack, or
    /// it can begin with its parameter.
    pub open spec fn runnable(self) -> bool {
        !(self.state is Closed) && (!self.func || self.stack is Some || self.param is Some)
    }

    /// What registering the fiber's socket for `ready` takes.
    pub open spec fn registration(self, ready: Ready) -> Result<Registration, Error> {
        match self.sock.spec_evented() {
            Ok(()) => Ok(Registration { id: self.me, ready, again: !(self.ready is Empty) }),
            Err(e) => Err(e),
        }
    }

    /// The fiber's socket is registered for `ready`, if it can be.
    pub open spec fn registered(self, ready: Ready) -> FiberView<P, R> {
        if self.sock.spec_evented() is Ok {
            FiberView { ready, ..self }
        } else {
            self
        }
    }
}

impl<P, R> FiberInt<P, R> {
    /// The fiber can be run.
    pub(crate) fn runnable(&self) -> (yes: bool)
        ensures
            yes == self@.runnable(),
    {
        self.state != FiberState::Closed && (!self.func || self.stack.is_some()
            || self.param.is_some())
    }

    /// Register the fiber's socket for `ready`: says how, or why it can not be.
    pub(crate) fn register(&mut self, ready: Ready) -> (how: Result<Registration, Error>)
        ensures
            how == old(self)@.registration(ready),
            final(self)@ == old(self)@.registered(ready),
    {
        match self.sock.evented() {
            Ok(()) => {
                let again: bool = match self.ready {
                    Ready::Empty => false,
                    _ => true,
                };
                self.ready = ready;
                Ok(Registration { id: self.me, ready, again })
            },
            Err(e) => Err(e),
        }
    }
}

} // verus!
