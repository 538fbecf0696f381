//! Runners: they hold the fibers of one kind and decide which of them runs.
//!
//! A runner does not touch a socket or switch a stack itself. Each of its functions takes
//! what the outside has brought and says what is to be done next: enter a fiber, read a
//! reply, connect, wait.
use crate::duration::Duration;
use crate::error::Error;
use crate::fiber::{FiberRef, TimerRef};
use crate::ids::{fiber_id, MAX_RUNNERS};
use crate::poller::{Poller, PollerView, Stack};
use crate::slot::{
    ConnectParam, ConnectView, FiberInt, FiberSock, FiberState, FiberView, FiberWait, Ready,
    Registration, SocketType,
};
use crate::wheel::Token;
use std::collections::VecDeque;
use vstd::prelude::*;

pub mod children;
pub mod io;
pub mod run;
pub mod table;

verus! {

/// How long a fiber waits for its socket unless it says otherwise, in milliseconds.
pub const SOCKET_TIMEOUT_MS: u64 = 20000;

/// How many slots a runner can have: the id of a fiber holds 32 bits for its slot.
pub const MAX_SLOTS: u64 = 0x1_0000_0000;

/// What a [`Runner`] is.
#[verifier::ext_equal]
pub struct RunnerView<P, R> {
    /// The number of the runner.
    pub pos: i8,
    /// The slots.
    pub fibers: Seq<FiberView<P, R>>,
    /// The slots that no fiber uses; the one to use next comes first.
    pub free: Seq<usize>,
    /// Fibers that have called the main stack.
    pub tomain: Seq<usize>,
    /// Results for the main stack, each with the slot of the fiber that waits until it is
    /// received, if one does.
    pub results: Seq<(R, Option<usize>)>,
}

/// The contents of a row of slots.
pub open spec fn slots<P, R>(row: Seq<FiberInt<P, R>>) -> Seq<FiberView<P, R>> {
    row.map_values(|f: FiberInt<P, R>| f@)
}

impl<P, R> RunnerView<P, R> {
    /// The slot `i` is that of its number, and what it refers to are slots.
    pub open spec fn slot_in_range(self, i: int) -> bool {
        let f = self.fibers[i];
        &&& f.runner == self.pos
        &&& f.me == crate::ids::fiber_id_of(self.pos, i as usize)
        &&& f.parent matches Some(p) ==> p < self.fibers.len()
        &&& forall|k: int| 0 <= k < f.children.len() ==> (#[trigger] f.children[k]) < self.fibers.len()
    }

    /// The runner has a number that a runner can have, and what its slots and queues
    /// refer to are slots.
    pub open spec fn in_range(self) -> bool {
        &&& 0 <= self.pos < MAX_RUNNERS
        &&& self.fibers.len() <= MAX_SLOTS
        &&& forall|i: int| 0 <= i < self.fibers.len() ==> #[trigger] self.slot_in_range(i)
        &&& forall|k: int| 0 <= k < self.free.len() ==> (#[trigger] self.free[k]) < self.fibers.len()
        &&& forall|k: int| 0 <= k < self.tomain.len() ==> (#[trigger] self.tomain[k])
            < self.fibers.len()
        &&& forall|k: int|
            0 <= k < self.results.len() ==> ((#[trigger] self.results[k]).1 matches Some(q)
                ==> q < self.fibers.len())
    }

    /// There is a slot `pos`.
    pub open spec fn has(self, pos: usize) -> bool {
        pos < self.fibers.len()
    }

    /// What is queued for the runner refers to its slots.
    pub open spec fn knows(self, p: PollerView) -> bool {
        p.refers_to(self.pos as int, self.fibers.len() as int)
    }

    /// The slot `pos` holds `f`.
    pub open spec fn with(self, pos: usize, f: FiberView<P, R>) -> RunnerView<P, R> {
        RunnerView { fibers: self.fibers.update(pos as int, f), ..self }
    }

    /// The slot that the next fiber gets.
    pub open spec fn next_slot(self) -> usize {
        if self.free.len() > 0 {
            self.free[0]
        } else {
            self.fibers.len() as usize
        }
    }

    /// The generation that the next fiber gets.
    pub open spec fn next_generation(self) -> int {
        if self.free.len() > 0 {
            self.fibers[self.free[0] as int].generation + 1
        } else {
            0
        }
    }

    /// There is room for one more fiber: a slot to be reused whose generation can be
    /// counted up, or a new one.
    pub open spec fn has_room(self) -> bool {
        if self.free.len() > 0 {
            self.next_generation() <= usize::MAX
        } else {
            self.fibers.len() < MAX_SLOTS && self.fibers.len() < usize::MAX
        }
    }

    /// How the listening socket of the next fiber is registered with the poll.
    pub open spec fn listens_as(self) -> Registration {
        Registration {
            id: crate::ids::fiber_id_of(self.pos, self.next_slot()),
            ready: Ready::Readable,
            again: false,
        }
    }

    /// A fiber as it is when it gets its slot. One without a socket waits for what starts
    /// it.
    pub open spec fn fresh(
        self,
        func: bool,
        sock: FiberSock,
        param: Option<P>,
        parent: Option<usize>,
    ) -> FiberView<P, R> {
        FiberView {
            runner: self.pos,
            ready: if sock is Listener {
                Ready::Readable
            } else {
                Ready::Empty
            },
            param,
            state: FiberState::Unstacked,
            me: crate::ids::fiber_id_of(self.pos, self.next_slot()),
            generation: self.next_generation() as usize,
            func,
            connect: None,
            sock,
            stack: None,
            parent,
            children: Seq::empty(),
            result: None,
            answer: None,
            wait: if sock is Empty {
                FiberWait::Start
            } else {
                FiberWait::Open
            },
            wtoken: None,
            timeout: Some(Duration { secs: 20, nanos: 0 }),
            timed_out: 0,
        }
    }

    /// The slot that the next fiber gets has been taken from those that no fiber uses.
    pub open spec fn slot_taken(self) -> RunnerView<P, R> {
        RunnerView {
            free: if self.free.len() > 0 {
                self.free.drop_first()
            } else {
                self.free
            },
            ..self
        }
    }

    /// There is a new fiber. Its parent, if it has one, counts it as its child.
    pub open spec fn registered(
        self,
        func: bool,
        sock: FiberSock,
        param: Option<P>,
        parent: Option<usize>,
    ) -> RunnerView<P, R> {
        let f = self.fresh(func, sock, param, parent);
        let placed = if self.free.len() > 0 {
            self.slot_taken().with(self.next_slot(), f)
        } else {
            RunnerView { fibers: self.fibers.push(f), ..self }
        };
        match parent {
            Some(p) => {
                let g = placed.fibers[p as int];
                placed.with(p, FiberView { children: g.children.push(self.next_slot()), ..g })
            },
            None => placed,
        }
    }
}

impl<P, R> RunnerView<P, R> {
    /// A runner stays in range when one of its slots changes and what that refers to are
    /// slots.
    proof fn lemma_with(self, pos: usize, f: FiberView<P, R>)
        requires
            self.in_range(),
            self.has(pos),
            f.runner == self.fibers[pos as int].runner,
            f.me == self.fibers[pos as int].me,
            f.parent matches Some(p) ==> self.has(p),
            forall|k: int| 0 <= k < f.children.len() ==> self.has(#[trigger] f.children[k]),
        ensures
            self.with(pos, f).in_range(),
    {
        let v = self.with(pos, f);
        assert forall|i: int| 0 <= i < v.fibers.len() implies #[trigger] v.slot_in_range(i) by {
            assert(self.slot_in_range(i));
        }
    }

    /// A runner stays in range when one of its slots changes and refers to what it did.
    proof fn lemma_same_links(self, pos: usize, f: FiberView<P, R>)
        requires
            self.in_range(),
            self.has(pos),
            f.runner == self.fibers[pos as int].runner,
            f.me == self.fibers[pos as int].me,
            f.parent == self.fibers[pos as int].parent,
            f.children == self.fibers[pos as int].children,
        ensures
            self.with(pos, f).in_range(),
    {
        assert(self.slot_in_range(pos as int));
        self.lemma_with(pos, f);
    }

    /// A runner stays in range when its queues change and what they refer to are slots.
    proof fn lemma_queues(
        self,
        free: Seq<usize>,
        tomain: Seq<usize>,
        results: Seq<(R, Option<usize>)>,
    )
        requires
            self.in_range(),
            forall|k: int|
                0 <= k < results.len() ==> ((#[trigger] results[k]).1 matches Some(q)
                    ==> self.has(q)),
            forall|k: int| 0 <= k < free.len() ==> self.has(#[trigger] free[k]),
            forall|k: int| 0 <= k < tomain.len() ==> self.has(#[trigger] tomain[k]),
        ensures
            (RunnerView { free, tomain, results, ..self }).in_range(),
    {
        let v = RunnerView { free, tomain, results, ..self };
        assert forall|i: int| 0 <= i < v.fibers.len() implies #[trigger] v.slot_in_range(i) by {
            assert(self.slot_in_range(i));
        }
    }

    /// A runner stays in range when a slot is taken.
    proof fn lemma_slot_taken(self)
        requires
            self.in_range(),
        ensures
            self.slot_taken().in_range(),
    {
        self.lemma_queues(self.slot_taken().free, self.tomain, self.results);
    }

    /// A runner stays in range when there is a new fiber.
    pub(crate) proof fn lemma_registered(self, func: bool, sock: FiberSock, param: Option<P>, parent: Option<usize>)
        requires
            self.in_range(),
            self.has_room(),
            parent matches Some(p) ==> self.has(p),
        ensures
            self.registered(func, sock, param, parent).in_range(),
            self.registered(func, sock, param, parent).has(self.next_slot()),
    {
        let f = self.fresh(func, sock, param, parent);
        self.lemma_slot_taken();
        let placed = if self.free.len() > 0 {
            self.slot_taken().with(self.next_slot(), f)
        } else {
            RunnerView { fibers: self.fibers.push(f), ..self }
        };
        if self.free.len() > 0 {
            assert(self.slot_in_range(self.free[0] as int));
            self.slot_taken().lemma_with(self.next_slot(), f);
        } else {
            assert forall|i: int| 0 <= i < placed.fibers.len() implies #[trigger] placed.slot_in_range(
                i,
            ) by {
                if i < self.fibers.len() {
                    assert(self.slot_in_range(i));
                }
            }
        }
        if let Some(p) = parent {
            let g = placed.fibers[p as int];
            assert(placed.slot_in_range(p as int));
            placed.lemma_with(p, FiberView { children: g.children.push(self.next_slot()), ..g });
        }
    }
}

/// Runner executes fibers on main stack. There can be multiple runners each with its own
/// fibers of a particular type.
pub struct Runner<P, R> {
    pos: i8,
    fibers: Vec<FiberInt<P, R>>,
    free_fibers: VecDeque<usize>,
    tomain_fibers: VecDeque<usize>,
    results: VecDeque<(R, Option<usize>)>,
}

impl<P, R> View for Runner<P, R> {
    type V = RunnerView<P, R>;

    closed spec fn view(&self) -> RunnerView<P, R> {
        RunnerView {
            pos: self.pos,
            fibers: slots(self.fibers@),
            free: self.free_fibers@,
            tomain: self.tomain_fibers@,
            results: self.results@,
        }
    }
}

impl<P, R> Runner<P, R> {
    /// The runner can be worked with.
    pub open spec fn wf(&self) -> bool {
        self@.in_range()
    }

    /// Start a fiber in a slot of its own, and return the slot.
    ///
    /// `func` says whether it has a function to run, and `parent` is the slot of the fiber
    /// that waits for it, if one does. A fiber with a socket is run as soon as the runner
    /// gets to it; timers and lookups have none.
    ///
    /// A listening socket is registered with the poll (see [`Runner::listens_as`]) before this
    /// is called, and `registered` says whether that went well. If not, there is no fiber, and
    /// a slot that was to be reused is not used again.
    pub fn register(
        &mut self,
        poller: &mut Poller,
        func: bool,
        sock: FiberSock,
        param: Option<P>,
        parent: Option<usize>,
        registered: bool,
    ) -> (slot: Result<usize, Error>)
        requires
            old(self).wf(),
            old(poller).wf(),
            old(self)@.has_room(),
            parent matches Some(p) ==> old(self)@.has(p),
        ensures
            final(self).wf(),
            final(poller).wf(),
            started(
                old(self)@,
                old(poller)@,
                func,
                sock,
                param,
                parent,
                registered,
                slot,
                final(self)@,
                final(poller)@,
            ),
    {
        let listens: bool = match sock {
            FiberSock::Listener => true,
            _ => false,
        };
        if listens && !registered {
            let _ = self.free_fibers.pop_front();
            proof {
                old(self)@.lemma_slot_taken();
                assert(self@.free =~= old(self)@.slot_taken().free);
            }
            return Err(Error::System);
        }
        let mut fiber: FiberInt<P, R> = FiberInt {
            ready: if listens {
                Ready::Readable
            } else {
                Ready::Empty
            },
            runner: self.pos,
            param,
            me: 0,
            generation: 0,
            state: FiberState::Unstacked,
            func,
            connect_param: None,
            sock,
            stack: None,
            parent,
            children: VecDeque::new(),
            result: None,
            answer: None,
            wait: if sock.is_empty() {
                FiberWait::Start
            } else {
                FiberWait::Open
            },
            wtoken: None,
            timeout: Some(Duration::from_millis(SOCKET_TIMEOUT_MS)),
            timed_out: 0,
        };
        proof {
            old(self)@.lemma_slot_taken();
            old(self)@.lemma_registered(func, sock, param, parent);
        }
        let pos: usize = match self.free_fibers.pop_front() {
            Some(free_pos) => {
                fiber.me = fiber_id(self.pos, free_pos);
                fiber.generation = self.fibers[free_pos].generation + 1;
                self.fibers[free_pos] = fiber;
                free_pos
            },
            None => {
                let next: usize = self.fibers.len();
                fiber.me = fiber_id(self.pos, next);
                self.fibers.push(fiber);
                next
            },
        };
        // Only schedule for immediate execution if it has a socket.
        // Timers and DNS lookups don't.
        if !sock.is_empty() {
            self.push_toexec(poller, pos);
        }
        if let Some(p) = parent {
            self.fibers[p].children.push_back(pos);
        }
        assert(self@.fibers =~= old(self)@.registered(func, sock, param, parent).fibers);
        Ok(pos)
    }

    /// Start fiber on TCP socket.
    ///
    /// This function does not block and fiber gets executed on next poll().
    pub fn new_tcp(&mut self, poller: &mut Poller, param: P) -> (slot: Result<usize, Error>)
        requires
            old(self).wf(),
            old(poller).wf(),
            old(self)@.has_room(),
        ensures
            final(self).wf(),
            final(poller).wf(),
            started(
                old(self)@,
                old(poller)@,
                true,
                FiberSock::Tcp,
                Some(param),
                None,
                true,
                slot,
                final(self)@,
                final(poller)@,
            ),
    {
        self.register(poller, true, FiberSock::Tcp, Some(param), None, true)
    }

    /// Start fiber on TCP listener. `registered` says whether its socket could be registered
    /// with the poll (see [`Runner::register`]).
    ///
    /// This function does not block and fiber gets executed on next poll().
    pub fn new_listener(&mut self, poller: &mut Poller, param: P, registered: bool) -> (slot: Result<usize, Error>)
        requires
            old(self).wf(),
            old(poller).wf(),
            old(self)@.has_room(),
        ensures
            final(self).wf(),
            final(poller).wf(),
            started(
                old(self)@,
                old(poller)@,
                true,
                FiberSock::Listener,
                Some(param),
                None,
                registered,
                slot,
                final(self)@,
                final(poller)@,
            ),
    {
        self.register(poller, true, FiberSock::Listener, Some(param), None, registered)
    }

    /// Start fiber on UDP socket.
    ///
    /// This function does not block and fiber gets executed on next poll().
    pub fn new_udp(&mut self, poller: &mut Poller, param: P) -> (slot: Result<usize, Error>)
        requires
            old(self).wf(),
            old(poller).wf(),
            old(self)@.has_room(),
        ensures
            final(self).wf(),
            final(poller).wf(),
            started(
                old(self)@,
                old(poller)@,
                true,
                FiberSock::Udp,
                Some(param),
                None,
                true,
                slot,
                final(self)@,
                final(poller)@,
            ),
    {
        self.register(poller, true, FiberSock::Udp, Some(param), None, true)
    }

    /// Resolve domain, connect and run fiber.
    /// In case domain resolve or connect fails, fiber will still be run but all
    /// socket operations will fail.
    ///
    /// The lookup is begun by the caller (see [`Runner::new_resolve`]).
    pub fn new_resolve_connect(
        &mut self,
        poller: &mut Poller,
        now: Duration,
        domain: &str,
        timeout: Duration,
        param: P,
    ) -> (slot: Result<usize, Error>)
        requires
            old(self).wf(),
            old(poller).wf(),
            old(self)@.has_room(),
        ensures
            final(self).wf(),
            final(poller).wf(),
            resolve_started(
                old(self)@,
                old(poller)@,
                now@,
                None,
                domain@,
                true,
                timeout@,
                param,
                slot,
                final(self)@,
                final(poller)@,
            ),
    {
        self.new_resolve(poller, now, None, domain, true, timeout, param)
    }

    /// The fiber in the slot `pos` is to be run.
    fn push_toexec(&self, poller: &mut Poller, pos: usize)
        requires
            0 <= self@.pos < MAX_RUNNERS,
            old(poller).wf(),
        ensures
            final(poller).wf(),
            final(poller)@ == old(poller)@.exec_pushed(self@.pos as int, pos),
    {
        poller.toexec_push(self.pos as usize, pos);
    }

    /// How many slots there are.
    pub fn fiber_count(&self) -> (n: usize)
        ensures
            n == self@.fibers.len(),
    {
        self.fibers.len()
    }

    /// What is queued for the runner refers to its slots.
    pub fn knows(&self, poller: &Poller) -> (yes: bool)
        requires
            self.wf(),
            poller.wf(),
        ensures
            yes == self@.knows(poller@),
    {
        poller.refers_to(self.pos as usize, self.fibers.len())
    }

    /// The number of the runner.
    pub fn number(&self) -> (pos: i8)
        ensures
            pos == self@.pos,
    {
        self.pos
    }

    /// There is room for one more fiber.
    pub fn has_room(&self) -> (yes: bool)
        requires
            self.wf(),
        ensures
            yes == self@.has_room(),
    {
        if self.free_fibers.len() > 0 {
            let next: usize = self.free_fibers[0];
            assert(self@.free[0] < self@.fibers.len());
            self.fibers[next].generation < usize::MAX
        } else {
            (self.fibers.len() as u64) < MAX_SLOTS && self.fibers.len() < usize::MAX
        }
    }

    /// How the listening socket of the next fiber is registered with the poll: under the id
    /// that the fiber will have, for reads.
    pub fn listens_as(&self) -> (how: Registration)
        requires
            self.wf(),
            self@.has_room(),
        ensures
            how == self@.listens_as(),
    {
        let slot: usize = if self.free_fibers.len() > 0 {
            self.free_fibers[0]
        } else {
            self.fibers.len()
        };
        Registration { id: fiber_id(self.pos, slot), ready: Ready::Readable, again: false }
    }

    /// The id of the fiber in a slot.
    pub fn id_of(&self, pos: usize) -> (id: u64)
        requires
            self@.has(pos),
        ensures
            id == self@.fibers[pos as int].me,
    {
        self.fibers[pos].me
    }

    /// The generation of the fiber in a slot.
    pub fn generation_of(&self, pos: usize) -> (generation: usize)
        requires
            self@.has(pos),
        ensures
            generation == self@.fibers[pos as int].generation,
    {
        self.fibers[pos].generation
    }

    /// The socket of the fiber in a slot.
    pub fn sock_of(&self, pos: usize) -> (sock: FiberSock)
        requires
            self@.has(pos),
        ensures
            sock == self@.fibers[pos as int].sock,
    {
        self.fibers[pos].sock
    }

    /// The fiber in a slot is on a stack.
    pub fn on_stack(&self, pos: usize) -> (yes: bool)
        requires
            self@.has(pos),
        ensures
            yes == (self@.fibers[pos as int].stack is Some),
    {
        self.fibers[pos].stack.is_some()
    }

    /// The fiber in a slot waits for an address.
    pub fn awaits_address(&self, pos: usize) -> (yes: bool)
        requires
            self@.has(pos),
        ensures
            yes == self@.awaits_address(pos),
    {
        self.fibers[pos].connect_param.is_some() && self.fibers[pos].wait == FiberWait::Start
    }

    /// Start a fiber that waits for the address of `domain`: as long as `to` allows, the
    /// lookup is repeated on each tick. The fiber has no socket until then.
    ///
    /// The lookup itself is begun by the caller, under the id and the generation of the
    /// slot that is returned, and [`Runner::lookup_started`] takes what came of it.
    pub fn new_resolve(
        &mut self,
        poller: &mut Poller,
        now: Duration,
        parent: Option<usize>,
        domain: &str,
        func: bool,
        to: Duration,
        param: P,
    ) -> (slot: Result<usize, Error>)
        requires
            old(self).wf(),
            old(poller).wf(),
            old(self)@.has_room(),
            parent matches Some(p) ==> old(self)@.has(p),
        ensures
            final(self).wf(),
            final(poller).wf(),
            resolve_started(
                old(self)@,
                old(poller)@,
                now@,
                parent,
                domain@,
                func,
                to@,
                param,
                slot,
                final(self)@,
                final(poller)@,
            ),
    {
        if domain.is_empty() {
            return Err(Error::EmptyDomain);
        }
        let ghost started = old(self)@.registered(func, FiberSock::Empty, Some(param), parent);
        let pos: usize = match self.register(
            poller,
            func,
            FiberSock::Empty,
            Some(param),
            parent,
            true,
        ) {
            Ok(pos) => pos,
            Err(e) => {
                return Err(e);
            },
        };
        proof {
            old(self)@.lemma_registered(func, FiberSock::Empty, Some(param), parent);
            assert(started.slot_in_range(pos as int));
            crate::ids::law_id_round_trip(started.pos, pos);
        }
        let token: Option<Token> = poller.timer_reg(self.fibers[pos].me, None, now);
        let mut ticks: u128 = to.as_millis() / 250;
        if ticks == 0 {
            ticks = 1;
        } else if ticks > 255 {
            ticks = 255;
        }
        self.fibers[pos].wtoken = token;
        self.fibers[pos].timed_out = ticks as u8;
        proof {
            let f = started.fibers[pos as int];
            let g = FiberView { wtoken: token, timed_out: lookup_ticks(to@), ..f };
            started.lemma_with(pos, g);
            assert(self@.fibers =~= started.with(pos, g).fibers);
        }
        Ok(pos)
    }

    /// The lookup for a fiber has begun, or could not begin.
    ///
    /// Where it runs over a socket of this thread, that socket is the fiber's for now:
    /// what is returned says how it is registered with the poll. Where the lookup could
    /// not begin, the fiber is gone; its slot is free if there is a timer to cancel.
    pub fn lookup_started(
        &mut self,
        poller: &mut Poller,
        pos: usize,
        begun: LookupStart,
        st: SocketType,
        port: u16,
        domain: &str,
    ) -> (how: Result<Option<Registration>, Error>)
        requires
            old(self).wf(),
            old(poller).wf(),
            old(self)@.has(pos),
        ensures
            final(self).wf(),
            final(poller).wf(),
            how == old(self)@.lookup_registers(pos, begun),
            final(self)@ == old(self)@.lookup_begun(pos, begun, st, port, domain@),
            final(poller)@ == (if begun is Failed {
                old(poller)@.cancelled(old(self)@.fibers[pos as int].wtoken)
            } else {
                old(poller)@
            }),
    {
        let ghost f = old(self)@.fibers[pos as int];
        assert(old(self)@.slot_in_range(pos as int));
        match begun {
            LookupStart::Elsewhere => {
                let host: String = String::new();
                self.fibers[pos].connect_param = Some(ConnectParam { port, st, host });
                proof {
                    let g = FiberView {
                        connect: Some(ConnectView { port, st, host: Seq::empty() }),
                        ..f
                    };
                    old(self)@.lemma_with(pos, g);
                    assert(self@.fibers =~= old(self)@.with(pos, g).fibers);
                }
                Ok(None)
            },
            LookupStart::Socket => {
                self.fibers[pos].connect_param = Some(
                    ConnectParam { port, st, host: domain.to_owned() },
                );
                self.fibers[pos].sock = FiberSock::Udp;
                let how = self.fibers[pos].register(Ready::Readable);
                proof {
                    let g = FiberView {
                        connect: Some(ConnectView { port, st, host: domain@ }),
                        sock: FiberSock::Udp,
                        ready: Ready::Readable,
                        ..f
                    };
                    old(self)@.lemma_with(pos, g);
                    assert(self@.fibers =~= old(self)@.with(pos, g).fibers);
                }
                match how {
                    Ok(registration) => Ok(Some(registration)),
                    Err(e) => Err(e),
                }
            },
            LookupStart::Failed => {
                self.fibers[pos].param = None;
                if let Some(parent) = self.fibers[pos].parent {
                    forget(&mut self.fibers[parent].children, pos);
                    self.fibers[pos].parent = None;
                }
                proof {
                    old(self)@.lemma_orphaned(pos);
                    assert(self@.fibers =~= old(self)@.orphaned(pos).fibers);
                }
                if self.fibers[pos].wtoken.is_some() {
                    self.drop_slot(poller, pos);
                }
                Err(Error::System)
            },
        }
    }

    /// Nothing is left of the fiber in a slot: its timer is cancelled and the slot is free.
    fn drop_slot(&mut self, poller: &mut Poller, pos: usize)
        requires
            old(self).wf(),
            old(poller).wf(),
            old(self)@.has(pos),
        ensures
            final(self).wf(),
            final(poller).wf(),
            final(self)@ == old(self)@.dropped(pos),
            final(poller)@ == old(poller)@.cancelled(old(self)@.fibers[pos as int].wtoken),
    {
        proof {
            old(self)@.lemma_dropped(pos);
        }
        if let Some(token) = self.fibers[pos].wtoken {
            poller.timer_cancel(token);
        }
        self.fibers[pos].wtoken = None;
        self.fibers[pos].result = None;
        self.fibers[pos].param = None;
        self.fibers[pos].state = FiberState::Closed;
        self.free_fibers.push_back(pos);
        assert(self@.fibers =~= old(self)@.dropped(pos).fibers);
    }

    /// Cancel a timer, if the fiber in the slot still waits for it, and free the slot.
    pub fn cancel_timer(&mut self, poller: &mut Poller, pos: usize, token: Token)
        requires
            old(self).wf(),
            old(poller).wf(),
            old(self)@.has(pos),
        ensures
            final(self).wf(),
            final(poller).wf(),
            if old(self)@.fibers[pos as int].wtoken == Some(token) {
                &&& final(self)@ == old(self)@.dropped(pos)
                &&& final(poller)@ == old(poller)@.cancelled(Some(token))
            } else {
                &&& final(self)@ == old(self)@
                &&& final(poller)@ == old(poller)@
            },
    {
        if let Some(own) = self.fibers[pos].wtoken {
            if own == token {
                self.drop_slot(poller, pos);
            }
        }
    }

    /// Start a fiber without a socket that is run after `dur`. Where there is no timer to be
    /// had nothing runs it, and its slot is not used again.
    fn start_timer(
        &mut self,
        poller: &mut Poller,
        now: Duration,
        func: bool,
        dur: Duration,
        param: Option<P>,
        resp: Option<R>,
    ) -> (slot: Option<(usize, Token)>)
        requires
            old(self).wf(),
            old(poller).wf(),
            old(self)@.has_room(),
        ensures
            final(self).wf(),
            final(poller).wf(),
            timer_started(
                old(self)@,
                old(poller)@,
                now@,
                func,
                dur@,
                param,
                resp,
                slot,
                final(self)@,
                final(poller)@,
            ),
    {
        let ghost started = old(self)@.registered(func, FiberSock::Empty, param, None);
        let pos: usize = match self.register(poller, func, FiberSock::Empty, param, None, true) {
            Ok(pos) => pos,
            Err(_) => {
                return None;
            },
        };
        proof {
            old(self)@.lemma_registered(func, FiberSock::Empty, param, None);
            assert(started.slot_in_range(pos as int));
            crate::ids::law_id_round_trip(started.pos, pos);
        }
        let token: Option<Token> = poller.timer_reg(self.fibers[pos].me, Some(dur), now);
        self.fibers[pos].result = resp;
        self.fibers[pos].wtoken = token;
        proof {
            let g = FiberView { result: resp, wtoken: token, ..started.fibers[pos as int] };
            started.lemma_with(pos, g);
            assert(self@.fibers =~= started.with(pos, g).fibers);
        }
        match token {
            Some(token) => Some((pos, token)),
            None => None,
        }
    }

    /// Return `resp` after `dur`. Timer is one-shot.
    ///
    /// `None` where there is no timer to be had.
    pub fn new_timer(&mut self, poller: &mut Poller, now: Duration, dur: Duration, resp: R) -> (timer:
        Option<TimerRef<P, R>>)
        requires
            old(self).wf(),
            old(poller).wf(),
            old(self)@.has_room(),
        ensures
            final(self).wf(),
            final(poller).wf(),
            timer matches Some(t) ==> t.runner() == old(self)@.pos,
            timer_started(
                old(self)@,
                old(poller)@,
                now@,
                false,
                dur@,
                None,
                Some(resp),
                match timer {
                    Some(t) => Some((t.slot(), t.token())),
                    None => None,
                },
                final(self)@,
                final(poller)@,
            ),
    {
        match self.start_timer(poller, now, false, dur, None, Some(resp)) {
            Some((pos, token)) => Some(TimerRef::new(self.pos, pos, token)),
            None => None,
        }
    }

    /// Run socket-less fiber after `dur`.
    ///
    /// `None` where there is no timer to be had.
    pub fn new_fiber_timer(&mut self, poller: &mut Poller, now: Duration, dur: Duration, param: P) -> (
    timer: Option<TimerRef<P, R>>)
        requires
            old(self).wf(),
            old(poller).wf(),
            old(self)@.has_room(),
        ensures
            final(self).wf(),
            final(poller).wf(),
            timer matches Some(t) ==> t.runner() == old(self)@.pos,
            timer_started(
                old(self)@,
                old(poller)@,
                now@,
                true,
                dur@,
                Some(param),
                None,
                match timer {
                    Some(t) => Some((t.slot(), t.token())),
                    None => None,
                },
                final(self)@,
                final(poller)@,
            ),
    {
        match self.start_timer(poller, now, true, dur, Some(param), None) {
            Some((pos, token)) => Some(TimerRef::new(self.pos, pos, token)),
            None => None,
        }
    }

    /// The fiber in a slot can be entered: it can be run, and it waits for nothing that only
    /// the main stack, a timer or a receiver gives.
    pub fn can_enter(&self, pos: usize) -> (yes: bool)
        ensures
            yes == self@.can_enter(pos),
    {
        pos < self.fibers.len() && self.fibers[pos].runnable() && (self.fibers[pos].wait
            == FiberWait::Open || self.fibers[pos].wait == FiberWait::Socket)
    }

    /// Main stack -> fiber. Says how the fiber is entered; when it is back on the main
    /// stack, [`Runner::stepped_out`] is to be called. A fiber without a function is done
    /// at once.
    pub fn step_into(&mut self, poller: &mut Poller, pos: usize) -> (how: Entry)
        requires
            old(self).wf(),
            old(poller).wf(),
            old(self)@.can_enter(pos),
            old(poller)@.stacks < usize::MAX,
        ensures
            final(self).wf(),
            final(poller).wf(),
            how == old(self)@.entry(old(poller)@, pos),
            final(self)@ == old(self)@.entered(old(poller)@, pos),
            final(poller)@ == (if how is Begin {
                old(poller)@.stack_popped()
            } else {
                old(poller)@
            }),
    {
        proof {
            old(self)@.lemma_entered(old(poller)@, pos);
        }
        self.fibers[pos].wait = FiberWait::Open;
        if self.fibers[pos].func {
            if self.fibers[pos].stack.is_none() {
                let stack: Stack = poller.stack_pop();
                self.fibers[pos].stack = Some(stack.number);
                assert(self@.fibers =~= old(self)@.entered(old(poller)@, pos).fibers);
                return Entry::Begin(stack);
            }
            assert(self@.fibers =~= old(self)@.entered(old(poller)@, pos).fibers);
            Entry::Resume
        } else {
            self.fibers[pos].state = FiberState::Closed;
            assert(self@.fibers =~= old(self)@.entered(old(poller)@, pos).fibers);
            Entry::Ended
        }
    }

    /// A fiber begins on its stack: it gets the parameter that was used to start it. The
    /// slot keeps none, so it can not begin again.
    pub fn begin(&mut self, pos: usize) -> (param: P)
        requires
            old(self).wf(),
            old(self)@.has(pos),
            old(self)@.fibers[pos as int].param is Some,
        ensures
            final(self).wf(),
            param == old(self)@.fibers[pos as int].param->0,
            final(self)@ == old(self)@.begun(pos, None),
    {
        proof {
            old(self)@.lemma_same_links(pos, old(self)@.begun(pos, None).fibers[pos as int]);
        }
        self.fibers[pos].state = FiberState::Stacked;
        let param: P = self.fibers[pos].param.take().unwrap();
        assert(self@.fibers =~= old(self)@.begun(pos, None).fibers);
        param
    }

    /// A fiber begins on its stack: it gets the parameter that was used to start it. The
    /// slot keeps a clone, for the fiber may hibernate and begin again.
    pub fn begin_kept(&mut self, pos: usize) -> (param: P) where P: Clone
        requires
            old(self).wf(),
            old(self)@.has(pos),
            old(self)@.fibers[pos as int].param is Some,
        ensures
            final(self).wf(),
            param == old(self)@.fibers[pos as int].param->0,
            final(self)@.fibers[pos as int].param is Some,
            cloned(param, final(self)@.fibers[pos as int].param->0),
            final(self)@ == old(self)@.begun(pos, final(self)@.fibers[pos as int].param),
    {
        self.fibers[pos].state = FiberState::Stacked;
        let param: P = self.fibers[pos].param.take().unwrap();
        let kept: Option<P> = Some(param.clone());
        let ghost kept_view = kept;
        self.fibers[pos].param = kept;
        proof {
            old(self)@.lemma_same_links(pos, old(self)@.begun(pos, kept_view).fibers[pos as int]);
            assert(self@.fibers =~= old(self)@.begun(pos, kept_view).fibers);
            assert(self@.fibers[pos as int].param == kept_view);
        }
        param
    }

    /// The function of a fiber has returned.
    pub fn finish(&mut self, pos: usize, result: Option<R>)
        requires
            old(self).wf(),
            old(self)@.has(pos),
        ensures
            final(self).wf(),
            final(self)@ == old(self)@.returned(pos, result),
    {
        let ghost g = old(self)@.returned(pos, result).fibers[pos as int];
        proof {
            assert(old(self)@.slot_in_range(pos as int));
            old(self)@.lemma_with(pos, g);
        }
        self.fibers[pos].state = FiberState::Closed;
        self.fibers[pos].result = result;
        self.fibers[pos].param = None;
        assert(self@.fibers =~= old(self)@.with(pos, g).fibers);
    }

    /// Back on main stack from the fiber in the slot `pos`: a fiber that is not to stay on
    /// its stack leaves it, a result goes to the parent or to the main stack, and the slot
    /// of a fiber that is done and has no parent is free. Returns the parent, where there is
    /// something for it and it is to be entered now.
    pub fn stepped_out(&mut self, poller: &mut Poller, pos: usize) -> (next: Option<usize>)
        requires
            old(self).wf(),
            old(poller).wf(),
            old(self)@.has(pos),
        ensures
            final(self).wf(),
            final(poller).wf(),
            next == old(self)@.wakes(pos),
            next matches Some(p) ==> final(self)@.can_enter(p),
            final(self)@ == old(self)@.left(pos),
            final(poller)@ == old(self)@.left_poller(old(poller)@, pos),
    {
        proof {
            old(self)@.lemma_left(pos);
            assert(old(self)@.slot_in_range(pos as int));
        }
        let state: FiberState = self.fibers[pos].state;
        if state != FiberState::Stacked {
            if let Some(number) = self.fibers[pos].stack {
                self.fibers[pos].stack = None;
                poller.stack_push(number);
            }
        }
        if state == FiberState::Closed {
            self.fibers[pos].sock = FiberSock::Empty;
            if let Some(parent) = self.fibers[pos].parent {
                // Parent may not actually be blocking on this child though.
                // It may also be blocking on its socket. Which is why
                // the slot is freed when the parent takes the result, not here.
                assert(self@.fibers =~= old(self)@.left(pos).fibers);
                if self.hears(parent, pos) {
                    return Some(parent);
                }
                return None;
            }
            self.take_result(pos, None);
            self.free_fibers.push_back(pos);
            assert(self@.fibers =~= old(self)@.left(pos).fibers);
            None
        } else if let Some(parent) = self.fibers[pos].parent {
            assert(self@.fibers =~= old(self)@.left(pos).fibers);
            if self.fibers[pos].result.is_some() {
                // Parent iterator will reschedule this fiber to continue
                // once it takes its result.
                if self.hears(parent, pos) {
                    return Some(parent);
                }
            }
            None
        } else {
            // No parent: a result goes to the main stack, and the fiber is
            // rescheduled when it is received there.
            self.take_result(pos, Some(pos));
            assert(self@.fibers =~= old(self)@.left(pos).fibers);
            None
        }
    }

    /// The fiber in the slot `parent` counts the one in the slot `pos` as its child, and can
    /// be entered on its account.
    fn hears(&self, parent: usize, pos: usize) -> (yes: bool)
        requires
            self@.has(parent),
        ensures
            yes == self@.hears(parent, pos),
    {
        if !self.fibers[parent].runnable() || self.fibers[parent].wait != FiberWait::Open
            || self.fibers[parent].connect_param.is_some() {
            return false;
        }
        let mut i: usize = 0;
        while i < self.fibers[parent].children.len()
            invariant
                self@.has(parent),
                self@.fibers[parent as int].runnable(),
                self@.fibers[parent as int].wait is Open,
                self@.fibers[parent as int].connect is None,
                i <= self@.fibers[parent as int].children.len(),
                forall|k: int|
                    0 <= k < i ==> #[trigger] self@.fibers[parent as int].children[k] != pos,
            decreases self@.fibers[parent as int].children.len() - i,
        {
            if self.fibers[parent].children[i] == pos {
                assert(self@.fibers[parent as int].children[i as int] == pos);
                return true;
            }
            i = i + 1;
        }
        false
    }

    /// The result of a fiber goes to the main stack, with the slot of the fiber if it waits
    /// until the result is received.
    fn take_result(&mut self, pos: usize, from: Option<usize>)
        requires
            old(self)@.has(pos),
        ensures
            final(self)@ == old(self)@.result_taken(pos, from),
            final(self).fibers@ == old(self).fibers@.update(
                pos as int,
                FiberInt { result: None, ..old(self).fibers@[pos as int] },
            ),
    {
        let result: Option<R> = self.fibers[pos].result.take();
        if let Some(r) = result {
            self.results.push_back((r, from));
        }
        assert(self@.fibers =~= old(self)@.result_taken(pos, from).fibers);
    }

    /// Get a response from fiber if any available. A fiber that waits until it is received is
    /// then to be run on.
    pub fn get_response(&mut self, poller: &mut Poller) -> (response: Option<R>)
        requires
            old(self).wf(),
            old(poller).wf(),
        ensures
            final(self).wf(),
            final(poller).wf(),
            match response {
                Some(r) => {
                    &&& old(self)@.results.len() > 0
                    &&& r == old(self)@.results[0].0
                    &&& final(self)@ == old(self)@.received()
                    &&& final(poller)@ == old(self)@.received_poller(old(poller)@)
                },
                None => {
                    &&& old(self)@.results.len() == 0
                    &&& final(self)@ == old(self)@
                    &&& final(poller)@ == old(poller)@
                },
            },
    {
        proof {
            if old(self)@.results.len() > 0 {
                old(self)@.lemma_received();
                assert(old(self)@.results[0] == old(self)@.results[0]);
            }
        }
        let (r, from): (R, Option<usize>) = match self.results.pop_front() {
            Some(result) => result,
            None => {
                return None;
            },
        };
        if let Some(pos) = from {
            if self.fibers[pos].wait == FiberWait::Chunk {
                self.fibers[pos].wait = FiberWait::Open;
                self.push_toexec(poller, pos);
            }
        }
        assert(self@.fibers =~= old(self)@.received().fibers);
        Some(r)
    }

    /// Get a fiber if any that has called join_main and is blocking waiting for
    /// main stack to resume it.
    pub fn get_fiber(&mut self) -> (fiber: Option<FiberRef<P, R>>)
        requires
            old(self).wf(),
        ensures
            final(self).wf(),
            match fiber {
                Some(f) => old(self)@.tomain.len() > 0 && f.runner() == old(self)@.pos
                    && f.slot() == old(self)@.tomain[0] && final(self)@ == (RunnerView {
                    tomain: old(self)@.tomain.drop_first(),
                    ..old(self)@
                }),
                None => old(self)@.tomain.len() == 0 && final(self)@ == old(self)@,
            },
    {
        proof {
            if old(self)@.tomain.len() > 0 {
                old(self)@.lemma_queues(
                    old(self)@.free,
                    old(self)@.tomain.drop_first(),
                    old(self)@.results,
                );
            }
        }
        match self.tomain_fibers.pop_front() {
            Some(pos) => Some(FiberRef::new(self.pos, pos)),
            None => None,
        }
    }

    /// There is something for the main stack: a fiber that has called it, or a response.
    pub fn signaled(&self) -> (yes: bool)
        ensures
            yes == self@.signaled(),
    {
        self.tomain_fibers.len() > 0 || self.results.len() > 0
    }
}

/// How a fiber is entered.
#[derive(Clone, Copy, Debug, PartialEq, Eq, Structural)]
pub enum Entry {
    /// It goes on where it left off, on its stack.
    Resume,
    /// It begins, on this stack.
    Begin(Stack),
    /// It has no function, and is done.
    Ended,
}

impl<P, R> RunnerView<P, R> {
    /// The fiber in the slot `pos` can be entered: it can be run, and it waits for nothing
    /// that only the main stack, a timer or a receiver gives.
    pub open spec fn can_enter(self, pos: usize) -> bool {
        let f = self.fibers[pos as int];
        self.has(pos) && f.runnable() && (f.wait is Open || f.wait is Socket)
    }

    /// The fiber in the slot `parent` counts the one in the slot `pos` as its child, and can
    /// be entered on its account: it waits for nothing else.
    pub open spec fn hears(self, parent: usize, pos: usize) -> bool {
        let g = self.fibers[parent as int];
        g.runnable() && g.wait is Open && g.connect is None && g.children.contains(pos)
    }

    /// How the fiber in the slot `pos` is entered.
    pub open spec fn entry(self, p: PollerView, pos: usize) -> Entry {
        let f = self.fibers[pos as int];
        if !f.func {
            Entry::Ended
        } else if f.stack is Some {
            Entry::Resume
        } else {
            Entry::Begin(p.next_stack())
        }
    }

    /// The fiber in the slot `pos` is being entered: it waits no more.
    pub open spec fn entered(self, p: PollerView, pos: usize) -> RunnerView<P, R> {
        let f = FiberView { wait: FiberWait::Open, ..self.fibers[pos as int] };
        match self.entry(p, pos) {
            Entry::Ended => self.with(pos, FiberView { state: FiberState::Closed, ..f }),
            Entry::Resume => self.with(pos, f),
            Entry::Begin(s) => self.with(pos, FiberView { stack: Some(s.number), ..f }),
        }
    }

    proof fn lemma_entered(self, p: PollerView, pos: usize)
        requires
            self.in_range(),
            self.has(pos),
        ensures
            self.entered(p, pos).in_range(),
    {
        let f = FiberView { wait: FiberWait::Open, ..self.fibers[pos as int] };
        self.lemma_same_links(pos, f);
        self.lemma_same_links(pos, FiberView { state: FiberState::Closed, ..f });
        self.lemma_same_links(pos, FiberView { stack: Some(p.next_stack().number), ..f });
    }

    /// The function of the fiber in the slot `pos` has been called, with its parameter; what
    /// the slot keeps of that is `kept`.
    pub open spec fn begun(self, pos: usize, kept: Option<P>) -> RunnerView<P, R> {
        self.with(
            pos,
            FiberView { state: FiberState::Stacked, param: kept, ..self.fibers[pos as int] },
        )
    }

    /// The function of the fiber in the slot `pos` has returned `result`.
    pub open spec fn returned(self, pos: usize, result: Option<R>) -> RunnerView<P, R> {
        self.with(
            pos,
            FiberView {
                state: FiberState::Closed,
                result,
                param: None,
                ..self.fibers[pos as int]
            },
        )
    }

    /// The result of the fiber in the slot `pos`, if there is one, is one for the main
    /// stack, with the slot `from` of the fiber that waits until it is received.
    pub open spec fn result_taken(self, pos: usize, from: Option<usize>) -> RunnerView<P, R> {
        let f = self.fibers[pos as int];
        RunnerView {
            results: match f.result {
                Some(r) => self.results.push((r, from)),
                None => self.results,
            },
            ..self.with(pos, FiberView { result: None, ..f })
        }
    }

    /// The first result for the main stack has been received: the fiber that has waited for
    /// that waits no more.
    pub open spec fn received(self) -> RunnerView<P, R> {
        let rest = RunnerView { results: self.results.drop_first(), ..self };
        match self.results[0].1 {
            Some(q) if self.fibers[q as int].wait is Chunk => rest.with(
                q,
                FiberView { wait: FiberWait::Open, ..self.fibers[q as int] },
            ),
            _ => rest,
        }
    }

    /// The poller then: that fiber is to be run on.
    pub open spec fn received_poller(self, p: PollerView) -> PollerView {
        match self.results[0].1 {
            Some(q) if self.fibers[q as int].wait is Chunk => p.exec_pushed(self.pos as int, q),
            _ => p,
        }
    }

    proof fn lemma_received(self)
        requires
            self.in_range(),
            self.results.len() > 0,
        ensures
            self.received().in_range(),
            self.results[0].1 matches Some(q) ==> self.has(q),
    {
        let rest = RunnerView { results: self.results.drop_first(), ..self };
        assert(self.results[0].1 matches Some(q) ==> q < self.fibers.len());
        assert forall|k: int| 0 <= k < rest.results.len() implies ((
        #[trigger] rest.results[k]).1 matches Some(q) ==> self.has(q)) by {
            assert(rest.results[k] == self.results[k + 1]);
        }
        self.lemma_queues(self.free, self.tomain, rest.results);
        if let Some(q) = self.results[0].1 {
            rest.lemma_same_links(
                q,
                FiberView { wait: FiberWait::Open, ..self.fibers[q as int] },
            );
        }
    }

    /// The fiber in the slot `pos` does not stay on its stack.
    pub open spec fn unstacks(self, pos: usize) -> bool {
        !(self.fibers[pos as int].state is Stacked)
    }

    /// The runner when the fiber in the slot `pos` is back on the main stack and what
    /// follows from its state is done.
    pub open spec fn left(self, pos: usize) -> RunnerView<P, R> {
        let f = self.fibers[pos as int];
        let off = FiberView {
            stack: if self.unstacks(pos) {
                None
            } else {
                f.stack
            },
            sock: if f.state is Closed {
                FiberSock::Empty
            } else {
                f.sock
            },
            ..f
        };
        let bare = self.with(pos, off);
        if f.parent is Some {
            bare
        } else if f.state is Closed {
            RunnerView { free: self.free.push(pos), ..bare.result_taken(pos, None) }
        } else {
            bare.result_taken(pos, Some(pos))
        }
    }

    /// The poller then: a stack that was left is free.
    pub open spec fn left_poller(self, p: PollerView, pos: usize) -> PollerView {
        p.stack_pushed(
            if self.unstacks(pos) {
                self.fibers[pos as int].stack
            } else {
                None
            },
        )
    }

    /// The parent of the fiber in the slot `pos`, where it is to be entered now that the
    /// fiber is back on the main stack: when the fiber is done or has a result, and the
    /// parent does not wait for something else.
    pub open spec fn wakes(self, pos: usize) -> Option<usize> {
        let f = self.fibers[pos as int];
        match f.parent {
            Some(p) if (f.state is Closed || f.result is Some) && self.left(pos).hears(p, pos) => Some(
                p,
            ),
            _ => None,
        }
    }

    proof fn lemma_left(self, pos: usize)
        requires
            self.in_range(),
            self.has(pos),
        ensures
            self.left(pos).in_range(),
    {
        let f = self.fibers[pos as int];
        assert(self.slot_in_range(pos as int));
        let off = FiberView {
            stack: if self.unstacks(pos) {
                None
            } else {
                f.stack
            },
            sock: if f.state is Closed {
                FiberSock::Empty
            } else {
                f.sock
            },
            ..f
        };
        self.lemma_with(pos, off);
        let bare = self.with(pos, off);
        assert(bare.slot_in_range(pos as int));
        bare.lemma_with(pos, FiberView { result: None, ..off });
        let taken = bare.with(pos, FiberView { result: None, ..off });
        let chunk = bare.result_taken(pos, Some(pos)).results;
        let last = bare.result_taken(pos, None).results;
        assert forall|k: int| 0 <= k < chunk.len() implies ((#[trigger] chunk[k]).1 matches Some(q)
            ==> taken.has(q)) by {
            if k < self.results.len() {
                assert(chunk[k] == self.results[k]);
            }
        }
        assert forall|k: int| 0 <= k < last.len() implies ((#[trigger] last[k]).1 matches Some(q)
            ==> taken.has(q)) by {
            if k < self.results.len() {
                assert(last[k] == self.results[k]);
            }
        }
        taken.lemma_queues(self.free, self.tomain, chunk);
        taken.lemma_queues(self.free.push(pos), self.tomain, last);
    }

    /// There is something for the main stack.
    pub open spec fn signaled(self) -> bool {
        self.tomain.len() > 0 || self.results.len() > 0
    }
}

/// How the lookup for a fiber began.
#[derive(Clone, Copy, Debug, PartialEq, Eq, Structural)]
pub enum LookupStart {
    /// It runs elsewhere, and comes back through the poller.
    Elsewhere,
    /// It runs over a socket that is the fiber's for now.
    Socket,
    /// It did not begin.
    Failed,
}

/// How many ticks a lookup may take, given the time that it may take in nanoseconds: the
/// whole ticks that fit, at least one and at most 255.
pub open spec fn lookup_ticks(to: nat) -> u8 {
    let ticks = to / 1_000_000 / 250;
    if ticks == 0 {
        1
    } else if ticks > 255 {
        255
    } else {
        ticks as u8
    }
}

/// A fiber is started: it has the next slot, and is to be run if it has a socket. Where
/// its listening socket could not be registered there is none; a slot that was to be reused
/// is taken all the same.
pub open spec fn started<P, R>(
    before: RunnerView<P, R>,
    poller: PollerView,
    func: bool,
    sock: FiberSock,
    param: Option<P>,
    parent: Option<usize>,
    registered: bool,
    slot: Result<usize, Error>,
    after: RunnerView<P, R>,
    poller_after: PollerView,
) -> bool {
    if sock is Listener && !registered {
        &&& slot == Err::<usize, Error>(Error::System)
        &&& after == before.slot_taken()
        &&& poller_after == poller
    } else {
        &&& slot == Ok::<usize, Error>(before.next_slot())
        &&& after == before.registered(func, sock, param, parent)
        &&& poller_after == (if sock is Empty {
            poller
        } else {
            poller.exec_pushed(before.pos as int, before.next_slot())
        })
    }
}

/// A fiber is started that waits for the address of `domain`: it has the next slot, a
/// timer for the next tick, and the number of ticks that it waits at most. An empty domain
/// is refused.
pub open spec fn resolve_started<P, R>(
    before: RunnerView<P, R>,
    poller: PollerView,
    now: nat,
    parent: Option<usize>,
    domain: Seq<char>,
    func: bool,
    to: nat,
    param: P,
    slot: Result<usize, Error>,
    after: RunnerView<P, R>,
    poller_after: PollerView,
) -> bool {
    if domain.len() == 0 {
        &&& slot == Err::<usize, Error>(Error::EmptyDomain)
        &&& after == before
        &&& poller_after == poller
    } else {
        let pos = before.next_slot();
        let placed = before.registered(func, FiberSock::Empty, Some(param), parent);
        let f = placed.fibers[pos as int];
        let token = after.fibers[pos as int].wtoken;
        &&& slot == Ok::<usize, Error>(pos)
        &&& poller.armed_as(token, f.me, 250_000_000, now, poller_after)
        &&& after == placed.with(
            pos,
            FiberView { wtoken: token, timed_out: lookup_ticks(to), ..f },
        )
    }
}

/// A fiber without a socket is run after `dur`: it has the next slot, with its result
/// and its timer. Where there is no timer to be had it stays there without one, and is not
/// heard of.
pub open spec fn timer_started<P, R>(
    before: RunnerView<P, R>,
    poller: PollerView,
    now: nat,
    func: bool,
    dur: nat,
    param: Option<P>,
    resp: Option<R>,
    slot: Option<(usize, Token)>,
    after: RunnerView<P, R>,
    poller_after: PollerView,
) -> bool {
    let pos = before.next_slot();
    let placed = before.registered(func, FiberSock::Empty, param, None);
    let f = placed.fibers[pos as int];
    let token = match slot {
        Some((_, token)) => Some(token),
        None => None,
    };
    &&& slot matches Some((q, _)) ==> q == pos
    &&& poller.armed_as(token, f.me, dur, now, poller_after)
    &&& after == placed.with(pos, FiberView { result: resp, wtoken: token, ..f })
}

/// Where `x` first stands in a queue, from `from` on; its length where it does not.
pub open spec fn place_of(q: Seq<usize>, x: usize, from: int) -> int
    decreases q.len() - from,
{
    if from >= q.len() || q[from] == x {
        from
    } else {
        place_of(q, x, from + 1)
    }
}

/// The queue without the first `x`.
pub open spec fn without(q: Seq<usize>, x: usize) -> Seq<usize> {
    let i = place_of(q, x, 0);
    if 0 <= i < q.len() {
        q.remove(i)
    } else {
        q
    }
}

proof fn lemma_place_of(q: Seq<usize>, x: usize, from: int)
    requires
        0 <= from,
    ensures
        place_of(q, x, from) >= from,
        place_of(q, x, from) < q.len() ==> q[place_of(q, x, from)] == x,
        forall|k: int|
            from <= k < q.len() && k < place_of(q, x, from) ==> #[trigger] q[k] != x,
    decreases q.len() - from,
{
    if from < q.len() && q[from] != x {
        lemma_place_of(q, x, from + 1);
    }
}

/// What is left was there, in its order, and without duplicates `x` is gone.
pub(crate) proof fn lemma_without(q: Seq<usize>, x: usize)
    ensures
        forall|k: int| 0 <= k < without(q, x).len() ==> q.contains(#[trigger] without(q, x)[k]),
        q.no_duplicates() ==> without(q, x).no_duplicates() && !without(q, x).contains(x),
        forall|y: usize| y != x && q.contains(y) ==> #[trigger] without(q, x).contains(y),
{
    lemma_place_of(q, x, 0);
    let i = place_of(q, x, 0);
    let w = without(q, x);
    assert forall|k: int| 0 <= k < w.len() implies q.contains(#[trigger] w[k]) by {
        if 0 <= i < q.len() && k >= i {
            assert(w[k] == q[k + 1]);
        } else {
            assert(w[k] == q[k]);
        }
    }
    assert forall|y: usize| y != x && q.contains(y) implies #[trigger] w.contains(y) by {
        let k = choose|k: int| 0 <= k < q.len() && q[k] == y;
        if 0 <= i < q.len() && k > i {
            assert(w[k - 1] == y);
        } else {
            assert(w[k] == y);
        }
    }
    if q.no_duplicates() && w.contains(x) {
        let k = choose|k: int| 0 <= k < w.len() && w[k] == x;
        if 0 <= i < q.len() && k >= i {
            assert(q[k + 1] == x);
        } else {
            assert(q[k] == x);
        }
    }
}

/// Takes the first `x` out of a queue.
fn forget(q: &mut VecDeque<usize>, x: usize)
    ensures
        final(q)@ == without(old(q)@, x),
{
    let mut i: usize = 0;
    while i < q.len() && q[i] != x
        invariant
            q@ == old(q)@,
            i <= q@.len(),
            place_of(q@, x, 0) == place_of(q@, x, i as int),
        decreases q@.len() - i,
    {
        i = i + 1;
    }
    if i < q.len() {
        q.remove(i);
    }
}

impl<P, R> RunnerView<P, R> {
    /// The fiber in the slot `pos` has no parameter and no parent, and its parent does not
    /// count it as its child.
    pub open spec fn orphaned(self, pos: usize) -> RunnerView<P, R> {
        let bare = self.with(pos, FiberView { param: None, ..self.fibers[pos as int] });
        match self.fibers[pos as int].parent {
            Some(p) => {
                let g = bare.fibers[p as int];
                let left = bare.with(
                    p,
                    FiberView { children: without(g.children, pos), ..g },
                );
                left.with(pos, FiberView { parent: None, ..left.fibers[pos as int] })
            },
            None => bare,
        }
    }

    pub(crate) proof fn lemma_orphaned(self, pos: usize)
        requires
            self.in_range(),
            self.has(pos),
        ensures
            self.orphaned(pos).in_range(),
            self.orphaned(pos).fibers[pos as int].wtoken == self.fibers[pos as int].wtoken,
    {
        assert(self.slot_in_range(pos as int));
        let bare = self.with(pos, FiberView { param: None, ..self.fibers[pos as int] });
        self.lemma_with(pos, FiberView { param: None, ..self.fibers[pos as int] });
        if let Some(p) = self.fibers[pos as int].parent {
            let g = bare.fibers[p as int];
            assert(bare.slot_in_range(p as int));
            let kids = without(g.children, pos);
            lemma_without(g.children, pos);
            assert forall|k: int| 0 <= k < kids.len() implies bare.has(#[trigger] kids[k]) by {
                assert(g.children.contains(kids[k]));
            }
            bare.lemma_with(p, FiberView { children: kids, ..g });
            let left = bare.with(p, FiberView { children: kids, ..g });
            assert(left.slot_in_range(pos as int));
            left.lemma_with(pos, FiberView { parent: None, ..left.fibers[pos as int] });
        }
    }

    /// The lookup of `domain` for the fiber in the slot `pos` has begun, or could not begin. The
    /// fiber is to be connected to `port`, by a socket of the type `st`.
    pub open spec fn lookup_begun(
        self,
        pos: usize,
        begun: LookupStart,
        st: SocketType,
        port: u16,
        domain: Seq<char>,
    ) -> RunnerView<P, R> {
        let f = self.fibers[pos as int];
        match begun {
            LookupStart::Elsewhere => self.with(
                pos,
                FiberView { connect: Some(ConnectView { port, st, host: Seq::empty() }), ..f },
            ),
            LookupStart::Socket => self.with(
                pos,
                FiberView {
                    connect: Some(ConnectView { port, st, host: domain }),
                    sock: FiberSock::Udp,
                    ready: Ready::Readable,
                    ..f
                },
            ),
            LookupStart::Failed => self.lookup_failed(pos),
        }
    }

    /// How the socket of that lookup is registered with the poll, if it has one.
    pub open spec fn lookup_registers(self, pos: usize, begun: LookupStart) -> Result<
        Option<Registration>,
        Error,
    > {
        let f = self.fibers[pos as int];
        match begun {
            LookupStart::Elsewhere => Ok(None),
            LookupStart::Socket => Ok(
                Some(
                    Registration { id: f.me, ready: Ready::Readable, again: !(f.ready is Empty) },
                ),
            ),
            LookupStart::Failed => Err(Error::System),
        }
    }

    /// The lookup for the fiber in the slot `pos` could not begin: it is nobody's child and
    /// has no parameter. Nothing is left of it where it has a timer, which is cancelled;
    /// without one its slot is not used again.
    pub open spec fn lookup_failed(self, pos: usize) -> RunnerView<P, R> {
        if self.fibers[pos as int].wtoken is Some {
            self.orphaned(pos).dropped(pos)
        } else {
            self.orphaned(pos)
        }
    }

    /// Nothing is left of the fiber in the slot `pos`: there is nothing to run and nothing to
    /// report, and no fiber uses the slot.
    pub open spec fn dropped(self, pos: usize) -> RunnerView<P, R> {
        let f = self.fibers[pos as int];
        RunnerView {
            free: self.free.push(pos),
            ..self.with(
                pos,
                FiberView {
                    state: FiberState::Closed,
                    wtoken: None,
                    result: None,
                    param: None,
                    ..f
                },
            )
        }
    }

    proof fn lemma_dropped(self, pos: usize)
        requires
            self.in_range(),
            self.has(pos),
        ensures
            self.dropped(pos).in_range(),
    {
        let bare = self.dropped(pos).fibers[pos as int];
        self.lemma_same_links(pos, bare);
        self.with(pos, bare).lemma_queues(self.free.push(pos), self.tomain, self.results);
    }
}

} // verus!
