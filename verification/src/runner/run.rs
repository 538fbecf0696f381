//! The order in which a runner works off what the poller has for it: fibers that are
//! ready, then lookups that have come back, then timers that have fired.
use super::{Runner, RunnerView};
use crate::dns_message::{dns_parse, Ipv4};
use crate::duration::Duration;
use crate::poller::{Fired, Lookup, Poller, PollerView};
use crate::slot::{
    ConnectParam, FiberSock, FiberView, FiberWait, Ready, Registration, SocketType,
};
use crate::wheel::Token;
use vstd::prelude::*;

verus! {

/// How far a run of a runner has come.
#[derive(Clone, Copy, Debug, PartialEq, Eq, Structural)]
pub enum RunStage {
    /// Fibers that are ready are run.
    Ready,
    /// Lookups that have come back are worked off.
    Lookups,
    /// Timers that have fired are worked off.
    Timers,
}

/// A fiber has its address, and is to be connected to it.
#[derive(Clone, Copy, Debug, PartialEq, Eq, Structural)]
pub struct Connect {
    pub pos: usize,
    pub address: Ipv4,
    pub port: u16,
    pub st: SocketType,
}

/// What a run of a runner asks for next.
#[derive(Debug)]
pub enum RunAction {
    /// Enter the fiber in this slot.
    Enter(usize),
    /// Read a reply to a lookup from the socket of the fiber in this slot, and hand it to
    /// [`Runner::dns_reply`].
    ReadReply(usize),
    /// Connect a fiber, and tell [`Runner::connect_done`].
    Connect(Connect),
    /// Look the host up once more, over the socket of the fiber in the slot `pos`.
    Resend { pos: usize, attempt: usize, host: String },
    /// Nothing: the lookup for the fiber in this slot runs elsewhere, and still has time.
    Ticked(usize),
    /// The run is over. True if anything changed and there are responses or fibers to get.
    Finished(bool),
}

impl<P, R> RunnerView<P, R> {
    /// The fiber in the slot `pos` waits for an address, which starts it.
    pub open spec fn awaits_address(self, pos: usize) -> bool {
        let f = self.fibers[pos as int];
        f.connect is Some && f.wait is Start
    }

    /// There is something to do for the fiber in the slot `pos` when it is ready: a reply to
    /// its lookup is read, or it is entered.
    pub open spec fn takes_turn(self, pos: usize) -> bool {
        self.awaits_address(pos) || self.can_enter(pos)
    }

    /// Which of the ready slots from the `from`th on is the first for which there is
    /// something to do; their number where there is none.
    pub open spec fn next_ready(self, ready: Seq<usize>, from: int) -> int
        decreases ready.len() - from,
    {
        if from >= ready.len() || self.takes_turn(ready[from]) {
            from
        } else {
            self.next_ready(ready, from + 1)
        }
    }

    /// A timer that has fired is the one that the fiber in its slot waits for.
    pub open spec fn timer_current(self, fired: Fired) -> bool {
        let f = self.fibers[fired.0 as int];
        f.wtoken == Some(fired.1) && f.runnable() && (f.wait is Start || f.wait is Socket)
    }

    /// A lookup that has come back is for the fiber that is in the slot now, and that
    /// fiber waits for it.
    pub open spec fn lookup_current(self, l: Lookup) -> bool {
        self.fibers[l.0 as int].generation == l.1 && self.awaits_address(l.0)
    }

    /// Which of the lookups from the `from`th on is the first that is for a fiber that
    /// waits for it; their number where none is.
    pub open spec fn next_lookup(self, found: Seq<Lookup>, from: int) -> int
        decreases found.len() - from,
    {
        if from >= found.len() || self.lookup_current(found[from]) {
            from
        } else {
            self.next_lookup(found, from + 1)
        }
    }

    /// Which of the timers from the `from`th on is the first that a fiber waits for;
    /// their number where none is.
    pub open spec fn next_timer(self, fired: Seq<Fired>, from: int) -> int
        decreases fired.len() - from,
    {
        if from >= fired.len() || self.timer_current(fired[from]) {
            from
        } else {
            self.next_timer(fired, from + 1)
        }
    }

    /// The fiber in the slot `pos` has its address: it waits for no lookup any more but for
    /// the socket that it is to get.
    pub open spec fn addressed(self, pos: usize) -> RunnerView<P, R> {
        self.with(
            pos,
            FiberView {
                sock: FiberSock::Empty,
                ready: Ready::Empty,
                timed_out: 0,
                wtoken: None,
                connect: None,
                wait: FiberWait::Socket,
                ..self.fibers[pos as int]
            },
        )
    }

    /// What the fiber in the slot `pos` is to be connected to.
    pub open spec fn connect_to(self, pos: usize, address: Ipv4) -> Connect {
        let cp = self.fibers[pos as int].connect->0;
        Connect { pos, address, port: cp.port, st: cp.st }
    }

    /// What follows from a reply to the lookup for the fiber in the slot `pos`: where it gives
    /// an address, the fiber is to be connected to that, and waits for the lookup no more.
    pub open spec fn replied(
        self,
        p: PollerView,
        pos: usize,
        reply: Seq<u8>,
        to: Option<Connect>,
        after: RunnerView<P, R>,
        p_after: PollerView,
    ) -> bool {
        match crate::dns_message::first_address(reply) {
            Some(address) => {
                &&& to == Some(self.connect_to(pos, address))
                &&& after == self.addressed(pos)
                &&& p_after == p.cancelled(self.fibers[pos as int].wtoken)
            },
            None => to is None && after == self && p_after == p,
        }
    }

    /// The fiber in the slot `pos` was connected by a socket of this type, or could not be.
    pub open spec fn connected(self, pos: usize, by: Option<SocketType>) -> RunnerView<P, R> {
        match by {
            Some(st) => self.with(
                pos,
                FiberView {
                    sock: match st {
                        SocketType::Tcp => FiberSock::Tcp,
                        SocketType::Udp => FiberSock::Udp,
                    },
                    ready: Ready::Writable,
                    ..self.fibers[pos as int]
                },
            ),
            None => self,
        }
    }

    /// How that socket is registered with the poll, if there is one.
    pub open spec fn connect_registers(self, pos: usize, by: Option<SocketType>) -> Option<
        Registration,
    > {
        let f = self.fibers[pos as int];
        match by {
            Some(_) => Some(
                Registration { id: f.me, ready: Ready::Writable, again: !(f.ready is Empty) },
            ),
            None => None,
        }
    }

    /// What follows from the timer of the fiber in the slot `pos`.
    ///
    /// Where the fiber waits for an address, one more tick has gone by. If there is time
    /// left the lookup goes on, with a timer for the next tick; if not the fiber is run
    /// without a socket. Any other fiber is run, and knows that it has timed out.
    pub open spec fn timer_step(
        self,
        p: PollerView,
        pos: usize,
        now: nat,
        after: RunnerView<P, R>,
        p_after: PollerView,
        action: RunAction,
    ) -> bool {
        let f = self.fibers[pos as int];
        match f.connect {
            Some(cp) => if f.timed_out > 1 {
                let token = after.fibers[pos as int].wtoken;
                &&& p.armed_as(token, f.me, 250_000_000, now, p_after)
                &&& after == self.with(
                    pos,
                    FiberView { timed_out: (f.timed_out - 1) as u8, wtoken: token, ..f },
                )
                &&& if f.sock is Udp {
                    action matches RunAction::Resend { pos: q, attempt, host } && q == pos && attempt
                        == f.timed_out - 1 && host@ == cp.host
                } else {
                    action == RunAction::Ticked(pos)
                }
            } else {
                &&& p_after == p
                &&& after == self.with(
                    pos,
                    FiberView {
                        sock: FiberSock::Empty,
                        wtoken: None,
                        connect: None,
                        timed_out: 0,
                        wait: FiberWait::Open,
                        ..f
                    },
                )
                &&& action == RunAction::Enter(pos)
            },
            None => {
                &&& p_after == p
                &&& after == self.with(
                    pos,
                    FiberView { wtoken: None, timed_out: 1, wait: FiberWait::Open, ..f },
                )
                &&& action == RunAction::Enter(pos)
            },
        }
    }

    /// One step of a run, at the stage of the timers.
    pub open spec fn timers_step(
        self,
        p: PollerView,
        now: nat,
        after: RunnerView<P, R>,
        p_after: PollerView,
        action: RunAction,
    ) -> bool {
        let r = self.pos as int;
        let fired = p.timedout[r];
        let i = self.next_timer(fired, 0);
        if i < fired.len() {
            self.timer_step(p.timedout_popped(r, i + 1), fired[i].0, now, after, p_after, action)
        } else {
            &&& after == self
            &&& p_after == p.timedout_popped(r, fired.len() as int)
            &&& action == RunAction::Finished(self.signaled())
        }
    }

    /// One step of a run: what is asked for, and the runner and the poller after it.
    ///
    /// Fibers that are ready come first, without those that are done or wait for something
    /// else. When there are none left, the lookups that have come back are next, without
    /// those that no fiber waits for any more, and then the timers that have fired, without
    /// those that no fiber waits for. A stage that is over does not come back within a run.
    pub open spec fn run_step(
        self,
        p: PollerView,
        stage: RunStage,
        now: nat,
        after: RunnerView<P, R>,
        p_after: PollerView,
        stage_after: RunStage,
        action: RunAction,
    ) -> bool {
        let r = self.pos as int;
        let ready = p.toexec[r];
        let first = self.next_ready(ready, 0);
        let found = p.lookups[r];
        let i = self.next_lookup(found, 0);
        let idle = if stage is Ready {
            p.exec_popped(r, ready.len() as int)
        } else {
            p
        };
        if stage is Ready && first < ready.len() {
            let pos = ready[first];
            &&& after == self
            &&& p_after == p.exec_popped(r, first + 1)
            &&& stage_after is Ready
            &&& action == (if self.awaits_address(pos) {
                RunAction::ReadReply(pos)
            } else {
                RunAction::Enter(pos)
            })
        } else if !(stage is Timers) && i < found.len() {
            let (pos, _, address) = found[i];
            &&& after == self.addressed(pos)
            &&& p_after == idle.lookups_popped(r, i + 1).cancelled(self.fibers[pos as int].wtoken)
            &&& stage_after is Lookups
            &&& action == RunAction::Connect(self.connect_to(pos, address))
        } else {
            let q = if stage is Timers {
                idle
            } else {
                idle.lookups_popped(r, found.len() as int)
            };
            &&& stage_after is Timers
            &&& self.timers_step(q, now, after, p_after, action)
        }
    }
}

impl<P, R> Runner<P, R> {
    /// The fiber in a slot has its address.
    fn have_addr(&mut self, poller: &mut Poller, pos: usize, address: Ipv4) -> (to: Connect)
        requires
            old(self).wf(),
            old(poller).wf(),
            old(self)@.has(pos),
            old(self)@.awaits_address(pos),
        ensures
            final(self).wf(),
            final(poller).wf(),
            to == old(self)@.connect_to(pos, address),
            final(self)@ == old(self)@.addressed(pos),
            final(poller)@ == old(poller)@.cancelled(old(self)@.fibers[pos as int].wtoken),
    {
        proof {
            old(self)@.lemma_same_links(pos, old(self)@.addressed(pos).fibers[pos as int]);
        }
        if let Some(token) = self.fibers[pos].wtoken {
            poller.timer_cancel(token);
        }
        self.fibers[pos].wtoken = None;
        self.fibers[pos].sock = FiberSock::Empty;
        self.fibers[pos].ready = Ready::Empty;
        self.fibers[pos].timed_out = 0;
        self.fibers[pos].wait = FiberWait::Socket;
        let cp: ConnectParam = self.fibers[pos].connect_param.take().unwrap();
        assert(self@.fibers =~= old(self)@.addressed(pos).fibers);
        Connect { pos, address, port: cp.port, st: cp.st }
    }

    /// A reply to the lookup for a fiber has been read. Where it holds an address, the
    /// fiber is to be connected to the first one.
    pub fn dns_reply(&mut self, poller: &mut Poller, pos: usize, reply: &[u8]) -> (to: Option<Connect>)
        requires
            old(self).wf(),
            old(poller).wf(),
            old(self)@.has(pos),
            old(self)@.awaits_address(pos),
        ensures
            final(self).wf(),
            final(poller).wf(),
            old(self)@.replied(old(poller)@, pos, reply@, to, final(self)@, final(poller)@),
    {
        match dns_parse(reply) {
            Some(address) => Some(self.have_addr(poller, pos, address)),
            None => None,
        }
    }

    /// A fiber has been connected to its address, by a socket of the given type, or could
    /// not be. Says how the socket is registered with the poll; without one, or where that
    /// fails, the fiber is to be entered at once so that it fails on its first socket
    /// operation.
    pub fn connect_done(&mut self, pos: usize, connected: Option<SocketType>) -> (how: Option<
        Registration,
    >)
        requires
            old(self).wf(),
            old(self)@.has(pos),
        ensures
            final(self).wf(),
            how == old(self)@.connect_registers(pos, connected),
            final(self)@ == old(self)@.connected(pos, connected),
    {
        let st: SocketType = match connected {
            Some(st) => st,
            None => {
                return None;
            },
        };
        let sock: FiberSock = match st {
            SocketType::Tcp => FiberSock::Tcp,
            SocketType::Udp => FiberSock::Udp,
        };
        let ghost g = FiberView { sock, ready: Ready::Writable, ..old(self)@.fibers[pos as int] };
        proof {
            old(self)@.lemma_same_links(pos, g);
        }
        self.fibers[pos].sock = sock;
        let how = self.fibers[pos].register(Ready::Writable);
        assert(self@.fibers =~= old(self)@.with(pos, g).fibers);
        match how {
            Ok(registration) => Some(registration),
            Err(_) => None,
        }
    }

    /// The timer of the fiber in a slot has fired.
    fn timer_fired(&mut self, poller: &mut Poller, pos: usize, now: Duration) -> (action: RunAction)
        requires
            old(self).wf(),
            old(poller).wf(),
            old(self)@.has(pos),
        ensures
            final(self).wf(),
            final(poller).wf(),
            old(self)@.timer_step(
                old(poller)@,
                pos,
                now@,
                final(self)@,
                final(poller)@,
                action,
            ),
            old(self)@.fibers[pos as int].runnable() ==> (action matches RunAction::Enter(to)
                ==> final(self)@.can_enter(to)),
    {
        let ghost f = old(self)@.fibers[pos as int];
        // Check if this is timer on connect.
        if self.fibers[pos].connect_param.is_some() {
            // DNS tick down
            if self.fibers[pos].timed_out > 1 {
                let left: u8 = self.fibers[pos].timed_out - 1;
                self.fibers[pos].timed_out = left;
                proof {
                    assert(old(self)@.slot_in_range(pos as int));
                    crate::ids::law_id_round_trip(old(self)@.pos, pos);
                }
                let token: Option<Token> = poller.timer_reg(self.fibers[pos].me, None, now);
                self.fibers[pos].wtoken = token;
                proof {
                    let g = FiberView { timed_out: left, wtoken: token, ..f };
                    old(self)@.lemma_same_links(pos, g);
                    assert(self@.fibers =~= old(self)@.with(pos, g).fibers);
                    assert(self@.fibers[pos as int].wtoken == token);
                }
                // When we look up ourselves, we have a UDP socket for it.
                if self.fibers[pos].sock == FiberSock::Udp {
                    let host: String = self.fibers[pos].connect_param.as_ref().unwrap().host.clone();
                    return RunAction::Resend { pos, attempt: left as usize, host };
                }
                return RunAction::Ticked(pos);
            }
            // DNS lookup timed out
            self.fibers[pos].sock = FiberSock::Empty;
            self.fibers[pos].wtoken = None;
            self.fibers[pos].connect_param = None;
            self.fibers[pos].timed_out = 0;
            self.fibers[pos].wait = FiberWait::Open;
            proof {
                let g = FiberView {
                    sock: FiberSock::Empty,
                    wtoken: None,
                    connect: None,
                    timed_out: 0,
                    wait: FiberWait::Open,
                    ..f
                };
                old(self)@.lemma_same_links(pos, g);
                assert(self@.fibers =~= old(self)@.with(pos, g).fibers);
            }
            return RunAction::Enter(pos);
        }
        self.fibers[pos].wtoken = None;
        self.fibers[pos].timed_out = 1;
        self.fibers[pos].wait = FiberWait::Open;
        proof {
            let g = FiberView { wtoken: None, timed_out: 1, wait: FiberWait::Open, ..f };
            old(self)@.lemma_same_links(pos, g);
            assert(self@.fibers =~= old(self)@.with(pos, g).fibers);
        }
        RunAction::Enter(pos)
    }

    /// Execute fibers and timers, one step at a time: what is to be done next, and the
    /// stage to go on with when it is done. A run begins with [`RunStage::Ready`] and ends
    /// with [`RunAction::Finished`], which is true if anything changed and you should call
    /// [`Runner::get_response`] and [`Runner::get_fiber`].
    pub fn run(&mut self, poller: &mut Poller, stage: RunStage, now: Duration) -> (next: (
        RunStage,
        RunAction,
    ))
        requires
            old(self).wf(),
            old(poller).wf(),
            old(self)@.knows(old(poller)@),
        ensures
            final(self).wf(),
            final(poller).wf(),
            final(self)@.knows(final(poller)@),
            next.1 matches RunAction::Enter(pos) ==> final(self)@.can_enter(pos),
            old(self)@.run_step(
                old(poller)@,
                stage,
                now@,
                final(self)@,
                final(poller)@,
                next.0,
                next.1,
            ),
    {
        let r: usize = self.pos as usize;
        let ghost v = self@;
        let ghost p0 = poller@;
        if stage == RunStage::Ready {
            let ghost ready = p0.toexec[r as int];
            let ghost mut n: int = 0;
            let mut more: bool = true;
            assert(p0.toexec =~= p0.exec_popped(r as int, 0).toexec) by {
                assert(ready.skip(0) =~= ready);
            }
            while more
                invariant
                    self.wf(),
                    self@ == v,
                    poller.wf(),
                    v.pos == r,
                    r < crate::ids::MAX_RUNNERS,
                    p0.ok(),
                    v.knows(p0),
                    ready == p0.toexec[r as int],
                    0 <= n <= ready.len(),
                    poller@ == p0.exec_popped(r as int, n),
                    v.next_ready(ready, 0) == v.next_ready(ready, n),
                    !more ==> n == ready.len(),
                    v == old(self)@,
                    p0 == old(poller)@,
                    stage is Ready,
                decreases
                        if more {
                            ready.len() - n + 1
                        } else {
                            0
                        },
            {
                assert(poller@.toexec[r as int] == ready.skip(n));
                match poller.toexec_pop(r) {
                    Some(pos) => {
                        assert(ready[n] == pos);
                        assert(v.has(p0.toexec[r as int][n]));
                        proof {
                            assert(ready.skip(n).skip(1) =~= ready.skip(n + 1));
                            assert(poller@.toexec =~= p0.exec_popped(r as int, n + 1).toexec);
                            assert(forall|k: int|
                                0 <= k < poller@.toexec[r as int].len()
                                    ==> #[trigger] poller@.toexec[r as int][k]
                                    == p0.toexec[r as int][k + n + 1]);
                        }
                        if self.awaits_address(pos) {
                            assert(v.takes_turn(ready[n]));
                            return (RunStage::Ready, RunAction::ReadReply(pos));
                        }
                        if self.can_enter(pos) {
                            assert(v.takes_turn(ready[n]));
                            return (RunStage::Ready, RunAction::Enter(pos));
                        }
                        proof {
                            n = n + 1;
                        }
                    },
                    None => {
                        more = false;
                    },
                }
            }
        }
        let ghost p1 = poller@;
        assert(p1.refers_to(r as int, v.fibers.len() as int));
        if stage != RunStage::Timers {
            let ghost found = p1.lookups[r as int];
            let ghost mut n: int = 0;
            let mut more: bool = true;
            assert(p1.lookups =~= p1.lookups_popped(r as int, 0).lookups) by {
                assert(found.skip(0) =~= found);
            }
            while more
                invariant
                    self.wf(),
                    self@ == v,
                    poller.wf(),
                    v.pos == r,
                    r < crate::ids::MAX_RUNNERS,
                    p1.ok(),
                    v.knows(p1),
                    found == p1.lookups[r as int],
                    0 <= n <= found.len(),
                    poller@ == p1.lookups_popped(r as int, n),
                    v.next_lookup(found, 0) == v.next_lookup(found, n),
                    !more ==> n == found.len(),
                    v == old(self)@,
                    p0 == old(poller)@,
                    !(stage is Timers),
                    stage is Ready ==> v.next_ready(p0.toexec[r as int], 0)
                        >= p0.toexec[r as int].len(),
                    p1 == (if stage is Ready {
                        p0.exec_popped(r as int, p0.toexec[r as int].len() as int)
                    } else {
                        p0
                    }),
                decreases
                        if more {
                            found.len() - n + 1
                        } else {
                            0
                        },
            {
                assert(poller@.lookups[r as int] == found.skip(n));
                match poller.dns_check(r) {
                    Some((pos, generation, address)) => {
                        assert(found[n] == (pos, generation, address));
                        assert(v.has(p1.lookups[r as int][n].0));
                        proof {
                            assert(found.skip(n).skip(1) =~= found.skip(n + 1));
                            assert(poller@.lookups =~= p1.lookups_popped(r as int, n + 1).lookups);
                        }
                        if self.fibers[pos].generation == generation
                            && self.awaits_address(pos) {
                            assert(v.lookup_current(found[n]));
                            assert(v.next_lookup(found, 0) == n);
                            let to: Connect = self.have_addr(poller, pos, address);
                            assert(forall|k: int|
                                0 <= k < poller@.lookups[r as int].len()
                                    ==> #[trigger] poller@.lookups[r as int][k]
                                    == p1.lookups[r as int][k + n + 1]);
                            return (RunStage::Lookups, RunAction::Connect(to));
                        }
                        proof {
                            n = n + 1;
                        }
                    },
                    None => {
                        more = false;
                    },
                }
            }
        }
        let ghost q = poller@;
        let ghost fired = q.timedout[r as int];
        let ghost mut m: int = 0;
        assert(q.timedout =~= q.timedout_popped(r as int, 0).timedout) by {
            assert(fired.skip(0) =~= fired);
        }
        let mut more: bool = true;
        while more
            invariant
                self.wf(),
                self@ == v,
                poller.wf(),
                v.pos == r,
                r < crate::ids::MAX_RUNNERS,
                q.ok(),
                v.knows(q),
                fired == q.timedout[r as int],
                0 <= m <= fired.len(),
                poller@ == q.timedout_popped(r as int, m),
                v.next_timer(fired, 0) == v.next_timer(fired, m),
                !more ==> m == fired.len(),
                v == old(self)@,
                p0 == old(poller)@,
                p1 == (if stage is Ready {
                    p0.exec_popped(r as int, p0.toexec[r as int].len() as int)
                } else {
                    p0
                }),
                q == (if stage is Timers {
                    p1
                } else {
                    p1.lookups_popped(r as int, p1.lookups[r as int].len() as int)
                }),
                !(stage is Timers) ==> v.next_lookup(p1.lookups[r as int], 0)
                    >= p1.lookups[r as int].len(),
                stage is Ready ==> v.next_ready(p0.toexec[r as int], 0)
                    >= p0.toexec[r as int].len(),
            decreases
                    if more {
                        fired.len() - m + 1
                    } else {
                        0
                    },
        {
            assert(poller@.timedout[r as int] == fired.skip(m));
            match poller.timedout_pop(r) {
                Some((pos, token)) => {
                    assert(fired[m] == (pos, token));
                    assert(v.has(q.timedout[r as int][m].0));
                    proof {
                        assert(fired.skip(m).skip(1) =~= fired.skip(m + 1));
                        assert(poller@.timedout =~= q.timedout_popped(r as int, m + 1).timedout);
                    }
                    let awaited: bool = match self.fibers[pos].wtoken {
                        Some(own) => own == token,
                        None => false,
                    };
                    if awaited && self.fibers[pos].runnable() && (self.fibers[pos].wait
                        == FiberWait::Start || self.fibers[pos].wait == FiberWait::Socket) {
                        assert(v.timer_current(fired[m]));
                        assert(v.next_timer(fired, 0) == m);
                        let action: RunAction = self.timer_fired(poller, pos, now);
                        assert(forall|k: int|
                            0 <= k < poller@.timedout[r as int].len()
                                ==> #[trigger] poller@.timedout[r as int][k]
                                == q.timedout[r as int][k + m + 1]);
                        return (RunStage::Timers, action);
                    }
                    proof {
                        m = m + 1;
                    }
                },
                None => {
                    more = false;
                },
            }
        }
        (RunStage::Timers, RunAction::Finished(self.signaled()))
    }
}

} // verus!
