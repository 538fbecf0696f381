//! The poller: what is ready, what has timed out and what has been looked up, for each
//! runner of the thread; the timers; and the execution stacks that no fiber uses.
use crate::builder::Builder;
use crate::dns::Dns;
use crate::dns_message::Ipv4;
use crate::duration::Duration;
use crate::error::Error;
use crate::ids::{split_id, MAX_RUNNERS};
use crate::wheel::{Timer, Token, Wheel, WheelView};
use std::collections::VecDeque;
use vstd::prelude::*;

verus! {

/// The tick of the timers, in milliseconds.
pub const TICK_MS: u64 = 250;

/// A lookup that has come back: the slot that asked, its generation when it asked, and
/// the address.
pub type Lookup = (usize, usize, Ipv4);

/// A timer that has fired: the slot that it is for, and the timer.
pub type Fired = (usize, Token);

/// What a [`Poller`] is. The queues have one entry for each runner.
#[verifier::ext_equal]
pub struct PollerView {
    /// Slots that are ready to be run.
    pub toexec: Seq<Seq<usize>>,
    /// Timers that have fired.
    pub timedout: Seq<Seq<Fired>>,
    /// Lookups that have come back.
    pub lookups: Seq<Seq<Lookup>>,
    /// The timers.
    pub wheel: WheelView,
    /// The stacks that no fiber uses, by number; the one to use next comes first.
    pub free_stacks: Seq<usize>,
    /// How many stacks there are; they are numbered from zero.
    pub stacks: nat,
    /// The size of a stack, where one was asked for.
    pub stack_size: Option<usize>,
    /// The name servers.
    pub servers: Seq<Seq<char>>,
}

/// A number is a power of two.
pub open spec fn power_of_two(n: int) -> bool {
    exists|k: nat| n == #[trigger] vstd::arithmetic::power2::pow2(k)
}

/// `size` is `asked` rounded up to a power of two, or `asked` itself where no power of
/// two from there on is a size.
pub open spec fn rounds_up(asked: usize, size: usize) -> bool {
    if exists|p: usize| asked <= p && #[trigger] power_of_two(p as int) {
        &&& asked <= size
        &&& power_of_two(size as int)
        &&& forall|p: usize| asked <= p && #[trigger] power_of_two(p as int) ==> size <= p
    } else {
        size == asked
    }
}

/// The slots of the runner `r` among the ids, in order.
pub open spec fn routed(ids: Seq<u64>, r: int) -> Seq<usize>
    decreases ids.len(),
{
    if ids.len() == 0 {
        Seq::empty()
    } else if crate::ids::runner_of(ids.last()) == r {
        routed(ids.drop_last(), r).push(crate::ids::slot_of(ids.last()))
    } else {
        routed(ids.drop_last(), r)
    }
}

/// The lookups of the runner `r` among those that have come back, in order.
pub open spec fn routed_lookups(found: Seq<(u64, usize, Ipv4)>, r: int) -> Seq<Lookup>
    decreases found.len(),
{
    if found.len() == 0 {
        Seq::empty()
    } else {
        let rest = routed_lookups(found.drop_last(), r);
        let (id, generation, address) = found.last();
        if crate::ids::runner_of(id) == r {
            rest.push((crate::ids::slot_of(id), generation, address))
        } else {
            rest
        }
    }
}

/// What the timers `tokens` of a wheel report to the runner `r`, in order.
pub open spec fn routed_timers(w: WheelView, tokens: Seq<Token>, r: int) -> Seq<Fired>
    decreases tokens.len(),
{
    if tokens.len() == 0 {
        Seq::empty()
    } else {
        let rest = routed_timers(w, tokens.drop_last(), r);
        let id = w.timer(tokens.last()).id;
        if crate::ids::runner_of(id) == r {
            rest.push((crate::ids::slot_of(id), tokens.last()))
        } else {
            rest
        }
    }
}

impl WheelView {
    /// The wheel after the timers `tokens` have reported, one after the other.
    pub open spec fn after(self, tokens: Seq<Token>) -> WheelView
        decreases tokens.len(),
    {
        if tokens.len() == 0 {
            self
        } else {
            self.after(tokens.drop_last()).reported(tokens.last())
        }
    }

    /// The timers `tokens` are those that are due at the time `now`, in the order in
    /// which they are due.
    pub open spec fn all_due(self, tokens: Seq<Token>, now: nat) -> bool {
        &&& forall|i: int|
            0 <= i < tokens.len() ==> {
                let w = self.after(tokens.subrange(0, i));
                w.expired(#[trigger] tokens[i], now) && w.earliest(tokens[i])
            }
        &&& forall|t: Token| !#[trigger] self.after(tokens).expired(t, now)
    }
}

impl PollerView {
    /// There is a queue for each runner, every timer reports to one of them and is not due
    /// before the tick that the wheel has turned to, and every timer that is there or was
    /// reported has a number below the next one.
    pub open spec fn ok(self) -> bool {
        &&& self.toexec.len() == MAX_RUNNERS
        &&& self.timedout.len() == MAX_RUNNERS
        &&& self.lookups.len() == MAX_RUNNERS
        &&& self.wheel.tick_nanos == 250_000_000
        &&& self.wheel.capacity == 4_194_304
        &&& forall|t: Token| #[trigger]
            self.wheel.armed(t) ==> crate::ids::runner_of(self.wheel.timer(t).id) < MAX_RUNNERS
                && self.wheel.tick <= self.wheel.timer(t).due
        &&& forall|t: Token| #[trigger]
            self.wheel.timers.contains_key(t) ==> t.serial < self.wheel.serial
        &&& forall|r: int, k: int|
            0 <= r < MAX_RUNNERS && 0 <= k < self.timedout[r].len() ==> (
            #[trigger] self.timedout[r][k]).1.serial < self.wheel.serial
    }

    /// The fibers `ids` have been signalled.
    pub open spec fn with_events(self, ids: Seq<u64>) -> PollerView {
        PollerView {
            toexec: Seq::new(self.toexec.len(), |r: int| self.toexec[r] + routed(ids, r)),
            ..self
        }
    }

    /// The timers `tokens` have reported to the runners.
    pub open spec fn with_timers(self, tokens: Seq<Token>) -> PollerView {
        PollerView {
            timedout: Seq::new(
                self.timedout.len(),
                |r: int| self.timedout[r] + routed_timers(self.wheel, tokens, r),
            ),
            ..self
        }
    }

    /// The lookups `found` have come back.
    pub open spec fn with_lookups(self, found: Seq<(u64, usize, Ipv4)>) -> PollerView {
        PollerView {
            lookups: Seq::new(
                self.lookups.len(),
                |r: int| self.lookups[r] + routed_lookups(found, r),
            ),
            ..self
        }
    }

    /// The poller has taken in what there was at the time `now`: each queue is longer by
    /// what is its runner's, in order, and the wheel has turned.
    pub open spec fn polled(
        self,
        ids: Seq<u64>,
        tokens: Seq<Token>,
        found: Seq<(u64, usize, Ipv4)>,
        now: nat,
    ) -> PollerView {
        PollerView {
            wheel: self.wheel.after(tokens).turned(now),
            ..self.with_events(ids).with_timers(tokens).with_lookups(found)
        }
    }

    /// The slot `pos` of runner `r` is ready to be run.
    pub open spec fn exec_pushed(self, r: int, pos: usize) -> PollerView {
        PollerView { toexec: self.toexec.update(r, self.toexec[r].push(pos)), ..self }
    }

    /// The first `n` slots of runner `r` that are ready have been taken.
    pub open spec fn exec_popped(self, r: int, n: int) -> PollerView {
        PollerView { toexec: self.toexec.update(r, self.toexec[r].skip(n)), ..self }
    }

    /// The first `n` timers of runner `r` that have fired have been taken.
    pub open spec fn timedout_popped(self, r: int, n: int) -> PollerView {
        PollerView { timedout: self.timedout.update(r, self.timedout[r].skip(n)), ..self }
    }

    /// The first `n` lookups of runner `r` that have come back have been taken.
    pub open spec fn lookups_popped(self, r: int, n: int) -> PollerView {
        PollerView { lookups: self.lookups.update(r, self.lookups[r].skip(n)), ..self }
    }

    /// The timer `token` has been cancelled.
    pub open spec fn cancelled(self, token: Option<Token>) -> PollerView {
        match token {
            Some(t) => PollerView {
                wheel: WheelView { timers: self.wheel.timers.remove(t), ..self.wheel },
                ..self
            },
            None => self,
        }
    }

    /// There is no timer to be had.
    pub open spec fn timers_full(self) -> bool {
        self.wheel.full()
    }

    /// `token` is what arming a timer gave: none where there is none to be had, and else
    /// one under a number that no timer had before, now armed for `id` and `nanos` after
    /// `now`.
    pub open spec fn armed_as(
        self,
        token: Option<Token>,
        id: u64,
        nanos: nat,
        now: nat,
        after: PollerView,
    ) -> bool {
        match token {
            Some(t) => {
                &&& !self.timers_full()
                &&& t.serial == self.wheel.serial
                &&& after == (PollerView {
                    wheel: WheelView {
                        timers: self.wheel.timers.insert(
                            t,
                            Some(Timer { due: self.wheel.due(now + nanos), id }),
                        ),
                        serial: (self.wheel.serial + 1) as u64,
                        ..self.wheel
                    },
                    ..self
                })
            },
            None => self.timers_full() && after == self,
        }
    }

    /// What is queued for the runner `r` refers to the first `n` of its slots.
    pub open spec fn refers_to(self, r: int, n: int) -> bool {
        &&& forall|k: int| 0 <= k < self.toexec[r].len() ==> (#[trigger] self.toexec[r][k]) < n
        &&& forall|k: int|
            0 <= k < self.timedout[r].len() ==> (#[trigger] self.timedout[r][k]).0 < n
        &&& forall|k: int|
            0 <= k < self.lookups[r].len() ==> (#[trigger] self.lookups[r][k]).0 < n
    }

    /// A fiber of some runner is queued to be run.
    pub open spec fn pending(self) -> bool {
        exists|r: int| 0 <= r < self.toexec.len() && (#[trigger] self.toexec[r]).len() > 0
    }

    /// The stack that is used next: the first that no fiber uses, or a new one.
    pub open spec fn next_stack(self) -> Stack {
        if self.free_stacks.len() > 0 {
            Stack { number: self.free_stacks[0], need: StackNeed::Reuse }
        } else {
            Stack {
                number: self.stacks as usize,
                need: match self.stack_size {
                    Some(size) => StackNeed::Sized(size),
                    None => StackNeed::Default,
                },
            }
        }
    }

    /// That stack is in use.
    pub open spec fn stack_popped(self) -> PollerView {
        if self.free_stacks.len() > 0 {
            PollerView { free_stacks: self.free_stacks.drop_first(), ..self }
        } else {
            PollerView { stacks: self.stacks + 1, ..self }
        }
    }

    /// No fiber uses the stack `number` any more.
    pub open spec fn stack_pushed(self, number: Option<usize>) -> PollerView {
        match number {
            Some(n) => PollerView { free_stacks: seq![n] + self.free_stacks, ..self },
            None => self,
        }
    }
}

/// What it takes to have a stack.
#[derive(Clone, Copy, Debug, PartialEq, Eq, Structural)]
pub enum StackNeed {
    /// It exists: a fiber that is done with it has left it.
    Reuse,
    /// It has to be made, of the default size.
    Default,
    /// It has to be made, of this size.
    Sized(usize),
}

/// An execution stack for a fiber, by its number.
#[derive(Clone, Copy, Debug, PartialEq, Eq, Structural)]
pub struct Stack {
    pub number: usize,
    pub need: StackNeed,
}

/// Used to poll on sockets and timers. There can only be 1 poller per thread.
pub struct Poller {
    toexec_fibers: Vec<VecDeque<usize>>,
    timedout_fibers: Vec<VecDeque<Fired>>,
    lookup_results: Vec<VecDeque<Lookup>>,
    free_stacks: VecDeque<usize>,
    stacks: usize,
    stack_size: Option<usize>,
    wheel: Wheel,
    dns: Dns,
}

/// The contents of a row of queues.
pub open spec fn queues<T>(row: Seq<VecDeque<T>>) -> Seq<Seq<T>> {
    row.map_values(|q: VecDeque<T>| q@)
}

impl View for Poller {
    type V = PollerView;

    closed spec fn view(&self) -> PollerView {
        PollerView {
            toexec: queues(self.toexec_fibers@),
            timedout: queues(self.timedout_fibers@),
            lookups: queues(self.lookup_results@),
            wheel: self.wheel@,
            free_stacks: self.free_stacks@,
            stacks: self.stacks as nat,
            stack_size: self.stack_size,
            servers: self.dns@,
        }
    }
}

/// A row of empty queues.
fn empty_queues<T>() -> (row: Vec<VecDeque<T>>)
    ensures
        queues(row@) == Seq::new(MAX_RUNNERS as nat, |i: int| Seq::<T>::empty()),
{
    let mut row: Vec<VecDeque<T>> = Vec::new();
    let mut i: usize = 0;
    while i < MAX_RUNNERS
        invariant
            i <= MAX_RUNNERS,
            queues(row@) == Seq::new(i as nat, |i: int| Seq::<T>::empty()),
        decreases MAX_RUNNERS - i,
    {
        let ghost before = row@;
        row.push(VecDeque::new());
        assert(queues(row@) =~= Seq::new((i + 1) as nat, |i: int| Seq::<T>::empty())) by {
            assert(queues(before).len() == i);
            assert forall|j: int| 0 <= j <= i implies #[trigger] queues(row@)[j] == Seq::<T>::empty() by {
                if j < i {
                    assert(queues(before)[j] == Seq::<T>::empty());
                }
            }
        }
        i = i + 1;
    }
    row
}

/// Appends to one of a row of queues.
fn push_to<T>(row: &mut Vec<VecDeque<T>>, r: usize, value: T)
    requires
        r < old(row)@.len(),
    ensures
        queues(final(row)@) == queues(old(row)@).update(
            r as int,
            queues(old(row)@)[r as int].push(value),
        ),
{
    row[r].push_back(value);
    assert(queues(row@) =~= queues(old(row)@).update(
        r as int,
        queues(old(row)@)[r as int].push(value),
    ));
}

/// Takes the first value of one of a row of queues.
fn pop_from<T>(row: &mut Vec<VecDeque<T>>, r: usize) -> (value: Option<T>)
    requires
        r < old(row)@.len(),
    ensures
        match value {
            Some(v) => {
                &&& queues(old(row)@)[r as int].len() > 0
                &&& v == queues(old(row)@)[r as int][0]
                &&& queues(final(row)@) == queues(old(row)@).update(
                    r as int,
                    queues(old(row)@)[r as int].skip(1),
                )
            },
            None => queues(old(row)@)[r as int].len() == 0 && queues(final(row)@) == queues(old(row)@),
        },
{
    let value = row[r].pop_front();
    match value {
        Some(_) => {
            assert(queues(row@) =~= queues(old(row)@).update(
                r as int,
                queues(old(row)@)[r as int].skip(1),
            ));
        },
        None => {
            assert(queues(row@) =~= queues(old(row)@));
        },
    }
    value
}

impl Poller {
    /// The wheel inside is sound.
    pub closed spec fn sound(&self) -> bool {
        self.wheel.wf()
    }

    /// The poller can be worked with.
    pub open spec fn wf(&self) -> bool {
        self@.ok() && self.sound()
    }

    /// Start a poller.
    ///
    /// `exists` says whether the thread has one; there can only be one. `stack_size` is
    /// rounded up to the next power of two; without one, stacks are of the default size.
    /// `resolv_conf` is what that file holds, where it could be read.
    pub fn new(exists: bool, stack_size: Option<usize>, resolv_conf: Option<&str>) -> (p: Result<
        Poller,
        Error,
    >)
        ensures
            match p {
                Ok(p) => {
                    &&& !exists
                    &&& p.wf()
                    &&& p@.stack_size is Some == stack_size is Some
                    &&& stack_size matches Some(asked) ==> rounds_up(asked, p@.stack_size->0)
                    &&& p@ == (PollerView {
                        toexec: Seq::new(MAX_RUNNERS as nat, |i: int| Seq::<usize>::empty()),
                        timedout: Seq::new(MAX_RUNNERS as nat, |i: int| Seq::<Fired>::empty()),
                        lookups: Seq::new(MAX_RUNNERS as nat, |i: int| Seq::<Lookup>::empty()),
                        wheel: WheelView {
                            timers: Map::empty(),
                            serial: 0,
                            tick: 0,
                            tick_nanos: 250_000_000,
                            capacity: 4_194_304,
                        },
                        free_stacks: Seq::empty(),
                        stacks: 0,
                        stack_size: p@.stack_size,
                        servers: match resolv_conf {
                            Some(text) => crate::dns::servers_from(text@, 0),
                            None => crate::dns::google(),
                        },
                    })
                },
                Err(e) => exists && e == Error::PollerExists,
            },
    {
        if exists {
            return Err(Error::PollerExists);
        }
        let builder = Builder::new().tick_duration(Duration::from_millis(TICK_MS));
        let p = Poller {
            toexec_fibers: empty_queues(),
            timedout_fibers: empty_queues(),
            lookup_results: empty_queues(),
            free_stacks: VecDeque::with_capacity(4),
            stacks: 0,
            stack_size: match stack_size {
                Some(asked) => Some(round_up(asked)),
                None => None,
            },
            wheel: Wheel::new(&builder),
            dns: Dns::new(resolv_conf),
        };
        Ok(p)
    }

    /// The resolver.
    pub fn dns(&self) -> (dns: &Dns)
        ensures
            dns@ == self@.servers,
    {
        &self.dns
    }

    /// Take in what a socket poll, the timers and the resolver have brought, and hand it
    /// to the runners.
    ///
    /// `events` are the ids of the fibers whose socket was signalled, `None` where the
    /// socket poll failed: nothing is taken in then. `now` is the time, and `found` are
    /// the lookups that have come back, each with the id and the generation it was
    /// started with.
    ///
    /// Returns true if something changed and runners should be executed.
    #[verifier::rlimit(40)]
    #[verifier::spinoff_prover]
    pub fn poll(
        &mut self,
        events: Option<&Vec<u64>>,
        now: Duration,
        found: &Vec<(u64, usize, Ipv4)>,
    ) -> (changed: bool)
        requires
            old(self).wf(),
            events matches Some(ids) ==> forall|i: int|
                0 <= i < ids@.len() ==> crate::ids::runner_of(#[trigger] ids@[i]) < MAX_RUNNERS,
            forall|i: int|
                0 <= i < found@.len() ==> crate::ids::runner_of((#[trigger] found@[i]).0)
                    < MAX_RUNNERS,
        ensures
            final(self).wf(),
            final(self)@.wheel.serial == old(self)@.wheel.serial,
            match events {
                Some(ids) => exists|tokens: Seq<Token>| #[trigger]
                    old(self)@.wheel.all_due(tokens, now@) && changed == (ids@.len() > 0
                        || tokens.len() > 0 || found@.len() > 0) && final(self)@ == old(self)@.polled(
                        ids@,
                        tokens,
                        found@,
                        now@,
                    ),
                None => !changed && final(self)@ == old(self)@,
            },
    {
        let ids: &Vec<u64> = match events {
            Some(ids) => ids,
            None => {
                return false;
            },
        };
        let mut changed: bool = false;
        if ids.len() > 0 {
            changed = true;
        }
        let ghost start = self@;
        let mut i: usize = 0;
        assert(start.toexec =~= start.with_events(ids@.subrange(0, 0)).toexec);
        while i < ids.len()
            invariant
                i <= ids@.len(),
                forall|i: int|
                    0 <= i < ids@.len() ==> crate::ids::runner_of(#[trigger] ids@[i]) < MAX_RUNNERS,
                self.wf(),
                self@ == start.with_events(ids@.subrange(0, i as int)),
                self.wheel == old(self).wheel,
                start == old(self)@,
                start.ok(),
            decreases ids@.len() - i,
        {
            let (runner, pos) = split_id(ids[i]);
            push_to(&mut self.toexec_fibers, runner, pos);
            assert(ids@.subrange(0, i + 1).drop_last() =~= ids@.subrange(0, i as int));
            assert(self@.toexec =~= start.with_events(ids@.subrange(0, i + 1)).toexec);
            i = i + 1;
        }
        assert(ids@.subrange(0, i as int) =~= ids@);
        let nanos: u128 = now.as_nanos();
        let ghost mut tokens: Seq<Token> = Seq::empty();
        let ghost wheel = self@.wheel;
        let ghost mid = self@;
        let mut more: bool = true;
        proof {
            self.wheel.lemma_finite();
        }
        assert(mid.timedout =~= mid.with_timers(tokens).timedout);
        while more
            invariant
                self.wf(),
                mid.ok(),
                nanos == now@,
                wheel == mid.wheel,
                self@ == (PollerView {
                    wheel: if more {
                        wheel.after(tokens)
                    } else {
                        wheel.after(tokens).turned(now@)
                    },
                    ..mid.with_timers(tokens)
                }),
                changed == (ids@.len() > 0 || tokens.len() > 0),
                forall|i: int|
                    0 <= i < tokens.len() ==> {
                        let w = wheel.after(tokens.subrange(0, i));
                        w.expired(#[trigger] tokens[i], now@) && w.earliest(tokens[i])
                    },
                forall|t: Token| #[trigger]
                    wheel.after(tokens).timers.contains_key(t) ==> wheel.timers.contains_key(t)
                        && wheel.after(tokens).timers[t] == wheel.timers[t],
                wheel.after(tokens).tick_nanos == wheel.tick_nanos,
                wheel.after(tokens).serial == wheel.serial,
                !more ==> forall|t: Token| !#[trigger] wheel.after(tokens).expired(t, now@),
                self.wheel@.timers.dom().finite(),
            decreases
                    if more {
                        self.wheel@.timers.dom().len() + 1
                    } else {
                        0
                    },
        {
            let ghost before = self.wheel@;
            match self.wheel.poll(nanos) {
                Some((token, id)) => {
                    changed = true;
                    let (runner, pos) = split_id(id);
                    let ghost t: Token = token;
                    let ghost queue = self@.timedout;
                    assert(wheel.after(tokens).timers.contains_key(t));
                    assert(wheel.armed(t));
                    push_to(&mut self.timedout_fibers, runner, (pos, token));
                    proof {
                        let longer = tokens.push(t);
                        assert(longer.drop_last() =~= tokens);
                        assert(wheel.after(longer) == before.reported(t));
                        assert forall|i: int| 0 <= i < longer.len() implies {
                            let w = wheel.after(longer.subrange(0, i));
                            w.expired(#[trigger] longer[i], now@) && w.earliest(longer[i])
                        } by {
                            if i < tokens.len() {
                                assert(longer.subrange(0, i) =~= tokens.subrange(0, i));
                                assert(longer[i] == tokens[i]);
                            } else {
                                assert(longer.subrange(0, i) =~= tokens);
                            }
                        }
                        assert(self@.timedout =~= mid.with_timers(longer).timedout);
                        assert(before.reported(t).timers.dom() =~= before.timers.dom().remove(t));
                        assert forall|u: Token| #[trigger]
                            wheel.after(longer).timers.contains_key(u) implies wheel.timers.contains_key(u)
                            && wheel.after(longer).timers[u] == wheel.timers[u] by {
                            assert(wheel.after(tokens).timers.contains_key(u));
                        }
                        assert forall|r: int, k: int|
                            0 <= r < MAX_RUNNERS && 0 <= k < self@.timedout[r].len() implies (
                        #[trigger] self@.timedout[r][k]).1.serial < self@.wheel.serial by {
                            if k < queue[r].len() {
                                assert(self@.timedout[r][k] == queue[r][k]);
                            }
                        }
                        tokens = longer;
                    }
                },
                None => {
                    more = false;
                },
            }
            proof {
                self.wheel.lemma_finite();
            }
            assert forall|u: Token| #[trigger] self@.wheel.armed(u) implies crate::ids::runner_of(
                self@.wheel.timer(u).id,
            ) < MAX_RUNNERS && self@.wheel.tick <= self@.wheel.timer(u).due by {
                assert(wheel.after(tokens).timers.contains_key(u));
                assert(mid.wheel.armed(u));
            }
        }
        let ghost timed = self@;
        i = 0;
        assert(timed.lookups =~= timed.with_lookups(found@.subrange(0, 0)).lookups);
        while i < found.len()
            invariant
                i <= found@.len(),
                forall|i: int|
                    0 <= i < found@.len() ==> crate::ids::runner_of((#[trigger] found@[i]).0)
                        < MAX_RUNNERS,
                self.wf(),
                timed.ok(),
                self@ == timed.with_lookups(found@.subrange(0, i as int)),
                changed == (ids@.len() > 0 || tokens.len() > 0 || i > 0),
            decreases found@.len() - i,
        {
            changed = true;
            let (id, generation, address) = found[i];
            let (runner, pos) = split_id(id);
            push_to(&mut self.lookup_results, runner, (pos, generation, address));
            assert(found@.subrange(0, i + 1).drop_last() =~= found@.subrange(0, i as int));
            assert(self@.lookups =~= timed.with_lookups(found@.subrange(0, i + 1)).lookups);
            i = i + 1;
        }
        assert(found@.subrange(0, i as int) =~= found@);
        assert(wheel.all_due(tokens, now@));
        assert(self@ == old(self)@.polled(ids@, tokens, found@, now@));
        changed
    }

    /// Arm a timer that reports the fiber `id` after `dur`, or after one tick where there
    /// is none. `None` where there is no timer to be had.
    pub fn timer_reg(&mut self, id: u64, dur: Option<Duration>, now: Duration) -> (token: Option<Token>)
        requires
            old(self).wf(),
            crate::ids::runner_of(id) < MAX_RUNNERS,
        ensures
            final(self).wf(),
            old(self)@.armed_as(
                token,
                id,
                match dur {
                    Some(d) => d@,
                    None => 250_000_000,
                },
                now@,
                final(self)@,
            ),
    {
        let dur: Duration = match dur {
            Some(d) => d,
            None => Duration::from_millis(TICK_MS),
        };
        if let Some(token) = self.wheel.reserve() {
            self.wheel.set_timeout(token, now.as_nanos() + dur.as_nanos(), id);
            assert(self@.wheel.timers =~= old(self)@.wheel.timers.insert(
                token,
                Some(Timer { due: old(self)@.wheel.due(now@ + dur@), id }),
            ));
            proof {
                self.wheel.lemma_finite();
            }
            assert forall|t: Token| #[trigger] self@.wheel.armed(t) implies crate::ids::runner_of(
                self@.wheel.timer(t).id,
            ) < MAX_RUNNERS && self@.wheel.tick <= self@.wheel.timer(t).due by {
                if t != token {
                    assert(old(self)@.wheel.armed(t));
                }
            }
            return Some(token);
        }
        None
    }

    /// Cancel a timer.
    pub fn timer_cancel(&mut self, token: Token)
        requires
            old(self).wf(),
        ensures
            final(self).wf(),
            final(self)@ == old(self)@.cancelled(Some(token)),
    {
        self.wheel.cancel(token);
        proof {
            self.wheel.lemma_finite();
        }
        assert forall|t: Token| #[trigger] self@.wheel.armed(t) implies crate::ids::runner_of(
            self@.wheel.timer(t).id,
        ) < MAX_RUNNERS && self@.wheel.tick <= self@.wheel.timer(t).due by {
            assert(old(self)@.wheel.armed(t));
        }
    }

    /// The next lookup for a runner that has come back.
    pub fn dns_check(&mut self, runner: usize) -> (found: Option<Lookup>)
        requires
            old(self).wf(),
            runner < MAX_RUNNERS,
        ensures
            final(self).wf(),
            match found {
                Some(l) => old(self)@.lookups[runner as int].len() > 0 && l
                    == old(self)@.lookups[runner as int][0] && final(self)@
                    == old(self)@.lookups_popped(runner as int, 1),
                None => old(self)@.lookups[runner as int].len() == 0 && final(self)@ == old(self)@,
            },
    {
        pop_from(&mut self.lookup_results, runner)
    }

    /// The fiber in the slot `fiber` of a runner is to be run.
    pub fn toexec_push(&mut self, runner: usize, fiber: usize)
        requires
            old(self).wf(),
            runner < MAX_RUNNERS,
        ensures
            final(self).wf(),
            final(self)@ == old(self)@.exec_pushed(runner as int, fiber),
    {
        push_to(&mut self.toexec_fibers, runner, fiber);
    }

    /// The next fiber of a runner that is to be run.
    pub fn toexec_pop(&mut self, runner: usize) -> (fiber: Option<usize>)
        requires
            old(self).wf(),
            runner < MAX_RUNNERS,
        ensures
            final(self).wf(),
            match fiber {
                Some(pos) => old(self)@.toexec[runner as int].len() > 0 && pos
                    == old(self)@.toexec[runner as int][0] && final(self)@ == old(self)@.exec_popped(
                    runner as int,
                    1,
                ),
                None => old(self)@.toexec[runner as int].len() == 0 && final(self)@ == old(self)@,
            },
    {
        pop_from(&mut self.toexec_fibers, runner)
    }

    /// The next timer of a runner that has fired.
    pub fn timedout_pop(&mut self, runner: usize) -> (fired: Option<Fired>)
        requires
            old(self).wf(),
            runner < MAX_RUNNERS,
        ensures
            final(self).wf(),
            match fired {
                Some(f) => old(self)@.timedout[runner as int].len() > 0 && f
                    == old(self)@.timedout[runner as int][0] && final(self)@
                    == old(self)@.timedout_popped(runner as int, 1),
                None => old(self)@.timedout[runner as int].len() == 0 && final(self)@ == old(self)@,
            },
    {
        pop_from(&mut self.timedout_fibers, runner)
    }

    /// What is queued for a runner refers to the first `slots` of its slots.
    pub fn refers_to(&self, runner: usize, slots: usize) -> (yes: bool)
        requires
            self.wf(),
            runner < MAX_RUNNERS,
        ensures
            yes == self@.refers_to(runner as int, slots as int),
    {
        let mut i: usize = 0;
        while i < self.toexec_fibers[runner].len()
            invariant
                self.wf(),
                runner < MAX_RUNNERS,
                i <= self@.toexec[runner as int].len(),
                forall|k: int| 0 <= k < i ==> (#[trigger] self@.toexec[runner as int][k]) < slots,
            decreases self@.toexec[runner as int].len() - i,
        {
            if self.toexec_fibers[runner][i] >= slots {
                assert(self@.toexec[runner as int][i as int] >= slots);
                return false;
            }
            i = i + 1;
        }
        i = 0;
        while i < self.timedout_fibers[runner].len()
            invariant
                self.wf(),
                runner < MAX_RUNNERS,
                i <= self@.timedout[runner as int].len(),
                forall|k: int|
                    0 <= k < i ==> (#[trigger] self@.timedout[runner as int][k]).0 < slots,
            decreases self@.timedout[runner as int].len() - i,
        {
            if self.timedout_fibers[runner][i].0 >= slots {
                assert(self@.timedout[runner as int][i as int].0 >= slots);
                return false;
            }
            i = i + 1;
        }
        i = 0;
        while i < self.lookup_results[runner].len()
            invariant
                self.wf(),
                runner < MAX_RUNNERS,
                i <= self@.lookups[runner as int].len(),
                forall|k: int|
                    0 <= k < i ==> (#[trigger] self@.lookups[runner as int][k]).0 < slots,
            decreases self@.lookups[runner as int].len() - i,
        {
            if self.lookup_results[runner][i].0 >= slots {
                assert(self@.lookups[runner as int][i as int].0 >= slots);
                return false;
            }
            i = i + 1;
        }
        true
    }

    /// A fiber of some runner is queued to be run.
    pub fn pending(&self) -> (yes: bool)
        requires
            self.wf(),
        ensures
            yes == self@.pending(),
    {
        let mut r: usize = 0;
        while r < MAX_RUNNERS
            invariant
                self.wf(),
                r <= MAX_RUNNERS,
                forall|i: int| 0 <= i < r ==> (#[trigger] self@.toexec[i]).len() == 0,
            decreases MAX_RUNNERS - r,
        {
            if self.toexec_fibers[r].len() > 0 {
                assert(self@.toexec[r as int].len() > 0);
                return true;
            }
            r = r + 1;
        }
        false
    }

    /// How many stacks there are.
    pub fn stack_count(&self) -> (n: usize)
        ensures
            n == self@.stacks,
    {
        self.stacks
    }

    /// A stack for a fiber: one that a fiber has left, or else a new one.
    pub fn stack_pop(&mut self) -> (stack: Stack)
        requires
            old(self).wf(),
            old(self)@.stacks < usize::MAX,
        ensures
            final(self).wf(),
            stack == old(self)@.next_stack(),
            final(self)@ == old(self)@.stack_popped(),
    {
        match self.free_stacks.pop_front() {
            Some(number) => Stack { number, need: StackNeed::Reuse },
            None => {
                let number: usize = self.stacks;
                self.stacks = self.stacks + 1;
                match self.stack_size {
                    Some(size) => Stack { number, need: StackNeed::Sized(size) },
                    None => Stack { number, need: StackNeed::Default },
                }
            },
        }
    }

    /// A fiber has left its stack.
    pub fn stack_push(&mut self, number: usize)
        requires
            old(self).wf(),
        ensures
            final(self).wf(),
            final(self)@ == old(self)@.stack_pushed(Some(number)),
    {
        self.free_stacks.push_front(number);
    }
}

/// The smallest power of two from `asked` on, if that is a size; else `asked`.
fn round_up(asked: usize) -> (size: usize)
    ensures
        rounds_up(asked, size),
{
    let mut p: usize = 1;
    let ghost mut k: nat = 0;
    proof {
        vstd::arithmetic::power2::lemma2_to64();
    }
    while p < asked
        invariant
            p >= 1,
            p == vstd::arithmetic::power2::pow2(k),
            k > 0 ==> vstd::arithmetic::power2::pow2((k - 1) as nat) < asked,
        decreases
                if p < asked {
                    asked - p
                } else {
                    0
                },
    {
        proof {
            vstd::arithmetic::power2::lemma_pow2_unfold(k + 1);
        }
        if p > usize::MAX / 2 {
            assert forall|q: usize| asked <= q implies !#[trigger] power_of_two(q as int) by {
                if power_of_two(q as int) {
                    let j = choose|j: nat| q == #[trigger] vstd::arithmetic::power2::pow2(j);
                    if j <= k {
                        lemma_pow2_grows(j, k);
                    } else {
                        lemma_pow2_grows(k + 1, j);
                    }
                }
            }
            return asked;
        }
        p = p * 2;
        proof {
            k = k + 1;
        }
    }
    assert(power_of_two(p as int));
    assert forall|q: usize| asked <= q && #[trigger] power_of_two(q as int) implies p <= q by {
        let j = choose|j: nat| q == #[trigger] vstd::arithmetic::power2::pow2(j);
        if j < k {
            lemma_pow2_grows(j, (k - 1) as nat);
        } else {
            lemma_pow2_grows(k, j);
        }
    }
    p
}

proof fn lemma_pow2_grows(a: nat, b: nat)
    requires
        a <= b,
    ensures
        vstd::arithmetic::power2::pow2(a) <= vstd::arithmetic::power2::pow2(b),
{
    if a < b {
        vstd::arithmetic::power2::lemma_pow2_strictly_increases(a, b);
    }
}

} // verus!
