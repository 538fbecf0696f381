//! What a poller makes of what comes in, entry by entry, and its timers and stacks.
use crate::dns_message::Ipv4;
use crate::duration::Duration;
use crate::ids::MAX_RUNNERS;
use crate::laws::steps::only_queued;
use crate::poller::{
    power_of_two, rounds_up, routed, routed_lookups, routed_timers, Fired, Lookup, PollerView, Stack,
    StackNeed,
};
use crate::wheel::{Timer, Token, WheelView};
use vstd::prelude::*;

verus! {

/// The first tick that is not before a time: the time is not past it, and past the tick before
/// it.
pub proof fn law_tick_is_the_first_not_before(at: nat, tick_nanos: nat)
    requires
        tick_nanos > 0,
    ensures
        at <= crate::wheel::tick_at(at, tick_nanos) * tick_nanos,
        crate::wheel::tick_at(at, tick_nanos) * tick_nanos < at + tick_nanos,
{
    let q = at / tick_nanos;
    let r = at % tick_nanos;
    assert(at == q * tick_nanos + r && r < tick_nanos) by (nonlinear_arith)
        requires
            q == at / tick_nanos,
            r == at % tick_nanos,
            tick_nanos > 0,
    ;
    assert((q + 1) * tick_nanos == q * tick_nanos + tick_nanos) by (nonlinear_arith);
}

/// A timer is due on the first tick that is not before its time, or on the tick that the wheel
/// has turned to where that is later. It is due at a time exactly if its tick has begun then.
pub proof fn law_timer_is_due_on_its_tick(w: WheelView, at: nat, token: Token, now: nat)
    requires
        w.tick_nanos > 0,
    ensures
        w.due(at) >= crate::wheel::tick_at(at, w.tick_nanos),
        w.due(at) >= w.tick,
        w.due(at) == crate::wheel::tick_at(at, w.tick_nanos) || w.due(at) == w.tick,
        w.expired(token, now) <==> w.timers.contains_key(token) && (w.timers[token] matches Some(t)
            && t.due * w.tick_nanos <= now),
{
    if let Some(t) = w.timers[token] {
        let n = w.tick_nanos;
        let due = t.due;
        assert(due <= now / n <==> due * n <= now) by (nonlinear_arith)
            requires
                n > 0,
        ;
    }
}

/// A timer that reports is taken out, and no other, and the wheel turns to its tick. Where
/// none is due the wheel turns to the tick of the time, never back, and keeps its timers.
pub proof fn law_wheel_turns_forward(w: WheelView, token: Token, now: nat)
    requires
        w.tick_nanos > 0,
        w.timers.contains_key(token),
        w.timers[token] is Some,
    ensures
        w.reported(token) == (WheelView {
            timers: w.timers.remove(token),
            tick: w.timers[token]->0.due,
            ..w
        }),
        ({
            let t = w.turned(now).tick;
            &&& w.turned(now) == (WheelView { tick: t, ..w })
            &&& t >= w.tick
            &&& t == w.tick || t * w.tick_nanos <= now
            &&& now < (t + 1) * w.tick_nanos
        }),
        w.earliest(token) <==> forall|u: Token| #[trigger]
            w.timers.contains_key(u) && w.timers[u] is Some ==> w.timers[token]->0.due
                <= w.timers[u]->0.due,
{
    let q = now / w.tick_nanos;
    let n = w.tick_nanos;
    let t = w.turned(now).tick;
    assert(q * n <= now && now < (q + 1) * n) by (nonlinear_arith)
        requires
            q == now / n,
            n > 0,
    ;
    assert((q + 1) * n <= (t + 1) * n) by (nonlinear_arith)
        requires
            q <= t,
            n > 0,
    ;
    if forall|u: Token| #[trigger]
        w.timers.contains_key(u) && w.timers[u] is Some ==> w.timers[token]->0.due
            <= w.timers[u]->0.due {
        assert forall|u: Token| #[trigger] w.armed(u) implies w.timer(token).due <= w.timer(u).due by {
            assert(w.timers.contains_key(u));
        }
    }
    if w.earliest(token) {
        assert forall|u: Token| #[trigger]
            w.timers.contains_key(u) && w.timers[u] is Some implies w.timers[token]->0.due
            <= w.timers[u]->0.due by {
            assert(w.armed(u));
        }
    }
}

/// A timer is to be had unless the poller holds as many as it can or has no number left. It
/// gets a number that no timer had, is armed for the fiber that asked and for the time that
/// was asked for, late by less than a tick where the clock is not ahead of that; no other
/// timer changes, and nothing else of the poller.
pub proof fn law_timer_is_armed_as_asked(
    p: PollerView,
    token: Option<Token>,
    id: u64,
    nanos: nat,
    now: nat,
    after: PollerView,
)
    requires
        p.ok(),
        p.armed_as(token, id, nanos, now, after),
    ensures
        token is None <==> p.wheel.timers.dom().len() >= 4_194_304 || p.wheel.serial == u64::MAX,
        token is None ==> after == p,
        token matches Some(t) ==> {
            let at = now + nanos;
            let timer = after.wheel.timers[t]->0;
            &&& !p.wheel.timers.contains_key(t)
            &&& t.serial == p.wheel.serial
            &&& after.wheel.serial == p.wheel.serial + 1
            &&& after.wheel.timers == p.wheel.timers.insert(t, Some(timer))
            &&& timer.id == id
            &&& at <= timer.due * 250_000_000
            &&& p.wheel.tick <= timer.due
            &&& timer.due * 250_000_000 < at + 250_000_000 || timer.due == p.wheel.tick
            &&& after.wheel == (WheelView {
                timers: after.wheel.timers,
                serial: after.wheel.serial,
                ..p.wheel
            })
            &&& after == (PollerView { wheel: after.wheel, ..p })
        },
{
    if let Some(t) = token {
        law_tick_is_the_first_not_before(now + nanos, 250_000_000);
        assert(after.wheel.timers[t] == Some(
            Timer { due: p.wheel.due(now + nanos), id },
        ));
        let due = p.wheel.due(now + nanos);
        let tick = crate::wheel::tick_at(now + nanos, 250_000_000);
        assert(tick * 250_000_000 <= due * 250_000_000);
    }
}

/// A timer that is cancelled is taken out, if it is there, and nothing else changes.
pub proof fn law_cancel_takes_one_timer_out(p: PollerView, token: Token)
    ensures
        p.cancelled(None) == p,
        p.cancelled(Some(token)) == (PollerView {
            wheel: WheelView { timers: p.wheel.timers.remove(token), ..p.wheel },
            ..p
        }),
{
}

/// Events are handed to the runners one by one, in their order: what a runner gets of two
/// rows of them is what it gets of the first and then of the second, and of one event the
/// runner that its id names gets the slot, and no other runner gets anything.
pub proof fn law_events_are_routed_one_by_one(
    a: Seq<u64>,
    b: Seq<u64>,
    runner: i8,
    pos: usize,
    r: int,
)
    requires
        0 <= runner < MAX_RUNNERS,
        pos <= 0xffff_ffff,
    ensures
        routed(Seq::empty(), r) == Seq::<usize>::empty(),
        routed(a + b, r) == routed(a, r) + routed(b, r),
        routed(seq![crate::ids::fiber_id_of(runner, pos)], r) == (if runner == r {
            seq![pos]
        } else {
            Seq::<usize>::empty()
        }),
{
    lemma_routed_both(a, b, r);
    crate::ids::law_id_round_trip(runner, pos);
    let one = seq![crate::ids::fiber_id_of(runner, pos)];
    assert(one.drop_last() =~= Seq::empty());
    reveal_with_fuel(routed, 2);
    assert(Seq::<usize>::empty().push(pos) =~= seq![pos]);
}

proof fn lemma_routed_both(a: Seq<u64>, b: Seq<u64>, r: int)
    ensures
        routed(a + b, r) == routed(a, r) + routed(b, r),
    decreases b.len(),
{
    if b.len() == 0 {
        assert(a + b =~= a);
        assert(routed(a, r) + routed(b, r) =~= routed(a, r));
    } else {
        assert((a + b).drop_last() =~= a + b.drop_last());
        lemma_routed_both(a, b.drop_last(), r);
        assert(routed(a + b, r) =~= routed(a, r) + routed(b, r));
    }
}

/// Lookups that have come back are handed to the runners in the same way, each with the
/// generation and the address that it has.
pub proof fn law_lookups_are_routed_one_by_one(
    a: Seq<(u64, usize, Ipv4)>,
    b: Seq<(u64, usize, Ipv4)>,
    runner: i8,
    pos: usize,
    generation: usize,
    address: Ipv4,
    r: int,
)
    requires
        0 <= runner < MAX_RUNNERS,
        pos <= 0xffff_ffff,
    ensures
        routed_lookups(Seq::empty(), r) == Seq::<Lookup>::empty(),
        routed_lookups(a + b, r) == routed_lookups(a, r) + routed_lookups(b, r),
        routed_lookups(seq![(crate::ids::fiber_id_of(runner, pos), generation, address)], r) == (
        if runner == r {
            seq![(pos, generation, address)]
        } else {
            Seq::<Lookup>::empty()
        }),
{
    lemma_routed_lookups_both(a, b, r);
    crate::ids::law_id_round_trip(runner, pos);
    let one = seq![(crate::ids::fiber_id_of(runner, pos), generation, address)];
    assert(one.drop_last() =~= Seq::empty());
    reveal_with_fuel(routed_lookups, 2);
    assert(Seq::<Lookup>::empty().push((pos, generation, address)) =~= seq![
        (pos, generation, address),
    ]);
}

proof fn lemma_routed_lookups_both(
    a: Seq<(u64, usize, Ipv4)>,
    b: Seq<(u64, usize, Ipv4)>,
    r: int,
)
    ensures
        routed_lookups(a + b, r) == routed_lookups(a, r) + routed_lookups(b, r),
    decreases b.len(),
{
    if b.len() == 0 {
        assert(a + b =~= a);
        assert(routed_lookups(a, r) + routed_lookups(b, r) =~= routed_lookups(a, r));
    } else {
        assert((a + b).drop_last() =~= a + b.drop_last());
        lemma_routed_lookups_both(a, b.drop_last(), r);
        assert(routed_lookups(a + b, r) =~= routed_lookups(a, r) + routed_lookups(b, r));
    }
}

/// Timers are handed to the runners in the same way, each to the fiber that it is armed for.
pub proof fn law_timers_are_routed_one_by_one(
    w: WheelView,
    a: Seq<Token>,
    b: Seq<Token>,
    token: Token,
    runner: i8,
    pos: usize,
    r: int,
)
    requires
        0 <= runner < MAX_RUNNERS,
        pos <= 0xffff_ffff,
        w.timers[token] is Some,
        w.timers[token]->0.id == crate::ids::fiber_id_of(runner, pos),
    ensures
        routed_timers(w, Seq::empty(), r) == Seq::<Fired>::empty(),
        routed_timers(w, a + b, r) == routed_timers(w, a, r) + routed_timers(w, b, r),
        routed_timers(w, seq![token], r) == (if runner == r {
            seq![(pos, token)]
        } else {
            Seq::<Fired>::empty()
        }),
{
    lemma_routed_timers_both(w, a, b, r);
    crate::ids::law_id_round_trip(runner, pos);
    let one = seq![token];
    assert(one.drop_last() =~= Seq::empty());
    reveal_with_fuel(routed_timers, 2);
    assert(Seq::<Fired>::empty().push((pos, token)) =~= seq![(pos, token)]);
}

proof fn lemma_routed_timers_both(w: WheelView, a: Seq<Token>, b: Seq<Token>, r: int)
    ensures
        routed_timers(w, a + b, r) == routed_timers(w, a, r) + routed_timers(w, b, r),
    decreases b.len(),
{
    if b.len() == 0 {
        assert(a + b =~= a);
        assert(routed_timers(w, a, r) + routed_timers(w, b, r) =~= routed_timers(w, a, r));
    } else {
        assert((a + b).drop_last() =~= a + b.drop_last());
        lemma_routed_timers_both(w, a, b.drop_last(), r);
        assert(routed_timers(w, a + b, r) =~= routed_timers(w, a, r) + routed_timers(w, b, r));
    }
}

/// A poll puts what it brings for a runner behind what is queued there, in its order. The
/// timers that it reports are those that are due, each once and in the order in which they
/// are due; they are taken out and the others stay. The clock then shows the time of the poll,
/// unless it was ahead. Stacks and servers are as they were.
pub proof fn law_poll_queues_what_it_brings(
    p: PollerView,
    ids: Seq<u64>,
    tokens: Seq<Token>,
    found: Seq<(u64, usize, Ipv4)>,
    now: nat,
    r: int,
)
    requires
        p.ok(),
        p.wheel.all_due(tokens, now),
        0 <= r < MAX_RUNNERS,
    ensures
        ({
            let q = p.polled(ids, tokens, found, now);
            &&& q.toexec.len() == p.toexec.len()
            &&& q.timedout.len() == p.timedout.len()
            &&& q.lookups.len() == p.lookups.len()
            &&& q.toexec[r] == p.toexec[r] + routed(ids, r)
            &&& q.timedout[r] == p.timedout[r] + routed_timers(p.wheel, tokens, r)
            &&& q.lookups[r] == p.lookups[r] + routed_lookups(found, r)
            &&& tokens.no_duplicates()
            &&& forall|t: Token| #[trigger]
                tokens.contains(t) <==> p.wheel.timers.contains_key(t) && p.wheel.timers[t] is Some
                    && p.wheel.timers[t]->0.due * 250_000_000 <= now
            &&& forall|i: int, j: int|
                0 <= i < j < tokens.len() ==> p.wheel.timers[#[trigger] tokens[i]]->0.due
                    <= p.wheel.timers[#[trigger] tokens[j]]->0.due
            &&& forall|t: Token| #[trigger]
                q.wheel.timers.contains_key(t) <==> p.wheel.timers.contains_key(t)
                    && !tokens.contains(t)
            &&& forall|t: Token| #[trigger]
                q.wheel.timers.contains_key(t) ==> q.wheel.timers[t] == p.wheel.timers[t]
            &&& q.wheel.serial == p.wheel.serial
            &&& q.wheel.tick_nanos == p.wheel.tick_nanos
            &&& q.wheel.capacity == p.wheel.capacity
            &&& q.wheel.tick >= p.wheel.tick
            &&& now < (q.wheel.tick + 1) * 250_000_000
            &&& q.wheel.tick == p.wheel.tick || q.wheel.tick * 250_000_000 <= now
            &&& q.free_stacks == p.free_stacks
            &&& q.stacks == p.stacks
            &&& q.stack_size == p.stack_size
            &&& q.servers == p.servers
        }),
{
    let q = p.polled(ids, tokens, found, now);
    crate::laws::events::law_due_timers_report_once(p.wheel, tokens, now);
    crate::laws::events::lemma_after(p.wheel, tokens);
    crate::laws::timers::lemma_poll_clock(p, tokens, now);
    lemma_after_capacity(p.wheel, tokens);
    assert forall|t: Token| #[trigger] tokens.contains(t) <==> p.wheel.timers.contains_key(t)
        && p.wheel.timers[t] is Some && p.wheel.timers[t]->0.due * 250_000_000 <= now by {
        law_timer_is_due_on_its_tick(p.wheel, 0, t, now);
    }
    assert forall|i: int, j: int| 0 <= i < j < tokens.len() implies p.wheel.timers[
    #[trigger] tokens[i]]->0.due <= p.wheel.timers[#[trigger] tokens[j]]->0.due by {
        assert(p.wheel.timer(tokens[i]).due <= p.wheel.timer(tokens[j]).due);
    }
}

proof fn lemma_after_capacity(w: WheelView, tokens: Seq<Token>)
    ensures
        w.after(tokens).capacity == w.capacity,
    decreases tokens.len(),
{
    if tokens.len() > 0 {
        lemma_after_capacity(w, tokens.drop_last());
    }
}

/// A fiber that is queued to be run is the last of its runner, and what is taken from a queue
/// are its first entries. Nothing else of the poller changes. The poller has something to run
/// where some queue is not empty.
pub proof fn law_queues_are_first_in_first_out(p: PollerView, r: int, pos: usize, n: int)
    requires
        p.ok(),
        0 <= r < MAX_RUNNERS,
        0 <= n,
    ensures
        only_queued(p, p.exec_pushed(r, pos), r, pos),
        n <= p.toexec[r].len() ==> p.exec_popped(r, n) == (PollerView {
            toexec: p.toexec.update(r, p.toexec[r].subrange(n, p.toexec[r].len() as int)),
            ..p
        }),
        n <= p.timedout[r].len() ==> p.timedout_popped(r, n) == (PollerView {
            timedout: p.timedout.update(r, p.timedout[r].subrange(n, p.timedout[r].len() as int)),
            ..p
        }),
        n <= p.lookups[r].len() ==> p.lookups_popped(r, n) == (PollerView {
            lookups: p.lookups.update(r, p.lookups[r].subrange(n, p.lookups[r].len() as int)),
            ..p
        }),
        p.toexec[r].len() > 0 ==> p.pending(),
        p.pending() ==> exists|i: int| 0 <= i < MAX_RUNNERS && (#[trigger] p.toexec[i]).len() > 0,
{
}

/// What is queued for a runner refers to its first `n` slots exactly if each entry does.
pub proof fn law_queues_refer_to_slots(p: PollerView, r: int, n: int)
    ensures
        p.refers_to(r, n) <==> {
            &&& forall|k: int| 0 <= k < p.toexec[r].len() ==> (#[trigger] p.toexec[r][k]) < n
            &&& forall|k: int| 0 <= k < p.timedout[r].len() ==> (#[trigger] p.timedout[r][k]).0 < n
            &&& forall|k: int| 0 <= k < p.lookups[r].len() ==> (#[trigger] p.lookups[r][k]).0 < n
        },
{
}

/// A fiber gets the stack that was left last, and a new one, of the size that was asked for,
/// only where none was left. A stack that is left is the next to be used.
pub proof fn law_stacks_are_last_in_first_out(p: PollerView, number: usize)
    requires
        p.stacks < usize::MAX,
    ensures
        p.stack_pushed(None) == p,
        p.stack_pushed(Some(number)).next_stack() == (Stack { number, need: StackNeed::Reuse }),
        p.stack_pushed(Some(number)).stack_popped() == p,
        p.free_stacks.len() > 0 ==> p.next_stack() == (Stack {
            number: p.free_stacks[0],
            need: StackNeed::Reuse,
        }) && p.stack_popped() == (PollerView { free_stacks: p.free_stacks.drop_first(), ..p }),
        p.free_stacks.len() == 0 ==> {
            &&& p.next_stack().number == p.stacks
            &&& p.stack_size matches Some(size) ==> p.next_stack().need == StackNeed::Sized(size)
            &&& p.stack_size is None ==> p.next_stack().need == StackNeed::Default
            &&& p.stack_popped() == (PollerView { stacks: p.stacks + 1, ..p })
        },
{
    assert((seq![number] + p.free_stacks).drop_first() =~= p.free_stacks);
    assert((seq![number] + p.free_stacks)[0] == number);
}

/// The size of a stack is rounded up to the next power of two: that is a power of two, no less
/// than what was asked for, and less than twice that. A power of two is left as it is.
pub proof fn law_stack_size_is_rounded_up(asked: usize, size: usize, k: nat)
    requires
        rounds_up(asked, size),
        asked > 0,
        asked <= vstd::arithmetic::power2::pow2(k) <= usize::MAX,
    ensures
        exists|j: nat| size == #[trigger] vstd::arithmetic::power2::pow2(j),
        asked <= size < 2 * asked,
        asked == vstd::arithmetic::power2::pow2(k) ==> size == asked,
{
    let top = vstd::arithmetic::power2::pow2(k) as usize;
    assert(power_of_two(top as int));
    assert(asked <= size && power_of_two(size as int));
    assert(size <= top);
    let j = choose|j: nat| size == #[trigger] vstd::arithmetic::power2::pow2(j);
    if j > 0 {
        vstd::arithmetic::power2::lemma_pow2_unfold(j);
        let half = vstd::arithmetic::power2::pow2((j - 1) as nat) as usize;
        assert(power_of_two(half as int));
        if asked <= half {
            assert(size <= half);
        }
    } else {
        vstd::arithmetic::power2::lemma2_to64();
    }
}

/// A span of time is its seconds and its nanoseconds.
pub proof fn law_span_is_seconds_and_nanoseconds(d: Duration)
    ensures
        d@ == d.secs * 1_000_000_000 + d.nanos,
{
}

/// The settings of a wheel are those that were set, and for each that was not its default: a
/// tick of 100 milliseconds, 4096 slots, 128 timers at first and 4194304 at most, a channel of
/// 128, and one turn of the wheel as the longest timeout. The wheel has room at first for what
/// the channel can hold.
pub proof fn law_settings_are_what_was_set(s: crate::builder::Settings)
    ensures
        s.tick_duration matches Some(d) ==> s.tick_nanos() == d@,
        s.tick_duration is None ==> s.tick_nanos() == 100 * 1_000_000,
        s.num_slots matches Some(n) ==> s.slots() == n,
        s.num_slots is None ==> s.slots() == 4096,
        s.channel_capacity matches Some(n) ==> s.channel() == n,
        s.channel_capacity is None ==> s.channel() == 128,
        s.max_capacity matches Some(n) ==> s.max() == n,
        s.max_capacity is None ==> s.max() == 4194304,
        s.initial() >= s.channel(),
        s.initial_capacity matches Some(n) ==> s.initial() >= n && (s.initial() == n || s.initial()
            == s.channel()),
        s.initial_capacity is None ==> s.initial() >= 128 && (s.initial() == 128 || s.initial()
            == s.channel()),
        s.max_timeout matches Some(d) ==> s.max_timeout_nanos() == d@,
        s.max_timeout is None ==> s.max_timeout_nanos() == s.tick_nanos() * s.slots(),
        crate::builder::Settings::none().tick_duration is None,
        crate::builder::Settings::none().num_slots is None,
        crate::builder::Settings::none().initial_capacity is None,
        crate::builder::Settings::none().max_capacity is None,
        crate::builder::Settings::none().max_timeout is None,
        crate::builder::Settings::none().channel_capacity is None,
        crate::builder::Settings::none().thread_name is None,
{
}

} // verus!
