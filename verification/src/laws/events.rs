//! Timers and events: when they are reported, how often, and to whom.
use crate::dns_message::Ipv4;
use crate::ids::MAX_RUNNERS;
use crate::poller::PollerView;
use crate::wheel::{Token, WheelView};
use vstd::prelude::*;

verus! {

/// The wheel after some timers have reported holds the others, as they were.
pub(crate) proof fn lemma_after(w: WheelView, tokens: Seq<Token>)
    ensures
        w.after(tokens).tick_nanos == w.tick_nanos,
        w.after(tokens).serial == w.serial,
        forall|t: Token| #[trigger]
            w.after(tokens).timers.contains_key(t) <==> w.timers.contains_key(t)
                && !tokens.contains(t),
        forall|t: Token| #[trigger]
            w.after(tokens).timers.contains_key(t) ==> w.after(tokens).timers[t] == w.timers[t],
    decreases tokens.len(),
{
    if tokens.len() > 0 {
        let front = tokens.drop_last();
        lemma_after(w, front);
        assert forall|t: Token| tokens.contains(t) <==> front.contains(t) || t == tokens.last() by {
            if tokens.contains(t) {
                let i = choose|i: int| 0 <= i < tokens.len() && tokens[i] == t;
                if i < front.len() {
                    assert(front[i] == t);
                }
            }
            if front.contains(t) {
                let i = choose|i: int| 0 <= i < front.len() && front[i] == t;
                assert(tokens[i] == t);
            }
            assert(tokens[tokens.len() - 1] == tokens.last());
        }
    }
}

/// A poll reports the timers that are due, all of them, each of them once, in the order in
/// which they are due, and no other.
pub proof fn law_due_timers_report_once(w: WheelView, tokens: Seq<Token>, now: nat)
    requires
        w.all_due(tokens, now),
    ensures
        tokens.no_duplicates(),
        forall|t: Token| #[trigger] tokens.contains(t) <==> w.expired(t, now),
        forall|i: int, j: int|
            0 <= i < j < tokens.len() ==> w.timer(#[trigger] tokens[i]).due <= w.timer(
                #[trigger] tokens[j],
            ).due,
{
    assert forall|i: int| 0 <= i < tokens.len() implies w.expired(#[trigger] tokens[i], now)
        && !tokens.subrange(0, i).contains(tokens[i]) by {
        lemma_after(w, tokens.subrange(0, i));
        assert(w.after(tokens.subrange(0, i)).timers.contains_key(tokens[i]));
    }
    assert forall|i: int, j: int| 0 <= i < tokens.len() && 0 <= j < tokens.len() && i
        != j implies tokens[i] != tokens[j] by {
        let (a, b) = if i < j {
            (i, j)
        } else {
            (j, i)
        };
        assert(tokens.subrange(0, b)[a] == tokens[a]);
        assert(tokens.subrange(0, b).contains(tokens[a]));
    }
    assert forall|t: Token| #[trigger] tokens.contains(t) <==> w.expired(t, now) by {
        lemma_after(w, tokens);
        if w.expired(t, now) && !tokens.contains(t) {
            assert(w.after(tokens).timers.contains_key(t));
            assert(w.after(tokens).expired(t, now));
        }
    }
    assert forall|i: int, j: int| 0 <= i < j < tokens.len() implies w.timer(#[trigger] tokens[i]).due
        <= w.timer(#[trigger] tokens[j]).due by {
        let front = tokens.subrange(0, i);
        lemma_after(w, front);
        assert(!front.contains(tokens[j])) by {
            if front.contains(tokens[j]) {
                let k = choose|k: int| 0 <= k < front.len() && front[k] == tokens[j];
                assert(tokens[k] == tokens[j]);
            }
        }
        assert(w.expired(tokens[j], now));
        assert(w.after(front).timers.contains_key(tokens[j]));
        assert(w.after(front).timers.contains_key(tokens[i]));
        assert(w.after(front).armed(tokens[j]));
    }
}

/// A timer is not due before the time that it was armed for.
pub proof fn law_timer_is_never_early(
    p: PollerView,
    token: Token,
    id: u64,
    dur: nat,
    now: nat,
    armed: PollerView,
    then: nat,
)
    requires
        p.ok(),
        p.armed_as(Some(token), id, dur, now, armed),
        armed.wheel.expired(token, then),
    ensures
        now + dur <= then,
{
    let at = now + dur;
    let n = 250_000_000int;
    let tick = crate::wheel::tick_at(at, 250_000_000);
    assert(armed.wheel.timer(token).due >= tick);
    assert(tick <= then / 250_000_000);
    assert(at <= tick * n);
    assert(tick * n <= then) by (nonlinear_arith)
        requires
            tick <= then / 250_000_000,
            n == 250_000_000,
    ;
}

/// A timer is due one tick after the time that it was armed for at the latest, as long as
/// the wheel has not been turned beyond that time when it is armed.
pub proof fn law_timer_is_late_by_a_tick_at_most(
    p: PollerView,
    token: Token,
    id: u64,
    dur: nat,
    now: nat,
    armed: PollerView,
    then: nat,
)
    requires
        p.ok(),
        p.wheel.tick * 250_000_000 <= now + dur,
        p.armed_as(Some(token), id, dur, now, armed),
        now + dur + 250_000_000 <= then,
    ensures
        armed.wheel.expired(token, then),
{
    let at = now + dur;
    let tick = crate::wheel::tick_at(at, 250_000_000);
    assert(p.wheel.tick <= tick);
    assert(tick <= at / 250_000_000 + 1);
    assert((at + 250_000_000) / 250_000_000 == at / 250_000_000 + 1);
    assert((at + 250_000_000) / 250_000_000 <= then / 250_000_000);
    assert(armed.wheel.timer(token).due == tick);
}

/// A timer that was cancelled is not reported.
pub proof fn law_cancelled_timer_is_not_reported(
    p: PollerView,
    token: Token,
    tokens: Seq<Token>,
    now: nat,
)
    requires
        p.cancelled(Some(token)).wheel.all_due(tokens, now),
    ensures
        !tokens.contains(token),
{
    law_due_timers_report_once(p.cancelled(Some(token)).wheel, tokens, now);
}

/// A timer that was reported is the wheel's no more: it is not reported again.
pub proof fn law_timers_are_one_shot(
    p: PollerView,
    ids: Seq<u64>,
    tokens: Seq<Token>,
    found: Seq<(u64, usize, Ipv4)>,
    now: nat,
    later_tokens: Seq<Token>,
    later: nat,
)
    requires
        p.wheel.all_due(tokens, now),
        p.polled(ids, tokens, found, now).wheel.all_due(later_tokens, later),
    ensures
        forall|t: Token| #[trigger] tokens.contains(t) ==> !later_tokens.contains(t),
{
    let w = p.polled(ids, tokens, found, now).wheel;
    lemma_after(p.wheel, tokens);
    law_due_timers_report_once(w, later_tokens, later);
    assert forall|t: Token| #[trigger] tokens.contains(t) implies !later_tokens.contains(t) by {
        assert(!p.wheel.after(tokens).timers.contains_key(t));
        assert(!w.expired(t, later));
    }
}

/// One of the ids names the slot `pos` of the runner `r`.
pub open spec fn names(ids: Seq<u64>, r: int, pos: usize) -> bool {
    exists|i: int|
        0 <= i < ids.len() && crate::ids::runner_of(#[trigger] ids[i]) == r && crate::ids::slot_of(
            ids[i],
        ) == pos
}

/// The slots of a runner among the ids are those of the ids that name it.
proof fn lemma_routed(ids: Seq<u64>, r: int)
    ensures
        forall|i: int|
            0 <= i < ids.len() && crate::ids::runner_of(#[trigger] ids[i]) == r
                ==> crate::poller::routed(ids, r).contains(crate::ids::slot_of(ids[i])),
        forall|k: int|
            0 <= k < crate::poller::routed(ids, r).len() ==> names(
                ids,
                r,
                #[trigger] crate::poller::routed(ids, r)[k],
            ),
    decreases ids.len(),
{
    if ids.len() > 0 {
        let front = ids.drop_last();
        let rest = crate::poller::routed(front, r);
        let all = crate::poller::routed(ids, r);
        lemma_routed(front, r);
        assert forall|i: int|
            0 <= i < ids.len() && crate::ids::runner_of(#[trigger] ids[i])
                == r implies all.contains(crate::ids::slot_of(ids[i])) by {
            if i < front.len() {
                assert(front[i] == ids[i]);
                let k = choose|k: int|
                    0 <= k < rest.len() && rest[k] == crate::ids::slot_of(ids[i]);
                assert(all[k] == rest[k]);
            } else {
                assert(all[rest.len() as int] == crate::ids::slot_of(ids[i]));
            }
        }
        assert forall|k: int| 0 <= k < all.len() implies names(ids, r, #[trigger] all[k]) by {
            if k < rest.len() {
                assert(all[k] == rest[k]);
                let i = choose|i: int|
                    0 <= i < front.len() && crate::ids::runner_of(#[trigger] front[i]) == r
                        && crate::ids::slot_of(front[i]) == rest[k];
                assert(ids[i] == front[i]);
            } else {
                assert(ids[ids.len() - 1] == ids.last());
            }
        }
    }
}

/// A fiber whose socket was signalled is queued with its runner, and nothing is queued
/// that was not signalled.
pub proof fn law_signalled_fiber_is_queued(p: PollerView, ids: Seq<u64>, runner: i8)
    requires
        p.ok(),
        0 <= runner < MAX_RUNNERS,
    ensures
        forall|pos: usize|
            pos <= 0xffff_ffff && ids.contains(
                #[trigger] crate::ids::fiber_id_of(runner, pos),
            ) ==> p.with_events(ids).toexec[runner as int].contains(pos),
        forall|k: int|
            p.toexec[runner as int].len() <= k < p.with_events(ids).toexec[runner as int].len()
                ==> names(
                ids,
                runner as int,
                #[trigger] p.with_events(ids).toexec[runner as int][k],
            ),
{
    let r = runner as int;
    let more = crate::poller::routed(ids, r);
    let queue = p.with_events(ids).toexec[r];
    assert(queue == p.toexec[r] + more);
    lemma_routed(ids, r);
    assert forall|pos: usize| pos <= 0xffff_ffff && ids.contains(
        #[trigger] crate::ids::fiber_id_of(runner, pos),
    ) implies queue.contains(pos) by {
        crate::ids::law_id_round_trip(runner, pos);
        let i = choose|i: int|
            0 <= i < ids.len() && ids[i] == crate::ids::fiber_id_of(runner, pos);
        let k = choose|k: int| 0 <= k < more.len() && more[k] == crate::ids::slot_of(ids[i]);
        assert(queue[p.toexec[r].len() + k] == pos);
    }
    assert forall|k: int| p.toexec[r].len() <= k < queue.len() implies names(
        ids,
        r,
        #[trigger] queue[k],
    ) by {
        assert(queue[k] == more[k - p.toexec[r].len()]);
    }
}

/// The lookups of a runner among those that have come back are those whose id names it.
proof fn lemma_routed_lookups(found: Seq<(u64, usize, Ipv4)>, r: int)
    ensures
        forall|i: int|
            0 <= i < found.len() && crate::ids::runner_of((#[trigger] found[i]).0) == r
                ==> crate::poller::routed_lookups(found, r).contains(
                (crate::ids::slot_of(found[i].0), found[i].1, found[i].2),
            ),
    decreases found.len(),
{
    if found.len() > 0 {
        let front = found.drop_last();
        let rest = crate::poller::routed_lookups(front, r);
        let all = crate::poller::routed_lookups(found, r);
        lemma_routed_lookups(front, r);
        assert forall|i: int|
            0 <= i < found.len() && crate::ids::runner_of((#[trigger] found[i]).0)
                == r implies all.contains(
            (crate::ids::slot_of(found[i].0), found[i].1, found[i].2),
        ) by {
            let l = (crate::ids::slot_of(found[i].0), found[i].1, found[i].2);
            if i < front.len() {
                assert(front[i] == found[i]);
                let k = choose|k: int| 0 <= k < rest.len() && rest[k] == l;
                assert(all[k] == l);
            } else {
                assert(all[rest.len() as int] == l);
            }
        }
    }
}

/// A lookup that has come back is queued with the runner of the fiber that asked, with the
/// generation under which it asked and the address that was found.
pub proof fn law_found_address_is_queued(
    p: PollerView,
    found: Seq<(u64, usize, Ipv4)>,
    runner: i8,
    pos: usize,
    generation: usize,
    address: Ipv4,
)
    requires
        p.ok(),
        0 <= runner < MAX_RUNNERS,
        pos <= 0xffff_ffff,
        found.contains((crate::ids::fiber_id_of(runner, pos), generation, address)),
    ensures
        p.with_lookups(found).lookups[runner as int].contains((pos, generation, address)),
{
    let r = runner as int;
    crate::ids::law_id_round_trip(runner, pos);
    lemma_routed_lookups(found, r);
    let i = choose|i: int|
        0 <= i < found.len() && found[i] == (
            crate::ids::fiber_id_of(runner, pos),
            generation,
            address,
        );
    let more = crate::poller::routed_lookups(found, r);
    assert(crate::ids::runner_of(found[i].0) == r);
    assert(more.contains((pos, generation, address)));
    let k = choose|k: int| 0 <= k < more.len() && more[k] == (pos, generation, address);
    let queue = p.with_lookups(found).lookups[r];
    assert(queue == p.lookups[r] + more);
    assert(queue[p.lookups[r].len() + k] == (pos, generation, address));
}

/// What timers report to a runner are the timers themselves, each with the slot that its
/// id names.
pub(crate) proof fn lemma_routed_timers(w: WheelView, tokens: Seq<Token>, r: int)
    ensures
        forall|t: Token| #[trigger]
            tokens.contains(t) && crate::ids::runner_of(w.timer(t).id) == r
                ==> crate::poller::routed_timers(w, tokens, r).contains(
                (crate::ids::slot_of(w.timer(t).id), t),
            ),
        forall|k: int|
            0 <= k < crate::poller::routed_timers(w, tokens, r).len() ==> tokens.contains(
                (#[trigger] crate::poller::routed_timers(w, tokens, r)[k]).1,
            ),
    decreases tokens.len(),
{
    if tokens.len() > 0 {
        let front = tokens.drop_last();
        let rest = crate::poller::routed_timers(w, front, r);
        let all = crate::poller::routed_timers(w, tokens, r);
        lemma_routed_timers(w, front, r);
        assert forall|t: Token| #[trigger]
            tokens.contains(t) && crate::ids::runner_of(w.timer(t).id) == r implies all.contains(
            (crate::ids::slot_of(w.timer(t).id), t),
        ) by {
            let f = (crate::ids::slot_of(w.timer(t).id), t);
            if t == tokens.last() {
                assert(all[rest.len() as int] == f);
            } else {
                let i = choose|i: int| 0 <= i < tokens.len() && tokens[i] == t;
                assert(front[i] == t);
                assert(front.contains(t));
                let k = choose|k: int| 0 <= k < rest.len() && rest[k] == f;
                assert(all[k] == f);
            }
        }
        assert forall|k: int| 0 <= k < all.len() implies tokens.contains(
            (#[trigger] all[k]).1,
        ) by {
            if k < rest.len() {
                assert(all[k] == rest[k]);
                let i = choose|i: int| 0 <= i < front.len() && front[i] == rest[k].1;
                assert(tokens[i] == all[k].1);
            } else {
                assert(tokens[tokens.len() - 1] == all[k].1);
            }
        }
    }
}

/// When the timer of a fiber is due, a poll queues it with the runner of the fiber.
pub proof fn law_due_timer_reaches_its_fiber(
    p: PollerView,
    ids: Seq<u64>,
    tokens: Seq<Token>,
    found: Seq<(u64, usize, Ipv4)>,
    now: nat,
    token: Token,
    runner: i8,
    pos: usize,
)
    requires
        p.ok(),
        p.wheel.all_due(tokens, now),
        0 <= runner < MAX_RUNNERS,
        pos <= 0xffff_ffff,
        p.wheel.expired(token, now),
        p.wheel.timer(token).id == crate::ids::fiber_id_of(runner, pos),
    ensures
        p.polled(ids, tokens, found, now).timedout[runner as int].contains((pos, token)),
{
    let r = runner as int;
    law_due_timers_report_once(p.wheel, tokens, now);
    assert(tokens.contains(token));
    crate::ids::law_id_round_trip(runner, pos);
    lemma_routed_timers(p.wheel, tokens, r);
    let more = crate::poller::routed_timers(p.wheel, tokens, r);
    assert(more.contains((pos, token)));
    let k = choose|k: int| 0 <= k < more.len() && more[k] == (pos, token);
    let queue = p.polled(ids, tokens, found, now).timedout[r];
    assert(queue == p.timedout[r] + more);
    assert(queue[p.timedout[r].len() + k] == (pos, token));
}

} // verus!
