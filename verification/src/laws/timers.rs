//! Timers over time: to whom a timer belongs, that no fiber is run before its time, and that
//! a fiber that waits is run in time.
use crate::dns_message::Ipv4;
use crate::duration::Duration;
use crate::error::Error;
use crate::ids::MAX_RUNNERS;
use crate::poller::PollerView;
use crate::runner::run::{RunAction, RunStage};
use crate::runner::RunnerView;
use crate::slot::{FiberSock, FiberView};
use crate::wheel::Token;
use vstd::prelude::*;

verus! {

/// The timer that the fiber in slot `i` waits for, if it is still armed, is armed for this
/// fiber.
pub open spec fn timer_owned<P, R>(v: RunnerView<P, R>, p: PollerView, i: int) -> bool {
    v.fibers[i].wtoken matches Some(t) ==> {
        &&& t.serial < p.wheel.serial
        &&& p.wheel.timers.contains_key(t) ==> p.wheel.armed(t) && p.wheel.timer(t).id
            == v.fibers[i].me
    }
}

/// The timers that the fibers of a runner wait for are armed for them.
pub open spec fn timers_owned<P, R>(v: RunnerView<P, R>, p: PollerView) -> bool {
    forall|i: int| 0 <= i < v.fibers.len() ==> #[trigger] timer_owned(v, p, i)
}

/// Every timer in `q` was in `p`, as it is, or has a number that no timer had by then.
pub open spec fn only_new_timers(p: PollerView, q: PollerView) -> bool {
    &&& q.wheel.serial >= p.wheel.serial
    &&& forall|t: Token| #[trigger]
        q.wheel.timers.contains_key(t) ==> (p.wheel.timers.contains_key(t)
            && q.wheel.timers[t] == p.wheel.timers[t]) || t.serial >= p.wheel.serial
}

/// What changes neither the timers that fibers wait for, other than to none, nor any timer
/// that is armed, keeps timers owned.
proof fn lemma_owned<P, R>(v: RunnerView<P, R>, p: PollerView, w: RunnerView<P, R>, q: PollerView)
    requires
        timers_owned(v, p),
        only_new_timers(p, q),
        forall|i: int|
            0 <= i < w.fibers.len() ==> (#[trigger] w.fibers[i]).wtoken is None || timer_owned(
                w,
                q,
                i,
            ) || (i < v.fibers.len() && w.fibers[i].wtoken == v.fibers[i].wtoken
                && w.fibers[i].me == v.fibers[i].me),
    ensures
        timers_owned(w, q),
{
    assert forall|i: int| 0 <= i < w.fibers.len() implies #[trigger] timer_owned(w, q, i) by {
        assert(w.fibers[i] == w.fibers[i]);
        if i < v.fibers.len() {
            assert(timer_owned(v, p, i));
        }
    }
}

/// A fiber that waits for its socket with a timeout owns its timer, and the others keep
/// theirs.
pub proof fn law_waiting_keeps_timers_owned<P, R>(
    v: RunnerView<P, R>,
    p: PollerView,
    pos: usize,
    token: Option<Token>,
    dur: nat,
    now: nat,
    q: PollerView,
)
    requires
        p.ok(),
        v.has(pos),
        timers_owned(v, p),
        p.armed_as(token, v.fibers[pos as int].me, dur, now, q),
    ensures
        timers_owned(v.wait_timed(pos, token), q),
        timers_owned(v.wait_timed(pos, None), p),
{
    let w = v.wait_timed(pos, token);
    assert(timer_owned(w, q, pos as int));
    lemma_owned(v, p, w, q);
    lemma_owned(v, p, v.wait_timed(pos, None), p);
}

/// A fiber whose wait is over, of which nothing is left, or whose lookup could not begin has
/// cancelled its own timer, and the others keep theirs.
pub proof fn law_cancelling_keeps_timers_owned<P, R>(v: RunnerView<P, R>, p: PollerView, pos: usize)
    requires
        v.in_range(),
        v.has(pos),
        timers_owned(v, p),
    ensures
        timers_owned(v.wait_over(pos), p.cancelled(v.fibers[pos as int].wtoken)),
        timers_owned(v.dropped(pos), p.cancelled(v.fibers[pos as int].wtoken)),
        timers_owned(v.lookup_failed(pos), p.cancelled(v.fibers[pos as int].wtoken)),
        timers_owned(v.addressed(pos), p.cancelled(v.fibers[pos as int].wtoken)),
{
    let q = p.cancelled(v.fibers[pos as int].wtoken);
    assert(v.slot_in_range(pos as int));
    lemma_owned(v, p, v.wait_over(pos), q);
    lemma_owned(v, p, v.dropped(pos), q);
    lemma_owned(v, p, v.lookup_failed(pos), q);
    lemma_owned(v, p, v.addressed(pos), q);
}

/// A timer that was started is owned by the fiber that it runs, and the others keep theirs.
pub proof fn law_starting_a_timer_keeps_timers_owned<P, R>(
    v: RunnerView<P, R>,
    p: PollerView,
    now: nat,
    func: bool,
    dur: nat,
    param: Option<P>,
    resp: Option<R>,
    slot: Option<(usize, Token)>,
    w: RunnerView<P, R>,
    q: PollerView,
)
    requires
        v.in_range(),
        v.has_room(),
        p.ok(),
        timers_owned(v, p),
        crate::runner::timer_started(v, p, now, func, dur, param, resp, slot, w, q),
    ensures
        timers_owned(w, q),
{
    if v.free.len() > 0 {
        assert(v.free[0] < v.fibers.len());
    }
    assert(timer_owned(w, q, v.next_slot() as int));
    lemma_owned(v, p, w, q);
}

/// A fiber that is started with a socket, or to wait for an address, leaves the timers of
/// the others theirs, and owns the one that it has. So does a fiber whose slot was taken and
/// that does not come to be.
pub proof fn law_starting_a_fiber_keeps_timers_owned<P, R>(
    v: RunnerView<P, R>,
    p: PollerView,
    func: bool,
    sock: FiberSock,
    param: P,
    parent: Option<usize>,
    domain: Seq<char>,
    to: nat,
    now: nat,
    slot: Result<usize, Error>,
    w: RunnerView<P, R>,
    q: PollerView,
)
    requires
        v.in_range(),
        v.has_room(),
        p.ok(),
        timers_owned(v, p),
        parent matches Some(g) ==> v.has(g),
        crate::runner::resolve_started(v, p, now, parent, domain, func, to, param, slot, w, q),
    ensures
        timers_owned(v.registered(func, sock, Some(param), parent), p),
        timers_owned(v.slot_taken(), p),
        timers_owned(w, q),
{
    if v.free.len() > 0 {
        assert(v.free[0] < v.fibers.len());
    }
    lemma_owned(v, p, v.registered(func, sock, Some(param), parent), p);
    lemma_owned(v, p, v.slot_taken(), p);
    if domain.len() > 0 {
        let pos = v.next_slot();
        let placed = v.registered(func, FiberSock::Empty, Some(param), parent);
        lemma_owned(v, p, placed, p);
        assert(timer_owned(w, q, pos as int)) by {
            assert(w.fibers[pos as int].me == placed.fibers[pos as int].me);
        }
        assert forall|i: int| 0 <= i < w.fibers.len() implies (
        #[trigger] w.fibers[i]).wtoken is None || timer_owned(w, q, i) || (i < placed.fibers.len()
            && w.fibers[i].wtoken == placed.fibers[i].wtoken && w.fibers[i].me
            == placed.fibers[i].me) by {
            if i == pos {
                assert(timer_owned(w, q, i));
            }
        }
        lemma_owned(placed, p, w, q);
    }
}

/// A step of a run leaves every fiber the timer that is its own.
pub proof fn law_running_keeps_timers_owned<P, R>(
    v: RunnerView<P, R>,
    p: PollerView,
    stage: RunStage,
    now: nat,
    w: RunnerView<P, R>,
    q: PollerView,
    stage_after: RunStage,
    action: RunAction,
)
    requires
        v.in_range(),
        p.ok(),
        v.knows(p),
        timers_owned(v, p),
        v.run_step(p, stage, now, w, q, stage_after, action),
    ensures
        timers_owned(w, q),
{
    let r = v.pos as int;
    crate::laws::lookups::lemma_next_lookup(v, p.lookups[r], 0);
    crate::laws::lookups::lemma_next_timer(v, p.timedout[r], 0);
    let j = v.next_timer(p.timedout[r], 0);
    if j < p.timedout[r].len() {
        let pos = p.timedout[r][j].0;
        assert(v.has(p.timedout[r][j].0));
        if w.fibers.len() == v.fibers.len() && w.fibers[pos as int].wtoken is Some
            && w.fibers[pos as int].wtoken != v.fibers[pos as int].wtoken {
            assert(timer_owned(w, q, pos as int));
        }
    }
    assert(only_new_timers(p, q));
    lemma_owned(v, p, w, q);
}

/// All else that a fiber does, or that is done with it, leaves every fiber the timer that is
/// its own: that it is entered, begins, gives an intermediate result, calls the main stack,
/// hibernates or does not after all, sets its timeout, asks for a result of its children,
/// returns `result`, is back on the main stack, and is resumed, and that a result is received.
pub proof fn law_fibers_keep_timers_owned<P, R>(
    v: RunnerView<P, R>,
    p: PollerView,
    pos: usize,
    kept: Option<P>,
    t: Option<Duration>,
    chunk: R,
    resp: Option<R>,
    result: Option<R>,
)
    requires
        v.in_range(),
        v.has(pos),
        timers_owned(v, p),
    ensures
        timers_owned(v.entered(p, pos), p),
        timers_owned(v.entered(p, pos), p.stack_popped()),
        timers_owned(v.begun(pos, kept), p),
        timers_owned(v.chunk_given(pos, chunk), p),
        timers_owned(v.called_main(pos), p),
        timers_owned(v.response_taken(pos), p),
        timers_owned(v.hibernates(pos).called_main(pos), p),
        timers_owned(v.sleeps(pos), p),
        timers_owned(v.sleeps(pos).stays(pos), p),
        timers_owned(v.timeout_set(pos, t), p),
        timers_owned(v.child_step(p, pos).runner, v.child_step(p, pos).poller),
        timers_owned(v.returned(pos, result), p),
        timers_owned(v.left(pos), v.left_poller(p, pos)),
        timers_owned(v.resumed(pos, resp), v.resumed_poller(p, pos)),
        v.results.len() > 0 ==> timers_owned(v.received(), v.received_poller(p)),
{
    lemma_owned(v, p, v.entered(p, pos), p);
    lemma_owned(v, p, v.entered(p, pos), p.stack_popped());
    lemma_owned(v, p, v.begun(pos, kept), p);
    lemma_owned(v, p, v.chunk_given(pos, chunk), p);
    lemma_owned(v, p, v.called_main(pos), p);
    lemma_owned(v, p, v.response_taken(pos), p);
    lemma_owned(v, p, v.hibernates(pos).called_main(pos), p);
    lemma_owned(v, p, v.sleeps(pos), p);
    lemma_owned(v, p, v.sleeps(pos).stays(pos), p);
    lemma_owned(v, p, v.timeout_set(pos, t), p);
    crate::laws::children::lemma_child_step_spares(v, p, pos);
    lemma_owned(v, p, v.child_step(p, pos).runner, v.child_step(p, pos).poller);
    lemma_owned(v, p, v.returned(pos, result), p);
    lemma_owned(v, p, v.left(pos), v.left_poller(p, pos));
    lemma_owned(v, p, v.resumed(pos, resp), v.resumed_poller(p, pos));
    if v.results.len() > 0 {
        lemma_owned(v, p, v.received(), v.received_poller(p));
    }
}

/// Every fiber keeps the timer that is its own when a slot changes in anything but its timer
/// and its id: its socket is registered, taken, connected or replaced.
pub proof fn law_other_changes_keep_timers_owned<P, R>(
    v: RunnerView<P, R>,
    p: PollerView,
    pos: usize,
    f: FiberView<P, R>,
)
    requires
        v.has(pos),
        timers_owned(v, p),
        f.wtoken == v.fibers[pos as int].wtoken,
        f.me == v.fibers[pos as int].me,
    ensures
        timers_owned(v.with(pos, f), p),
{
    lemma_owned(v, p, v.with(pos, f), p);
}

/// In a runner without fibers there is no timer that is not owned.
pub proof fn law_new_runner_owns_timers<P, R>(pos: i8, p: PollerView)
    ensures
        timers_owned(RunnerView::<P, R>::idle(pos), p),
{
}

/// A poll, and whatever is done for the fibers of another runner, leaves every fiber the
/// timer that is its own.
pub proof fn law_other_timers_stay_owned<P, R>(v: RunnerView<P, R>, p: PollerView, q: PollerView)
    requires
        timers_owned(v, p),
        only_new_timers(p, q),
    ensures
        timers_owned(v, q),
{
    lemma_owned(v, p, v, q);
}

/// A fiber cancels no timer but its own: when another fiber, of this runner or of another,
/// cancels the timer that it waits for, the timer of this fiber stays.
pub proof fn law_timer_is_cancelled_by_its_fiber_alone<P, R>(
    v: RunnerView<P, R>,
    pos: usize,
    w: RunnerView<P, R>,
    other: usize,
    p: PollerView,
    token: Token,
)
    requires
        v.in_range(),
        w.in_range(),
        v.has(pos),
        w.has(other),
        v.pos != w.pos || pos != other,
        timers_owned(v, p),
        timers_owned(w, p),
        v.fibers[pos as int].wtoken == Some(token),
        p.wheel.timers.contains_key(token),
    ensures
        ({
            let q = p.cancelled(w.fibers[other as int].wtoken);
            q.wheel.timers.contains_key(token) && q.wheel.timers[token] == p.wheel.timers[token]
        }),
{
    assert(timer_owned(v, p, pos as int));
    assert(timer_owned(w, p, other as int));
    assert(v.slot_in_range(pos as int));
    assert(w.slot_in_range(other as int));
    if w.fibers[other as int].wtoken == Some(token) {
        crate::ids::law_ids_are_distinct(v.pos, pos, w.pos, other);
    }
}

/// The timer is reported to some runner, and was not worked off yet.
pub open spec fn reported(p: PollerView, token: Token) -> bool {
    exists|r: int, k: int|
        0 <= r < MAX_RUNNERS && 0 <= k < p.timedout[r].len() && (#[trigger] p.timedout[r][k]).1
            == token
}

/// What is done between polls: the clock stands, no timer is reported, and the timers are
/// those that were there, or new ones.
pub open spec fn quiet(p: PollerView, q: PollerView) -> bool {
    &&& q.wheel.tick == p.wheel.tick
    &&& only_new_timers(p, q)
    &&& forall|r: int, k: int|
        0 <= r < MAX_RUNNERS && 0 <= k < q.timedout[r].len() ==> p.timedout[r].contains(
            #[trigger] q.timedout[r][k],
        )
}

/// A poll at the time `now`.
pub open spec fn polls(p: PollerView, q: PollerView, now: nat) -> bool {
    exists|ids: Seq<u64>, tokens: Seq<Token>, found: Seq<(u64, usize, Ipv4)>|
        p.wheel.all_due(tokens, now) && q == #[trigger] p.polled(ids, tokens, found, now)
}

/// Whatever is done with a poller between polls is quiet: fibers are queued and taken from
/// the queues, lookups and timers are taken from theirs, timers are armed and cancelled, and
/// stacks are taken and given back.
pub proof fn law_poller_is_quiet_between_polls(
    p: PollerView,
    r: int,
    pos: usize,
    n: int,
    token: Option<Token>,
    id: u64,
    dur: nat,
    now: nat,
    armed: PollerView,
    stack: Option<usize>,
)
    requires
        p.ok(),
        0 <= r < MAX_RUNNERS,
        0 <= n <= p.timedout[r].len(),
        p.armed_as(token, id, dur, now, armed),
    ensures
        quiet(p, p.exec_pushed(r, pos)),
        quiet(p, p.exec_popped(r, n)),
        quiet(p, p.lookups_popped(r, n)),
        quiet(p, p.timedout_popped(r, n)),
        quiet(p, p.cancelled(token)),
        quiet(p, armed),
        quiet(p, p.stack_popped()),
        quiet(p, p.stack_pushed(stack)),
{
    let q = p.timedout_popped(r, n);
    assert forall|s: int, k: int|
        0 <= s < MAX_RUNNERS && 0 <= k < q.timedout[s].len() implies p.timedout[s].contains(
        #[trigger] q.timedout[s][k],
    ) by {
        if s == r {
            assert(q.timedout[s][k] == p.timedout[s][k + n]);
        } else {
            assert(q.timedout[s][k] == p.timedout[s][k]);
        }
    }
    assert forall|s: int, k: int|
        0 <= s < MAX_RUNNERS && 0 <= k < p.timedout[s].len() implies p.timedout[s].contains(
        #[trigger] p.timedout[s][k],
    ) by {}
}

/// A timer that was armed for the time `at` is not due before, and if it was reported the
/// clock has come that far.
pub open spec fn not_before(p: PollerView, token: Token, at: nat) -> bool {
    &&& token.serial < p.wheel.serial
    &&& p.wheel.timers.contains_key(token) ==> p.wheel.armed(token) && at <= p.wheel.timer(
        token,
    ).due * 250_000_000
    &&& reported(p, token) ==> at <= p.wheel.tick * 250_000_000
}

/// A poll does not set the clock back, sets it to the time of the poll at least, and not
/// ahead of that.
pub(crate) proof fn lemma_poll_clock(p: PollerView, tokens: Seq<Token>, now: nat)
    requires
        p.ok(),
        p.wheel.all_due(tokens, now),
    ensures
        p.wheel.after(tokens).turned(now).tick >= p.wheel.tick,
        p.wheel.after(tokens).turned(now).tick >= now / 250_000_000,
        p.wheel.after(tokens).turned(now).tick <= p.wheel.tick || p.wheel.after(tokens).turned(
            now,
        ).tick <= now / 250_000_000,
{
    let w = p.wheel;
    crate::laws::events::law_due_timers_report_once(w, tokens, now);
    crate::laws::events::lemma_after(w, tokens);
    if tokens.len() > 0 {
        let front = tokens.drop_last();
        let last = tokens.last();
        crate::laws::events::lemma_after(w, front);
        assert(!front.contains(last)) by {
            if front.contains(last) {
                let i = choose|i: int| 0 <= i < front.len() && front[i] == last;
                assert(tokens[i] == tokens[tokens.len() - 1]);
            }
        }
        assert(tokens.contains(tokens[tokens.len() - 1]));
        assert(w.expired(last, now));
        assert(w.after(front).timers.contains_key(last));
        assert(w.after(tokens).tick == w.timer(last).due);
        assert(w.armed(last));
    }
}

/// A poll reports no timer early.
proof fn lemma_poll_not_before(p: PollerView, q: PollerView, token: Token, at: nat, now: nat)
    requires
        p.ok(),
        not_before(p, token, at),
        polls(p, q, now),
    ensures
        not_before(q, token, at),
        q.wheel.tick <= p.wheel.tick || q.wheel.tick <= now / 250_000_000,
{
    let (ids, tokens, found) = choose|
        ids: Seq<u64>,
        tokens: Seq<Token>,
        found: Seq<(u64, usize, Ipv4)>,
    |
        p.wheel.all_due(tokens, now) && q == #[trigger] p.polled(ids, tokens, found, now);
    lemma_poll_clock(p, tokens, now);
    crate::laws::events::lemma_after(p.wheel, tokens);
    if reported(q, token) {
        let (r, k) = choose|r: int, k: int|
            0 <= r < MAX_RUNNERS && 0 <= k < q.timedout[r].len() && (
            #[trigger] q.timedout[r][k]).1 == token;
        let more = crate::poller::routed_timers(p.wheel, tokens, r);
        assert(q.timedout[r] == p.timedout[r] + more);
        if k < p.timedout[r].len() {
            assert(p.timedout[r][k] == q.timedout[r][k]);
            assert(reported(p, token));
        } else {
            crate::laws::events::lemma_routed_timers(p.wheel, tokens, r);
            assert(more[k - p.timedout[r].len()].1 == token);
            assert(tokens.contains(token));
            crate::laws::events::law_due_timers_report_once(p.wheel, tokens, now);
            assert(p.wheel.expired(token, now));
            assert(p.wheel.timer(token).due <= q.wheel.tick);
        }
    }
    if q.wheel.timers.contains_key(token) {
        assert(p.wheel.after(tokens).timers.contains_key(token));
    }
}

/// What is done between polls reports no timer early.
proof fn lemma_quiet_not_before(p: PollerView, q: PollerView, token: Token, at: nat)
    requires
        not_before(p, token, at),
        quiet(p, q),
    ensures
        not_before(q, token, at),
{
    if reported(q, token) {
        let (r, k) = choose|r: int, k: int|
            0 <= r < MAX_RUNNERS && 0 <= k < q.timedout[r].len() && (
            #[trigger] q.timedout[r][k]).1 == token;
        assert(p.timedout[r].contains(q.timedout[r][k]));
        let j = choose|j: int|
            0 <= j < p.timedout[r].len() && p.timedout[r][j] == q.timedout[r][k];
        assert(p.timedout[r][j].1 == token);
        assert(reported(p, token));
    }
}

/// A poller over time: each state follows from the one before by a poll at its time, or by
/// something that is done between polls.
pub open spec fn history(ps: Seq<PollerView>, times: Seq<nat>) -> bool {
    &&& ps.len() > 0
    &&& times.len() == ps.len()
    &&& forall|i: int| 0 <= i < ps.len() ==> (#[trigger] ps[i]).ok()
    &&& forall|i: int|
        0 < i < ps.len() ==> quiet(ps[i - 1], #[trigger] ps[i]) || polls(
            ps[i - 1],
            ps[i],
            times[i],
        )
}

proof fn lemma_history(ps: Seq<PollerView>, times: Seq<nat>, token: Token, at: nat, now: nat, n: int)
    requires
        history(ps, times),
        0 <= n < ps.len(),
        not_before(ps[0], token, at),
        ps[0].wheel.tick * 250_000_000 <= now,
        forall|i: int| 0 < i < ps.len() ==> #[trigger] times[i] <= now,
    ensures
        not_before(ps[n], token, at),
        ps[n].wheel.tick * 250_000_000 <= now,
    decreases n,
{
    if n > 0 {
        lemma_history(ps, times, token, at, now, n - 1);
        assert(times[n] <= now);
        assert(ps[n - 1].ok());
        assert(quiet(ps[n - 1], ps[n]) || polls(ps[n - 1], ps[n], times[n]));
        if polls(ps[n - 1], ps[n], times[n]) {
            lemma_poll_not_before(ps[n - 1], ps[n], token, at, times[n]);
        } else {
            lemma_quiet_not_before(ps[n - 1], ps[n], token, at);
        }
    }
}

/// A timer that is armed is not reported before.
proof fn lemma_armed_not_before(
    p: PollerView,
    token: Token,
    id: u64,
    dur: nat,
    start: nat,
    armed: PollerView,
)
    requires
        p.ok(),
        p.armed_as(Some(token), id, dur, start, armed),
    ensures
        not_before(armed, token, start + dur),
{
    let at = start + dur;
    assert(at <= crate::wheel::tick_at(at, 250_000_000) * 250_000_000);
    if reported(armed, token) {
        let (r, k) = choose|r: int, k: int|
            0 <= r < MAX_RUNNERS && 0 <= k < armed.timedout[r].len() && (
            #[trigger] armed.timedout[r][k]).1 == token;
        assert(p.timedout[r][k].1.serial < p.wheel.serial);
    }
}

/// No timer runs its fiber early: whatever has happened since it was started, with polls at
/// times up to `now`, a step of a run that asks to enter the fiber it starts comes when the
/// time it was started for is over. This is so for the timer of a response as for that of a
/// fiber.
pub proof fn law_timer_runs_nothing_early<P, R>(
    before: RunnerView<P, R>,
    p: PollerView,
    start: nat,
    func: bool,
    dur: nat,
    param: Option<P>,
    resp: Option<R>,
    pos: usize,
    token: Token,
    started: RunnerView<P, R>,
    ps: Seq<PollerView>,
    times: Seq<nat>,
    v: RunnerView<P, R>,
    stage: RunStage,
    now: nat,
    after: RunnerView<P, R>,
    q: PollerView,
    stage_after: RunStage,
)
    requires
        before.in_range(),
        before.has_room(),
        p.ok(),
        p.wheel.tick * 250_000_000 <= now,
        history(ps, times),
        forall|i: int| 0 < i < ps.len() ==> #[trigger] times[i] <= now,
        crate::runner::timer_started(
            before,
            p,
            start,
            func,
            dur,
            param,
            resp,
            Some((pos, token)),
            started,
            ps[0],
        ),
        v.in_range(),
        v.has(pos),
        v.knows(ps.last()),
        v.fibers[pos as int] == started.fibers[pos as int],
        v.run_step(ps.last(), stage, now, after, q, stage_after, RunAction::Enter(pos)),
    ensures
        start + dur <= now,
{
    if before.free.len() > 0 {
        assert(before.free[0] < before.fibers.len());
    }
    let placed = before.registered(func, FiberSock::Empty, param, None);
    assert(placed.fibers[pos as int] == before.fresh(func, FiberSock::Empty, param, None));
    let last = ps.last();
    assert(ps[ps.len() - 1].ok());
    lemma_armed_not_before(p, token, placed.fibers[pos as int].me, dur, start, ps[0]);
    lemma_history(ps, times, token, start + dur, now, ps.len() - 1);
    crate::laws::blocking::law_unstarted_fiber_is_entered_by_its_timer(
        v,
        pos,
        last,
        stage,
        now,
        after,
        q,
        stage_after,
        pos,
    );
    let queue = last.timedout[v.pos as int];
    let k = choose|k: int| 0 <= k < queue.len() && queue[k] == (pos, token);
    assert(last.timedout[v.pos as int][k].1 == token);
    assert(reported(last, token));
}

/// What is done between polls leaves the timer `token` alone, and the report of it to the
/// slot `pos` of the runner `r`.
pub open spec fn spares(p: PollerView, q: PollerView, token: Token, r: int, pos: usize) -> bool {
    &&& p.wheel.timers.contains_key(token) ==> q.wheel.timers.contains_key(token)
        && q.wheel.timers[token] == p.wheel.timers[token]
    &&& p.timedout[r].contains((pos, token)) ==> q.timedout[r].contains((pos, token))
}

/// The timer `token` is armed for the tick `due` and for the slot `pos` of the runner
/// `runner`, or was reported to it.
spec fn alive(p: PollerView, token: Token, due: nat, runner: i8, pos: usize) -> bool {
    ||| p.timedout[runner as int].contains((pos, token))
    ||| p.wheel.armed(token) && p.wheel.timer(token).due == due && p.wheel.timer(token).id
        == crate::ids::fiber_id_of(runner, pos)
}

proof fn lemma_poll_alive(
    p: PollerView,
    q: PollerView,
    token: Token,
    due: nat,
    runner: i8,
    pos: usize,
    now: nat,
)
    requires
        p.ok(),
        0 <= runner < MAX_RUNNERS,
        pos <= 0xffff_ffff,
        alive(p, token, due, runner, pos),
        polls(p, q, now),
    ensures
        alive(q, token, due, runner, pos),
        due <= now / 250_000_000 ==> q.timedout[runner as int].contains((pos, token)),
{
    let r = runner as int;
    let (ids, tokens, found) = choose|
        ids: Seq<u64>,
        tokens: Seq<Token>,
        found: Seq<(u64, usize, Ipv4)>,
    |
        p.wheel.all_due(tokens, now) && q == #[trigger] p.polled(ids, tokens, found, now);
    crate::laws::events::lemma_after(p.wheel, tokens);
    crate::laws::events::law_due_timers_report_once(p.wheel, tokens, now);
    let more = crate::poller::routed_timers(p.wheel, tokens, r);
    assert(q.timedout[r] == p.timedout[r] + more);
    if p.timedout[r].contains((pos, token)) {
        let k = choose|k: int| 0 <= k < p.timedout[r].len() && p.timedout[r][k] == (pos, token);
        assert(q.timedout[r][k] == (pos, token));
    } else if tokens.contains(token) {
        crate::laws::events::law_due_timer_reaches_its_fiber(
            p,
            ids,
            tokens,
            found,
            now,
            token,
            runner,
            pos,
        );
    } else {
        assert(!p.wheel.expired(token, now));
        assert(p.wheel.timers.contains_key(token));
        assert(p.wheel.after(tokens).timers.contains_key(token));
    }
}

proof fn lemma_alive(
    ps: Seq<PollerView>,
    times: Seq<nat>,
    token: Token,
    due: nat,
    runner: i8,
    pos: usize,
    at: int,
    n: int,
)
    requires
        history(ps, times),
        0 <= runner < MAX_RUNNERS,
        pos <= 0xffff_ffff,
        0 <= n < ps.len(),
        alive(ps[0], token, due, runner, pos),
        forall|i: int|
            0 < i < ps.len() ==> polls(ps[i - 1], #[trigger] ps[i], times[i]) || spares(
                ps[i - 1],
                ps[i],
                token,
                runner as int,
                pos,
            ),
        0 < at < ps.len(),
        polls(ps[at - 1], ps[at], times[at]),
        due <= times[at] / 250_000_000,
    ensures
        alive(ps[n], token, due, runner, pos),
        n >= at ==> ps[n].timedout[runner as int].contains((pos, token)),
    decreases n,
{
    if n > 0 {
        lemma_alive(ps, times, token, due, runner, pos, at, n - 1);
        assert(ps[n - 1].ok());
        assert(polls(ps[n - 1], ps[n], times[n]) || spares(
            ps[n - 1],
            ps[n],
            token,
            runner as int,
            pos,
        ));
        if polls(ps[n - 1], ps[n], times[n]) {
            lemma_poll_alive(ps[n - 1], ps[n], token, due, runner, pos, times[n]);
            if ps[n - 1].timedout[runner as int].contains((pos, token)) {
                lemma_queue_grows(ps[n - 1], ps[n], times[n], runner as int, pos, token);
            }
        }
    }
}

proof fn lemma_queue_grows(p: PollerView, q: PollerView, now: nat, r: int, pos: usize, token: Token)
    requires
        p.ok(),
        0 <= r < MAX_RUNNERS,
        polls(p, q, now),
        p.timedout[r].contains((pos, token)),
    ensures
        q.timedout[r].contains((pos, token)),
{
    let (ids, tokens, found) = choose|
        ids: Seq<u64>,
        tokens: Seq<Token>,
        found: Seq<(u64, usize, Ipv4)>,
    |
        p.wheel.all_due(tokens, now) && q == #[trigger] p.polled(ids, tokens, found, now);
    let k = choose|k: int| 0 <= k < p.timedout[r].len() && p.timedout[r][k] == (pos, token);
    assert(q.timedout[r] == p.timedout[r] + crate::poller::routed_timers(p.wheel, tokens, r));
    assert(q.timedout[r][k] == (pos, token));
}

/// A timer that was reported and that a fiber waits for is not passed over: a step of a run
/// at the stage of the timers does not end the run, and takes this timer or leaves it.
pub proof fn law_current_timer_is_not_passed_over<P, R>(
    v: RunnerView<P, R>,
    p: PollerView,
    pos: usize,
    token: Token,
    now: nat,
    after: RunnerView<P, R>,
    q: PollerView,
    stage_after: RunStage,
    action: RunAction,
)
    requires
        v.in_range(),
        p.ok(),
        v.has(pos),
        p.timedout[v.pos as int].contains((pos, token)),
        v.timer_current((pos, token)),
        v.run_step(p, RunStage::Timers, now, after, q, stage_after, action),
    ensures
        !(action is Finished),
        stage_after is Timers,
        q.timedout[v.pos as int].contains((pos, token)) || v.timer_step(
            timer_taken(v, p),
            pos,
            now,
            after,
            q,
            action,
        ),
{
    let r = v.pos as int;
    let fired = p.timedout[r];
    let k = choose|k: int| 0 <= k < fired.len() && fired[k] == (pos, token);
    crate::laws::lookups::lemma_next_timer(v, fired, 0);
    let i = v.next_timer(fired, 0);
    assert(i <= k);
    if i < k {
        assert(q.timedout[r] == fired.skip(i + 1));
        assert(q.timedout[r][k - i - 1] == (pos, token));
    } else {
        assert(fired[i] == (pos, token));
    }
}

/// The poller when the next timer that a fiber of the runner waits for has been taken from
/// the queue.
pub open spec fn timer_taken<P, R>(v: RunnerView<P, R>, p: PollerView) -> PollerView {
    p.timedout_popped(v.pos as int, v.next_timer(p.timedout[v.pos as int], 0) + 1)
}

/// A fiber that is blocked on its socket for longer than its timeout gets the error of the
/// timeout: it has begun to wait at the time `start`, with a timeout `dur`, and nothing else
/// has ended the wait; since then there was a poll when the timeout, and a tick, was over.
/// Then its timer is there for a run, the fiber waits for it, and when a run takes it the
/// fiber is entered and the wait has failed with `on_timeout`.
///
/// Between polls its timer was left alone: no other fiber can cancel it
/// ([`law_timer_is_cancelled_by_its_fiber_alone`]).
pub proof fn law_blocked_operation_times_out<P, R>(
    v: RunnerView<P, R>,
    pos: usize,
    dur: Duration,
    start: nat,
    p: PollerView,
    token: Token,
    ps: Seq<PollerView>,
    times: Seq<nat>,
    at: int,
    w: RunnerView<P, R>,
    taken: PollerView,
    now: nat,
    after: RunnerView<P, R>,
    q: PollerView,
    action: RunAction,
    on_timeout: Error,
)
    requires
        v.in_range(),
        v.has(pos),
        p.ok(),
        v.fibers[pos as int].timeout == Some(dur),
        v.fibers[pos as int].connect is None,
        v.fibers[pos as int].runnable(),
        p.wheel.tick * 250_000_000 <= start + dur@,
        p.armed_as(Some(token), v.fibers[pos as int].me, dur@, start, ps[0]),
        history(ps, times),
        forall|i: int|
            0 < i < ps.len() ==> polls(ps[i - 1], #[trigger] ps[i], times[i]) || spares(
                ps[i - 1],
                ps[i],
                token,
                v.pos as int,
                pos,
            ),
        0 < at < ps.len(),
        polls(ps[at - 1], ps[at], times[at]),
        start + dur@ + 250_000_000 <= times[at],
        w.pos == v.pos,
        w.has(pos),
        w.fibers[pos as int] == v.wait_timed(pos, Some(token)).fibers[pos as int],
        w.timer_step(taken, pos, now, after, q, action),
    ensures
        ps.last().timedout[w.pos as int].contains((pos, token)),
        w.timer_current((pos, token)),
        action == RunAction::Enter(pos),
        after.can_enter(pos),
        after.waited(pos, on_timeout) == Err::<(), Error>(on_timeout),
{
    assert(v.slot_in_range(pos as int));
    let due = ps[0].wheel.timer(token).due;
    let until = start + dur@;
    let tick = crate::wheel::tick_at(until, 250_000_000);
    assert(p.wheel.tick <= tick);
    assert(due == tick);
    assert((until + 250_000_000) / 250_000_000 == until / 250_000_000 + 1);
    assert((until + 250_000_000) / 250_000_000 <= times[at] / 250_000_000);
    assert(ps[0].wheel.armed(token));
    assert(alive(ps[0], token, due, v.pos, pos));
    lemma_alive(ps, times, token, due, v.pos, pos, at, ps.len() - 1);
}

/// A wait fails with the error of the timeout only where its timer has run: a fiber that is
/// entered otherwise goes on, and one without a timeout always does. No timer is ever taken
/// for it.
pub proof fn law_wait_without_timeout_has_no_end<P, R>(
    v: RunnerView<P, R>,
    pos: usize,
    token: Option<Token>,
    fired: Token,
    on_timeout: Error,
)
    requires
        v.has(pos),
    ensures
        v.wait_timed(pos, token).waited(pos, on_timeout) == Ok::<(), Error>(()),
        !v.wait_timed(pos, None).timer_current((pos, fired)),
        v.wait_over(pos).waited(pos, on_timeout) == Ok::<(), Error>(()),
{
}

/// How long a fiber waits is its own, and stays what it was set to: setting it changes no
/// other fiber, a new fiber has 20 seconds, and nothing that fibers or runs do changes it.
pub proof fn law_timeout_is_kept_until_it_is_set<P, R>(
    v: RunnerView<P, R>,
    pos: usize,
    other: usize,
    t: Option<Duration>,
    chunk: R,
    resp: Option<R>,
    token: Option<Token>,
    kept: Option<P>,
    p: PollerView,
    stage: RunStage,
    now: nat,
    after: RunnerView<P, R>,
    p_after: PollerView,
    stage_after: RunStage,
    action: RunAction,
)
    requires
        v.in_range(),
        p.ok(),
        v.knows(p),
        v.has(pos),
        v.has(other),
        v.run_step(p, stage, now, after, p_after, stage_after, action),
    ensures
        v.timeout_set(pos, t).fibers[pos as int].timeout == t,
        other != pos ==> v.timeout_set(pos, t).fibers[other as int] == v.fibers[other as int],
        v.fresh(true, FiberSock::Tcp, kept, None).timeout == Some(Duration { secs: 20, nanos: 0 }),
        v.entered(p, pos).fibers[other as int].timeout == v.fibers[other as int].timeout,
        v.begun(pos, kept).fibers[other as int].timeout == v.fibers[other as int].timeout,
        v.wait_timed(pos, token).fibers[other as int].timeout == v.fibers[other as int].timeout,
        v.wait_over(pos).fibers[other as int].timeout == v.fibers[other as int].timeout,
        v.chunk_given(pos, chunk).fibers[other as int].timeout == v.fibers[other as int].timeout,
        v.called_main(pos).fibers[other as int].timeout == v.fibers[other as int].timeout,
        v.resumed(pos, resp).fibers[other as int].timeout == v.fibers[other as int].timeout,
        v.sleeps(pos).fibers[other as int].timeout == v.fibers[other as int].timeout,
        v.left(pos).fibers[other as int].timeout == v.fibers[other as int].timeout,
        v.results.len() > 0 ==> v.received().fibers[other as int].timeout
            == v.fibers[other as int].timeout,
        after.fibers[other as int].timeout == v.fibers[other as int].timeout,
{
    let r = v.pos as int;
    crate::laws::lookups::lemma_next_lookup(v, p.lookups[r], 0);
    crate::laws::lookups::lemma_next_timer(v, p.timedout[r], 0);
}

} // verus!
