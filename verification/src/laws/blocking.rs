//! Fibers that wait for the main stack, for a receiver, or for what starts them.
use crate::error::Error;
use crate::poller::PollerView;
use crate::runner::run::{RunAction, RunStage};
use crate::runner::RunnerView;
use crate::slot::{ConnectView, FiberSock, FiberView, Ready};
use crate::wheel::Token;
use vstd::prelude::*;

verus! {

/// A fiber that has called the main stack, or whose intermediate result was not received, is
/// not entered, whatever else happens: no step of a run asks for it and changes nothing of
/// it, and no child wakes it. What ends the wait is that the main stack resumes it, or that
/// its result is received.
pub proof fn law_blocked_fiber_is_not_entered<P, R>(
    v: RunnerView<P, R>,
    pos: usize,
    p: PollerView,
    stage: RunStage,
    now: nat,
    after: RunnerView<P, R>,
    p_after: PollerView,
    stage_after: RunStage,
    action: RunAction,
    child: usize,
)
    requires
        v.in_range(),
        p.ok(),
        v.knows(p),
        v.has(pos),
        v.has(child),
        v.fibers[pos as int].wait is Main || v.fibers[pos as int].wait is Chunk,
        v.run_step(p, stage, now, after, p_after, stage_after, action),
    ensures
        action != RunAction::Enter(pos),
        after.fibers[pos as int] == v.fibers[pos as int],
        v.wakes(child) != Some(pos),
        child != pos ==> v.left(child).fibers[pos as int] == v.fibers[pos as int],
{
    let r = v.pos as int;
    crate::laws::lookups::lemma_next_ready(v, p.toexec[r], 0);
    crate::laws::lookups::lemma_next_lookup(v, p.lookups[r], 0);
    crate::laws::lookups::lemma_next_timer(v, p.timedout[r], 0);
    let i = v.next_lookup(p.lookups[r], 0);
    if i < p.lookups[r].len() {
        assert(v.has(p.lookups[r][i].0));
    }
    let j = v.next_timer(p.timedout[r], 0);
    if j < p.timedout[r].len() {
        assert(v.has(p.timedout[r][j].0));
    }
}

/// A fiber that was not started yet is entered by its timer alone: the step of a run that
/// asks for it takes a timer that has fired, and that timer is the one the fiber waits for.
pub proof fn law_unstarted_fiber_is_entered_by_its_timer<P, R>(
    v: RunnerView<P, R>,
    pos: usize,
    p: PollerView,
    stage: RunStage,
    now: nat,
    after: RunnerView<P, R>,
    p_after: PollerView,
    stage_after: RunStage,
    child: usize,
)
    requires
        v.in_range(),
        p.ok(),
        v.knows(p),
        v.has(pos),
        v.has(child),
        v.fibers[pos as int].wait is Start,
        v.run_step(p, stage, now, after, p_after, stage_after, RunAction::Enter(pos)),
    ensures
        v.fibers[pos as int].wtoken is Some,
        p.timedout[v.pos as int].contains((pos, v.fibers[pos as int].wtoken->0)),
        v.wakes(child) != Some(pos),
{
    let r = v.pos as int;
    let fired = p.timedout[r];
    crate::laws::lookups::lemma_next_ready(v, p.toexec[r], 0);
    crate::laws::lookups::lemma_next_timer(v, fired, 0);
    let j = v.next_timer(fired, 0);
    assert(0 <= j < fired.len());
    assert(v.timer_current(fired[j]));
    assert(fired[j] == (pos, v.fibers[pos as int].wtoken->0));
}

/// A fiber that has called the main stack waits until the main stack resumes it: when a
/// response is received, another fiber is resumed or started, or a fiber asks for results of
/// its children, this fiber still waits, and has no answer but the one it had.
pub proof fn law_call_of_main_ends_with_resume_alone<P, R>(
    v: RunnerView<P, R>,
    pos: usize,
    other: usize,
    resp: Option<R>,
    p: PollerView,
    func: bool,
    sock: FiberSock,
    param: Option<P>,
    parent: Option<usize>,
)
    requires
        v.in_range(),
        v.has(pos),
        v.has(other),
        other != pos,
        v.fibers[pos as int].wait is Main,
        !v.free.contains(pos),
        v.has_room(),
        parent matches Some(g) ==> v.has(g),
    ensures
        v.results.len() > 0 ==> v.received().fibers[pos as int] == v.fibers[pos as int],
        v.resumed(other, resp).fibers[pos as int] == v.fibers[pos as int],
        v.registered(func, sock, param, parent).fibers[pos as int].wait is Main,
        v.registered(func, sock, param, parent).fibers[pos as int].answer
            == v.fibers[pos as int].answer,
        v.child_step(p, other).runner.fibers[pos as int].wait is Main,
        v.child_step(p, other).runner.fibers[pos as int].answer == v.fibers[pos as int].answer,
{
    if v.free.len() > 0 {
        assert(v.free.contains(v.free[0]));
    }
    lemma_child_step_keeps_main(v, pos, p, other);
}

proof fn lemma_child_step_keeps_main<P, R>(
    v: RunnerView<P, R>,
    pos: usize,
    p: PollerView,
    parent: usize,
)
    requires
        v.has(pos),
        v.has(parent),
        v.fibers[pos as int].wait is Main,
    ensures
        v.child_step(p, parent).runner.fibers[pos as int].wait is Main,
        v.child_step(p, parent).runner.fibers[pos as int].answer == v.fibers[pos as int].answer,
    decreases v.fibers[parent as int].children.len(),
{
    let kids = v.fibers[parent as int].children;
    let i = v.first_ready(kids, 0);
    if 0 <= i < kids.len() && v.has(kids[i]) {
        let c = kids[i];
        let f = v.fibers[c as int];
        if f.state is Closed && f.result is None {
            lemma_child_step_keeps_main(
                v.child_emptied(c).child_freed(parent, i),
                pos,
                p,
                parent,
            );
        }
    }
}

/// The fibers that have called the main stack and were not handed out there wait for it, and
/// each is there once.
pub open spec fn calls_wait<P, R>(v: RunnerView<P, R>) -> bool {
    &&& v.tomain.no_duplicates()
    &&& forall|k: int| 0 <= k < v.tomain.len() ==> #[trigger] call_waits(v, k)
}

/// The `k`th fiber that has called the main stack is there and waits for it.
pub open spec fn call_waits<P, R>(v: RunnerView<P, R>, k: int) -> bool {
    let f = v.fibers[v.tomain[k] as int];
    v.has(v.tomain[k]) && f.wait is Main && !(f.state is Closed)
}

/// Calls stay where they are when none is made or handed out and no fiber that has made one
/// changes in what it waits for, or is done.
proof fn lemma_calls<P, R>(v: RunnerView<P, R>, w: RunnerView<P, R>)
    requires
        calls_wait(v),
        w.tomain == v.tomain,
        w.fibers.len() >= v.fibers.len(),
        forall|i: int|
            0 <= i < v.fibers.len() && v.fibers[i].wait is Main && !(v.fibers[i].state is Closed)
                && v.tomain.contains(i as usize) ==> (#[trigger] w.fibers[i]).wait is Main && !(
            w.fibers[i].state is Closed),
    ensures
        calls_wait(w),
{
    assert forall|k: int| 0 <= k < w.tomain.len() implies #[trigger] call_waits(w, k) by {
        assert(call_waits(v, k));
        assert(v.tomain.contains(v.tomain[k]));
        assert(w.fibers[v.tomain[k] as int].wait is Main);
    }
}

proof fn lemma_no_call<P, R>(v: RunnerView<P, R>, pos: usize)
    requires
        calls_wait(v),
        v.has(pos),
        !(v.fibers[pos as int].wait is Main) || v.fibers[pos as int].state is Closed,
    ensures
        !v.tomain.contains(pos),
{
    if v.tomain.contains(pos) {
        let k = choose|k: int| 0 <= k < v.tomain.len() && v.tomain[k] == pos;
        assert(call_waits(v, k));
    }
}

/// Each call of the main stack is handed out once: a fiber that makes one is put behind those
/// that wait to be handed out, and was not there. The first is the one that is handed out; it
/// waits for the main stack, and is not there again.
pub proof fn law_call_of_main_is_handed_out_once<P, R>(v: RunnerView<P, R>, pos: usize)
    requires
        calls_wait(v),
        v.has(pos),
        v.fibers[pos as int].wait is Open,
        !(v.fibers[pos as int].state is Closed),
    ensures
        !v.tomain.contains(pos),
        v.called_main(pos).tomain == v.tomain.push(pos),
        calls_wait(v.called_main(pos)),
        calls_wait(v.hibernates(pos).called_main(pos)),
        v.tomain.len() > 0 ==> {
            let rest = RunnerView { tomain: v.tomain.drop_first(), ..v };
            &&& v.fibers[v.tomain[0] as int].wait is Main
            &&& !rest.tomain.contains(v.tomain[0])
            &&& calls_wait(rest)
        },
{
    lemma_no_call(v, pos);
    lemma_calls(v, v.hibernates(pos));
    lemma_call_made(v, pos);
    lemma_call_made(v.hibernates(pos), pos);
    if v.tomain.len() > 0 {
        assert(call_waits(v, 0));
        let rest = RunnerView { tomain: v.tomain.drop_first(), ..v };
        assert forall|k: int| 0 <= k < rest.tomain.len() implies #[trigger] call_waits(rest, k) by {
            assert(call_waits(v, k + 1));
        }
        if rest.tomain.contains(v.tomain[0]) {
            let k = choose|k: int| 0 <= k < rest.tomain.len() && rest.tomain[k] == v.tomain[0];
            assert(v.tomain[k + 1] == v.tomain[0]);
        }
    }
}

proof fn lemma_call_made<P, R>(v: RunnerView<P, R>, pos: usize)
    requires
        calls_wait(v),
        v.has(pos),
        !(v.fibers[pos as int].state is Closed),
        !v.tomain.contains(pos),
    ensures
        calls_wait(v.called_main(pos)),
{
    let w = v.called_main(pos);
    let q = w.tomain;
    assert forall|i: int, j: int| 0 <= i < q.len() && 0 <= j < q.len() && i != j implies q[i]
        != q[j] by {
        if i < v.tomain.len() {
            assert(v.tomain.contains(v.tomain[i]));
        }
        if j < v.tomain.len() {
            assert(v.tomain.contains(v.tomain[j]));
        }
    }
    assert forall|k: int| 0 <= k < q.len() implies #[trigger] call_waits(w, k) by {
        if k < v.tomain.len() {
            assert(call_waits(v, k));
        }
    }
}

/// Calls of the main stack stay where they are by what else a fiber does while it runs: it
/// begins, waits, gives an intermediate result, takes an answer, hibernates or does not after
/// all, returns `result`; and when a fiber that can be entered is, one steps out or asks for a
/// result of its children, or one that was not started is dropped.
pub proof fn law_fibers_leave_calls_of_main<P, R>(
    v: RunnerView<P, R>,
    p: PollerView,
    pos: usize,
    kept: Option<P>,
    token: Option<Token>,
    chunk: R,
    result: Option<R>,
)
    requires
        calls_wait(v),
        v.in_range(),
        v.has(pos),
    ensures
        v.fibers[pos as int].wait is Open ==> {
            &&& calls_wait(v.begun(pos, kept))
            &&& calls_wait(v.wait_timed(pos, token))
            &&& calls_wait(v.wait_over(pos))
            &&& calls_wait(v.chunk_given(pos, chunk))
            &&& calls_wait(v.response_taken(pos))
            &&& calls_wait(v.sleeps(pos))
            &&& calls_wait(v.sleeps(pos).stays(pos))
            &&& calls_wait(v.returned(pos, result))
        },
        v.can_enter(pos) ==> calls_wait(v.entered(p, pos)),
        calls_wait(v.left(pos)),
        calls_wait(v.child_step(p, pos).runner),
        v.fibers[pos as int].wait is Start ==> {
            &&& calls_wait(v.dropped(pos))
            &&& calls_wait(v.lookup_failed(pos))
        },
{
    if v.fibers[pos as int].wait is Open {
        lemma_no_call(v, pos);
        lemma_calls(v, v.begun(pos, kept));
        lemma_calls(v, v.wait_timed(pos, token));
        lemma_calls(v, v.wait_over(pos));
        lemma_calls(v, v.chunk_given(pos, chunk));
        lemma_calls(v, v.response_taken(pos));
        lemma_calls(v, v.sleeps(pos));
        lemma_calls(v, v.sleeps(pos).stays(pos));
        lemma_calls(v, v.returned(pos, result));
    }
    if v.can_enter(pos) {
        lemma_calls(v, v.entered(p, pos));
    }
    lemma_calls(v, v.left(pos));
    lemma_child_step_calls(v, p, pos);
    if v.fibers[pos as int].wait is Start {
        assert(v.slot_in_range(pos as int));
        lemma_calls(v, v.dropped(pos));
        lemma_calls(v, v.lookup_failed(pos));
    }
}

proof fn lemma_child_step_calls<P, R>(v: RunnerView<P, R>, p: PollerView, parent: usize)
    requires
        calls_wait(v),
        v.in_range(),
        v.has(parent),
    ensures
        calls_wait(v.child_step(p, parent).runner),
    decreases v.fibers[parent as int].children.len(),
{
    let kids = v.fibers[parent as int].children;
    let i = v.first_ready(kids, 0);
    if 0 <= i < kids.len() && v.has(kids[i]) {
        let c = kids[i];
        let f = v.fibers[c as int];
        let empty = v.child_emptied(c);
        v.lemma_child_emptied(c);
        lemma_calls(v, empty);
        if f.state is Closed {
            let freed = empty.child_freed(parent, i);
            empty.lemma_child_freed(parent, i);
            lemma_calls(empty, freed);
            if f.result is None {
                lemma_child_step_calls(freed, p, parent);
            }
        }
    }
}

/// Calls of the main stack stay where they are when a fiber is started or its slot was taken
/// for none, when a result is received or the main stack resumes a fiber that was handed out,
/// and when a run takes a step. There are none in a new runner.
pub proof fn law_running_leaves_calls_of_main<P, R>(
    v: RunnerView<P, R>,
    func: bool,
    sock: FiberSock,
    param: Option<P>,
    parent: Option<usize>,
    pos: usize,
    resp: Option<R>,
    p: PollerView,
    stage: RunStage,
    now: nat,
    after: RunnerView<P, R>,
    p_after: PollerView,
    stage_after: RunStage,
    action: RunAction,
)
    requires
        calls_wait(v),
        crate::laws::slots::sound(v),
        v.in_range(),
        v.has_room(),
        v.has(pos),
        v.knows(p),
        parent matches Some(q) ==> v.has(q),
        v.run_step(p, stage, now, after, p_after, stage_after, action),
    ensures
        calls_wait(v.registered(func, sock, param, parent)),
        calls_wait(v.slot_taken()),
        v.results.len() > 0 ==> calls_wait(v.received()),
        !v.tomain.contains(pos) ==> calls_wait(v.resumed(pos, resp)),
        calls_wait(after),
        calls_wait(RunnerView::<P, R>::idle(v.pos)),
{
    if v.free.len() > 0 {
        assert(v.free[0] < v.fibers.len());
        assert(v.fibers[v.free[0] as int].state is Closed);
    }
    lemma_calls(v, v.registered(func, sock, param, parent));
    lemma_calls(v, v.slot_taken());
    if v.results.len() > 0 {
        lemma_calls(v, v.received());
    }
    if !v.tomain.contains(pos) {
        lemma_calls(v, v.resumed(pos, resp));
    }
    let r = v.pos as int;
    crate::laws::lookups::lemma_next_lookup(v, p.lookups[r], 0);
    crate::laws::lookups::lemma_next_timer(v, p.timedout[r], 0);
    lemma_calls(v, after);
}

/// No result gets lost: where a fiber that runs a function holds one, it is done or waits
/// until the result is received. Where a result for the main stack was given by a fiber
/// that waits for that, the fiber does wait, has no other result, and no other result of it
/// is there.
pub open spec fn results_kept<P, R>(v: RunnerView<P, R>) -> bool {
    &&& forall|i: int|
        0 <= i < v.fibers.len() && (#[trigger] v.fibers[i]).func && v.fibers[i].result is Some
            ==> v.fibers[i].wait is Chunk || v.fibers[i].state is Closed
    &&& forall|k: int| 0 <= k < v.results.len() ==> #[trigger] sender_waits(v, k)
    &&& forall|j: int, k: int|
        0 <= j < k < v.results.len() && (#[trigger] v.results[j]).1 is Some ==> v.results[j].1 != (
        #[trigger] v.results[k]).1
}

/// The fiber that has given the `k`th result, if it waits until that is received, does so.
pub open spec fn sender_waits<P, R>(v: RunnerView<P, R>, k: int) -> bool {
    v.results[k].1 matches Some(q) ==> {
        let f = v.fibers[q as int];
        &&& v.has(q)
        &&& f.func
        &&& f.wait is Chunk
        &&& f.result is None
        &&& f.parent is None
        &&& !(f.state is Closed)
    }
}

/// A result is never overwritten: a fiber that can be entered to run its function has none.
pub proof fn law_results_are_not_overwritten<P, R>(v: RunnerView<P, R>, pos: usize)
    requires
        results_kept(v),
        v.can_enter(pos),
        v.fibers[pos as int].func,
    ensures
        v.fibers[pos as int].result is None,
{
}

/// Results stay kept when a slot changes whose fiber does not wait for a receiver, before or
/// after, unless it then has a result that it waits with.
proof fn lemma_kept_with<P, R>(v: RunnerView<P, R>, pos: usize, f: FiberView<P, R>)
    requires
        results_kept(v),
        v.has(pos),
        !(v.fibers[pos as int].wait is Chunk),
        f.func && f.result is Some ==> f.wait is Chunk || f.state is Closed,
    ensures
        results_kept(v.with(pos, f)),
{
    let w = v.with(pos, f);
    assert forall|k: int| 0 <= k < w.results.len() implies #[trigger] sender_waits(w, k) by {
        assert(sender_waits(v, k));
    }
}

/// Results stay kept by what a fiber does while it runs and has no result: it gives an
/// intermediate one, calls the main stack, waits for its socket, hibernates, or returns.
pub proof fn law_running_keeps_results<P, R>(
    v: RunnerView<P, R>,
    pos: usize,
    chunk: R,
    result: Option<R>,
    token: Option<Token>,
)
    requires
        results_kept(v),
        v.has(pos),
        v.fibers[pos as int].wait is Open,
        v.fibers[pos as int].result is None,
    ensures
        results_kept(v.chunk_given(pos, chunk)),
        results_kept(v.called_main(pos)),
        results_kept(v.hibernates(pos).called_main(pos)),
        results_kept(v.sleeps(pos)),
        results_kept(v.wait_timed(pos, token)),
        results_kept(v.wait_over(pos)),
        results_kept(v.response_taken(pos)),
        results_kept(v.sleeps(pos).stays(pos)),
        results_kept(v.returned(pos, result)),
{
    lemma_kept_with(v, pos, v.chunk_given(pos, chunk).fibers[pos as int]);
    lemma_kept_with(v, pos, v.called_main(pos).fibers[pos as int]);
    let m = v.with(pos, v.called_main(pos).fibers[pos as int]);
    assert forall|k: int| 0 <= k < v.results.len() implies #[trigger] sender_waits(
        v.called_main(pos),
        k,
    ) by {
        assert(sender_waits(m, k));
    }
    lemma_kept_with(v, pos, v.hibernates(pos).fibers[pos as int]);
    let h = v.hibernates(pos);
    lemma_kept_with(h, pos, h.called_main(pos).fibers[pos as int]);
    let n = h.with(pos, h.called_main(pos).fibers[pos as int]);
    assert forall|k: int| 0 <= k < v.results.len() implies #[trigger] sender_waits(
        h.called_main(pos),
        k,
    ) by {
        assert(sender_waits(n, k));
    }
    lemma_kept_with(v, pos, v.sleeps(pos).fibers[pos as int]);
    lemma_kept_with(v, pos, v.wait_timed(pos, token).fibers[pos as int]);
    lemma_kept_with(v, pos, v.wait_over(pos).fibers[pos as int]);
    lemma_kept_with(v, pos, v.response_taken(pos).fibers[pos as int]);
    lemma_kept_with(v.sleeps(pos), pos, v.sleeps(pos).stays(pos).fibers[pos as int]);
    lemma_kept_with(v, pos, v.returned(pos, result).fibers[pos as int]);
}

/// Results stay kept when a fiber is back on the main stack: its result, if it has no
/// parent, is behind those that wait there, and if it is not done it waits for that. A fiber
/// of which a result is there does not step out again before that is received.
pub proof fn law_stepping_out_keeps_results<P, R>(v: RunnerView<P, R>, pos: usize)
    requires
        results_kept(v),
        v.has(pos),
        v.fibers[pos as int].func || v.fibers[pos as int].state is Closed,
        forall|k: int| 0 <= k < v.results.len() ==> (#[trigger] v.results[k]).1 != Some(pos),
    ensures
        results_kept(v.left(pos)),
{
    let w = v.left(pos);
    assert(v.fibers[pos as int] == v.fibers[pos as int]);
    assert forall|k: int| 0 <= k < w.results.len() implies #[trigger] sender_waits(w, k) by {
        if k < v.results.len() {
            assert(w.results[k] == v.results[k]);
            assert(sender_waits(v, k));
        }
    }
    assert forall|j: int, k: int|
        0 <= j < k < w.results.len() && (#[trigger] w.results[j]).1 is Some implies w.results[j].1
        != (#[trigger] w.results[k]).1 by {
        assert(w.results[j] == v.results[j]);
        if k < v.results.len() {
            assert(w.results[k] == v.results[k]);
        }
    }
    assert forall|i: int|
        0 <= i < w.fibers.len() && (#[trigger] w.fibers[i]).func && w.fibers[i].result is Some implies w.fibers[i].wait is Chunk
        || w.fibers[i].state is Closed by {
        assert(v.fibers[i].func);
    }
}

/// Results stay kept when the main stack receives one.
pub proof fn law_receiving_keeps_results<P, R>(v: RunnerView<P, R>)
    requires
        results_kept(v),
        v.results.len() > 0,
    ensures
        results_kept(v.received()),
{
    let w = v.received();
    assert(sender_waits(v, 0));
    assert forall|k: int| 0 <= k < w.results.len() implies #[trigger] sender_waits(w, k) by {
        assert(sender_waits(v, k + 1));
        assert(w.results[k] == v.results[k + 1]);
        assert(v.results[0].1 is Some ==> v.results[0].1 != v.results[k + 1].1);
    }
    assert forall|j: int, k: int|
        0 <= j < k < w.results.len() && (#[trigger] w.results[j]).1 is Some implies w.results[j].1
        != (#[trigger] w.results[k]).1 by {
        assert(w.results[j] == v.results[j + 1]);
        assert(w.results[k] == v.results[k + 1]);
    }
    assert forall|i: int|
        0 <= i < w.fibers.len() && (#[trigger] w.fibers[i]).func && w.fibers[i].result is Some implies w.fibers[i].wait is Chunk
        || w.fibers[i].state is Closed by {
        assert(v.fibers[i].func);
    }
}

/// Results stay kept when a fiber is entered, begins, is resumed by the main stack, or is
/// dropped before it was started, and when a run takes a step.
pub proof fn law_scheduling_keeps_results<P, R>(
    v: RunnerView<P, R>,
    pos: usize,
    kept: Option<P>,
    resp: Option<R>,
    p: PollerView,
    stage: RunStage,
    now: nat,
    after: RunnerView<P, R>,
    p_after: PollerView,
    stage_after: RunStage,
    action: RunAction,
)
    requires
        results_kept(v),
        v.in_range(),
        v.has(pos),
        v.knows(p),
        v.run_step(p, stage, now, after, p_after, stage_after, action),
    ensures
        v.can_enter(pos) ==> results_kept(v.entered(p, pos)),
        v.fibers[pos as int].wait is Open && !(v.fibers[pos as int].state is Closed)
            ==> results_kept(v.begun(pos, kept)),
        results_kept(v.resumed(pos, resp)),
        v.fibers[pos as int].wait is Start ==> results_kept(v.dropped(pos)),
        results_kept(after),
{
    let f = v.fibers[pos as int];
    if v.can_enter(pos) {
        lemma_kept_with(v, pos, v.entered(p, pos).fibers[pos as int]);
    }
    if f.wait is Open && !(f.state is Closed) {
        lemma_kept_with(v, pos, v.begun(pos, kept).fibers[pos as int]);
    }
    if f.wait is Main {
        lemma_kept_with(v, pos, v.resumed(pos, resp).fibers[pos as int]);
    }
    if f.wait is Start {
        let g = v.dropped(pos).fibers[pos as int];
        lemma_kept_with(v, pos, g);
        assert forall|k: int| 0 <= k < v.results.len() implies #[trigger] sender_waits(
            v.dropped(pos),
            k,
        ) by {
            assert(sender_waits(v.with(pos, g), k));
        }
    }
    let r = v.pos as int;
    crate::laws::lookups::lemma_next_lookup(v, p.lookups[r], 0);
    crate::laws::lookups::lemma_next_timer(v, p.timedout[r], 0);
    let i = v.next_lookup(p.lookups[r], 0);
    if !(stage is Timers) && i < p.lookups[r].len() {
        let c = p.lookups[r][i].0;
        assert(v.has(p.lookups[r][i].0));
        assert(v.fibers[c as int] == v.fibers[c as int]);
        lemma_kept_with(v, c, v.addressed(c).fibers[c as int]);
    }
    let j = v.next_timer(p.timedout[r], 0);
    if j < p.timedout[r].len() {
        let c = p.timedout[r][j].0;
        assert(v.has(p.timedout[r][j].0));
        assert(v.timer_current(p.timedout[r][j]));
        if after.fibers.len() == v.fibers.len() {
            lemma_kept_with(v, c, after.fibers[c as int]);
        }
    }
}

/// A runner without fibers keeps its results: there are none.
pub proof fn law_new_runner_keeps_results<P, R>(pos: i8)
    ensures
        results_kept(RunnerView::<P, R>::idle(pos)),
{
}

/// Results stay kept when what changes in the slots is not what was given there: where a
/// slot has another fiber, that has no result to give or waits with it, and no result of the
/// fiber before is there.
proof fn lemma_kept<P, R>(v: RunnerView<P, R>, w: RunnerView<P, R>)
    requires
        results_kept(v),
        w.results == v.results,
        w.fibers.len() >= v.fibers.len(),
        forall|i: int|
            0 <= i < w.fibers.len() ==> ((#[trigger] w.fibers[i]).func && w.fibers[i].result is Some
                ==> w.fibers[i].wait is Chunk || w.fibers[i].state is Closed),
        forall|i: int|
            0 <= i < v.fibers.len() && v.fibers[i].wait is Chunk && !(v.fibers[i].state is Closed)
                && v.fibers[i].parent is None ==> (#[trigger] w.fibers[i]).func == v.fibers[i].func
                && w.fibers[i].wait is Chunk && w.fibers[i].result == v.fibers[i].result
                && w.fibers[i].parent is None && !(w.fibers[i].state is Closed),
    ensures
        results_kept(w),
{
    assert forall|k: int| 0 <= k < w.results.len() implies #[trigger] sender_waits(w, k) by {
        assert(sender_waits(v, k));
        if let Some(q) = v.results[k].1 {
            assert(w.fibers[q as int].func == v.fibers[q as int].func);
        }
    }
    assert forall|j: int, k: int|
        0 <= j < k < w.results.len() && (#[trigger] w.results[j]).1 is Some implies w.results[j].1
        != (#[trigger] w.results[k]).1 by {
        assert(v.results[j].1 != v.results[k].1);
    }
}

/// Results stay kept when a fiber is started, and when its slot was taken and it does not
/// come to be: no fiber whose result is still to be received has had the slot.
pub proof fn law_starting_a_fiber_keeps_results<P, R>(
    v: RunnerView<P, R>,
    func: bool,
    sock: FiberSock,
    param: Option<P>,
    parent: Option<usize>,
)
    requires
        v.in_range(),
        v.has_room(),
        crate::laws::slots::sound(v),
        results_kept(v),
        parent matches Some(q) ==> v.has(q),
    ensures
        results_kept(v.registered(func, sock, param, parent)),
        results_kept(v.slot_taken()),
{
    if v.free.len() > 0 {
        assert(v.free[0] < v.fibers.len());
        assert(v.fibers[v.free[0] as int].state is Closed);
    }
    let w = v.registered(func, sock, param, parent);
    assert forall|i: int|
        0 <= i < w.fibers.len() && (#[trigger] w.fibers[i]).func && w.fibers[i].result is Some implies w.fibers[i].wait is Chunk
        || w.fibers[i].state is Closed by {
        if i != v.next_slot() {
            assert(v.fibers[i].func == w.fibers[i].func);
        }
    }
    lemma_kept(v, w);
    lemma_kept(v, v.slot_taken());
}

/// Results stay kept when a timer is started, whether there is one to be had or not. The
/// timer is that of a response or that of a fiber, which has no result yet.
pub proof fn law_starting_a_timer_keeps_results<P, R>(
    v: RunnerView<P, R>,
    p: PollerView,
    now: nat,
    func: bool,
    dur: nat,
    param: Option<P>,
    resp: Option<R>,
    slot: Option<(usize, Token)>,
    w: RunnerView<P, R>,
    q: PollerView,
)
    requires
        v.in_range(),
        v.has_room(),
        crate::laws::slots::sound(v),
        results_kept(v),
        !func || resp is None,
        crate::runner::timer_started(v, p, now, func, dur, param, resp, slot, w, q),
    ensures
        results_kept(w),
{
    law_starting_a_fiber_keeps_results(v, func, FiberSock::Empty, param, None);
    if v.free.len() > 0 {
        assert(v.free[0] < v.fibers.len());
    }
    let placed = v.registered(func, FiberSock::Empty, param, None);
    let pos = v.next_slot();
    assert(placed.fibers[pos as int] == v.fresh(func, FiberSock::Empty, param, None));
    lemma_kept_with(placed, pos, w.fibers[pos as int]);
}

/// Results stay kept when a fiber is started that waits for an address, when its lookup
/// begins, on a socket of the fiber or not, and when it could not begin.
pub proof fn law_looking_up_keeps_results<P, R>(
    v: RunnerView<P, R>,
    p: PollerView,
    now: nat,
    parent: Option<usize>,
    domain: Seq<char>,
    func: bool,
    to: nat,
    param: P,
    slot: Result<usize, Error>,
    w: RunnerView<P, R>,
    q: PollerView,
    pos: usize,
    connect: Option<ConnectView>,
    sock: FiberSock,
    ready: Ready,
)
    requires
        v.in_range(),
        v.has_room(),
        crate::laws::slots::sound(v),
        results_kept(v),
        parent matches Some(g) ==> v.has(g),
        crate::runner::resolve_started(v, p, now, parent, domain, func, to, param, slot, w, q),
        v.has(pos),
        v.fibers[pos as int].wait is Start,
    ensures
        results_kept(w),
        results_kept(v.with(pos, FiberView { connect, sock, ready, ..v.fibers[pos as int] })),
        results_kept(v.lookup_failed(pos)),
{
    if domain.len() > 0 {
        law_starting_a_fiber_keeps_results(v, func, FiberSock::Empty, Some(param), parent);
        if v.free.len() > 0 {
            assert(v.free[0] < v.fibers.len());
        }
        let placed = v.registered(func, FiberSock::Empty, Some(param), parent);
        let s = v.next_slot();
        assert(placed.fibers[s as int].wait is Start);
        assert(placed.fibers[s as int].result is None);
        lemma_kept_with(placed, s, w.fibers[s as int]);
    }
    let f = v.fibers[pos as int];
    lemma_kept_with(v, pos, FiberView { connect, sock, ready, ..f });
    assert(v.slot_in_range(pos as int));
    let o = v.orphaned(pos);
    assert forall|i: int| 0 <= i < o.fibers.len() implies (#[trigger] o.fibers[i]).func
        == v.fibers[i].func && o.fibers[i].result == v.fibers[i].result && o.fibers[i].wait
        == v.fibers[i].wait && o.fibers[i].state == v.fibers[i].state && (o.fibers[i].parent
        == v.fibers[i].parent || i == pos) && o.fibers[i].wtoken == v.fibers[i].wtoken by {}
    assert forall|i: int|
        0 <= i < o.fibers.len() && (#[trigger] o.fibers[i]).func && o.fibers[i].result is Some implies o.fibers[i].wait is Chunk
        || o.fibers[i].state is Closed by {
        assert(v.fibers[i].func == o.fibers[i].func);
    }
    lemma_kept(v, o);
    if f.wtoken is Some {
        let d = o.dropped(pos);
        lemma_kept_with(o, pos, d.fibers[pos as int]);
        lemma_kept(o.with(pos, d.fibers[pos as int]), d);
    }
}

/// Results stay kept, and calls of the main stack stay where they are, when a slot changes in
/// anything but its function, its state, its parent, its result and what its fiber waits for:
/// its timeout is set, its socket is registered, taken, connected or replaced.
pub proof fn law_other_changes_keep_results_and_calls<P, R>(
    v: RunnerView<P, R>,
    pos: usize,
    f: FiberView<P, R>,
)
    requires
        results_kept(v),
        calls_wait(v),
        v.has(pos),
        f.func == v.fibers[pos as int].func,
        f.state == v.fibers[pos as int].state,
        f.parent == v.fibers[pos as int].parent,
        f.result == v.fibers[pos as int].result,
        f.wait == v.fibers[pos as int].wait,
    ensures
        results_kept(v.with(pos, f)),
        calls_wait(v.with(pos, f)),
{
    assert(v.fibers[pos as int] == v.fibers[pos as int]);
    lemma_kept(v, v.with(pos, f));
    lemma_calls(v, v.with(pos, f));
}

/// Calls of the main stack stay where they are when a timer is started, whether there is one
/// to be had or not.
pub proof fn law_starting_a_timer_leaves_calls_of_main<P, R>(
    v: RunnerView<P, R>,
    p: PollerView,
    now: nat,
    func: bool,
    dur: nat,
    param: Option<P>,
    resp: Option<R>,
    slot: Option<(usize, Token)>,
    w: RunnerView<P, R>,
    q: PollerView,
)
    requires
        v.in_range(),
        v.has_room(),
        crate::laws::slots::sound(v),
        calls_wait(v),
        crate::runner::timer_started(v, p, now, func, dur, param, resp, slot, w, q),
    ensures
        calls_wait(w),
{
    if v.free.len() > 0 {
        assert(v.free[0] < v.fibers.len());
        assert(v.fibers[v.free[0] as int].state is Closed);
    }
    lemma_calls(v, w);
}

/// Calls of the main stack stay where they are when a fiber is started that waits for an
/// address.
pub proof fn law_looking_up_leaves_calls_of_main<P, R>(
    v: RunnerView<P, R>,
    p: PollerView,
    now: nat,
    parent: Option<usize>,
    domain: Seq<char>,
    func: bool,
    to: nat,
    param: P,
    slot: Result<usize, Error>,
    w: RunnerView<P, R>,
    q: PollerView,
)
    requires
        v.in_range(),
        v.has_room(),
        crate::laws::slots::sound(v),
        calls_wait(v),
        parent matches Some(g) ==> v.has(g),
        crate::runner::resolve_started(v, p, now, parent, domain, func, to, param, slot, w, q),
    ensures
        calls_wait(w),
{
    if v.free.len() > 0 {
        assert(v.free[0] < v.fibers.len());
        assert(v.fibers[v.free[0] as int].state is Closed);
    }
    lemma_calls(v, w);
}

/// Results stay kept when a fiber asks for one of its children: a child hands over its
/// result once, and goes on.
pub proof fn law_asking_children_keeps_results<P, R>(
    v: RunnerView<P, R>,
    p: PollerView,
    parent: usize,
)
    requires
        results_kept(v),
        crate::laws::slots::sound(v),
        v.in_range(),
        v.has(parent),
    ensures
        results_kept(v.child_step(p, parent).runner),
    decreases v.fibers[parent as int].children.len(),
{
    let kids = v.fibers[parent as int].children;
    let i = v.first_ready(kids, 0);
    if 0 <= i < kids.len() && v.has(kids[i]) {
        let c = kids[i];
        let f = v.fibers[c as int];
        let empty = v.child_emptied(c);
        assert(crate::laws::slots::child_linked(v, parent as int, i));
        assert(f.parent is Some);
        assert(results_kept(empty)) by {
            assert forall|k: int| 0 <= k < empty.results.len() implies #[trigger] sender_waits(
                empty,
                k,
            ) by {
                assert(sender_waits(v, k));
            }
            assert forall|x: int|
                0 <= x < empty.fibers.len() && (#[trigger] empty.fibers[x]).func
                    && empty.fibers[x].result is Some implies empty.fibers[x].wait is Chunk
                || empty.fibers[x].state is Closed by {
                assert(v.fibers[x].func);
            }
        }
        crate::laws::slots::law_other_changes_keep_slots_sound(v, c, empty.fibers[c as int]);
        v.lemma_child_emptied(c);
        if f.state is Closed {
            let freed = empty.child_freed(parent, i);
            empty.lemma_child_freed(parent, i);
            crate::laws::slots::lemma_child_freed_sound(empty, parent, i);
            assert(results_kept(freed)) by {
                assert forall|k: int| 0 <= k < freed.results.len() implies #[trigger] sender_waits(
                    freed,
                    k,
                ) by {
                    assert(sender_waits(empty, k));
                }
                assert forall|x: int|
                    0 <= x < freed.fibers.len() && (#[trigger] freed.fibers[x]).func
                        && freed.fibers[x].result is Some implies freed.fibers[x].wait is Chunk
                    || freed.fibers[x].state is Closed by {
                    assert(empty.fibers[x].func);
                }
            }
            if f.result is None {
                law_asking_children_keeps_results(freed, p, parent);
            }
        }
    }
}

/// A child whose intermediate result was not received hands it over when its parent gets to
/// it, and not what the main stack has answered it.
pub proof fn law_answer_of_main_is_no_result<P, R>(
    v: RunnerView<P, R>,
    pos: usize,
    resp: Option<R>,
)
    requires
        v.has(pos),
    ensures
        v.resumed(pos, resp).child_ready(pos) == v.child_ready(pos),
        v.resumed(pos, resp).fibers[pos as int].result == v.fibers[pos as int].result,
{
}

} // verus!
