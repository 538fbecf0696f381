//! Fibers and their children.
use crate::laws::slots::sound;
use crate::laws::steps::only_queued;
use crate::poller::PollerView;
use crate::runner::children::Child;
use crate::runner::run::{RunAction, RunStage};
use crate::runner::RunnerView;
use crate::slot::{FiberSock, FiberState, FiberView, FiberWait};
use crate::wheel::Token;
use vstd::prelude::*;

verus! {

/// The fiber in the slot `c` is a child of the one in the slot `parent`, and is counted there.
pub open spec fn child_of<P, R>(v: RunnerView<P, R>, c: usize, parent: usize) -> bool {
    &&& v.has(c)
    &&& v.has(parent)
    &&& v.fibers[c as int].parent == Some(parent)
    &&& v.fibers[parent as int].children.contains(c)
}

/// A fiber that joins a child has exactly one more child, behind those that it had, and goes
/// on: nothing else of it changes. The child is its child, and no other fiber changes.
pub proof fn law_joined_child_is_one_more<P, R>(
    v: RunnerView<P, R>,
    pos: usize,
    func: bool,
    sock: FiberSock,
    param: Option<P>,
)
    requires
        v.in_range(),
        v.has_room(),
        sound(v),
        v.has(pos),
        !(v.fibers[pos as int].state is Closed),
    ensures
        ({
            let w = v.registered(func, sock, param, Some(pos));
            let c = v.next_slot();
            let f = v.fibers[pos as int];
            &&& c != pos
            &&& !f.children.contains(c)
            &&& w.fibers[pos as int] == (FiberView { children: f.children.push(c), ..f })
            &&& child_of(w, c, pos)
            &&& w.results == v.results
            &&& forall|i: int|
                0 <= i < v.fibers.len() && i != pos && i != c ==> #[trigger] w.fibers[i]
                    == v.fibers[i]
        }),
{
    crate::laws::slots::law_slot_of_a_fiber_is_not_free(v, pos);
    crate::laws::slots::law_new_fiber_has_its_own_slot(v, func, sock, param, Some(pos));
    let w = v.registered(func, sock, param, Some(pos));
    let c = v.next_slot();
    let f = v.fibers[pos as int];
    if v.free.len() > 0 {
        assert(v.free[0] < v.fibers.len());
        assert(v.free.contains(v.free[0]));
    }
    if f.children.contains(c) {
        let k = choose|k: int| 0 <= k < f.children.len() && f.children[k] == c;
        assert(v.fibers[pos as int].children[k] != c);
    }
    assert(w.fibers[pos as int].children[f.children.len() as int] == c);
}

/// The results of a child go to its parent and not to the main stack: when the child is
/// back there with a result, or done, the result is where the parent finds it, and the
/// parent is entered unless it waits for something else.
pub proof fn law_child_results_go_to_the_parent<P, R>(v: RunnerView<P, R>, pos: usize, parent: usize)
    requires
        v.has(pos),
        v.fibers[pos as int].parent == Some(parent),
    ensures
        v.left(pos).results == v.results,
        v.left(pos).fibers[pos as int].result == v.fibers[pos as int].result,
        v.left(pos).free == v.free,
        v.wakes(pos) == Some(parent) <==> (v.fibers[pos as int].result is Some
            || v.fibers[pos as int].state is Closed) && v.left(pos).hears(parent, pos),
{
}

proof fn lemma_first_ready<P, R>(v: RunnerView<P, R>, kids: Seq<usize>, from: int)
    requires
        0 <= from,
    ensures
        v.first_ready(kids, from) >= from,
        v.first_ready(kids, from) < kids.len() ==> v.child_ready(kids[v.first_ready(kids, from)]),
        forall|k: int|
            from <= k < kids.len() && k < v.first_ready(kids, from) ==> !v.child_ready(
                #[trigger] kids[k],
            ),
    decreases kids.len() - from,
{
    if from < kids.len() && !v.child_ready(kids[from]) {
        lemma_first_ready(v, kids, from + 1);
    }
}

proof fn lemma_child_step<P, R>(v: RunnerView<P, R>, p: PollerView, parent: usize)
    requires
        v.in_range(),
        v.has(parent),
    ensures
        ({
            let kids = v.fibers[parent as int].children;
            let s = v.child_step(p, parent);
            let left = s.runner.fibers[parent as int].children;
            match s.got {
                Child::Finished => left.len() == 0 && s.poller == p && forall|k: int|
                    0 <= k < kids.len() ==> v.fibers[#[trigger] kids[k] as int].state is Closed
                        && v.fibers[kids[k] as int].result is None,
                Child::Wait => left.len() > 0 && s.poller == p && (forall|k: int|
                    0 <= k < left.len() ==> !s.runner.child_ready(#[trigger] left[k])) && (
                forall|k: int|
                    0 <= k < kids.len() ==> v.fibers[#[trigger] kids[k] as int].result is None),
                Child::Result(r) => exists|k: int|
                    0 <= k < kids.len() && v.fibers[#[trigger] kids[k] as int].result == Some(r),
            }
        }),
    decreases v.fibers[parent as int].children.len(),
{
    let kids = v.fibers[parent as int].children;
    let i = v.first_ready(kids, 0);
    lemma_first_ready(v, kids, 0);
    assert(v.slot_in_range(parent as int));
    if 0 <= i < kids.len() {
        let c = kids[i];
        assert(v.has(kids[i]));
        if v.fibers[c as int].state is Closed && v.fibers[c as int].result is None {
            v.lemma_child_emptied(c);
            v.child_emptied(c).lemma_child_freed(parent, i);
            let freed = v.child_emptied(c).child_freed(parent, i);
            let rest = freed.fibers[parent as int].children;
            lemma_child_step(freed, p, parent);
            assert(rest == crate::runner::children::swap_removed_front(kids, i));
            assert(forall|x: int|
                0 <= x < v.fibers.len() ==> #[trigger] freed.fibers[x].state == v.fibers[x].state
                    && freed.fibers[x].result == v.fibers[x].result);
            assert forall|k: int| 0 <= k < kids.len() && k != i implies rest[if k == 0 {
                i - 1
            } else {
                k - 1
            }] == #[trigger] kids[k] by {}
            assert forall|k: int| 0 <= k < rest.len() implies #[trigger] rest[k] == kids[if k == i
                - 1 {
                0
            } else {
                k + 1
            }] by {}
            match freed.child_step(p, parent).got {
                Child::Result(r) => {
                    let k = choose|k: int|
                        0 <= k < rest.len() && freed.fibers[#[trigger] rest[k] as int].result
                            == Some(r);
                    let j = if k == i - 1 {
                        0
                    } else {
                        k + 1
                    };
                    assert(rest[k] == kids[j]);
                    assert(v.has(kids[j]));
                    assert(v.fibers[kids[j] as int].result == Some(r));
                },
                _ => {
                    assert forall|k: int| 0 <= k < kids.len() implies v.fibers[#[trigger] kids[k] as int].result is None
                        && (freed.child_step(p, parent).got is Finished
                        ==> v.fibers[kids[k] as int].state is Closed) by {
                        assert(v.has(kids[k]));
                        if k != i {
                            let j = if k == 0 {
                                i - 1
                            } else {
                                k - 1
                            };
                            assert(rest[j] == kids[k]);
                        }
                    }
                },
            }
        }
    } else {
        assert forall|k: int| 0 <= k < kids.len() implies v.fibers[#[trigger] kids[k] as int].result is None by {
            assert(!v.child_ready(kids[k]));
        }
    }
}

/// Asking for a result of the children of a fiber changes no fiber but in its result, in what
/// it waits for, and in its children, and queues slots of the runner alone.
pub(crate) proof fn lemma_child_step_spares<P, R>(v: RunnerView<P, R>, p: PollerView, parent: usize)
    requires
        v.in_range(),
        v.has(parent),
    ensures
        ({
            let s = v.child_step(p, parent);
            &&& s.runner.pos == v.pos
            &&& s.runner.fibers.len() == v.fibers.len()
            &&& forall|i: int|
                0 <= i < v.fibers.len() ==> (#[trigger] s.runner.fibers[i]).me == v.fibers[i].me
                    && s.runner.fibers[i].wtoken == v.fibers[i].wtoken && s.runner.fibers[i].stack
                    == v.fibers[i].stack && s.runner.fibers[i].parent == v.fibers[i].parent
                    && s.runner.fibers[i].state == v.fibers[i].state && (i != parent
                    ==> s.runner.fibers[i].children == v.fibers[i].children)
            &&& s.poller == p || exists|c: usize|
                v.has(c) && s.poller == #[trigger] p.exec_pushed(v.pos as int, c)
        }),
    decreases v.fibers[parent as int].children.len(),
{
    let kids = v.fibers[parent as int].children;
    let i = v.first_ready(kids, 0);
    lemma_first_ready(v, kids, 0);
    assert(v.slot_in_range(parent as int));
    if 0 <= i < kids.len() {
        let c = kids[i];
        assert(v.has(kids[i]));
        if v.fibers[c as int].state is Closed && v.fibers[c as int].result is None {
            v.lemma_child_emptied(c);
            v.child_emptied(c).lemma_child_freed(parent, i);
            let freed = v.child_emptied(c).child_freed(parent, i);
            lemma_child_step_spares(freed, p, parent);
            let s = freed.child_step(p, parent);
            assert forall|k: int| 0 <= k < v.fibers.len() implies (
            #[trigger] s.runner.fibers[k]).me == v.fibers[k].me && s.runner.fibers[k].wtoken
                == v.fibers[k].wtoken && s.runner.fibers[k].stack == v.fibers[k].stack
                && s.runner.fibers[k].parent == v.fibers[k].parent && s.runner.fibers[k].state
                == v.fibers[k].state && (k != parent ==> s.runner.fibers[k].children
                == v.fibers[k].children) by {
                assert(freed.fibers[k].me == v.fibers[k].me);
            }
        }
    }
}

proof fn lemma_child_handed_over<P, R>(v: RunnerView<P, R>, p: PollerView, parent: usize, c: usize)
    requires
        v.in_range(),
        v.has(parent),
        v.has(c),
        v.fibers[parent as int].children.contains(c),
    ensures
        handed_over(v, p, parent, c),
    decreases v.fibers[parent as int].children.len(),
{
    let kids = v.fibers[parent as int].children;
    let i = v.first_ready(kids, 0);
    lemma_first_ready(v, kids, 0);
    assert(v.slot_in_range(parent as int));
    if 0 <= i < kids.len() {
        let d = kids[i];
        assert(v.has(kids[i]));
        let freed = v.child_emptied(d).child_freed(parent, i);
        let rest = freed.fibers[parent as int].children;
        if c != d {
            let k = choose|k: int| 0 <= k < kids.len() && kids[k] == c;
            assert(rest[if k == 0 {
                i - 1
            } else {
                k - 1
            }] == c);
        }
        v.lemma_child_emptied(d);
        v.child_emptied(d).lemma_child_freed(parent, i);
        if v.fibers[d as int].state is Closed && v.fibers[d as int].result is None && c != d {
            lemma_child_handed_over(freed, p, parent, c);
            assert(freed.fibers[c as int].result == v.fibers[c as int].result);
            assert(freed.fibers[c as int].state == v.fibers[c as int].state);
        }
    }
}

/// The fiber has something for its parent: it is done, or has a result.
pub open spec fn has_something<P, R>(f: FiberView<P, R>) -> bool {
    f.state == FiberState::Closed || f.result is Some
}

proof fn lemma_first_with_something<P, R>(v: RunnerView<P, R>, kids: Seq<usize>, from: int, k: int)
    requires
        0 <= from <= k <= kids.len(),
        forall|j: int| from <= j < k ==> !has_something(v.fibers[(#[trigger] kids[j]) as int]),
        k < kids.len() ==> has_something(v.fibers[kids[k] as int]),
    ensures
        v.first_ready(kids, from) == k,
    decreases k - from,
{
    if from < k {
        assert(!has_something(v.fibers[kids[from] as int]));
        lemma_first_with_something(v, kids, from + 1, k);
    }
}

/// A fiber that asks for a result of its children, when none of them has anything for it, gets
/// none: it waits, or learns that there is nothing to come where it has no children. Nothing
/// changes then.
pub proof fn law_parent_waits_for_its_children<P, R>(
    v: RunnerView<P, R>,
    p: PollerView,
    parent: usize,
)
    requires
        v.in_range(),
        v.has(parent),
        forall|j: int|
            0 <= j < v.fibers[parent as int].children.len() ==> !has_something(
                v.fibers[(#[trigger] v.fibers[parent as int].children[j]) as int],
            ),
    ensures
        v.child_step(p, parent).runner == v,
        v.child_step(p, parent).poller == p,
        v.fibers[parent as int].children.len() > 0 ==> v.child_step(p, parent).got is Wait,
        v.fibers[parent as int].children.len() == 0 ==> v.child_step(p, parent).got is Finished,
{
    let kids = v.fibers[parent as int].children;
    lemma_first_with_something(v, kids, 0, kids.len() as int);
}

/// A fiber that asks for a result of its children gets that of the first that has one, where
/// those before it have nothing: exactly that result, and the child has it no more. A child
/// that goes on is queued to be run, stays a child, and waits no more until its result is
/// received. One that is done is no child any more, and its slot is the last to be used again.
/// No other fiber changes.
pub proof fn law_parent_gets_the_first_result<P, R>(
    v: RunnerView<P, R>,
    p: PollerView,
    parent: usize,
    k: int,
)
    requires
        v.in_range(),
        p.ok(),
        v.has(parent),
        0 <= k < v.fibers[parent as int].children.len(),
        v.fibers[parent as int].children[k] != parent,
        v.fibers[v.fibers[parent as int].children[k] as int].result is Some,
        forall|j: int|
            0 <= j < k ==> !has_something(
                v.fibers[(#[trigger] v.fibers[parent as int].children[j]) as int],
            ),
    ensures
        ({
            let kids = v.fibers[parent as int].children;
            let c = kids[k];
            let f = v.fibers[c as int];
            let s = v.child_step(p, parent);
            let w = s.runner;
            &&& s.got == Child::Result(f.result->0)
            &&& w.pos == v.pos
            &&& w.fibers.len() == v.fibers.len()
            &&& w.tomain == v.tomain
            &&& w.results == v.results
            &&& forall|i: int|
                0 <= i < v.fibers.len() && i != c && i != parent ==> #[trigger] w.fibers[i]
                    == v.fibers[i]
            &&& w.fibers[c as int] == (FiberView {
                result: None,
                wait: if f.wait == FiberWait::Chunk {
                    FiberWait::Open
                } else {
                    f.wait
                },
                ..f
            })
            &&& f.state != FiberState::Closed ==> {
                &&& w.fibers[parent as int] == v.fibers[parent as int]
                &&& w.free == v.free
                &&& only_queued(p, s.poller, v.pos as int, c)
            }
            &&& f.state == FiberState::Closed ==> {
                &&& s.poller == p
                &&& w.free == v.free.push(c)
                &&& w.fibers[parent as int] == (FiberView {
                    children: w.fibers[parent as int].children,
                    ..v.fibers[parent as int]
                })
                &&& taken_out(kids, k, w.fibers[parent as int].children)
            }
        }),
{
    let kids = v.fibers[parent as int].children;
    assert(v.slot_in_range(parent as int));
    assert(v.has(kids[k]));
    lemma_first_with_something(v, kids, 0, k);
    if v.fibers[kids[k] as int].state is Closed {
        let left = v.child_step(p, parent).runner.fibers[parent as int].children;
        assert(left == crate::runner::children::swap_removed_front(kids, k));
    }
}

/// `left` are the children `kids` without the `k`th, in whose place the first one is.
pub open spec fn taken_out(kids: Seq<usize>, k: int, left: Seq<usize>) -> bool {
    &&& left.len() == kids.len() - 1
    &&& forall|j: int|
        0 <= j < left.len() ==> #[trigger] left[j] == (if j == k - 1 {
            kids[0]
        } else {
            kids[j + 1]
        })
}

/// A child that is done and has no result is passed over: the fiber that asks gets what it
/// gets without that child, whose slot is then the last to be used again.
///
/// `w` is the runner without the child.
pub proof fn law_child_without_a_result_is_passed_over<P, R>(
    v: RunnerView<P, R>,
    p: PollerView,
    parent: usize,
    k: int,
    w: RunnerView<P, R>,
)
    requires
        v.in_range(),
        v.has(parent),
        0 <= k < v.fibers[parent as int].children.len(),
        v.fibers[parent as int].children[k] != parent,
        v.fibers[v.fibers[parent as int].children[k] as int].state == FiberState::Closed,
        v.fibers[v.fibers[parent as int].children[k] as int].result is None,
        v.fibers[v.fibers[parent as int].children[k] as int].wait != FiberWait::Chunk,
        forall|j: int|
            0 <= j < k ==> !has_something(
                v.fibers[(#[trigger] v.fibers[parent as int].children[j]) as int],
            ),
        w.pos == v.pos,
        w.tomain == v.tomain,
        w.results == v.results,
        w.free == v.free.push(v.fibers[parent as int].children[k]),
        w.fibers.len() == v.fibers.len(),
        forall|i: int|
            0 <= i < v.fibers.len() && i != parent ==> #[trigger] w.fibers[i] == v.fibers[i],
        w.fibers[parent as int] == (FiberView {
            children: w.fibers[parent as int].children,
            ..v.fibers[parent as int]
        }),
        taken_out(
            v.fibers[parent as int].children,
            k,
            w.fibers[parent as int].children,
        ),
    ensures
        v.child_step(p, parent) == w.child_step(p, parent),
{
    let kids = v.fibers[parent as int].children;
    let c = kids[k];
    assert(v.slot_in_range(parent as int));
    assert(v.has(kids[k]));
    lemma_first_with_something(v, kids, 0, k);
    let freed = v.child_emptied(c).child_freed(parent, k);
    assert(freed.fibers[parent as int].children =~= w.fibers[parent as int].children);
    assert(freed.fibers =~= w.fibers);
    assert(freed =~= w);
}

/// What becomes of the child in the slot `c` when the fiber in the slot `parent` asks for a
/// result of its children: it stays a child and keeps what it has to give; or that is what
/// the parent gets, and it has nothing more to give, and stays a child unless it is done; or
/// it is done and had nothing to give.
pub open spec fn handed_over<P, R>(
    v: RunnerView<P, R>,
    p: PollerView,
    parent: usize,
    c: usize,
) -> bool {
    let s = v.child_step(p, parent);
    let f = v.fibers[c as int];
    let g = s.runner.fibers[c as int];
    let stays = s.runner.fibers[parent as int].children.contains(c);
    ||| stays && g.result == f.result
    ||| f.result matches Some(r) && s.got == Child::Result(r) && g.result is None && (stays
        || f.state is Closed)
    ||| f.state is Closed && f.result is None
}

/// What a child has to give is handed over once: each time the parent asks for a result of
/// its children, it gets that of this child or leaves it there. The child is the parent's
/// until it is done and has nothing more to give.
pub proof fn law_child_hands_over_each_result_once<P, R>(
    v: RunnerView<P, R>,
    p: PollerView,
    parent: usize,
    c: usize,
)
    requires
        v.in_range(),
        child_of(v, c, parent),
    ensures
        handed_over(v, p, parent, c),
        v.child_step(p, parent).runner.results == v.results,
{
    lemma_child_handed_over(v, p, parent, c);
    lemma_child_step_results(v, p, parent);
}

proof fn lemma_child_step_results<P, R>(v: RunnerView<P, R>, p: PollerView, parent: usize)
    ensures
        v.child_step(p, parent).runner.results == v.results,
    decreases v.fibers[parent as int].children.len(),
{
    let kids = v.fibers[parent as int].children;
    let i = v.first_ready(kids, 0);
    if 0 <= i < kids.len() && v.has(parent) && v.has(kids[i]) {
        let d = kids[i];
        if v.fibers[d as int].state is Closed && v.fibers[d as int].result is None {
            lemma_child_step_results(v.child_emptied(d).child_freed(parent, i), p, parent);
        }
    }
}

/// A child stays the child of its parent, as long as the parent is there, whatever any other
/// fiber does or is done with it: that it is entered, begins, waits, gives an intermediate
/// result, calls the main stack, hibernates, asks for a result of its own children, returns,
/// is back on the main stack or is dropped.
pub proof fn law_fibers_leave_children_to_their_parents<P, R>(
    v: RunnerView<P, R>,
    c: usize,
    parent: usize,
    p: PollerView,
    pos: usize,
    kept: Option<P>,
    token: Option<Token>,
    chunk: R,
    result: Option<R>,
)
    requires
        v.in_range(),
        v.has(pos),
        child_of(v, c, parent),
    ensures
        child_of(v.entered(p, pos), c, parent),
        child_of(v.begun(pos, kept), c, parent),
        child_of(v.wait_timed(pos, token), c, parent),
        child_of(v.wait_over(pos), c, parent),
        child_of(v.chunk_given(pos, chunk), c, parent),
        child_of(v.called_main(pos), c, parent),
        child_of(v.response_taken(pos), c, parent),
        child_of(v.hibernates(pos).called_main(pos), c, parent),
        child_of(v.sleeps(pos), c, parent),
        child_of(v.sleeps(pos).stays(pos), c, parent),
        pos != parent ==> child_of(v.child_step(p, pos).runner, c, parent),
        child_of(v.returned(pos, result), c, parent),
        child_of(v.left(pos), c, parent),
        child_of(v.dropped(pos), c, parent),
{
    lemma_child_step_spares(v, p, pos);
}

/// A child stays the child of its parent, as long as the parent is there, when a fiber is
/// started, when the main stack resumes one or receives a result, and when a run takes a step.
pub proof fn law_running_leaves_children_to_their_parents<P, R>(
    v: RunnerView<P, R>,
    c: usize,
    parent: usize,
    func: bool,
    sock: FiberSock,
    param: Option<P>,
    joined: Option<usize>,
    pos: usize,
    resp: Option<R>,
    p: PollerView,
    stage: RunStage,
    now: nat,
    after: RunnerView<P, R>,
    p_after: PollerView,
    stage_after: RunStage,
    action: RunAction,
)
    requires
        v.in_range(),
        v.has_room(),
        sound(v),
        child_of(v, c, parent),
        !(v.fibers[parent as int].state is Closed),
        joined matches Some(q) ==> v.has(q),
        v.has(pos),
        v.knows(p),
        v.run_step(p, stage, now, after, p_after, stage_after, action),
    ensures
        child_of(v.registered(func, sock, param, joined), c, parent),
        child_of(v.resumed(pos, resp), c, parent),
        v.results.len() > 0 ==> child_of(v.received(), c, parent),
        child_of(after, c, parent),
{
    let kids = v.fibers[parent as int].children;
    let k = choose|k: int| 0 <= k < kids.len() && kids[k] == c;
    crate::laws::slots::law_slot_of_a_fiber_is_not_free(v, parent);
    assert(crate::laws::slots::child_linked(v, parent as int, k));
    assert(!v.free.contains(c));
    if v.free.len() > 0 {
        assert(v.free[0] < v.fibers.len());
        assert(v.free.contains(v.free[0]));
    }
    let w = v.registered(func, sock, param, joined);
    assert(w.fibers[parent as int].children[k] == c);
    let r = v.pos as int;
    crate::laws::lookups::lemma_next_lookup(v, p.lookups[r], 0);
    crate::laws::lookups::lemma_next_timer(v, p.timedout[r], 0);
}

/// When a fiber learns that there is nothing more to come, all of its children were done
/// and none had a result left, and it has no children any more.
pub proof fn law_no_more_results_when_all_children_are_done<P, R>(
    v: RunnerView<P, R>,
    p: PollerView,
    parent: usize,
)
    requires
        v.in_range(),
        v.has(parent),
        v.child_step(p, parent).got is Finished,
    ensures
        v.child_step(p, parent).runner.fibers[parent as int].children.len() == 0,
        v.child_step(p, parent).poller == p,
        forall|k: int|
            0 <= k < v.fibers[parent as int].children.len()
                ==> v.fibers[#[trigger] v.fibers[parent as int].children[k] as int].state is Closed
                && v.fibers[v.fibers[parent as int].children[k] as int].result is None,
{
    lemma_child_step(v, p, parent);
}

/// A fiber waits for its children only while none of them has a result and one is not
/// done.
pub proof fn law_parent_waits_only_while_no_result_is_there<P, R>(
    v: RunnerView<P, R>,
    p: PollerView,
    parent: usize,
)
    requires
        v.in_range(),
        v.has(parent),
        v.child_step(p, parent).got is Wait,
    ensures
        forall|k: int|
            0 <= k < v.fibers[parent as int].children.len()
                ==> v.fibers[#[trigger] v.fibers[parent as int].children[k] as int].result is None,
        v.child_step(p, parent).runner.fibers[parent as int].children.len() > 0,
        ({
            let after = v.child_step(p, parent).runner;
            forall|k: int|
                0 <= k < after.fibers[parent as int].children.len() ==> !after.child_ready(
                    #[trigger] after.fibers[parent as int].children[k],
                )
        }),
{
    lemma_child_step(v, p, parent);
}

/// What a fiber gets is the result of one of its children.
pub proof fn law_result_is_that_of_a_child<P, R>(
    v: RunnerView<P, R>,
    p: PollerView,
    parent: usize,
    r: R,
)
    requires
        v.in_range(),
        v.has(parent),
        v.child_step(p, parent).got == Child::Result(r),
    ensures
        exists|k: int|
            0 <= k < v.fibers[parent as int].children.len()
                && v.fibers[#[trigger] v.fibers[parent as int].children[k] as int].result == Some(r),
{
    lemma_child_step(v, p, parent);
}

/// A child streams results to its parent: when it has given one, it keeps its stack and
/// waits. Asking for a result of its children, the parent gets it, if no other child comes
/// before, and then, not before, the child can be entered and is to be run on.
pub proof fn law_child_streams_to_its_parent<P, R>(
    v: RunnerView<P, R>,
    p: PollerView,
    pos: usize,
    parent: usize,
    i: int,
    chunk: R,
)
    requires
        v.in_range(),
        p.ok(),
        v.has(pos),
        v.has(parent),
        v.fibers[pos as int].parent == Some(parent),
        v.fibers[pos as int].state is Stacked,
        v.fibers[pos as int].stack is Some,
        0 <= i < v.fibers[parent as int].children.len(),
        v.fibers[parent as int].children[i] == pos,
        forall|k: int|
            0 <= k < i ==> !v.child_ready(#[trigger] v.fibers[parent as int].children[k])
                && v.fibers[parent as int].children[k] != pos,
    ensures
        ({
            let out = v.chunk_given(pos, chunk).left(pos);
            let s = out.child_step(p, parent);
            &&& !out.can_enter(pos)
            &&& s.runner.can_enter(pos)
            &&& out.fibers[pos as int].stack == v.fibers[pos as int].stack
            &&& out.results == v.results
            &&& s.got == Child::Result(chunk)
            &&& s.runner.fibers[pos as int].result is None
            &&& s.poller == p.exec_pushed(v.pos as int, pos)
        }),
{
    let out = v.chunk_given(pos, chunk).left(pos);
    let kids = out.fibers[parent as int].children;
    assert(kids == v.fibers[parent as int].children);
    assert(v.slot_in_range(parent as int));
    assert forall|k: int| 0 <= k < i implies !out.child_ready(#[trigger] kids[k]) by {
        assert(v.has(kids[k]));
        assert(!v.child_ready(v.fibers[parent as int].children[k]));
        assert(out.fibers[kids[k] as int] == v.fibers[kids[k] as int]);
    }
    lemma_first_ready(out, kids, 0);
    assert(out.child_ready(kids[i]));
    assert(out.first_ready(kids, 0) == i) by {
        let j = out.first_ready(kids, 0);
        if j < i {
            assert(!out.child_ready(kids[j]));
        }
        if j > i {
            assert(!out.child_ready(kids[i]));
        }
    }
}

} // verus!
