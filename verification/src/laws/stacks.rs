//! Which fiber is on which stack.
use crate::poller::{PollerView, Stack, StackNeed};
use crate::runner::run::{RunAction, RunStage};
use crate::runner::RunnerView;
use crate::slot::FiberSock;
use crate::wheel::Token;
use vstd::prelude::*;

verus! {

/// The stacks that fibers are on are `used`: none of them is free, no free one counts
/// twice, and all of them exist.
pub open spec fn stacks_ok(p: PollerView, used: Set<usize>) -> bool {
    &&& p.free_stacks.no_duplicates()
    &&& forall|n: usize| #[trigger] p.free_stacks.contains(n) ==> n < p.stacks && !used.contains(n)
    &&& forall|n: usize| #[trigger] used.contains(n) ==> n < p.stacks
}

/// No two fibers are on one stack: the stack that a fiber gets is one that no fiber is on.
pub proof fn law_stack_is_given_to_one_fiber(p: PollerView, used: Set<usize>)
    requires
        stacks_ok(p, used),
        p.stacks < usize::MAX,
    ensures
        !used.contains(p.next_stack().number),
        stacks_ok(p.stack_popped(), used.insert(p.next_stack().number)),
{
    let q = p.stack_popped();
    let s = p.next_stack().number;
    if p.free_stacks.len() > 0 {
        assert(p.free_stacks[0] == s);
        assert(p.free_stacks.contains(s));
        assert forall|n: usize| #[trigger] q.free_stacks.contains(n) implies n < q.stacks
            && !used.insert(s).contains(n) by {
            let i = choose|i: int| 0 <= i < q.free_stacks.len() && q.free_stacks[i] == n;
            assert(p.free_stacks[i + 1] == n);
            assert(p.free_stacks.contains(n));
        }
    }
}

/// A stack that a fiber has left is free, and the next fiber that needs one gets it.
pub proof fn law_stack_is_reused(p: PollerView, used: Set<usize>, stack: usize)
    requires
        stacks_ok(p, used),
        used.contains(stack),
    ensures
        stacks_ok(p.stack_pushed(Some(stack)), used.remove(stack)),
        p.stack_pushed(Some(stack)).next_stack() == (Stack { number: stack, need: StackNeed::Reuse }),
{
    let q = p.stack_pushed(Some(stack));
    assert forall|n: usize| #[trigger] q.free_stacks.contains(n) implies n < q.stacks
        && !used.remove(stack).contains(n) by {
        let i = choose|i: int| 0 <= i < q.free_stacks.len() && q.free_stacks[i] == n;
        if i > 0 {
            assert(p.free_stacks[i - 1] == n);
            assert(p.free_stacks.contains(n));
        }
    }
    assert forall|i: int, j: int| 0 <= i < q.free_stacks.len() && 0 <= j < q.free_stacks.len() && i
        != j implies q.free_stacks[i] != q.free_stacks[j] by {
        if i > 0 {
            assert(p.free_stacks[i - 1] == q.free_stacks[i]);
            assert(p.free_stacks.contains(q.free_stacks[i]));
        }
        if j > 0 {
            assert(p.free_stacks[j - 1] == q.free_stacks[j]);
            assert(p.free_stacks.contains(q.free_stacks[j]));
        }
    }
}

/// The stacks that the fibers of a runner are on are among `used`, and no two of them are on
/// one.
pub open spec fn stacks_held<P, R>(v: RunnerView<P, R>, used: Set<usize>) -> bool {
    &&& forall|i: int|
        0 <= i < v.fibers.len() ==> ((#[trigger] v.fibers[i]).stack matches Some(n)
            ==> used.contains(n))
    &&& forall|i: int, j: int|
        0 <= i < j < v.fibers.len() && (#[trigger] v.fibers[i]).stack is Some ==> v.fibers[i].stack
            != (#[trigger] v.fibers[j]).stack
}

/// No fiber of one runner is on the stack of a fiber of the other.
pub open spec fn stacks_apart<P, R, Q, S>(v: RunnerView<P, R>, w: RunnerView<Q, S>) -> bool {
    forall|i: int, j: int|
        0 <= i < v.fibers.len() && 0 <= j < w.fibers.len() && (#[trigger] v.fibers[i]).stack is Some
            ==> v.fibers[i].stack != (#[trigger] w.fibers[j]).stack
}

/// No two fibers are on one stack when a fiber is entered, be they of one runner or of two:
/// where the fiber begins, the stack that it gets is one that no fiber is on.
///
/// `w` is any other runner.
pub proof fn law_entering_keeps_stacks_apart<P, R, Q, S>(
    v: RunnerView<P, R>,
    p: PollerView,
    pos: usize,
    w: RunnerView<Q, S>,
    used: Set<usize>,
)
    requires
        v.has(pos),
        p.stacks < usize::MAX,
        stacks_ok(p, used),
        stacks_held(v, used),
        stacks_held(w, used),
        stacks_apart(v, w),
    ensures
        ({
            let begins = v.entry(p, pos) is Begin;
            let used_after = if begins {
                used.insert(p.next_stack().number)
            } else {
                used
            };
            let p_after = if begins {
                p.stack_popped()
            } else {
                p
            };
            &&& stacks_ok(p_after, used_after)
            &&& stacks_held(v.entered(p, pos), used_after)
            &&& stacks_held(w, used_after)
            &&& stacks_apart(v.entered(p, pos), w)
        }),
{
    law_stack_is_given_to_one_fiber(p, used);
    let e = v.entered(p, pos);
    assert forall|i: int, j: int|
        0 <= i < j < e.fibers.len() && (#[trigger] e.fibers[i]).stack is Some implies e.fibers[i].stack
        != (#[trigger] e.fibers[j]).stack by {
        assert(v.fibers[i].stack is Some ==> v.fibers[i].stack != v.fibers[j].stack);
    }
    assert forall|i: int, j: int|
        0 <= i < e.fibers.len() && 0 <= j < w.fibers.len() && (#[trigger] e.fibers[i]).stack is Some implies e.fibers[i].stack
        != (#[trigger] w.fibers[j]).stack by {
        assert(v.fibers[i].stack is Some ==> v.fibers[i].stack != w.fibers[j].stack);
    }
}

/// No two fibers are on one stack when a fiber is back on the main stack, be they of one
/// runner or of two: a stack that the fiber has left is one that no fiber is on, and only
/// such a stack is free.
///
/// `w` is any other runner.
pub proof fn law_leaving_keeps_stacks_apart<P, R, Q, S>(
    v: RunnerView<P, R>,
    p: PollerView,
    pos: usize,
    w: RunnerView<Q, S>,
    used: Set<usize>,
)
    requires
        v.has(pos),
        stacks_ok(p, used),
        stacks_held(v, used),
        stacks_held(w, used),
        stacks_apart(v, w),
    ensures
        ({
            let used_after = match v.fibers[pos as int].stack {
                Some(n) if v.unstacks(pos) => used.remove(n),
                _ => used,
            };
            &&& stacks_ok(v.left_poller(p, pos), used_after)
            &&& stacks_held(v.left(pos), used_after)
            &&& stacks_held(w, used_after)
            &&& stacks_apart(v.left(pos), w)
        }),
{
    let e = v.left(pos);
    assert(v.fibers[pos as int].stack matches Some(n) ==> used.contains(n));
    if v.unstacks(pos) {
        if let Some(n) = v.fibers[pos as int].stack {
            law_stack_is_reused(p, used, n);
        }
    }
    assert forall|i: int| 0 <= i < e.fibers.len() && i != pos implies (
    #[trigger] e.fibers[i]).stack == v.fibers[i].stack && (v.fibers[i].stack is Some
        ==> v.fibers[i].stack != v.fibers[pos as int].stack) by {
        if i < pos {
            assert(v.fibers[i].stack is Some ==> v.fibers[i].stack != v.fibers[pos as int].stack);
        } else {
            assert(v.fibers[pos as int].stack is Some ==> v.fibers[pos as int].stack
                != v.fibers[i].stack);
        }
    }
    assert forall|i: int, j: int|
        0 <= i < j < e.fibers.len() && (#[trigger] e.fibers[i]).stack is Some implies e.fibers[i].stack
        != (#[trigger] e.fibers[j]).stack by {
        assert(v.fibers[i].stack is Some ==> v.fibers[i].stack != v.fibers[j].stack);
    }
    assert forall|j: int| 0 <= j < w.fibers.len() && (
    #[trigger] w.fibers[j]).stack is Some implies w.fibers[j].stack != v.fibers[pos as int].stack by {
        assert(v.fibers[pos as int].stack is Some ==> v.fibers[pos as int].stack
            != w.fibers[j].stack);
    }
    assert forall|i: int, j: int|
        0 <= i < e.fibers.len() && 0 <= j < w.fibers.len() && (#[trigger] e.fibers[i]).stack is Some implies e.fibers[i].stack
        != (#[trigger] w.fibers[j]).stack by {
        assert(v.fibers[i].stack is Some ==> v.fibers[i].stack != w.fibers[j].stack);
    }
}

/// Each fiber of `after` is on the stack that the fiber in its slot was on before, or on none.
pub open spec fn no_stack_gained<P, R>(v: RunnerView<P, R>, after: RunnerView<P, R>) -> bool {
    forall|i: int|
        0 <= i < after.fibers.len() ==> (#[trigger] after.fibers[i]).stack is None || (i
            < v.fibers.len() && after.fibers[i].stack == v.fibers[i].stack)
}

/// What gives no fiber a stack leaves no two fibers on one.
///
/// `w` is any other runner.
pub proof fn law_stacks_stay_apart<P, R, Q, S>(
    v: RunnerView<P, R>,
    after: RunnerView<P, R>,
    w: RunnerView<Q, S>,
    used: Set<usize>,
)
    requires
        stacks_held(v, used),
        stacks_apart(v, w),
        no_stack_gained(v, after),
    ensures
        stacks_held(after, used),
        stacks_apart(after, w),
{
    assert forall|i: int| 0 <= i < after.fibers.len() implies ((
    #[trigger] after.fibers[i]).stack matches Some(n) ==> used.contains(n)) by {
        if i < v.fibers.len() {
            assert(v.fibers[i].stack matches Some(n) ==> used.contains(n));
        }
    }
    assert forall|i: int, j: int|
        0 <= i < j < after.fibers.len() && (#[trigger] after.fibers[i]).stack is Some implies after.fibers[i].stack
        != (#[trigger] after.fibers[j]).stack by {
        if j < v.fibers.len() {
            assert(v.fibers[i].stack is Some ==> v.fibers[i].stack != v.fibers[j].stack);
        }
    }
    assert forall|i: int, j: int|
        0 <= i < after.fibers.len() && 0 <= j < w.fibers.len() && (
        #[trigger] after.fibers[i]).stack is Some implies after.fibers[i].stack != (
    #[trigger] w.fibers[j]).stack by {
        if i < v.fibers.len() {
            assert(v.fibers[i].stack is Some ==> v.fibers[i].stack != w.fibers[j].stack);
        }
    }
}

/// No fiber gets a stack when one is started or its slot was taken for none, and when one is
/// dropped or its lookup could not begin.
pub proof fn law_starting_gains_no_stack<P, R>(
    v: RunnerView<P, R>,
    func: bool,
    sock: FiberSock,
    param: Option<P>,
    parent: Option<usize>,
    pos: usize,
)
    requires
        v.in_range(),
        v.has(pos),
        v.has_room(),
        parent matches Some(q) ==> v.has(q),
    ensures
        no_stack_gained(v, v.registered(func, sock, param, parent)),
        no_stack_gained(v, v.slot_taken()),
        no_stack_gained(v, v.dropped(pos)),
        no_stack_gained(v, v.lookup_failed(pos)),
{
    if v.free.len() > 0 {
        assert(v.free[0] < v.fibers.len());
    }
    assert(v.slot_in_range(pos as int));
}

/// No fiber gets a stack by what a fiber does: it begins on the one that it has, waits, gives
/// an intermediate result, calls the main stack, hibernates or does not after all, asks for a
/// result of its children, and returns `result`.
pub proof fn law_fibers_gain_no_stack<P, R>(
    v: RunnerView<P, R>,
    p: PollerView,
    pos: usize,
    kept: Option<P>,
    token: Option<Token>,
    chunk: R,
    result: Option<R>,
)
    requires
        v.in_range(),
        v.has(pos),
    ensures
        no_stack_gained(v, v.begun(pos, kept)),
        no_stack_gained(v, v.wait_timed(pos, token)),
        no_stack_gained(v, v.wait_over(pos)),
        no_stack_gained(v, v.chunk_given(pos, chunk)),
        no_stack_gained(v, v.called_main(pos)),
        no_stack_gained(v, v.response_taken(pos)),
        no_stack_gained(v, v.hibernates(pos).called_main(pos)),
        no_stack_gained(v, v.sleeps(pos)),
        no_stack_gained(v, v.sleeps(pos).stays(pos)),
        no_stack_gained(v, v.child_step(p, pos).runner),
        no_stack_gained(v, v.returned(pos, result)),
{
    assert(no_stack_gained(v, v.child_step(p, pos).runner)) by {
        crate::laws::children::lemma_child_step_spares(v, p, pos);
    }
}

/// No fiber gets a stack when the main stack resumes one or receives a result, and when a run
/// takes a step: the fiber that is asked for gets one when it is entered.
pub proof fn law_running_gains_no_stack<P, R>(
    v: RunnerView<P, R>,
    pos: usize,
    resp: Option<R>,
    p: PollerView,
    stage: RunStage,
    now: nat,
    after: RunnerView<P, R>,
    p_after: PollerView,
    stage_after: RunStage,
    action: RunAction,
)
    requires
        v.in_range(),
        v.has(pos),
        v.knows(p),
        v.run_step(p, stage, now, after, p_after, stage_after, action),
    ensures
        no_stack_gained(v, v.resumed(pos, resp)),
        v.results.len() > 0 ==> no_stack_gained(v, v.received()),
        no_stack_gained(v, after),
{
    let r = v.pos as int;
    crate::laws::lookups::lemma_next_lookup(v, p.lookups[r], 0);
    crate::laws::lookups::lemma_next_timer(v, p.timedout[r], 0);
}

/// The fibers of a runner that has none are on no stack.
pub proof fn law_new_runner_holds_no_stacks<P, R, Q, S>(pos: i8, w: RunnerView<Q, S>, used: Set<usize>)
    ensures
        stacks_held(RunnerView::<P, R>::idle(pos), used),
        stacks_apart(RunnerView::<P, R>::idle(pos), w),
{
}

} // verus!
