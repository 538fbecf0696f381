//! Which slots are in use.
use crate::error::Error;
use crate::poller::PollerView;
use crate::runner::run::{RunAction, RunStage};
use crate::runner::RunnerView;
use crate::slot::{FiberSock, FiberView};
use crate::wheel::Token;
use vstd::prelude::*;

verus! {

/// The `k`th child of the fiber in the slot `p` knows its parent, and its slot is in use.
pub open spec fn child_linked<P, R>(v: RunnerView<P, R>, p: int, k: int) -> bool {
    let c = v.fibers[p].children[k];
    &&& v.fibers[c as int].parent == Some(p as usize)
    &&& !v.free.contains(c)
}

/// No slot is free twice, the fiber that was in a free slot is done, and every child that a
/// fiber counts knows its parent, is counted once, and has its slot to itself.
pub open spec fn sound<P, R>(v: RunnerView<P, R>) -> bool {
    &&& v.free.no_duplicates()
    &&& forall|k: int|
        0 <= k < v.free.len() ==> v.fibers[(#[trigger] v.free[k]) as int].state is Closed
    &&& forall|p: int, k: int|
        0 <= p < v.fibers.len() && 0 <= k < v.fibers[p].children.len() ==> #[trigger] child_linked(
            v,
            p,
            k,
        )
    &&& forall|p: int|
        0 <= p < v.fibers.len() ==> (#[trigger] v.fibers[p]).children.no_duplicates()
}

/// A slot that counts as a child is counted by its parent alone.
proof fn lemma_child_of<P, R>(v: RunnerView<P, R>, p: int, k: int)
    requires
        v.in_range(),
        sound(v),
        0 <= p < v.fibers.len(),
        0 <= k < v.fibers[p].children.len(),
    ensures
        v.has(v.fibers[p].children[k]),
        v.fibers[v.fibers[p].children[k] as int].parent == Some(p as usize),
        !v.free.contains(v.fibers[p].children[k]),
{
    assert(v.slot_in_range(p));
    assert(child_linked(v, p, k));
}

/// The slot of a fiber that is there, which is one that is not done, is not free.
pub proof fn law_slot_of_a_fiber_is_not_free<P, R>(v: RunnerView<P, R>, pos: usize)
    requires
        sound(v),
        v.has(pos),
        !(v.fibers[pos as int].state is Closed),
    ensures
        !v.free.contains(pos),
{
    if v.free.contains(pos) {
        let k = choose|k: int| 0 <= k < v.free.len() && v.free[k] == pos;
        assert(v.fibers[v.free[k] as int].state is Closed);
    }
}

/// A new fiber has a slot that no other fiber uses: no fiber that is there has it, and no
/// fiber counts it as its child. Slots stay sound when it is started. Its parent, if it has
/// one, is a fiber whose slot is not free.
pub proof fn law_new_fiber_has_its_own_slot<P, R>(
    v: RunnerView<P, R>,
    func: bool,
    sock: FiberSock,
    param: Option<P>,
    parent: Option<usize>,
)
    requires
        v.in_range(),
        v.has_room(),
        sound(v),
        parent matches Some(q) ==> v.has(q) && !v.free.contains(q),
    ensures
        sound(v.registered(func, sock, param, parent)),
        !v.registered(func, sock, param, parent).free.contains(v.next_slot()),
        v.has(v.next_slot()) ==> v.fibers[v.next_slot() as int].state is Closed,
        forall|p: int, k: int|
            0 <= p < v.fibers.len() && 0 <= k < v.fibers[p].children.len()
                ==> #[trigger] v.fibers[p].children[k] != v.next_slot(),
{
    let w = v.registered(func, sock, param, parent);
    let s = v.next_slot();
    assert forall|p: int, k: int|
        0 <= p < v.fibers.len() && 0 <= k < v.fibers[p].children.len() implies #[trigger] v.fibers[p].children[k]
        != s by {
        lemma_child_of(v, p, k);
        if v.free.len() > 0 {
            assert(v.free.contains(v.free[0]));
        }
    }
    if v.free.len() > 0 {
        assert(v.free[0] < v.fibers.len());
        assert(v.free.contains(s));
    }
    assert forall|x: usize| #[trigger] w.free.contains(x) implies v.free.contains(x) && x != s by {
        let i = choose|i: int| 0 <= i < w.free.len() && w.free[i] == x;
        if v.free.len() > 0 {
            assert(w.free[i] == v.free[i + 1]);
            assert(v.free[i + 1] != v.free[0]);
        }
    }
    assert forall|p: int, k: int|
        0 <= p < w.fibers.len() && 0 <= k < w.fibers[p].children.len() implies #[trigger] child_linked(
        w,
        p,
        k,
    ) by {
        if p != s {
            if k < v.fibers[p].children.len() {
                lemma_child_of(v, p, k);
                let c = v.fibers[p].children[k];
                assert(w.fibers[p].children[k] == c);
                assert(c != s);
                assert(w.fibers[c as int].parent == v.fibers[c as int].parent);
            }
        }
    }
    assert forall|p: int| 0 <= p < w.fibers.len() implies (
    #[trigger] w.fibers[p]).children.no_duplicates() by {
        if p != s {
            assert(v.fibers[p].children.no_duplicates());
        }
    }
    assert forall|k: int| 0 <= k < w.free.len() implies w.fibers[(
    #[trigger] w.free[k]) as int].state is Closed by {
        let x = w.free[k];
        assert(w.free.contains(x));
        let i = choose|i: int| 0 <= i < v.free.len() && v.free[i] == x;
        assert(v.fibers[v.free[i] as int].state is Closed);
    }
}

/// Slots stay sound when a timer is started, whether there is one to be had or not.
pub proof fn law_starting_a_timer_keeps_slots_sound<P, R>(
    v: RunnerView<P, R>,
    p: PollerView,
    now: nat,
    func: bool,
    dur: nat,
    param: Option<P>,
    resp: Option<R>,
    slot: Option<(usize, Token)>,
    w: RunnerView<P, R>,
    q: PollerView,
)
    requires
        v.in_range(),
        v.has_room(),
        sound(v),
        crate::runner::timer_started(v, p, now, func, dur, param, resp, slot, w, q),
    ensures
        sound(w),
{
    let s = v.next_slot();
    law_new_fiber_has_its_own_slot(v, func, FiberSock::Empty, param, None);
    v.lemma_registered(func, FiberSock::Empty, param, None);
    let placed = v.registered(func, FiberSock::Empty, param, None);
    law_other_changes_keep_slots_sound(placed, s, w.fibers[s as int]);
}

/// Slots stay sound when a fiber is started that waits for an address.
pub proof fn law_looking_up_keeps_slots_sound<P, R>(
    v: RunnerView<P, R>,
    p: PollerView,
    now: nat,
    parent: Option<usize>,
    domain: Seq<char>,
    func: bool,
    to: nat,
    param: P,
    slot: Result<usize, Error>,
    w: RunnerView<P, R>,
    q: PollerView,
)
    requires
        v.in_range(),
        v.has_room(),
        sound(v),
        parent matches Some(g) ==> v.has(g) && !v.free.contains(g),
        crate::runner::resolve_started(v, p, now, parent, domain, func, to, param, slot, w, q),
    ensures
        sound(w),
{
    if domain.len() > 0 {
        let s = v.next_slot();
        law_new_fiber_has_its_own_slot(v, func, FiberSock::Empty, Some(param), parent);
        v.lemma_registered(func, FiberSock::Empty, Some(param), parent);
        let placed = v.registered(func, FiberSock::Empty, Some(param), parent);
        law_other_changes_keep_slots_sound(placed, s, w.fibers[s as int]);
    }
}

/// Slots stay sound when a fiber that is there is back on the main stack.
pub proof fn law_leaving_keeps_slots_sound<P, R>(v: RunnerView<P, R>, pos: usize)
    requires
        v.in_range(),
        sound(v),
        v.has(pos),
        !v.free.contains(pos),
    ensures
        sound(v.left(pos)),
{
    lemma_freed(v, v.left(pos), pos);
}

/// Slots stay sound when nothing is left of a fiber that is there and is nobody's child: its
/// timer was cancelled, or its lookup could not begin.
pub proof fn law_dropping_keeps_slots_sound<P, R>(v: RunnerView<P, R>, pos: usize)
    requires
        v.in_range(),
        sound(v),
        v.has(pos),
        !v.free.contains(pos),
        v.fibers[pos as int].parent is None,
    ensures
        sound(v.dropped(pos)),
{
    lemma_freed(v, v.dropped(pos), pos);
}

/// Slots stay sound when what changes is not who is whose child, and a slot that is
/// nobody's child may have become free.
proof fn lemma_freed<P, R>(v: RunnerView<P, R>, w: RunnerView<P, R>, pos: usize)
    requires
        v.in_range(),
        sound(v),
        v.has(pos),
        !v.free.contains(pos),
        w.fibers.len() == v.fibers.len(),
        w.free == v.free || w.free == v.free.push(pos) && v.fibers[pos as int].parent is None
            && w.fibers[pos as int].state is Closed,
        forall|i: int|
            0 <= i < v.fibers.len() ==> (#[trigger] w.fibers[i]).parent == v.fibers[i].parent
                && w.fibers[i].children == v.fibers[i].children && (i != pos ==> w.fibers[i].state
                == v.fibers[i].state),
    ensures
        sound(w),
{
    assert forall|x: usize| #[trigger] w.free.contains(x) implies v.free.contains(x) || (x == pos
        && v.fibers[pos as int].parent is None) by {
        let i = choose|i: int| 0 <= i < w.free.len() && w.free[i] == x;
        if i < v.free.len() {
            assert(v.free[i] == x);
        }
    }
    assert forall|p: int, k: int|
        0 <= p < w.fibers.len() && 0 <= k < w.fibers[p].children.len() implies #[trigger] child_linked(
        w,
        p,
        k,
    ) by {
        assert(w.fibers[p].children == v.fibers[p].children);
        lemma_child_of(v, p, k);
        let c = v.fibers[p].children[k];
        assert(w.fibers[c as int].parent == v.fibers[c as int].parent);
    }
    assert forall|p: int| 0 <= p < w.fibers.len() implies (
    #[trigger] w.fibers[p]).children.no_duplicates() by {
        assert(v.fibers[p].children.no_duplicates());
    }
    assert(w.free.no_duplicates()) by {
        assert forall|i: int, j: int| 0 <= i < w.free.len() && 0 <= j < w.free.len() && i
            != j implies w.free[i] != w.free[j] by {
            if i < v.free.len() {
                assert(w.free[i] == v.free[i]);
                assert(v.free.contains(v.free[i]));
            }
            if j < v.free.len() {
                assert(w.free[j] == v.free[j]);
                assert(v.free.contains(v.free[j]));
            }
        }
    }
    assert forall|k: int| 0 <= k < w.free.len() implies w.fibers[(
    #[trigger] w.free[k]) as int].state is Closed by {
        if k < v.free.len() {
            assert(w.free[k] == v.free[k]);
            assert(v.free.contains(v.free[k]));
            assert(v.fibers[v.free[k] as int].state is Closed);
        }
    }
}

/// Slots stay sound when a slot changes in anything but its parent and its children. A slot
/// that is free stays that of a fiber that is done.
pub proof fn law_other_changes_keep_slots_sound<P, R>(
    v: RunnerView<P, R>,
    pos: usize,
    f: FiberView<P, R>,
)
    requires
        v.in_range(),
        sound(v),
        v.has(pos),
        f.parent == v.fibers[pos as int].parent,
        f.children == v.fibers[pos as int].children,
        !v.free.contains(pos) || f.state is Closed,
    ensures
        sound(v.with(pos, f)),
{
    let w = v.with(pos, f);
    lemma_same_children(v, w);
}

/// Slots stay sound when no child, no parent and no free slot changes, and a slot that is
/// free stays that of a fiber that is done.
proof fn lemma_same_children<P, R>(v: RunnerView<P, R>, w: RunnerView<P, R>)
    requires
        v.in_range(),
        sound(v),
        w.fibers.len() == v.fibers.len(),
        w.free == v.free,
        forall|i: int|
            0 <= i < v.fibers.len() ==> (#[trigger] w.fibers[i]).parent == v.fibers[i].parent
                && w.fibers[i].children == v.fibers[i].children && (w.fibers[i].state
                == v.fibers[i].state || w.fibers[i].state is Closed || !v.free.contains(
                i as usize,
            )),
    ensures
        sound(w),
{
    assert forall|p: int, k: int|
        0 <= p < w.fibers.len() && 0 <= k < w.fibers[p].children.len() implies #[trigger] child_linked(
        w,
        p,
        k,
    ) by {
        assert(w.fibers[p].children == v.fibers[p].children);
        lemma_child_of(v, p, k);
        let c = v.fibers[p].children[k];
        assert(w.fibers[c as int].parent == v.fibers[c as int].parent);
    }
    assert forall|p: int| 0 <= p < w.fibers.len() implies (
    #[trigger] w.fibers[p]).children.no_duplicates() by {
        assert(v.fibers[p].children.no_duplicates());
    }
    assert forall|k: int| 0 <= k < w.free.len() implies w.fibers[(
    #[trigger] w.free[k]) as int].state is Closed by {
        let x = v.free[k];
        assert(v.free.contains(x));
        assert(v.fibers[v.free[k] as int].state is Closed);
        assert(w.fibers[x as int].parent == v.fibers[x as int].parent);
    }
}

/// Slots stay sound by all that a fiber does that is there: it is entered and begins, waits,
/// gives an intermediate result, calls the main stack, hibernates or does not after all, and
/// returns `result`.
pub proof fn law_fibers_keep_slots_sound<P, R>(
    v: RunnerView<P, R>,
    p: PollerView,
    pos: usize,
    kept: Option<P>,
    token: Option<Token>,
    chunk: R,
    result: Option<R>,
)
    requires
        v.in_range(),
        sound(v),
        v.has(pos),
        !(v.fibers[pos as int].state is Closed),
    ensures
        sound(v.entered(p, pos)),
        sound(v.begun(pos, kept)),
        sound(v.wait_timed(pos, token)),
        sound(v.wait_over(pos)),
        sound(v.chunk_given(pos, chunk)),
        sound(v.called_main(pos)),
        sound(v.response_taken(pos)),
        sound(v.hibernates(pos)),
        sound(v.hibernates(pos).called_main(pos)),
        sound(v.sleeps(pos)),
        sound(v.sleeps(pos).stays(pos)),
        sound(v.returned(pos, result)),
{
    law_slot_of_a_fiber_is_not_free(v, pos);
    lemma_same_children(v, v.entered(p, pos));
    lemma_same_children(v, v.begun(pos, kept));
    lemma_same_children(v, v.wait_timed(pos, token));
    lemma_same_children(v, v.wait_over(pos));
    lemma_same_children(v, v.chunk_given(pos, chunk));
    lemma_same_children(v, v.called_main(pos));
    lemma_same_children(v, v.response_taken(pos));
    lemma_same_children(v, v.hibernates(pos));
    lemma_same_children(v, v.hibernates(pos).called_main(pos));
    lemma_same_children(v, v.sleeps(pos));
    lemma_same_children(v, v.sleeps(pos).stays(pos));
    lemma_same_children(v, v.returned(pos, result));
}

/// Slots stay sound when the main stack resumes a fiber or receives a result, when a slot is
/// taken for a fiber that does not come to be, and when a run takes a step.
pub proof fn law_running_keeps_slots_sound<P, R>(
    v: RunnerView<P, R>,
    pos: usize,
    resp: Option<R>,
    p: PollerView,
    stage: RunStage,
    now: nat,
    after: RunnerView<P, R>,
    p_after: PollerView,
    stage_after: RunStage,
    action: RunAction,
)
    requires
        v.in_range(),
        sound(v),
        v.has(pos),
        v.knows(p),
        v.run_step(p, stage, now, after, p_after, stage_after, action),
    ensures
        sound(v.resumed(pos, resp)),
        v.results.len() > 0 ==> sound(v.received()),
        sound(v.slot_taken()),
        sound(after),
{
    lemma_same_children(v, v.resumed(pos, resp));
    if v.results.len() > 0 {
        assert(v.results[0].1 matches Some(q) ==> q < v.fibers.len());
        lemma_same_children(v, v.received());
    }
    lemma_slot_taken_sound(v);
    let r = v.pos as int;
    crate::laws::lookups::lemma_next_lookup(v, p.lookups[r], 0);
    crate::laws::lookups::lemma_next_timer(v, p.timedout[r], 0);
    lemma_same_children(v, after);
}

proof fn lemma_slot_taken_sound<P, R>(v: RunnerView<P, R>)
    requires
        v.in_range(),
        sound(v),
    ensures
        sound(v.slot_taken()),
{
    let w = v.slot_taken();
    if v.free.len() > 0 {
        assert forall|k: int| 0 <= k < w.free.len() implies #[trigger] w.free[k] == v.free[k + 1] by {}
        assert forall|x: usize| #[trigger] w.free.contains(x) implies v.free.contains(x) by {
            let k = choose|k: int| 0 <= k < w.free.len() && w.free[k] == x;
            assert(v.free[k + 1] == x);
        }
        assert forall|k: int| 0 <= k < w.free.len() implies w.fibers[(
        #[trigger] w.free[k]) as int].state is Closed by {
            assert(v.fibers[v.free[k + 1] as int].state is Closed);
        }
        assert forall|p: int, k: int|
            0 <= p < w.fibers.len() && 0 <= k < w.fibers[p].children.len() implies #[trigger] child_linked(
            w,
            p,
            k,
        ) by {
            assert(child_linked(v, p, k));
        }
    }
}

/// A runner without fibers is sound.
pub proof fn law_new_runner_has_sound_slots<P, R>(pos: i8)
    ensures
        sound(RunnerView::<P, R>::idle(pos)),
{
}

/// Slots stay sound when a child whose lookup could not begin is taken from its parent. It
/// is nobody's child then, and its parent keeps all others.
pub proof fn law_orphaning_keeps_slots_sound<P, R>(v: RunnerView<P, R>, pos: usize, parent: usize)
    requires
        v.in_range(),
        sound(v),
        v.has(pos),
        v.has(parent),
        v.fibers[pos as int].parent == Some(parent),
        parent != pos,
    ensures
        sound(v.orphaned(pos)),
        v.orphaned(pos).fibers[pos as int].parent is None,
        forall|c: usize|
            c != pos && v.fibers[parent as int].children.contains(c) ==> #[trigger] v.orphaned(
                pos,
            ).fibers[parent as int].children.contains(c),
{
    let w = v.orphaned(pos);
    let kids = v.fibers[parent as int].children;
    let left = w.fibers[parent as int].children;
    assert(left == crate::runner::without(kids, pos));
    assert(v.fibers[parent as int].children.no_duplicates());
    crate::runner::lemma_without(kids, pos);
    assert forall|p: int, k: int|
        0 <= p < w.fibers.len() && 0 <= k < w.fibers[p].children.len() implies #[trigger] child_linked(
        w,
        p,
        k,
    ) by {
        let c = w.fibers[p].children[k];
        if p == parent {
            assert(kids.contains(left[k]));
            let j = choose|j: int| 0 <= j < kids.len() && kids[j] == left[k];
            lemma_child_of(v, p, j);
            assert(left.contains(left[k]));
            assert(c != pos);
        } else {
            assert(w.fibers[p].children == v.fibers[p].children);
            lemma_child_of(v, p, k);
        }
    }
    assert forall|p: int| 0 <= p < w.fibers.len() implies (
    #[trigger] w.fibers[p]).children.no_duplicates() by {
        assert(v.fibers[p].children.no_duplicates());
    }
    assert forall|k: int| 0 <= k < w.free.len() implies w.fibers[(
    #[trigger] w.free[k]) as int].state is Closed by {
        assert(v.fibers[v.free[k] as int].state is Closed);
        assert(w.fibers[v.free[k] as int].state == v.fibers[v.free[k] as int].state);
    }
}

/// Slots stay sound when the lookup for a fiber that is there could not begin. Nobody counts
/// the fiber as its child then, and no other slot has become free.
pub proof fn law_failed_lookup_keeps_slots_sound<P, R>(v: RunnerView<P, R>, pos: usize)
    requires
        v.in_range(),
        sound(v),
        v.has(pos),
        !(v.fibers[pos as int].state is Closed),
        v.fibers[pos as int].parent != Some(pos),
    ensures
        sound(v.lookup_failed(pos)),
        v.lookup_failed(pos).fibers[pos as int].parent is None,
        v.fibers[pos as int].wtoken is Some ==> v.lookup_failed(pos).free == v.free.push(pos),
        v.fibers[pos as int].wtoken is None ==> v.lookup_failed(pos).free == v.free,
{
    law_slot_of_a_fiber_is_not_free(v, pos);
    assert(v.slot_in_range(pos as int));
    v.lemma_orphaned(pos);
    match v.fibers[pos as int].parent {
        Some(parent) => {
            law_orphaning_keeps_slots_sound(v, pos, parent);
        },
        None => {
            lemma_same_children(v, v.orphaned(pos));
        },
    }
    let w = v.orphaned(pos);
    if w.fibers[pos as int].wtoken is Some {
        law_dropping_keeps_slots_sound(w, pos);
    }
}

/// Slots stay sound when a fiber asks for a result of its children.
pub proof fn law_asking_children_keeps_slots_sound<P, R>(
    v: RunnerView<P, R>,
    p: PollerView,
    parent: usize,
)
    requires
        v.in_range(),
        sound(v),
        v.has(parent),
    ensures
        sound(v.child_step(p, parent).runner),
    decreases v.fibers[parent as int].children.len(),
{
    let kids = v.fibers[parent as int].children;
    let i = v.first_ready(kids, 0);
    if 0 <= i < kids.len() && v.has(kids[i]) {
        let c = kids[i];
        let f = v.fibers[c as int];
        let empty = v.child_emptied(c);
        law_other_changes_keep_slots_sound(v, c, empty.fibers[c as int]);
        v.lemma_child_emptied(c);
        if f.state is Closed {
            let freed = empty.child_freed(parent, i);
            empty.lemma_child_freed(parent, i);
            lemma_child_freed_sound(empty, parent, i);
            if f.result is None {
                law_asking_children_keeps_slots_sound(freed, p, parent);
            }
        }
    }
}

pub(crate) proof fn lemma_child_freed_sound<P, R>(v: RunnerView<P, R>, parent: usize, i: int)
    requires
        v.in_range(),
        sound(v),
        v.has(parent),
        0 <= i < v.fibers[parent as int].children.len(),
        v.fibers[v.fibers[parent as int].children[i] as int].state is Closed,
    ensures
        sound(v.child_freed(parent, i)),
{
    let w = v.child_freed(parent, i);
    let kids = v.fibers[parent as int].children;
    let rest = w.fibers[parent as int].children;
    let c = kids[i];
    lemma_child_of(v, parent as int, i);
    assert(kids.no_duplicates());
    assert forall|k: int| 0 <= k < rest.len() implies #[trigger] rest[k] == kids[if k == i - 1 {
        0
    } else {
        k + 1
    }] by {}
    assert forall|x: usize| #[trigger] w.free.contains(x) implies v.free.contains(x) || x == c by {
        let j = choose|j: int| 0 <= j < w.free.len() && w.free[j] == x;
        if j < v.free.len() {
            assert(v.free[j] == x);
        }
    }
    assert forall|q: int, k: int|
        0 <= q < w.fibers.len() && 0 <= k < w.fibers[q].children.len() implies #[trigger] child_linked(
        w,
        q,
        k,
    ) by {
        let j = if q != parent {
            k
        } else if k == i - 1 {
            0
        } else {
            k + 1
        };
        assert(w.fibers[q].children[k] == v.fibers[q].children[j]);
        lemma_child_of(v, q, j);
        assert(v.fibers[q].children[j] != c);
    }
    assert forall|q: int| 0 <= q < w.fibers.len() implies (
    #[trigger] w.fibers[q]).children.no_duplicates() by {
        assert(v.fibers[q].children.no_duplicates());
    }
    assert forall|a: int, b: int| 0 <= a < w.free.len() && 0 <= b < w.free.len() && a
        != b implies w.free[a] != w.free[b] by {
        if a < v.free.len() {
            assert(w.free[a] == v.free[a]);
            assert(v.free.contains(v.free[a]));
        }
        if b < v.free.len() {
            assert(w.free[b] == v.free[b]);
            assert(v.free.contains(v.free[b]));
        }
    }
    assert forall|k: int| 0 <= k < w.free.len() implies w.fibers[(
    #[trigger] w.free[k]) as int].state is Closed by {
        if k < v.free.len() {
            assert(w.free[k] == v.free[k]);
            assert(v.fibers[v.free[k] as int].state is Closed);
        }
    }
}

} // verus!
