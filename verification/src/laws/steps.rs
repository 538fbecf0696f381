//! What each step makes of a fiber and of its runner, field by field, and what it leaves
//! alone.
use crate::error::Error;
use crate::poller::PollerView;
use crate::runner::{Entry, RunnerView};
use crate::slot::{FiberSock, FiberState, FiberView, FiberWait, Ready};
use crate::wheel::Token;
use vstd::prelude::*;

verus! {

/// Nothing of the runner changes but what is in the slot `pos`.
pub open spec fn only_slot_changes<P, R>(
    v: RunnerView<P, R>,
    w: RunnerView<P, R>,
    pos: usize,
) -> bool {
    &&& only_slot_and_queues_change(v, w, pos)
    &&& w.free == v.free
    &&& w.tomain == v.tomain
    &&& w.results == v.results
}

/// Nothing of the runner changes but what is in the slot `pos` and its queues.
pub open spec fn only_slot_and_queues_change<P, R>(
    v: RunnerView<P, R>,
    w: RunnerView<P, R>,
    pos: usize,
) -> bool {
    &&& w.pos == v.pos
    &&& w.fibers.len() == v.fibers.len()
    &&& forall|i: int|
        0 <= i < v.fibers.len() && i != pos ==> #[trigger] w.fibers[i] == v.fibers[i]
}

/// The fiber is not done, and there is something to run: it has no function to call, or is on
/// a stack, or has a parameter to begin with.
pub open spec fn can_run<P, R>(f: FiberView<P, R>) -> bool {
    &&& f.state == FiberState::Stacked || f.state == FiberState::Unstacked
    &&& f.func && f.stack is None ==> f.param is Some
}

/// A fiber can be entered where it can be run and waits for its socket or for nothing that
/// only the main stack, a timer or a receiver gives; and no other can.
pub proof fn law_fiber_that_can_run_can_be_entered<P, R>(v: RunnerView<P, R>, pos: usize)
    ensures
        v.can_enter(pos) <==> pos < v.fibers.len() && can_run(v.fibers[pos as int]) && (v.fibers[
        pos as int].wait == FiberWait::Open || v.fibers[pos as int].wait == FiberWait::Socket),
        v.fibers[pos as int].runnable() <==> can_run(v.fibers[pos as int]),
{
}

/// A new fiber has the slot that is free next, or a new one behind the others, with what it
/// was started with and nothing else: it is on no stack, has no result, no timer and no
/// children, and waits 20 seconds for its socket. It is run at once if it has a socket, and
/// waits for what starts it if it has none.
pub proof fn law_new_fiber_has_what_it_was_started_with<P, R>(
    v: RunnerView<P, R>,
    func: bool,
    sock: FiberSock,
    param: Option<P>,
    parent: Option<usize>,
)
    requires
        v.in_range(),
        v.has_room(),
        parent matches Some(q) ==> v.has(q),
    ensures
        ({
            let w = v.registered(func, sock, param, parent);
            let s = v.next_slot();
            let g = w.fibers[s as int];
            let reused = v.free.len() > 0;
            &&& s == (if reused {
                v.free[0] as int
            } else {
                v.fibers.len() as int
            })
            &&& w.pos == v.pos
            &&& w.fibers.len() == (if reused {
                v.fibers.len()
            } else {
                v.fibers.len() + 1
            })
            &&& v.free == (if reused {
                seq![s] + w.free
            } else {
                w.free
            })
            &&& w.tomain == v.tomain
            &&& w.results == v.results
            &&& g.runner == v.pos
            &&& g.me == crate::ids::fiber_id_of(v.pos, s)
            &&& g.generation == (if reused {
                v.fibers[s as int].generation + 1
            } else {
                0
            })
            &&& g.param == param
            &&& g.func == func
            &&& g.sock == sock
            &&& g.parent == parent
            &&& g.state == FiberState::Unstacked
            &&& g.ready == (if sock == FiberSock::Listener {
                Ready::Readable
            } else {
                Ready::Empty
            })
            &&& g.wait == (if sock == FiberSock::Empty {
                FiberWait::Start
            } else {
                FiberWait::Open
            })
            &&& g.connect is None
            &&& g.stack is None
            &&& g.result is None
            &&& g.answer is None
            &&& g.wtoken is None
            &&& g.timed_out == 0
            &&& g.timeout matches Some(d) && d@ == 20 * 1_000_000_000
            &&& parent != Some(s) ==> g.children.len() == 0
        }),
{
    if v.free.len() > 0 {
        assert(v.free[0] < v.fibers.len());
        assert(seq![v.free[0]] + v.free.drop_first() =~= v.free);
    }
}

/// Starting a fiber changes no other, but that its parent, if it has one, counts it as its
/// last child.
pub proof fn law_new_fiber_leaves_others_alone<P, R>(
    v: RunnerView<P, R>,
    func: bool,
    sock: FiberSock,
    param: Option<P>,
    parent: Option<usize>,
    i: usize,
)
    requires
        v.in_range(),
        v.has_room(),
        parent matches Some(q) ==> v.has(q),
        v.has(i),
        i != v.next_slot(),
    ensures
        v.registered(func, sock, param, parent).fibers[i as int] == (if parent == Some(i) {
            FiberView {
                children: v.fibers[i as int].children.push(v.next_slot()),
                ..v.fibers[i as int]
            }
        } else {
            v.fibers[i as int]
        }),
{
    if v.free.len() > 0 {
        assert(v.free[0] < v.fibers.len());
    }
}

/// There is room for a fiber where a slot can be reused and its generation counted up, or
/// where none can be reused and there are fewer slots than an id has numbers for.
pub proof fn law_room_is_refused_at_the_limits_alone<P, R>(v: RunnerView<P, R>)
    ensures
        v.free.len() > 0 ==> (v.has_room() <==> v.fibers[v.free[0] as int].generation
            < usize::MAX),
        v.free.len() == 0 ==> (v.has_room() <==> v.fibers.len() < 0x1_0000_0000
            && v.fibers.len() < usize::MAX),
{
}

/// A fiber that is entered goes on on its stack where it has one, begins on the stack that is
/// used next where it has none, and is done where it has no function. It waits for nothing
/// then, and nothing else of it changes.
pub proof fn law_fiber_is_entered_where_it_left_off<P, R>(
    v: RunnerView<P, R>,
    p: PollerView,
    pos: usize,
)
    requires
        v.has(pos),
    ensures
        ({
            let f = v.fibers[pos as int];
            let w = v.entered(p, pos);
            let g = w.fibers[pos as int];
            &&& only_slot_changes(v, w, pos)
            &&& !f.func ==> v.entry(p, pos) == Entry::Ended && g == (FiberView {
                wait: FiberWait::Open,
                state: FiberState::Closed,
                ..f
            })
            &&& f.func && f.stack is Some ==> v.entry(p, pos) == Entry::Resume && g == (FiberView {
                wait: FiberWait::Open,
                ..f
            })
            &&& f.func && f.stack is None ==> v.entry(p, pos) == Entry::Begin(p.next_stack()) && g
                == (FiberView {
                wait: FiberWait::Open,
                stack: Some(p.next_stack().number),
                ..f
            })
        }),
{
}

/// A fiber that begins is on its stack, and its slot keeps `kept`; one whose function has
/// returned is done, with the result that was returned and without a parameter.
pub proof fn law_function_begins_and_returns<P, R>(
    v: RunnerView<P, R>,
    pos: usize,
    kept: Option<P>,
    result: Option<R>,
)
    requires
        v.has(pos),
    ensures
        only_slot_changes(v, v.begun(pos, kept), pos),
        v.begun(pos, kept).fibers[pos as int] == (FiberView {
            state: FiberState::Stacked,
            param: kept,
            ..v.fibers[pos as int]
        }),
        only_slot_changes(v, v.returned(pos, result), pos),
        v.returned(pos, result).fibers[pos as int] == (FiberView {
            state: FiberState::Closed,
            result,
            param: None,
            ..v.fibers[pos as int]
        }),
{
}

/// A fiber that is back on the main stack leaves its stack unless it is to stay on it, and its
/// socket when it is done. With a parent it keeps its result, for the parent. Without one its
/// result is the last for the main stack, with the fiber if that goes on, and the slot of a
/// fiber that is done is the last to be used again. Nothing else changes.
pub proof fn law_fiber_leaves_what_it_has_for_others<P, R>(
    v: RunnerView<P, R>,
    p: PollerView,
    pos: usize,
)
    requires
        v.has(pos),
    ensures
        ({
            let f = v.fibers[pos as int];
            let w = v.left(pos);
            let g = w.fibers[pos as int];
            let done = f.state == FiberState::Closed;
            let stays = f.state == FiberState::Stacked;
            let q = v.left_poller(p, pos);
            &&& only_slot_and_queues_change(v, w, pos)
            &&& w.tomain == v.tomain
            &&& g == (FiberView { stack: g.stack, sock: g.sock, result: g.result, ..f })
            &&& g.stack == (if stays {
                f.stack
            } else {
                None
            })
            &&& g.sock == (if done {
                FiberSock::Empty
            } else {
                f.sock
            })
            &&& f.parent is Some ==> g.result == f.result && w.results == v.results && w.free
                == v.free
            &&& f.parent is None ==> {
                &&& g.result is None
                &&& w.free == (if done {
                    v.free.push(pos)
                } else {
                    v.free
                })
                &&& f.result is None ==> w.results == v.results
                &&& f.result matches Some(r) ==> w.results == v.results.push(
                    (
                        r,
                        if done {
                            None
                        } else {
                            Some(pos)
                        },
                    ),
                )
            }
            &&& f.stack is None || stays ==> q == p
            &&& f.stack is Some && !stays ==> q == (PollerView {
                free_stacks: seq![f.stack->0] + p.free_stacks,
                ..p
            })
        }),
{
}

/// When a child is done, or has a result, its parent is entered as soon as the child is back
/// on the main stack, however many children the parent has: if it counts the child, can be
/// run, waits for nothing else and has no lookup under way. Nobody else is entered then, and
/// not where the child has nothing for its parent.
pub proof fn law_child_wakes_its_parent<P, R>(v: RunnerView<P, R>, c: usize, parent: usize)
    requires
        v.has(c),
        v.has(parent),
        c != parent,
        v.fibers[c as int].parent == Some(parent),
    ensures
        v.wakes(c) == Some(parent) <==> {
            &&& v.fibers[c as int].state == FiberState::Closed || v.fibers[c as int].result is Some
            &&& v.fibers[parent as int].children.contains(c)
            &&& can_run(v.fibers[parent as int])
            &&& v.fibers[parent as int].wait == FiberWait::Open
            &&& v.fibers[parent as int].connect is None
        },
        v.wakes(c) is Some ==> v.wakes(c) == Some(parent),
{
}

/// A fiber without a parent wakes no other.
pub proof fn law_fiber_without_a_parent_wakes_nobody<P, R>(v: RunnerView<P, R>, pos: usize)
    requires
        v.has(pos),
        v.fibers[pos as int].parent is None,
    ensures
        v.wakes(pos) is None,
{
}

/// The main stack receives the results in the order in which they were given, each once. The
/// fiber that has waited for that goes on, and no other fiber changes.
pub proof fn law_results_are_received_in_order<P, R>(v: RunnerView<P, R>, p: PollerView)
    requires
        v.in_range(),
        p.ok(),
        v.results.len() > 0,
    ensures
        ({
            let w = v.received();
            let q = v.received_poller(p);
            let r = v.pos as int;
            &&& v.results == seq![v.results[0]] + w.results
            &&& w.free == v.free
            &&& w.tomain == v.tomain
            &&& match v.results[0].1 {
                Some(pos) if v.fibers[pos as int].wait == FiberWait::Chunk => {
                    &&& only_slot_and_queues_change(v, w, pos)
                    &&& w.fibers[pos as int] == (FiberView {
                        wait: FiberWait::Open,
                        ..v.fibers[pos as int]
                    })
                    &&& only_queued(p, q, r, pos)
                },
                _ => w.pos == v.pos && w.fibers == v.fibers && q == p,
            }
        }),
{
    assert(v.results[0].1 matches Some(q) ==> q < v.fibers.len());
    assert(seq![v.results[0]] + v.results.drop_first() =~= v.results);
}

/// The slot `pos` of runner `r` is the last to be run, and nothing else of the poller has
/// changed.
pub open spec fn only_queued(p: PollerView, q: PollerView, r: int, pos: usize) -> bool {
    &&& q.toexec.len() == p.toexec.len()
    &&& q.toexec[r] == p.toexec[r].push(pos)
    &&& forall|i: int| 0 <= i < p.toexec.len() && i != r ==> #[trigger] q.toexec[i] == p.toexec[i]
    &&& q == (PollerView { toexec: q.toexec, ..p })
}

/// A fiber that calls the main stack is the last to be handed out there, waits for it, and has
/// no answer yet. When the main stack resumes it with `resp`, it waits no more, is to be run,
/// and has that answer if it has kept its stack. A fiber that does not wait for the main stack
/// is not resumed. An answer that was taken is gone.
pub proof fn law_main_is_called_and_answers<P, R>(
    v: RunnerView<P, R>,
    p: PollerView,
    pos: usize,
    resp: Option<R>,
)
    requires
        v.in_range(),
        p.ok(),
        v.has(pos),
    ensures
        only_slot_and_queues_change(v, v.called_main(pos), pos),
        v.called_main(pos).free == v.free,
        v.called_main(pos).results == v.results,
        v.called_main(pos).tomain == v.tomain.push(pos),
        v.called_main(pos).fibers[pos as int] == (FiberView {
            wait: FiberWait::Main,
            answer: None,
            ..v.fibers[pos as int]
        }),
        v.fibers[pos as int].wait == FiberWait::Main ==> {
            &&& only_slot_changes(v, v.resumed(pos, resp), pos)
            &&& v.resumed(pos, resp).fibers[pos as int] == (FiberView {
                wait: FiberWait::Open,
                answer: if v.fibers[pos as int].state == FiberState::Unstacked {
                    None
                } else {
                    resp
                },
                ..v.fibers[pos as int]
            })
            &&& only_queued(p, v.resumed_poller(p, pos), v.pos as int, pos)
        },
        v.fibers[pos as int].wait != FiberWait::Main ==> v.resumed(pos, resp) == v
            && v.resumed_poller(p, pos) == p,
        only_slot_changes(v, v.response_taken(pos), pos),
        v.response_taken(pos).fibers[pos as int] == (FiberView {
            answer: None,
            ..v.fibers[pos as int]
        }),
{
}

/// A fiber that gives an intermediate result has that result, and waits until it is received.
/// Nothing else changes.
pub proof fn law_intermediate_result_is_what_was_given<P, R>(
    v: RunnerView<P, R>,
    pos: usize,
    chunk: R,
)
    requires
        v.has(pos),
    ensures
        only_slot_changes(v, v.chunk_given(pos, chunk), pos),
        v.chunk_given(pos, chunk).fibers[pos as int] == (FiberView {
            result: Some(chunk),
            wait: FiberWait::Chunk,
            ..v.fibers[pos as int]
        }),
{
}

/// Of a fiber that is dropped nothing is left: it is done, without a timer, a result and a
/// parameter, and its slot is the last to be used again.
pub proof fn law_dropped_fiber_leaves_its_slot<P, R>(v: RunnerView<P, R>, pos: usize)
    requires
        v.has(pos),
    ensures
        only_slot_and_queues_change(v, v.dropped(pos), pos),
        v.dropped(pos).free == v.free.push(pos),
        v.dropped(pos).tomain == v.tomain,
        v.dropped(pos).results == v.results,
        v.dropped(pos).fibers[pos as int] == (FiberView {
            state: FiberState::Closed,
            wtoken: None,
            result: None,
            param: None,
            ..v.fibers[pos as int]
        }),
{
}

/// A fiber whose lookup could not begin has no parameter and no parent. Its parent counts it no
/// more, and keeps its other children in their order. Where it has a timer it is dropped as any
/// other, and else its slot is not used again. No other fiber changes.
pub proof fn law_failed_lookup_leaves_its_parent<P, R>(v: RunnerView<P, R>, pos: usize)
    requires
        v.in_range(),
        v.has(pos),
        v.fibers[pos as int].parent != Some(pos),
    ensures
        ({
            let f = v.fibers[pos as int];
            let w = v.lookup_failed(pos);
            let timed = f.wtoken is Some;
            &&& w.pos == v.pos
            &&& w.fibers.len() == v.fibers.len()
            &&& w.tomain == v.tomain
            &&& w.results == v.results
            &&& w.free == (if timed {
                v.free.push(pos)
            } else {
                v.free
            })
            &&& timed ==> w.fibers[pos as int] == (FiberView {
                param: None,
                parent: None,
                state: FiberState::Closed,
                wtoken: None,
                result: None,
                ..f
            })
            &&& !timed ==> w.fibers[pos as int] == (FiberView { param: None, parent: None, ..f })
            &&& forall|i: int|
                0 <= i < v.fibers.len() && i != pos && f.parent != Some(i as usize)
                    ==> #[trigger] w.fibers[i] == v.fibers[i]
            &&& f.parent matches Some(q) ==> w.fibers[q as int] == (FiberView {
                children: w.fibers[q as int].children,
                ..v.fibers[q as int]
            })
        }),
{
    assert(v.slot_in_range(pos as int));
}

/// The children of a parent, of whom the `k`th is one whose lookup could not begin, are the
/// others in their order.
pub proof fn law_failed_lookup_takes_one_child<P, R>(
    v: RunnerView<P, R>,
    pos: usize,
    parent: usize,
    k: int,
)
    requires
        v.in_range(),
        v.has(pos),
        v.has(parent),
        parent != pos,
        v.fibers[pos as int].parent == Some(parent),
        0 <= k < v.fibers[parent as int].children.len(),
        v.fibers[parent as int].children[k] == pos,
        forall|j: int| 0 <= j < k ==> #[trigger] v.fibers[parent as int].children[j] != pos,
    ensures
        v.lookup_failed(pos).fibers[parent as int].children == v.fibers[parent as int].children.remove(
            k,
        ),
{
    lemma_place(v.fibers[parent as int].children, pos, 0, k);
}

proof fn lemma_place(q: Seq<usize>, x: usize, from: int, k: int)
    requires
        0 <= from <= k < q.len(),
        q[k] == x,
        forall|j: int| from <= j < k ==> #[trigger] q[j] != x,
    ensures
        crate::runner::place_of(q, x, from) == k,
    decreases k - from,
{
    if from < k {
        assert(q[from] != x);
        lemma_place(q, x, from + 1, k);
    }
}

/// A slot that is taken for a fiber that does not come to be is the one that is free next, and
/// nothing else changes.
pub proof fn law_taken_slot_is_the_first_free_one<P, R>(v: RunnerView<P, R>)
    ensures
        v.free.len() > 0 ==> v.slot_taken() == (RunnerView {
            free: v.free.subrange(1, v.free.len() as int),
            ..v
        }),
        v.free.len() == 0 ==> v.slot_taken() == v,
{
    if v.free.len() > 0 {
        assert(v.free.drop_first() =~= v.free.subrange(1, v.free.len() as int));
    }
}

/// A fiber is started in the next slot, and queued to be run at once if it has a socket. Where
/// its listening socket could not be registered it is not, which is an error of the system.
pub proof fn law_fiber_with_a_socket_is_queued<P, R>(
    v: RunnerView<P, R>,
    p: PollerView,
    func: bool,
    sock: FiberSock,
    param: Option<P>,
    parent: Option<usize>,
    registered: bool,
    slot: Result<usize, Error>,
    w: RunnerView<P, R>,
    q: PollerView,
)
    requires
        v.in_range(),
        p.ok(),
        crate::runner::started(v, p, func, sock, param, parent, registered, slot, w, q),
    ensures
        sock == FiberSock::Listener && !registered ==> slot == Err::<usize, Error>(Error::System)
            && w == v.slot_taken() && q == p,
        sock != FiberSock::Listener || registered ==> {
            &&& slot == Ok::<usize, Error>(v.next_slot())
            &&& w == v.registered(func, sock, param, parent)
            &&& sock == FiberSock::Empty ==> q == p
            &&& sock != FiberSock::Empty ==> only_queued(p, q, v.pos as int, v.next_slot())
        },
{
}

/// A timer is started in the next slot, for a fiber without a socket that waits for it, with
/// the response, the parameter and the function that were given. It is armed for that fiber
/// and for the time that was asked for. Where there is no timer to be had the fiber has none.
pub proof fn law_timer_is_started_as_asked<P, R>(
    v: RunnerView<P, R>,
    p: PollerView,
    now: nat,
    func: bool,
    dur: nat,
    param: Option<P>,
    resp: Option<R>,
    slot: Option<(usize, Token)>,
    w: RunnerView<P, R>,
    q: PollerView,
)
    requires
        v.in_range(),
        v.has_room(),
        p.ok(),
        crate::runner::timer_started(v, p, now, func, dur, param, resp, slot, w, q),
    ensures
        ({
            let s = v.next_slot();
            let g = w.fibers[s as int];
            let placed = v.registered(func, FiberSock::Empty, param, None);
            &&& only_slot_changes(placed, w, s)
            &&& g == (FiberView { result: resp, wtoken: g.wtoken, ..placed.fibers[s as int] })
            &&& match slot {
                Some((pos, token)) => {
                    &&& pos == s
                    &&& g.wtoken == Some(token)
                    &&& p.armed_as(
                        Some(token),
                        crate::ids::fiber_id_of(v.pos, s),
                        dur,
                        now,
                        q,
                    )
                },
                None => {
                    &&& g.wtoken is None
                    &&& q == p
                    &&& p.wheel.timers.dom().len() >= 4_194_304 || p.wheel.serial == u64::MAX
                },
            }
        }),
{
    if v.free.len() > 0 {
        assert(v.free[0] < v.fibers.len());
    }
}

/// A fiber that waits for an address is started in the next slot, with a timer for the next
/// tick, which is 250 milliseconds away, and as many ticks as its lookup may take. An empty
/// domain is refused, and nothing changes.
pub proof fn law_lookup_is_started_as_asked<P, R>(
    v: RunnerView<P, R>,
    p: PollerView,
    now: nat,
    parent: Option<usize>,
    domain: Seq<char>,
    func: bool,
    to: nat,
    param: P,
    slot: Result<usize, Error>,
    w: RunnerView<P, R>,
    q: PollerView,
)
    requires
        v.in_range(),
        v.has_room(),
        parent matches Some(g) ==> v.has(g),
        crate::runner::resolve_started(v, p, now, parent, domain, func, to, param, slot, w, q),
    ensures
        domain.len() == 0 ==> slot == Err::<usize, Error>(Error::EmptyDomain) && w == v && q == p,
        domain.len() > 0 ==> {
            let s = v.next_slot();
            let g = w.fibers[s as int];
            let placed = v.registered(func, FiberSock::Empty, Some(param), parent);
            &&& slot == Ok::<usize, Error>(s)
            &&& only_slot_changes(placed, w, s)
            &&& g == (FiberView {
                wtoken: g.wtoken,
                timed_out: crate::runner::lookup_ticks(to),
                ..placed.fibers[s as int]
            })
            &&& p.armed_as(
                g.wtoken,
                crate::ids::fiber_id_of(v.pos, s),
                250 * 1_000_000,
                now,
                q,
            )
        },
{
    if v.free.len() > 0 {
        assert(v.free[0] < v.fibers.len());
    }
}

/// A runner gets the lowest number that no other has, and there is none to be had exactly where
/// every number is taken. It has no fibers at first, and nothing is queued in it.
pub proof fn law_runner_gets_the_lowest_number<P, R>(table: Seq<bool>, pos: int, other: int, n: i8)
    requires
        0 <= other < table.len(),
        !table[other],
    ensures
        !crate::runner::table::all_taken(table),
        crate::runner::table::first_free(table, pos) ==> 0 <= pos <= other && !table[pos],
        ({
            let v = RunnerView::<P, R>::idle(n);
            v.pos == n && v.fibers.len() == 0 && v.free.len() == 0 && v.tomain.len() == 0
                && v.results.len() == 0
        }),
{
    if crate::runner::table::first_free(table, pos) && other < pos {
        assert(table[other]);
    }
    if crate::runner::table::all_taken(table) {
        assert(table[other]);
    }
}

/// There is something for the main stack where a fiber has called it or a result is there.
pub proof fn law_runner_signals_what_is_there<P, R>(v: RunnerView<P, R>)
    ensures
        v.signaled() <==> v.tomain.len() > 0 || v.results.len() > 0,
{
}

/// A listening socket is registered for reads, under the id of the slot that its fiber is to
/// have, for the first time.
pub proof fn law_listener_is_registered_for_reads<P, R>(v: RunnerView<P, R>)
    requires
        v.in_range(),
        v.has_room(),
    ensures
        v.listens_as().ready == Ready::Readable,
        !v.listens_as().again,
        v.listens_as().id == crate::ids::fiber_id_of(
            v.pos,
            if v.free.len() > 0 {
                v.free[0]
            } else {
                v.fibers.len() as usize
            },
        ),
{
}

} // verus!
