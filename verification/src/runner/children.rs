//! What a fiber gets from its children.
use super::{Runner, RunnerView};
use crate::poller::{Poller, PollerView};
use crate::slot::{FiberState, FiberView, FiberWait};
use std::collections::VecDeque;
use vstd::prelude::*;

verus! {

/// What a fiber that asks for a result of its children gets.
pub enum Child<R> {
    /// All children have finished executing.
    Finished,
    /// A result.
    Result(R),
    /// No child has a result: the fiber is to step out, and ask again when it is entered.
    Wait,
}

/// The runner, the poller and what a fiber gets when it asks for a result of its children.
#[verifier::ext_equal]
pub struct ChildStep<P, R> {
    pub runner: RunnerView<P, R>,
    pub poller: PollerView,
    pub got: Child<R>,
}

/// The queue without the entry at `i`; the first entry takes its place.
pub open spec fn swap_removed_front(q: Seq<usize>, i: int) -> Seq<usize> {
    q.update(i, q[0]).drop_first()
}

impl<P, R> RunnerView<P, R> {
    /// The child in the slot `c` is done or has a result.
    pub open spec fn child_ready(self, c: usize) -> bool {
        self.fibers[c as int].state is Closed || self.fibers[c as int].result is Some
    }

    /// Which of the children from the `from`th on is the first that is done or has a
    /// result; their number where none is.
    pub open spec fn first_ready(self, kids: Seq<usize>, from: int) -> int
        decreases kids.len() - from,
    {
        if from >= kids.len() || self.child_ready(kids[from]) {
            from
        } else {
            self.first_ready(kids, from + 1)
        }
    }

    /// The result of the child in the slot `c` has been taken out of it: a child that has
    /// waited for that waits no more.
    pub open spec fn child_emptied(self, c: usize) -> RunnerView<P, R> {
        let f = self.fibers[c as int];
        self.with(
            c,
            FiberView {
                result: None,
                wait: if f.wait is Chunk {
                    FiberWait::Open
                } else {
                    f.wait
                },
                ..f
            },
        )
    }

    /// The `i`th child of the fiber in the slot `parent` is its child no more, and no
    /// fiber uses its slot.
    pub open spec fn child_freed(self, parent: usize, i: int) -> RunnerView<P, R> {
        let g = self.fibers[parent as int];
        RunnerView {
            free: self.free.push(g.children[i]),
            ..self.with(
                parent,
                FiberView { children: swap_removed_front(g.children, i), ..g },
            )
        }
    }

    /// What happens when the fiber in the slot `parent` asks for a result of its children.
    /// The first child that is done or has a result is looked at. One that is done is
    /// freed; its result is returned if there is one, and else the next child is looked
    /// at. One that is not done hands over its result and is to be run on.
    pub open spec fn child_step(self, p: PollerView, parent: usize) -> ChildStep<P, R>
        decreases self.fibers[parent as int].children.len(),
    {
        let kids = self.fibers[parent as int].children;
        let i = self.first_ready(kids, 0);
        if kids.len() == 0 {
            ChildStep { runner: self, poller: p, got: Child::Finished }
        } else if i < 0 || i >= kids.len() || !self.has(parent) || !self.has(kids[i]) {
            ChildStep { runner: self, poller: p, got: Child::Wait }
        } else {
            let c = kids[i];
            let f = self.fibers[c as int];
            if f.state is Closed {
                let freed = self.child_emptied(c).child_freed(parent, i);
                match f.result {
                    Some(r) => ChildStep { runner: freed, poller: p, got: Child::Result(r) },
                    None => freed.child_step(p, parent),
                }
            } else {
                ChildStep {
                    runner: self.child_emptied(c),
                    poller: p.exec_pushed(self.pos as int, c),
                    got: Child::Result(f.result->0),
                }
            }
        }
    }

    pub(crate) proof fn lemma_child_emptied(self, c: usize)
        requires
            self.in_range(),
            self.has(c),
        ensures
            self.child_emptied(c).in_range(),
    {
        self.lemma_same_links(c, self.child_emptied(c).fibers[c as int]);
    }

    pub(crate) proof fn lemma_child_freed(self, parent: usize, i: int)
        requires
            self.in_range(),
            self.has(parent),
            0 <= i < self.fibers[parent as int].children.len(),
        ensures
            self.child_freed(parent, i).in_range(),
    {
        let g = self.fibers[parent as int];
        assert(self.slot_in_range(parent as int));
        let h = FiberView { children: swap_removed_front(g.children, i), ..g };
        self.lemma_with(parent, h);
        self.with(parent, h).lemma_queues(
            self.free.push(g.children[i]),
            self.tomain,
            self.results,
        );
    }
}

/// Takes the entry at `i` out of a queue and puts the first entry in its place.
fn swap_remove_front(q: &mut VecDeque<usize>, i: usize)
    requires
        i < old(q)@.len(),
    ensures
        final(q)@ == swap_removed_front(old(q)@, i as int),
{
    if let Some(front) = q.pop_front() {
        if i > 0 {
            q.remove(i - 1);
            q.insert(i - 1, front);
        }
    }
    assert(q@ =~= swap_removed_front(old(q)@, i as int));
}

impl<P, R> Runner<P, R> {
    /// Get result of child. If fiber has multiple children it will return first available
    /// result.
    ///
    /// If none is returned all children have finished executing.
    pub fn child_iter(&mut self, poller: &mut Poller, parent: usize) -> (got: Child<R>)
        requires
            old(self).wf(),
            old(poller).wf(),
            old(self)@.has(parent),
        ensures
            final(self).wf(),
            final(poller).wf(),
            (ChildStep { runner: final(self)@, poller: final(poller)@, got })
                == old(self)@.child_step(old(poller)@, parent),
    {
        loop
            invariant
                self.wf(),
                poller.wf(),
                self@.has(parent),
                poller@ == old(poller)@,
                self@.child_step(poller@, parent) == old(self)@.child_step(old(poller)@, parent),
            decreases self@.fibers[parent as int].children.len(),
        {
            let ghost before = self@;
            let n: usize = self.fibers[parent].children.len();
            if n == 0 {
                return Child::Finished;
            }
            proof {
                assert(self@.slot_in_range(parent as int));
            }
            let mut index: usize = 0;
            let mut child: Option<usize> = None;
            while index < n && child.is_none()
                invariant
                    self.wf(),
                    self@.has(parent),
                    self@.slot_in_range(parent as int),
                    n == self@.fibers[parent as int].children.len(),
                    index <= n,
                    child is None ==> self@.first_ready(self@.fibers[parent as int].children, 0)
                        == self@.first_ready(
                        self@.fibers[parent as int].children,
                        index as int,
                    ),
                    child matches Some(c) ==> index < n && c
                        == self@.fibers[parent as int].children[index as int] && self@.first_ready(
                        self@.fibers[parent as int].children,
                        0,
                    ) == index && self@.child_ready(c),
                decreases
                        if child is None {
                            n - index + 1
                        } else {
                            0
                        },
            {
                let c: usize = self.fibers[parent].children[index];
                if self.fibers[c].state == FiberState::Closed || self.fibers[c].result.is_some() {
                    child = Some(c);
                } else {
                    index = index + 1;
                }
            }
            let c: usize = match child {
                Some(c) => c,
                None => {
                    return Child::Wait;
                },
            };
            proof {
                before.lemma_child_emptied(c);
                before.child_emptied(c).lemma_child_freed(parent, index as int);
            }
            let out: Option<R> = self.fibers[c].result.take();
            if self.fibers[c].wait == FiberWait::Chunk {
                self.fibers[c].wait = FiberWait::Open;
            }
            assert(self@.fibers =~= before.child_emptied(c).fibers);
            if self.fibers[c].state == FiberState::Closed {
                swap_remove_front(&mut self.fibers[parent].children, index);
                self.free_fibers.push_back(c);
                assert(self@.fibers =~= before.child_emptied(c).child_freed(
                    parent,
                    index as int,
                ).fibers);
            } else {
                // Now that we have taken its result schedule it back for execution.
                self.push_toexec(poller, c);
            }
            if let Some(r) = out {
                return Child::Result(r);
            }
        }
    }
}

} // verus!
