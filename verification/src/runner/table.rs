//! Which numbers the runners of a thread have.
use super::{Runner, RunnerView};
use crate::error::Error;
use crate::ids::MAX_RUNNERS;
use std::collections::VecDeque;
use vstd::prelude::*;

verus! {

/// The numbers that runners of a thread can have, and which of them are taken.
pub struct RunnerTable {
    taken: Vec<bool>,
}

impl View for RunnerTable {
    type V = Seq<bool>;

    /// Whether each of the numbers is taken.
    closed spec fn view(&self) -> Seq<bool> {
        self.taken@
    }
}

/// Every number is taken.
pub open spec fn all_taken(table: Seq<bool>) -> bool {
    forall|i: int| 0 <= i < table.len() ==> #[trigger] table[i]
}

/// `pos` is the lowest number that is not taken.
pub open spec fn first_free(table: Seq<bool>, pos: int) -> bool {
    &&& 0 <= pos < table.len()
    &&& !table[pos]
    &&& forall|i: int| 0 <= i < pos ==> #[trigger] table[i]
}

impl RunnerTable {
    /// The table has an entry for each number.
    pub open spec fn wf(&self) -> bool {
        self@.len() == MAX_RUNNERS
    }

    /// A table in which no number is taken.
    pub fn new() -> (table: RunnerTable)
        ensures
            table.wf(),
            forall|i: int| 0 <= i < MAX_RUNNERS ==> !#[trigger] table@[i],
    {
        let mut taken: Vec<bool> = Vec::new();
        let mut i: usize = 0;
        while i < MAX_RUNNERS
            invariant
                i <= MAX_RUNNERS,
                taken@.len() == i,
                forall|j: int| 0 <= j < i ==> !#[trigger] taken@[j],
            decreases MAX_RUNNERS - i,
        {
            taken.push(false);
            i = i + 1;
        }
        RunnerTable { taken }
    }

    /// The lowest number that is not taken.
    fn find_empty(&self) -> (pos: Option<usize>)
        requires
            self.wf(),
        ensures
            match pos {
                Some(p) => first_free(self@, p as int),
                None => all_taken(self@),
            },
    {
        let mut i: usize = 0;
        while i < MAX_RUNNERS
            invariant
                i <= MAX_RUNNERS,
                self.wf(),
                forall|j: int| 0 <= j < i ==> #[trigger] self@[j],
            decreases MAX_RUNNERS - i,
        {
            if !self.taken[i] {
                return Some(i);
            }
            i = i + 1;
        }
        None
    }

    /// The runner with the number `pos` is gone.
    pub fn release(&mut self, pos: i8)
        requires
            old(self).wf(),
            0 <= pos < MAX_RUNNERS,
        ensures
            final(self).wf(),
            final(self)@ == old(self)@.update(pos as int, false),
    {
        self.taken.set(pos as usize, false);
    }
}

impl<P, R> RunnerView<P, R> {
    /// A runner without fibers.
    pub open spec fn idle(pos: i8) -> RunnerView<P, R> {
        RunnerView {
            pos,
            fibers: Seq::empty(),
            free: Seq::empty(),
            tomain: Seq::empty(),
            results: Seq::empty(),
        }
    }
}

impl<P, R> Runner<P, R> {
    /// Start runner. This function does not block. Can fail only if we ran out of space for
    /// new runners: there can be 20. The runner gets the lowest number that is not taken.
    pub fn new(table: &mut RunnerTable) -> (runner: Result<Runner<P, R>, Error>)
        requires
            old(table).wf(),
        ensures
            final(table).wf(),
            match runner {
                Ok(r) => {
                    &&& r.wf()
                    &&& first_free(old(table)@, r@.pos as int)
                    &&& r@ == RunnerView::<P, R>::idle(r@.pos)
                    &&& final(table)@ == old(table)@.update(r@.pos as int, true)
                },
                Err(e) => e == Error::NoSpace && all_taken(old(table)@) && final(table)@ == old(
                    table,
                )@,
            },
    {
        let pos: usize = match table.find_empty() {
            Some(pos) => pos,
            None => {
                return Err(Error::NoSpace);
            },
        };
        table.taken.set(pos, true);
        let r = Runner {
            pos: pos as i8,
            fibers: Vec::new(),
            free_fibers: VecDeque::with_capacity(4),
            tomain_fibers: VecDeque::with_capacity(4),
            results: VecDeque::new(),
        };
        assert(r@.fibers =~= Seq::empty());
        Ok(r)
    }
}

} // verus!
