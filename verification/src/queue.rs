//! The grids that wait between extraction and splicing.

use std::collections::VecDeque;
use vstd::prelude::*;
use crate::error::Error;
use crate::grid::Grid;

verus! {

/// The grids extracted from a document, in document order. They leave in
/// the order in which they came.
pub struct PendingQueue {
    grids: VecDeque<Grid>,
}

impl View for PendingQueue {
    type V = Seq<Seq<Seq<Seq<char>>>>;

    closed spec fn view(&self) -> Seq<Seq<Seq<Seq<char>>>> {
        Seq::new(self.grids@.len(), |i: int| self.grids@[i]@)
    }
}

impl PendingQueue {
    /// A queue without grids.
    pub fn new() -> (q: PendingQueue)
        ensures
            q@.len() == 0,
    {
        PendingQueue { grids: VecDeque::new() }
    }

    /// The number of grids that wait.
    pub fn len(&self) -> (n: usize)
        ensures
            n == self@.len(),
    {
        self.grids.len()
    }

    /// Adds `grid` behind the grids that wait.
    pub fn push(&mut self, grid: Grid)
        ensures
            final(self)@ == old(self)@.push(grid@),
    {
        self.grids.push_back(grid);
    }

    /// Takes the grid that has waited longest.
    pub fn pop(&mut self) -> (r: Result<Grid, Error>)
        ensures
            r is Ok <==> old(self)@.len() > 0,
            r matches Ok(grid) ==> grid@ == old(self)@[0] && final(self)@ == old(self)@.drop_first(),
            r matches Err(e) ==> e == Error::QueueExhausted && final(self)@ == old(self)@,
    {
        match self.grids.pop_front() {
            Some(grid) => {
                Ok(grid)
            },
            None => {
                Err(Error::QueueExhausted)
            },
        }
    }
}

} // verus!
