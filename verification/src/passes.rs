//! The two passes: a deduplicating optimiser that drops every statement it
//! has already seen, and a dummy optimiser that keeps everything unchanged
//! while burning a fixed amount of work per statement.

use std::collections::HashSet;
use vstd::prelude::*;

use crate::folder::Folder;

verus! {

broadcast use vstd::std_specs::hash::group_hash_axioms;

/// A toy optimiser which removes duplicate statements. Its state is the set
/// of statement values seen so far; a statement already in the set is
/// dropped, a fresh one is recorded and kept unchanged. Arguments pass
/// through untouched.
pub struct Deduplicator {
    seen: HashSet<u64>,
}

impl Deduplicator {
    /// A deduplicator that has seen nothing yet.
    pub fn new() -> (r: Deduplicator)
        ensures
            r.model() == Set::<u64>::empty(),
    {
        Deduplicator { seen: HashSet::new() }
    }
}

impl Default for Deduplicator {
    fn default() -> (r: Deduplicator)
        ensures
            r.model() == Set::<u64>::empty(),
    {
        Deduplicator::new()
    }
}

impl Folder for Deduplicator {
    type Model = Set<u64>;

    closed spec fn model(&self) -> Set<u64> {
        self.seen@
    }

    open spec fn arg_out(m: Set<u64>, a: u64) -> u64 {
        a
    }

    open spec fn arg_next(m: Set<u64>, a: u64) -> Set<u64> {
        m
    }

    open spec fn stmt_out(m: Set<u64>, s: u64) -> Option<u64> {
        if m.contains(s) {
            None
        } else {
            Some(s)
        }
    }

    open spec fn stmt_next(m: Set<u64>, s: u64) -> Set<u64> {
        if m.contains(s) {
            m
        } else {
            m.insert(s)
        }
    }

    fn fold_argument(&mut self, a: u64) -> (r: u64) {
        a
    }

    fn fold_statement(&mut self, s: u64) -> (r: Option<u64>) {
        if self.seen.contains(&s) {
            None
        } else {
            self.seen.insert(s);
            Some(s)
        }
    }
}

/// A dummy optimiser just to have something to chain: it keeps every
/// element unchanged and holds no state. Its statement hook performs a
/// fixed amount of busy work to give each visit a non-trivial cost.
pub struct DummyOptimizer;

impl Default for DummyOptimizer {
    fn default() -> (r: DummyOptimizer)
        ensures
            r.model() == (),
    {
        DummyOptimizer
    }
}

impl Folder for DummyOptimizer {
    type Model = ();

    open spec fn model(&self) -> () {
        ()
    }

    open spec fn arg_out(m: (), a: u64) -> u64 {
        a
    }

    open spec fn arg_next(m: (), a: u64) -> () {
        ()
    }

    open spec fn stmt_out(m: (), s: u64) -> Option<u64> {
        Some(s)
    }

    open spec fn stmt_next(m: (), s: u64) -> () {
        ()
    }

    fn fold_argument(&mut self, a: u64) -> (r: u64) {
        a
    }

    fn fold_statement(&mut self, s: u64) -> (r: Option<u64>) {
        let mut k: usize = 0;
        while k < 100
            invariant
                k <= 100,
            decreases 100 - k,
        {
            k = k + 1;
        }
        Some(s)
    }
}

} // verus!
