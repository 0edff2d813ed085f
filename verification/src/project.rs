//! The thin aggregate over stages: an ordered sequence, advanced one
//! stage at a time. Orchestration only.

use vstd::prelude::*;

use crate::stage::Stage;

verus! {

/// A named, stored project: an ordered sequence of stages and the
/// index of the one currently active.
pub struct Project {
    pub name: String,
    pub filepath: String,
    pub stages: Vec<Stage>,
    pub current: usize,
}

impl Project {
    pub fn new(name: String, filepath: String, stages: Vec<Stage>) -> (r: Project)
        ensures
            r.name@ == name@,
            r.filepath@ == filepath@,
            r.stages@ == stages@,
            r.current == 0,
    {
        Project { name, filepath, stages, current: 0 }
    }

    pub fn stage_count(&self) -> (r: usize)
        ensures
            r == self.stages@.len(),
    {
        self.stages.len()
    }

    pub fn current_index(&self) -> (r: usize)
        ensures
            r == self.current,
    {
        self.current
    }

    /// Moves to the next stage, if there is one; reports whether it
    /// moved.
    pub fn advance(&mut self) -> (r: bool)
        ensures
            r == (old(self).current + 1 < old(self).stages@.len()),
            r ==> final(self).current == old(self).current + 1,
            !r ==> final(self).current == old(self).current,
            final(self).stages@ == old(self).stages@,
            final(self).name@ == old(self).name@,
            final(self).filepath@ == old(self).filepath@,
    {
        if self.current < self.stages.len() && self.stages.len() - self.current > 1 {
            self.current = self.current + 1;
            true
        } else {
            false
        }
    }
}

} // verus!
