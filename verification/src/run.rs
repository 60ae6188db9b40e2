//! Counting finished requests while a run is in progress.

use vstd::prelude::*;

verus! {

/// Requests finished so far, split by whether they failed.
#[derive(Clone, Copy, Debug, Default, PartialEq, Eq, Structural)]
pub struct RunTally {
    pub completed_tasks: u32,
    pub failed_tasks: u32,
}

impl RunTally {
    pub fn new() -> (t: RunTally)
        ensures
            t.completed_tasks == 0,
            t.failed_tasks == 0,
    {
        RunTally { completed_tasks: 0, failed_tasks: 0 }
    }

    /// Counts one finished request; it failed when it carries an error message.
    pub fn record(&mut self, has_error: bool)
        requires
            has_error ==> old(self).failed_tasks < u32::MAX,
            !has_error ==> old(self).completed_tasks < u32::MAX,
        ensures
            has_error ==> final(self).failed_tasks == old(self).failed_tasks + 1
                && final(self).completed_tasks == old(self).completed_tasks,
            !has_error ==> final(self).completed_tasks == old(self).completed_tasks + 1
                && final(self).failed_tasks == old(self).failed_tasks,
    {
        if has_error {
            self.failed_tasks = self.failed_tasks + 1;
        } else {
            self.completed_tasks = self.completed_tasks + 1;
        }
    }

    /// Requests started: those that finished, failed or not.
    pub fn started(&self) -> (n: u32)
        requires
            self.completed_tasks + self.failed_tasks <= u32::MAX,
        ensures
            n == self.completed_tasks + self.failed_tasks,
    {
        self.completed_tasks + self.failed_tasks
    }

    /// Every turn of every session finished before the run ended.
    pub fn all_finished(&self, max_num_completed_requests: u32, multi_turn: u32) -> (b: bool)
        requires
            self.completed_tasks + self.failed_tasks <= u32::MAX,
            max_num_completed_requests * multi_turn <= u32::MAX,
        ensures
            b == (self.completed_tasks + self.failed_tasks == max_num_completed_requests
                * multi_turn),
    {
        self.completed_tasks + self.failed_tasks == max_num_completed_requests * multi_turn
    }
}

} // verus!
