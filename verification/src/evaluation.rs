//! Counting correct predictions over a test set.

use vstd::prelude::*;

verus! {

/// Tallies how many of the predictions seen so far matched their gold
/// label.
pub struct Evaluator {
    n_instances: usize,
    n_correct: usize,
}

impl Evaluator {
    /// How many instances have been counted.
    pub closed spec fn instances(&self) -> usize {
        self.n_instances
    }

    /// How many of them were predicted correctly.
    pub closed spec fn correct(&self) -> usize {
        self.n_correct
    }

    /// No more correct predictions than instances.
    pub open spec fn wf(&self) -> bool {
        self.correct() <= self.instances()
    }

    /// Counts one instance: the prediction is correct exactly when it
    /// equals the gold label.
    pub fn count(&mut self, correct: usize, predicted: usize)
        requires
            old(self).wf(),
            old(self).instances() < usize::MAX,
        ensures
            final(self).wf(),
            final(self).instances() == old(self).instances() + 1,
            final(self).correct() == if predicted == correct {
                old(self).correct() + 1
            } else {
                old(self).correct() as int
            },
    {
        self.n_instances = self.n_instances + 1;
        if predicted == correct {
            self.n_correct = self.n_correct + 1;
        }
    }

    /// The number of instances counted so far.
    pub fn n_instances(&self) -> (r: usize)
        ensures
            r == self.instances(),
    {
        self.n_instances
    }

    /// The number of correct predictions counted so far.
    pub fn n_correct(&self) -> (r: usize)
        ensures
            r == self.correct(),
    {
        self.n_correct
    }
}

impl Default for Evaluator {
    /// An evaluator that has seen nothing.
    fn default() -> (r: Self)
        ensures
            r.wf(),
            r.instances() == 0,
            r.correct() == 0,
    {
        Evaluator { n_instances: 0, n_correct: 0 }
    }
}

} // verus!
