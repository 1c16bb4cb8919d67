use vstd::prelude::*;

verus! {

/// The per-epoch log of a training run: for each epoch, in order, its number,
/// its loss and its accuracy. It only grows, until it is reset.
///
/// The values are carried, never computed on, so the log holds whatever
/// numeric type the training engine reports in.
pub struct TrainingStats<T> {
    pub epochs: Vec<T>,
    pub losses: Vec<T>,
    pub accuracies: Vec<T>,
}

impl<T> TrainingStats<T> {
    /// The three columns have one entry per logged epoch.
    pub open spec fn wf(&self) -> bool {
        &&& self.epochs@.len() == self.losses@.len()
        &&& self.epochs@.len() == self.accuracies@.len()
    }

    pub fn new() -> (r: Self)
        ensures
            r.wf(),
            r.epochs@ == Seq::<T>::empty(),
            r.losses@ == Seq::<T>::empty(),
            r.accuracies@ == Seq::<T>::empty(),
    {
        TrainingStats { epochs: Vec::new(), losses: Vec::new(), accuracies: Vec::new() }
    }

    /// Forgets every logged epoch.
    pub fn reset(&mut self)
        ensures
            final(self).wf(),
            final(self).epochs@ == Seq::<T>::empty(),
            final(self).losses@ == Seq::<T>::empty(),
            final(self).accuracies@ == Seq::<T>::empty(),
    {
        self.epochs.clear();
        self.losses.clear();
        self.accuracies.clear();
    }

    /// Appends the record of one epoch, keeping every earlier one.
    pub fn log_epoch(&mut self, epoch: T, loss: T, accuracy: T)
        ensures
            old(self).wf() ==> final(self).wf(),
            final(self).epochs@ == old(self).epochs@.push(epoch),
            final(self).losses@ == old(self).losses@.push(loss),
            final(self).accuracies@ == old(self).accuracies@.push(accuracy),
    {
        self.epochs.push(epoch);
        self.losses.push(loss);
        self.accuracies.push(accuracy);
    }
}

} // verus!
