use vstd::prelude::*;
use crate::error::NetError;
use crate::visualization::TrainingStats;

verus! {

/// What a serving process shares between its request handlers: the current
/// model, if there is one, and the statistics of the latest training run.
pub struct AppState<N, T> {
    pub network: Option<N>,
    pub stats: TrainingStats<T>,
}

/// The shared state a service starts from: no model and no statistics.
pub fn rocket<N, T>() -> (r: AppState<N, T>)
    ensures
        r.network.is_none(),
        r.stats.wf(),
        r.stats.epochs@ == Seq::<T>::empty(),
        r.stats.losses@ == Seq::<T>::empty(),
        r.stats.accuracies@ == Seq::<T>::empty(),
{
    AppState { network: None, stats: TrainingStats::new() }
}

impl<N, T> AppState<N, T> {
    /// Starts a training run: the statistics of the previous run are dropped,
    /// and the current model stays until the new one is installed.
    pub fn begin_training(&mut self)
        ensures
            final(self).network == old(self).network,
            final(self).stats.wf(),
            final(self).stats.epochs@ == Seq::<T>::empty(),
            final(self).stats.losses@ == Seq::<T>::empty(),
            final(self).stats.accuracies@ == Seq::<T>::empty(),
    {
        self.stats.reset();
    }

    /// Makes a freshly trained or loaded model the current one.
    pub fn install(&mut self, network: N)
        ensures
            final(self).network == Some(network),
            final(self).stats == old(self).stats,
    {
        self.network = Some(network);
    }

    /// The current model, for a request that reads it.
    pub fn model(&self) -> (r: Result<&N, NetError>)
        ensures
            match self.network {
                Some(n) => r == Ok::<&N, NetError>(&n),
                None => r == Err::<&N, NetError>(NetError::NoModel),
            },
    {
        match &self.network {
            Some(n) => Ok(n),
            None => Err(NetError::NoModel),
        }
    }

    /// The current model, for a request that runs it (a forward pass updates
    /// its caches).
    pub fn model_mut(&mut self) -> (r: Result<&mut N, NetError>)
        ensures
            old(self).network.is_none() ==> r is Err && r->Err_0 == NetError::NoModel
                && *final(self) == *old(self),
            old(self).network.is_some() ==> r is Ok && *r->Ok_0 == old(self).network.unwrap()
                && final(self).network == Some(*final(r->Ok_0)) && final(self).stats == old(
                self,
            ).stats,
    {
        match &mut self.network {
            Some(n) => Ok(n),
            None => Err(NetError::NoModel),
        }
    }
}

} // verus!
