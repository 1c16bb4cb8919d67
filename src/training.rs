use vstd::prelude::*;
use vstd::arithmetic::div_mod::lemma_fundamental_div_mod_converse;
use crate::batching::{batch_bounds, spec_batch};
use crate::error::NetError;

verus! {

/// What a training loop does next.
#[derive(Clone, Copy, Debug, PartialEq, Eq, Structural)]
pub enum TrainStep {
    /// Run forward, loss gradient and backward on samples `[start, end)`.
    Batch { start: usize, end: usize },
    /// Every batch of the epoch numbered `epoch` (from 1) has run: evaluate the
    /// whole data set and log one record for it.
    EndOfEpoch { epoch: usize },
    /// All epochs are done.
    Done,
}

/// The `pos`-th step of training for `epochs` epochs over the mini-batches
/// `bs`: each epoch runs its batches in order and then ends; after the last
/// epoch every step is `Done`.
pub open spec fn step_at(bs: Seq<(usize, usize)>, epochs: nat, pos: nat) -> TrainStep {
    let per = bs.len() + 1;
    if pos >= epochs * per {
        TrainStep::Done
    } else if pos % per < bs.len() {
        TrainStep::Batch { start: bs[(pos % per) as int].0, end: bs[(pos % per) as int].1 }
    } else {
        TrainStep::EndOfEpoch { epoch: (pos / per + 1) as usize }
    }
}

/// The order in which a training run visits mini-batches and epoch ends.
pub struct TrainSchedule {
    batches: Vec<(usize, usize)>,
    epochs: usize,
    epoch: usize,
    next: usize,
}

impl TrainSchedule {
    /// The mini-batches of one epoch.
    pub closed spec fn batches(&self) -> Seq<(usize, usize)> {
        self.batches@
    }

    pub closed spec fn epochs(&self) -> nat {
        self.epochs as nat
    }

    /// How many steps have been taken (steps after `Done` are not counted).
    pub closed spec fn pos(&self) -> nat {
        (self.epoch * (self.batches@.len() + 1) + self.next) as nat
    }

    pub closed spec fn wf(&self) -> bool {
        &&& self.next <= self.batches@.len()
        &&& self.epoch <= self.epochs
        &&& self.epoch == self.epochs ==> self.next == 0
    }

    /// A schedule for `epochs` epochs over `n_samples` samples in contiguous
    /// mini-batches of `batch_size`, before its first step.
    pub fn new(n_samples: usize, batch_size: usize, epochs: usize) -> (r: Self)
        requires
            batch_size > 0,
        ensures
            r.wf(),
            r.pos() == 0,
            r.epochs() == epochs,
            forall|i: int|
                #![trigger r.batches()[i]]
                0 <= i < r.batches().len() ==> (r.batches()[i].0 as nat, r.batches()[i].1 as nat)
                    == spec_batch(n_samples as nat, batch_size as nat, i as nat),
            n_samples == 0 <==> r.batches().len() == 0,
            r.batches().len() > 0 ==> r.batches().last().1 == n_samples,
    {
        let batches = batch_bounds(n_samples, batch_size);
        let r = TrainSchedule { batches, epochs, epoch: 0, next: 0 };
        assert(r.pos() == 0) by (nonlinear_arith)
            requires
                r.epoch == 0,
                r.next == 0,
                r.pos() == (r.epoch * (r.batches@.len() + 1) + r.next) as nat,
        ;
        r
    }

    /// A schedule for training on `x_rows` input samples against `y_rows`
    /// target samples; each input needs its target, so the counts must agree,
    /// else the result is `DimensionMismatch`.
    pub fn for_data(x_rows: usize, y_rows: usize, batch_size: usize, epochs: usize) -> (r: Result<
        Self,
        NetError,
    >)
        requires
            batch_size > 0,
        ensures
            match r {
                Ok(s) => {
                    &&& x_rows == y_rows
                    &&& s.wf()
                    &&& s.pos() == 0
                    &&& s.epochs() == epochs
                    &&& forall|i: int|
                        #![trigger s.batches()[i]]
                        0 <= i < s.batches().len() ==> (
                        s.batches()[i].0 as nat,
                        s.batches()[i].1 as nat,
                    ) == spec_batch(x_rows as nat, batch_size as nat, i as nat)
                    &&& (x_rows == 0 <==> s.batches().len() == 0)
                    &&& (s.batches().len() > 0 ==> s.batches().last().1 == x_rows)
                },
                Err(e) => e == NetError::DimensionMismatch && x_rows != y_rows,
            },
    {
        if x_rows != y_rows {
            return Err(NetError::DimensionMismatch);
        }
        Ok(TrainSchedule::new(x_rows, batch_size, epochs))
    }

    /// The next step, and the schedule moved past it.
    pub fn step(&mut self) -> (r: TrainStep)
        requires
            old(self).wf(),
        ensures
            final(self).wf(),
            r == step_at(old(self).batches(), old(self).epochs(), old(self).pos()),
            final(self).batches() == old(self).batches(),
            final(self).epochs() == old(self).epochs(),
            final(self).pos() == if r == TrainStep::Done {
                old(self).pos()
            } else {
                old(self).pos() + 1
            },
    {
        let ghost nb = self.batches@.len();
        let ghost per = nb + 1;
        let ghost pos = self.pos();
        proof {
            lemma_fundamental_div_mod_converse(
                pos as int,
                per as int,
                self.epoch as int,
                self.next as int,
            );
            assert(pos as int == self.epoch * per + self.next);
            if self.epoch < self.epochs {
                assert(pos < self.epochs * per) by (nonlinear_arith)
                    requires
                        pos as int == self.epoch * per + self.next,
                        self.next < per,
                        self.epoch + 1 <= self.epochs,
                ;
            } else {
                assert(pos >= self.epochs * per) by (nonlinear_arith)
                    requires
                        pos as int == self.epoch * per + self.next,
                        self.next >= 0,
                        self.epoch >= self.epochs,
                ;
            }
        }
        if self.epoch >= self.epochs {
            return TrainStep::Done;
        }
        if self.next < self.batches.len() {
            let (start, end) = self.batches[self.next];
            self.next = self.next + 1;
            TrainStep::Batch { start, end }
        } else {
            let epoch = self.epoch + 1;
            self.epoch = epoch;
            self.next = 0;
            proof {
                assert(epoch * per == (epoch - 1) * per + per) by (nonlinear_arith);
            }
            TrainStep::EndOfEpoch { epoch }
        }
    }
}

} // verus!
