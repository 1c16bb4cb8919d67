use vstd::prelude::*;
use crate::activations::ActivationType;
use crate::error::NetError;
use crate::persist::LayerRecord;

verus! {

/// Where a layer stands between a forward pass and the backward pass that
/// consumes its cache.
#[derive(Clone, Copy, Debug, PartialEq, Eq, Structural)]
pub enum CacheState {
    /// No forward input or output is cached.
    Idle,
    /// A forward pass over a batch of `batch` samples has been cached.
    ForwardComputed { batch: usize },
}

/// The structure of a dense layer: its sizes, its activation and the state
/// of its forward cache. The weight matrix is `[output_size, input_size]`
/// and the bias vector has `output_size` entries.
#[derive(Clone, Copy, Debug, PartialEq, Eq, Structural)]
pub struct LayerShape {
    pub input_size: usize,
    pub output_size: usize,
    pub activation: ActivationType,
    pub cache: CacheState,
}

impl LayerShape {
    pub fn new(input_size: usize, output_size: usize, activation: ActivationType) -> (r: Self)
        ensures
            r.input_size == input_size,
            r.output_size == output_size,
            r.activation == activation,
            r.cache == CacheState::Idle,
    {
        LayerShape { input_size, output_size, activation, cache: CacheState::Idle }
    }

    /// Admits a forward pass over a `[batch, width]` input. The input must be
    /// `input_size` wide; the output is then `[batch, output_size]` and the
    /// layer caches the pass. A mismatch leaves the layer as it was.
    pub fn forward(&mut self, batch: usize, width: usize) -> (r: Result<(usize, usize), NetError>)
        ensures
            width == old(self).input_size ==> r == Ok::<(usize, usize), NetError>(
                (batch, old(self).output_size),
            ) && *final(self) == (LayerShape {
                cache: CacheState::ForwardComputed { batch },
                ..*old(self)
            }),
            width != old(self).input_size ==> r == Err::<(usize, usize), NetError>(
                NetError::DimensionMismatch,
            ) && *final(self) == *old(self),
    {
        if width != self.input_size {
            return Err(NetError::DimensionMismatch);
        }
        self.cache = CacheState::ForwardComputed { batch };
        Ok((batch, self.output_size))
    }

    /// Admits a backward pass with a `[rows, cols]` output error. It needs a
    /// cached forward pass over `rows` samples and `cols == output_size`; the
    /// error passed back is then `[rows, input_size]` and the cache is
    /// consumed. A refusal leaves the layer as it was.
    pub fn backward(&mut self, rows: usize, cols: usize) -> (r: Result<(usize, usize), NetError>)
        ensures
            match old(self).cache {
                CacheState::Idle => r == Err::<(usize, usize), NetError>(NetError::MissingForward)
                    && *final(self) == *old(self),
                CacheState::ForwardComputed { batch } => if (rows == batch && cols
                    == old(self).output_size) {
                    r == Ok::<(usize, usize), NetError>((rows, old(self).input_size))
                        && *final(self) == (LayerShape { cache: CacheState::Idle, ..*old(self) })
                } else {
                    r == Err::<(usize, usize), NetError>(NetError::DimensionMismatch)
                        && *final(self) == *old(self)
                },
            },
    {
        match self.cache {
            CacheState::Idle => Err(NetError::MissingForward),
            CacheState::ForwardComputed { batch } => {
                if rows != batch || cols != self.output_size {
                    return Err(NetError::DimensionMismatch);
                }
                self.cache = CacheState::Idle;
                Ok((rows, self.input_size))
            },
        }
    }

    /// Rebuilds the structure of a loaded layer: its sizes come from the
    /// stored weight matrix, its activation from the stored tag, and its
    /// cache starts idle. The stored biases must match the output size.
    pub fn rehydrate(record: &LayerRecord) -> (r: Result<LayerShape, NetError>)
        ensures
            match r {
                Ok(shape) => {
                    &&& record.biases@.len() == record.rows
                    &&& shape.output_size == record.rows
                    &&& shape.input_size == record.cols
                    &&& shape.activation == record.activation
                    &&& shape.cache == CacheState::Idle
                },
                Err(e) => e == NetError::Deserialization && (record.biases@.len() != record.rows
                    || record.rows > usize::MAX || record.cols > usize::MAX),
            },
    {
        if record.rows > usize::MAX as u64 || record.cols > usize::MAX as u64 {
            return Err(NetError::Deserialization);
        }
        if record.biases.len() as u64 != record.rows {
            return Err(NetError::Deserialization);
        }
        Ok(LayerShape::new(record.cols as usize, record.rows as usize, record.activation))
    }
}

} // verus!
