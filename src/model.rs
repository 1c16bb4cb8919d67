use vstd::prelude::*;
use crate::error::NetError;
use crate::layers::{CacheState, LayerShape};
use crate::persist::LayerRecord;

verus! {

/// Consecutive layers fit: each layer's output size is the next one's input size.
pub open spec fn chained(ls: Seq<LayerShape>) -> bool {
    forall|i: int|
        #![trigger ls[i], ls[i + 1]]
        0 <= i < ls.len() - 1 ==> ls[i].output_size == ls[i + 1].input_size
}

/// The same layers with every cache set to `c`.
pub open spec fn with_cache(ls: Seq<LayerShape>, c: CacheState) -> Seq<LayerShape> {
    ls.map_values(|l: LayerShape| LayerShape { cache: c, ..l })
}

/// Every layer holds a forward pass over `batch` samples.
pub open spec fn all_computed(ls: Seq<LayerShape>, batch: usize) -> bool {
    forall|i: int|
        0 <= i < ls.len() ==> (#[trigger] ls[i]).cache == (CacheState::ForwardComputed { batch })
}

/// Some layer holds no forward pass.
pub open spec fn some_idle(ls: Seq<LayerShape>) -> bool {
    exists|i: int| 0 <= i < ls.len() && (#[trigger] ls[i]).cache == CacheState::Idle
}

proof fn lemma_with_cache_chained(ls: Seq<LayerShape>, c: CacheState)
    requires
        chained(ls),
    ensures
        chained(with_cache(ls, c)),
{
    let w = with_cache(ls, c);
    assert forall|i: int| 0 <= i < w.len() - 1 implies #[trigger] w[i].output_size == w[i
        + 1].input_size by {
        assert(ls[i].output_size == ls[i + 1].input_size);
    }
}

/// A loaded record can stand as a layer: its bias vector matches its output
/// size and both sizes fit this machine's sizes.
pub open spec fn record_fits(r: LayerRecord) -> bool {
    &&& r.biases@.len() == r.rows
    &&& r.rows <= usize::MAX
    &&& r.cols <= usize::MAX
}

/// Consecutive records fit: each one's output size is the next one's input size.
pub open spec fn records_chained(rs: Seq<LayerRecord>) -> bool {
    forall|i: int|
        #![trigger rs[i], rs[i + 1]]
        0 <= i < rs.len() - 1 ==> rs[i].rows == rs[i + 1].cols
}

/// The idle layer a record rehydrates to.
pub open spec fn shape_of(r: LayerRecord) -> LayerShape {
    LayerShape {
        input_size: r.cols as usize,
        output_size: r.rows as usize,
        activation: r.activation,
        cache: CacheState::Idle,
    }
}

/// The structure of a feed-forward network: an ordered sequence of layers in
/// which each layer's output feeds the next layer's input.
#[derive(Debug)]
pub struct NetworkShape {
    layers: Vec<LayerShape>,
}

impl View for NetworkShape {
    type V = Seq<LayerShape>;

    closed spec fn view(&self) -> Seq<LayerShape> {
        self.layers@
    }
}

impl NetworkShape {
    pub open spec fn wf(&self) -> bool {
        chained(self@)
    }

    pub fn new() -> (r: Self)
        ensures
            r@ == Seq::<LayerShape>::empty(),
            r.wf(),
    {
        NetworkShape { layers: Vec::new() }
    }

    pub fn len(&self) -> (r: usize)
        ensures
            r == self@.len(),
    {
        self.layers.len()
    }

    pub fn layer(&self, i: usize) -> (r: LayerShape)
        requires
            i < self@.len(),
        ensures
            r == self@[i as int],
    {
        self.layers[i]
    }

    /// Rebuilds the structure of a loaded model: each record becomes an idle
    /// layer with its activation restored. Fails with `Deserialization` when a
    /// record cannot stand as a layer or two consecutive records do not fit.
    pub fn from_records(records: &Vec<LayerRecord>) -> (r: Result<NetworkShape, NetError>)
        ensures
            match r {
                Ok(net) => {
                    &&& net.wf()
                    &&& net@ == records@.map_values(|x: LayerRecord| shape_of(x))
                    &&& forall|i: int| 0 <= i < records@.len() ==> record_fits(#[trigger] records@[i])
                    &&& records_chained(records@)
                },
                Err(e) => e == NetError::Deserialization && !((forall|i: int|
                    0 <= i < records@.len() ==> record_fits(#[trigger] records@[i]))
                    && records_chained(records@)),
            },
    {
        let mut layers: Vec<LayerShape> = Vec::new();
        let mut i: usize = 0;
        while i < records.len()
            invariant
                i <= records@.len(),
                layers@ == records@.take(i as int).map_values(|x: LayerRecord| shape_of(x)),
                forall|k: int| 0 <= k < i ==> record_fits(#[trigger] records@[k]),
                records_chained(records@.take(i as int)),
            decreases records@.len() - i,
        {
            let shape = match LayerShape::rehydrate(&records[i]) {
                Ok(s) => s,
                Err(e) => {
                    assert(!record_fits(records@[i as int]));
                    return Err(e);
                },
            };
            if i > 0 && records[i - 1].rows != records[i].cols {
                assert(!records_chained(records@)) by {
                    let k = i as int - 1;
                    assert(records@[k].rows != records@[k + 1].cols);
                }
                return Err(NetError::Deserialization);
            }
            layers.push(shape);
            proof {
                let t = records@.take(i as int + 1);
                assert(t.map_values(|x: LayerRecord| shape_of(x)) =~= records@.take(
                    i as int,
                ).map_values(|x: LayerRecord| shape_of(x)).push(shape));
                assert forall|k: int| 0 <= k < t.len() - 1 implies #[trigger] t[k].rows == t[k
                    + 1].cols by {
                    if k + 1 < i {
                        assert(records@.take(i as int)[k] == t[k]);
                        assert(records@.take(i as int)[k + 1] == t[k + 1]);
                    }
                }
            }
            i = i + 1;
        }
        assert(records@.take(i as int) =~= records@);
        let net = NetworkShape { layers };
        assert(net.wf()) by {
            let ls = net@;
            assert forall|k: int| 0 <= k < ls.len() - 1 implies #[trigger] ls[k].output_size
                == ls[k + 1].input_size by {
                assert(records@[k].rows == records@[k + 1].cols);
            }
        }
        Ok(net)
    }

    /// Builds a network from a requested stack of layers, in order. Fails
    /// with `DimensionMismatch` when two consecutive layers do not fit.
    pub fn from_layers(layers: &Vec<LayerShape>) -> (r: Result<NetworkShape, NetError>)
        ensures
            match r {
                Ok(net) => net.wf() && net@ == layers@,
                Err(e) => e == NetError::DimensionMismatch && !chained(layers@),
            },
    {
        let n = layers.len();
        let mut i: usize = 1;
        while i < n
            invariant
                n == layers@.len(),
                1 <= i <= n || n == 0,
                forall|k: int|
                    #![trigger layers@[k], layers@[k + 1]]
                    0 <= k < i - 1 ==> layers@[k].output_size == layers@[k + 1].input_size,
            decreases n - i,
        {
            if layers[i - 1].output_size != layers[i].input_size {
                assert(!chained(layers@)) by {
                    let k = i as int - 1;
                    assert(layers@[k].output_size != layers@[k + 1].input_size);
                }
                return Err(NetError::DimensionMismatch);
            }
            i = i + 1;
        }
        let mut copy: Vec<LayerShape> = Vec::new();
        let mut j: usize = 0;
        while j < n
            invariant
                n == layers@.len(),
                j <= n,
                copy@ == layers@.take(j as int),
            decreases n - j,
        {
            copy.push(layers[j]);
            proof {
                assert(copy@ =~= layers@.take(j as int + 1));
            }
            j = j + 1;
        }
        assert(copy@ =~= layers@);
        Ok(NetworkShape { layers: copy })
    }

    /// Appends a layer at the end; the caller keeps the chain intact.
    pub fn add_layer(&mut self, layer: LayerShape)
        requires
            old(self).wf(),
            old(self)@.len() > 0 ==> old(self)@.last().output_size == layer.input_size,
        ensures
            final(self)@ == old(self)@.push(layer),
            final(self).wf(),
    {
        self.layers.push(layer);
    }

    /// Admits a forward pass of a `[batch, width]` input through every layer
    /// in order. It succeeds when the width is the first layer's input size
    /// (or there is no layer); the output is then `[batch, w]`, with `w` the
    /// last layer's output size (or `width`), and every layer caches the pass.
    /// A refusal leaves the network as it was.
    pub fn forward(&mut self, batch: usize, width: usize) -> (r: Result<(usize, usize), NetError>)
        requires
            old(self).wf(),
        ensures
            final(self).wf(),
            old(self)@.len() == 0 ==> r == Ok::<(usize, usize), NetError>((batch, width))
                && final(self)@ == old(self)@,
            old(self)@.len() > 0 && width == old(self)@[0].input_size ==> r == Ok::<
                (usize, usize),
                NetError,
            >((batch, old(self)@.last().output_size)) && final(self)@ == with_cache(
                old(self)@,
                CacheState::ForwardComputed { batch },
            ),
            old(self)@.len() > 0 && width != old(self)@[0].input_size ==> r == Err::<
                (usize, usize),
                NetError,
            >(NetError::DimensionMismatch) && final(self)@ == old(self)@,
    {
        let n = self.layers.len();
        if n == 0 {
            return Ok((batch, width));
        }
        if width != self.layers[0].input_size {
            return Err(NetError::DimensionMismatch);
        }
        let ghost start = self.layers@;
        let c = CacheState::ForwardComputed { batch };
        let mut i: usize = 0;
        while i < n
            invariant
                n == start.len(),
                i <= n,
                self.layers@.len() == n,
                forall|k: int| 0 <= k < i ==> self.layers@[k] == with_cache(start, c)[k],
                forall|k: int| i <= k < n ==> self.layers@[k] == start[k],
            decreases n - i,
        {
            let mut l = self.layers[i];
            l.cache = c;
            self.layers.set(i, l);
            i = i + 1;
        }
        assert(self.layers@ =~= with_cache(start, c));
        proof {
            lemma_with_cache_chained(start, c);
        }
        Ok((batch, self.layers[n - 1].output_size))
    }

    /// Admits a backward pass of a `[rows, cols]` output error through every
    /// layer in reverse order. It needs every layer to hold a forward pass
    /// over `rows` samples and `cols` to be the last layer's output size; the
    /// error reaching the input is then `[rows, w]`, with `w` the first layer's
    /// input size, and every cache is consumed. A refusal leaves the network
    /// as it was: `MissingForward` when some layer holds no forward pass,
    /// `DimensionMismatch` otherwise.
    pub fn backward(&mut self, rows: usize, cols: usize) -> (r: Result<(usize, usize), NetError>)
        requires
            old(self).wf(),
        ensures
            final(self).wf(),
            old(self)@.len() == 0 ==> r == Ok::<(usize, usize), NetError>((rows, cols))
                && final(self)@ == old(self)@,
            old(self)@.len() > 0 && some_idle(old(self)@) ==> r == Err::<(usize, usize), NetError>(
                NetError::MissingForward,
            ) && final(self)@ == old(self)@,
            old(self)@.len() > 0 && !some_idle(old(self)@) && !(all_computed(old(self)@, rows)
                && cols == old(self)@.last().output_size) ==> r == Err::<(usize, usize), NetError>(
                NetError::DimensionMismatch,
            ) && final(self)@ == old(self)@,
            old(self)@.len() > 0 && all_computed(old(self)@, rows) && cols == old(
                self,
            )@.last().output_size ==> r == Ok::<(usize, usize), NetError>(
                (rows, old(self)@[0].input_size),
            ) && final(self)@ == with_cache(old(self)@, CacheState::Idle),
    {
        let n = self.layers.len();
        if n == 0 {
            return Ok((rows, cols));
        }
        let mut i: usize = 0;
        let mut mismatch = false;
        while i < n
            invariant
                n == self.layers@.len(),
                chained(self.layers@),
                i <= n,
                forall|k: int| 0 <= k < i ==> self.layers@[k].cache != CacheState::Idle,
                !mismatch ==> forall|k: int|
                    0 <= k < i ==> self.layers@[k].cache == (CacheState::ForwardComputed {
                        batch: rows,
                    }),
                mismatch ==> !all_computed(self.layers@, rows),
            decreases n - i,
        {
            match self.layers[i].cache {
                CacheState::Idle => {
                    assert(some_idle(self.layers@));
                    return Err(NetError::MissingForward);
                },
                CacheState::ForwardComputed { batch } => {
                    if batch != rows {
                        mismatch = true;
                    }
                },
            }
            i = i + 1;
        }
        assert(!some_idle(self.layers@));
        if mismatch || cols != self.layers[n - 1].output_size {
            return Err(NetError::DimensionMismatch);
        }
        let ghost start = self.layers@;
        let mut j: usize = 0;
        while j < n
            invariant
                n == start.len(),
                j <= n,
                self.layers@.len() == n,
                forall|k: int|
                    0 <= k < j ==> self.layers@[k] == with_cache(start, CacheState::Idle)[k],
                forall|k: int| j <= k < n ==> self.layers@[k] == start[k],
            decreases n - j,
        {
            let mut l = self.layers[j];
            l.cache = CacheState::Idle;
            self.layers.set(j, l);
            j = j + 1;
        }
        assert(self.layers@ =~= with_cache(start, CacheState::Idle));
        proof {
            lemma_with_cache_chained(start, CacheState::Idle);
        }
        Ok((rows, self.layers[0].input_size))
    }
}

} // verus!
