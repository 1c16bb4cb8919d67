use vstd::prelude::*;

verus! {

/// The `i`-th mini-batch of an epoch over `n` samples in batches of `size`:
/// the half-open range of sample indices `[i * size, min(i * size + size, n))`.
pub open spec fn spec_batch(n: nat, size: nat, i: nat) -> (nat, nat) {
    let start = i * size;
    let end = if start + size <= n {
        start + size
    } else {
        n
    };
    (start, end)
}

/// Splits `n_samples` samples into contiguous mini-batches of `batch_size`
/// samples, in order; only the last batch may be smaller. Every sample falls
/// in exactly one batch.
pub fn batch_bounds(n_samples: usize, batch_size: usize) -> (r: Vec<(usize, usize)>)
    requires
        batch_size > 0,
    ensures
        forall|i: int|
            #![trigger r@[i]]
            0 <= i < r@.len() ==> {
                &&& (r@[i].0 as nat, r@[i].1 as nat) == spec_batch(
                    n_samples as nat,
                    batch_size as nat,
                    i as nat,
                )
                &&& r@[i].0 < r@[i].1
            },
        n_samples == 0 <==> r@.len() == 0,
        r@.len() > 0 ==> r@.last().1 == n_samples,
{
    let mut r: Vec<(usize, usize)> = Vec::new();
    let mut start: usize = 0;
    assert(0 * batch_size == 0) by (nonlinear_arith);
    while start < n_samples
        invariant
            batch_size > 0,
            start <= n_samples,
            start < n_samples ==> start as int == r@.len() * batch_size,
            r@.len() == 0 ==> start == 0,
            forall|i: int|
                #![trigger r@[i]]
                0 <= i < r@.len() ==> {
                    &&& (r@[i].0 as nat, r@[i].1 as nat) == spec_batch(
                        n_samples as nat,
                        batch_size as nat,
                        i as nat,
                    )
                    &&& r@[i].0 < r@[i].1
                },
            r@.len() > 0 ==> r@.last().1 == start,
        decreases n_samples - start,
    {
        let end = if n_samples - start >= batch_size {
            start + batch_size
        } else {
            n_samples
        };
        let ghost k = r@.len();
        r.push((start, end));
        proof {
            assert((k + 1) * batch_size == k * batch_size + batch_size) by (nonlinear_arith);
            assert(r@[k as int] == (start, end));
        }
        start = end;
    }
    r
}

} // verus!
