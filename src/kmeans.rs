//! The random choices of k-means clustering: the initial centers and the
//! pixels that reseed empty clusters. The centroid arithmetic itself is on
//! floating-point colors and lives with the callers.
//!
//! Every draw comes from a generator that the caller hands in, so that a
//! generator seeded with a fixed value gives the same choices on every run.
use vstd::prelude::*;

use rand::rngs::StdRng;
use rand::Rng;

verus! {

#[verifier::external_type_specification]
#[verifier::external_body]
pub struct ExStdRng(StdRng);

/// Relies on rand::seq::index::sample: `amount` distinct indices below
/// `length`, in random order; it panics when `amount > length`.
#[verifier::external_body]
fn sample_indices(rng: &mut StdRng, length: usize, amount: usize) -> (r: Vec<usize>)
    requires
        amount <= length,
    ensures
        r@.len() == amount,
        forall|i: int| 0 <= i < r@.len() ==> r@[i] < length,
        forall|i: int, j: int| 0 <= i < j < r@.len() ==> r@[i] != r@[j],
{
    rand::seq::index::sample(rng, length, amount).into_vec()
}

/// Relies on rand::Rng::random_range: a value in `0..n`; it panics on an
/// empty range.
#[verifier::external_body]
fn random_below(rng: &mut StdRng, n: usize) -> (r: usize)
    requires
        n > 0,
    ensures
        r < n,
{
    rng.random_range(0..n)
}

/// Indices of the pixels that start as the `k` centers.
///
/// As many distinct pixels as there are, up to `k`, are drawn without
/// replacement; where `k` exceeds the number of pixels the remaining centers
/// are drawn with replacement, so that there are always `k` of them.
pub fn initial_center_indices(rng: &mut StdRng, pixel_count: usize, k: usize) -> (r: Vec<usize>)
    requires
        pixel_count > 0,
    ensures
        r@.len() == k,
        forall|i: int| 0 <= i < k ==> r@[i] < pixel_count,
        forall|i: int, j: int|
            0 <= i < j < k && j < pixel_count ==> r@[i] != r@[j],
{
    let distinct = if k <= pixel_count { k } else { pixel_count };
    let mut r = sample_indices(rng, pixel_count, distinct);
    while r.len() < k
        invariant
            pixel_count > 0,
            distinct == if k <= pixel_count { k } else { pixel_count },
            distinct <= r@.len() <= k,
            forall|i: int| 0 <= i < r@.len() ==> r@[i] < pixel_count,
            forall|i: int, j: int| 0 <= i < j < distinct ==> r@[i] != r@[j],
        decreases k - r@.len(),
    {
        let extra = random_below(rng, pixel_count);
        r.push(extra);
    }
    r
}

/// For each cluster size, the pixel that reseeds the cluster: `None` for a
/// cluster that kept members, and a pixel index drawn from the whole input
/// for an empty one.
pub fn reseed_indices(rng: &mut StdRng, cluster_sizes: &[usize], pixel_count: usize) -> (r: Vec<
    Option<usize>,
>)
    requires
        pixel_count > 0,
    ensures
        r@.len() == cluster_sizes@.len(),
        forall|i: int|
            0 <= i < r@.len() ==> (#[trigger] r@[i] is None <==> cluster_sizes@[i] > 0),
        forall|i: int| 0 <= i < r@.len() && #[trigger] r@[i] is Some ==> r@[i]->Some_0 < pixel_count,
{
    let mut r: Vec<Option<usize>> = Vec::new();
    let mut i: usize = 0;
    while i < cluster_sizes.len()
        invariant
            pixel_count > 0,
            0 <= i <= cluster_sizes@.len(),
            r@.len() == i,
            forall|j: int| 0 <= j < i ==> (#[trigger] r@[j] is None <==> cluster_sizes@[j] > 0),
            forall|j: int| 0 <= j < i && #[trigger] r@[j] is Some ==> r@[j]->Some_0 < pixel_count,
        decreases cluster_sizes@.len() - i,
    {
        if cluster_sizes[i] == 0 {
            let pick = random_below(rng, pixel_count);
            r.push(Some(pick));
        } else {
            r.push(None);
        }
        i = i + 1;
    }
    r
}

} // verus!
