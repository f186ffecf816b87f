//! The samples on a sphere, laid out ring by ring: every latitude ring has
//! one polar angle, and the samples on it are numbered around the ring.

use vstd::prelude::*;

verus! {

/// Number of samples on the first `m` rings.
pub open spec fn samples_before(ring_sizes: Seq<usize>, m: int) -> int
    decreases m,
{
    if m <= 0 {
        0
    } else {
        samples_before(ring_sizes, m - 1) + ring_sizes[m - 1]
    }
}

/// The place of step `k` of ring `r` in the list of all samples.
pub open spec fn sample_index(ring_sizes: Seq<usize>, r: int, k: int) -> int {
    samples_before(ring_sizes, r) + k
}

/// Where a sample lies: on which ring, and how many steps around it. The
/// azimuth of a sample is zero at step 0.
#[derive(Clone, Copy, Debug, PartialEq, Eq, Structural)]
pub struct SamplePosition {
    pub ring: usize,
    pub step: usize,
}

/// `samples` lists the positions on rings of the sizes `ring_sizes`: ring
/// after ring, and step after step on each ring.
pub open spec fn is_layout(ring_sizes: Seq<usize>, samples: Seq<SamplePosition>) -> bool {
    &&& samples.len() == samples_before(ring_sizes, ring_sizes.len() as int)
    &&& forall|r: int, k: int|
        0 <= r < ring_sizes.len() && 0 <= k < ring_sizes[r] ==> {
            let i = #[trigger] sample_index(ring_sizes, r, k);
            0 <= i < samples.len() && samples[i].ring == r && samples[i].step == k
        }
}

/// The rings before ring `m` hold no more samples than those before a later
/// ring.
pub proof fn lemma_samples_before_grows(ring_sizes: Seq<usize>, m: int, n: int)
    requires
        0 <= m <= n,
    ensures
        0 <= samples_before(ring_sizes, m) <= samples_before(ring_sizes, n),
    decreases n,
{
    if n > 0 {
        if m < n {
            lemma_samples_before_grows(ring_sizes, m, n - 1);
        } else {
            lemma_samples_before_grows(ring_sizes, m - 1, n - 1);
        }
    }
}

/// Lays the samples out on rings of the given sizes.
pub fn sample_positions(ring_sizes: &Vec<usize>) -> (samples: Vec<SamplePosition>)
    ensures
        is_layout(ring_sizes@, samples@),
{
    let mut samples: Vec<SamplePosition> = Vec::new();
    let mut r: usize = 0;
    while r < ring_sizes.len()
        invariant
            r <= ring_sizes@.len(),
            samples@.len() == samples_before(ring_sizes@, r as int),
            forall|q: int, k: int|
                0 <= q < r && 0 <= k < ring_sizes@[q] ==> {
                    let i = #[trigger] sample_index(ring_sizes@, q, k);
                    0 <= i < samples@.len() && samples@[i].ring == q && samples@[i].step == k
                },
        decreases ring_sizes@.len() - r,
    {
        let size = ring_sizes[r];
        let mut step: usize = 0;
        while step < size
            invariant
                r < ring_sizes@.len(),
                size == ring_sizes@[r as int],
                step <= size,
                samples@.len() == sample_index(ring_sizes@, r as int, step as int),
                forall|q: int, k: int|
                    0 <= q < r && 0 <= k < ring_sizes@[q] ==> {
                        let i = #[trigger] sample_index(ring_sizes@, q, k);
                        0 <= i < samples@.len() && samples@[i].ring == q && samples@[i].step == k
                    },
                forall|k: int|
                    0 <= k < step ==> {
                        let i = #[trigger] sample_index(ring_sizes@, r as int, k);
                        0 <= i < samples@.len() && samples@[i].ring == r && samples@[i].step == k
                    },
            decreases size - step,
        {
            proof {
                lemma_samples_before_grows(ring_sizes@, 0, r as int);
            }
            samples.push(SamplePosition { ring: r, step });
            step += 1;
        }
        r += 1;
    }
    samples
}

/// The ring that sample `i` lies on, as the reader of the samples finds it:
/// the number of samples after the first, up to sample `i`, at which the
/// azimuth is back at zero.
pub open spec fn rings_entered(ring_starts: Seq<bool>, i: int) -> int
    decreases i,
{
    if i <= 0 {
        0
    } else {
        rings_entered(ring_starts, i - 1) + if ring_starts[i] {
            1int
        } else {
            0int
        }
    }
}

/// For each sample the index of its polar angle, found from where the
/// azimuth is zero; `None` where a sample would lie on a ring past the last
/// of the `n_theta` polar angles.
pub fn theta_indices(ring_starts: &Vec<bool>, n_theta: usize) -> (r: Option<Vec<usize>>)
    ensures
        match r {
            Some(rings) => {
                &&& rings@.len() == ring_starts@.len()
                &&& forall|i: int|
                    0 <= i < rings@.len() ==> #[trigger] rings@[i] == rings_entered(ring_starts@, i)
                        && rings@[i] < n_theta
            },
            None => exists|i: int|
                0 <= i < ring_starts@.len() && #[trigger] rings_entered(ring_starts@, i)
                    >= n_theta,
        },
{
    let mut rings: Vec<usize> = Vec::with_capacity(ring_starts.len());
    let mut idx_theta: usize = 0;
    let mut i: usize = 0;
    while i < ring_starts.len()
        invariant
            i <= ring_starts@.len(),
            rings@.len() == i,
            idx_theta <= i,
            i > 0 ==> idx_theta == rings_entered(ring_starts@, i - 1),
            i == 0 ==> idx_theta == 0,
            forall|j: int|
                0 <= j < i ==> #[trigger] rings@[j] == rings_entered(ring_starts@, j) && rings@[j]
                    < n_theta,
        decreases ring_starts@.len() - i,
    {
        if ring_starts[i] && i != 0 {
            idx_theta += 1;
        }
        assert(idx_theta == rings_entered(ring_starts@, i as int));
        if idx_theta >= n_theta {
            return None;
        }
        rings.push(idx_theta);
        i += 1;
    }
    Some(rings)
}

/// Where the azimuth of the samples is zero: at step 0 of each ring.
pub open spec fn ring_starts_of(samples: Seq<SamplePosition>) -> Seq<bool> {
    Seq::new(samples.len(), |i: int| samples[i].step == 0)
}

/// No ring is without samples.
pub open spec fn no_ring_empty(ring_sizes: Seq<usize>) -> bool {
    forall|r: int| 0 <= r < ring_sizes.len() ==> #[trigger] ring_sizes[r] >= 1
}

/// Where no ring is empty, each sample of a layout lies on the ring that
/// the reader of the samples finds for it from the zeros of the azimuth, and
/// that ring is one of the rings.
pub proof fn lemma_tracking_follows_layout(
    ring_sizes: Seq<usize>,
    samples: Seq<SamplePosition>,
    i: int,
)
    requires
        is_layout(ring_sizes, samples),
        no_ring_empty(ring_sizes),
        0 <= i < samples.len(),
    ensures
        rings_entered(ring_starts_of(samples), i) == samples[i].ring,
        samples[i].ring < ring_sizes.len(),
        samples[i].step < ring_sizes[samples[i].ring as int],
        i == sample_index(ring_sizes, samples[i].ring as int, samples[i].step as int),
    decreases i,
{
    if i == 0 {
        // there is a sample, so there is a ring, and sample 0 starts it
        assert(ring_sizes.len() > 0) by {
            assert(samples_before(ring_sizes, 0) == 0);
        }
        assert(ring_sizes[0] >= 1);
        assert(sample_index(ring_sizes, 0, 0) == 0);
    } else {
        lemma_tracking_follows_layout(ring_sizes, samples, i - 1);
        let r = samples[i - 1].ring as int;
        let k = samples[i - 1].step as int;
        if k + 1 < ring_sizes[r] {
            // the next step of the same ring
            assert(sample_index(ring_sizes, r, k + 1) == i);
        } else {
            // the first step of the next ring, which is there: the samples
            // do not end before sample `i`
            assert(samples_before(ring_sizes, r + 1) == i);
            assert(r + 1 < ring_sizes.len());
            assert(ring_sizes[r + 1] >= 1);
            assert(sample_index(ring_sizes, r + 1, 0) == i);
        }
    }
}

/// Where no ring is empty there are at least as many samples as rings, and
/// more samples than rings once one ring has two samples.
pub proof fn lemma_rings_and_samples(ring_sizes: Seq<usize>, m: int)
    requires
        no_ring_empty(ring_sizes),
        0 <= m <= ring_sizes.len(),
    ensures
        m <= samples_before(ring_sizes, m),
        (exists|r: int| 0 <= r < m && #[trigger] ring_sizes[r] >= 2) ==> m < samples_before(
            ring_sizes,
            m,
        ),
    decreases m,
{
    if m > 0 {
        lemma_rings_and_samples(ring_sizes, m - 1);
        assert(ring_sizes[m - 1] >= 1);
        if exists|r: int| 0 <= r < m && #[trigger] ring_sizes[r] >= 2 {
            let r = choose|r: int| 0 <= r < m && #[trigger] ring_sizes[r] >= 2;
            if r < m - 1 {
                assert(ring_sizes[r] >= 2);
            }
        }
    }
}

} // verus!
