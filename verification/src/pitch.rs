//! Frame geometry of the YIN pitch tracker: where its analysis windows
//! sit in a buffer, and how per-frame voicing groups into contiguous
//! voiced runs. The per-frame estimate itself is floating-point work done
//! by the caller.

use vstd::prelude::*;
use crate::frames::window_starts;

verus! {

/// Analysis window, samples.
pub const WINDOW: usize = 2048;

/// Hop between windows, samples.
pub const HOP: usize = 512;

/// Analysis window length in samples.
pub fn window_len() -> (r: usize)
    ensures
        r == WINDOW,
{
    WINDOW
}

/// Hop length in samples.
pub fn hop_len() -> (r: usize)
    ensures
        r == HOP,
{
    HOP
}

/// Number of `WINDOW`-sample frames, `HOP` apart from sample 0, that fit
/// in a buffer of `len` samples at a usable sample rate.
pub open spec fn spec_frame_count(len: nat, sample_rate: nat) -> nat {
    if len < WINDOW || sample_rate == 0 {
        0
    } else {
        ((len - WINDOW) as nat / HOP as nat + 1) as nat
    }
}

/// The start sample of each analysis frame of a `len`-sample buffer: every
/// `HOP`-th sample from 0 whose window still fits. Each frame lies inside
/// the buffer, and no further frame would.
pub fn frame_starts(len: usize, sample_rate: u32) -> (r: Vec<usize>)
    ensures
        r@.len() == spec_frame_count(len as nat, sample_rate as nat),
        forall|f: int| 0 <= f < r@.len() ==> #[trigger] r@[f] == f * HOP,
        forall|f: int| 0 <= f < r@.len() ==> #[trigger] r@[f] + WINDOW <= len,
        sample_rate > 0 ==> r@.len() * HOP + WINDOW > len,
{
    if sample_rate == 0 {
        return Vec::new();
    }
    window_starts(len, WINDOW, HOP)
}

/// `runs` are the maximal runs of `true` in `voiced`, as ascending
/// `(start, end)` frame ranges, `end` exclusive.
pub open spec fn are_voiced_runs(voiced: Seq<bool>, runs: Seq<(usize, usize)>) -> bool {
    &&& forall|k: int|
        #![trigger runs[k]]
        0 <= k < runs.len() ==> {
            let (a, b) = runs[k];
            &&& a < b <= voiced.len()
            &&& forall|q: int| a <= q < b ==> #[trigger] voiced[q]
            &&& a == 0 || !voiced[a - 1]
            &&& b == voiced.len() || !voiced[b as int]
        }
    &&& forall|k: int| 0 <= k < runs.len() - 1 ==> #[trigger] runs[k].1 < runs[k + 1].0
    &&& forall|q: int|
        0 <= q < voiced.len() && #[trigger] voiced[q] ==> exists|k: int|
            0 <= k < runs.len() && #[trigger] runs[k].0 <= q < runs[k].1
}

/// Groups per-frame voicing into its maximal voiced runs.
pub fn voiced_runs(voiced: &Vec<bool>) -> (runs: Vec<(usize, usize)>)
    ensures
        are_voiced_runs(voiced@, runs@),
{
    let n = voiced.len();
    let mut runs: Vec<(usize, usize)> = Vec::new();
    let mut i: usize = 0;
    while i < n
        invariant
            n == voiced@.len(),
            i <= n,
            forall|k: int|
                #![trigger runs@[k]]
                0 <= k < runs@.len() ==> {
                    let (a, b) = runs@[k];
                    &&& a < b <= i
                    &&& forall|q: int| a <= q < b ==> #[trigger] voiced@[q]
                    &&& a == 0 || !voiced@[a - 1]
                    &&& b == n || !voiced@[b as int]
                },
            forall|k: int| 0 <= k < runs@.len() - 1 ==> #[trigger] runs@[k].1 < runs@[k + 1].0,
            runs@.len() > 0 ==> runs@.last().1 <= i,
            forall|q: int|
                0 <= q < i && #[trigger] voiced@[q] ==> exists|k: int|
                    0 <= k < runs@.len() && #[trigger] runs@[k].0 <= q < runs@[k].1,
        decreases n - i,
    {
        if !voiced[i] {
            i += 1;
            continue;
        }
        let start = i;
        while i < n && voiced[i]
            invariant
                n == voiced@.len(),
                start < n,
                start <= i <= n,
                voiced@[start as int],
                forall|q: int| start <= q < i ==> #[trigger] voiced@[q],
            decreases n - i,
        {
            i += 1;
        }
        let ghost before = runs@;
        runs.push((start, i));
        proof {
            assert(runs@[runs@.len() - 1] == (start, i));
            assert forall|q: int| 0 <= q < i && #[trigger] voiced@[q] implies exists|k: int|
                0 <= k < runs@.len() && #[trigger] runs@[k].0 <= q < runs@[k].1 by {
                if q >= start {
                    assert(runs@[runs@.len() - 1].0 <= q < runs@[runs@.len() - 1].1);
                } else {
                    let k = choose|k: int|
                        0 <= k < before.len() && #[trigger] before[k].0 <= q < before[k].1;
                    assert(runs@[k] == before[k]);
                }
            }
        }
    }
    runs
}

} // verus!
