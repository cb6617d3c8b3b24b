//! Note segmentation of the quantized pitch track: each voiced frame
//! carries its nearest MIDI note (`None` when unvoiced). A one-frame
//! deviation between two frames of the same note is repaired (a tracker
//! octave blip takes its neighbors' note, and a one-frame dropout is
//! bridged), then consecutive frames of one note group into note runs.
//! Timing, duration filtering and the per-run median pitch are
//! floating-point work done by the caller.

use vstd::prelude::*;

verus! {

/// One repair step at frame `i`: when the frames on either side carry the
/// same note and frame `i` does not, frame `i` takes that note.
pub open spec fn repair_at(s: Seq<Option<i32>>, i: int) -> Seq<Option<i32>> {
    if 1 <= i < s.len() - 1 && s[i - 1] is Some && s[i + 1] == s[i - 1] && s[i] != s[i - 1] {
        s.update(i, s[i - 1])
    } else {
        s
    }
}

/// The track after repair steps at frames `1..=k`, left to right, each
/// seeing the frames before it already repaired.
pub open spec fn repaired_through(s: Seq<Option<i32>>, k: int) -> Seq<Option<i32>>
    decreases k,
{
    if k < 1 {
        s
    } else {
        repair_at(repaired_through(s, k - 1), k)
    }
}

/// The repaired track: steps at every interior frame.
pub open spec fn repaired(s: Seq<Option<i32>>) -> Seq<Option<i32>> {
    repaired_through(s, s.len() - 2)
}

/// No frame of `s` is a one-frame deviation between two frames carrying
/// the same note.
pub open spec fn free_of_blips(s: Seq<Option<i32>>) -> bool {
    forall|i: int|
        #![trigger s[i]]
        1 <= i < s.len() - 1 && s[i - 1] is Some && s[i + 1] == s[i - 1] ==> s[i] == s[i - 1]
}

/// Repairs one-frame deviations in place, left to right. Afterwards no
/// frame deviates alone between two frames of the same note.
pub fn repair_blips(midis: &mut Vec<Option<i32>>)
    ensures
        final(midis)@ == repaired(old(midis)@),
        free_of_blips(final(midis)@),
{
    let ghost orig = midis@;
    let n = midis.len();
    if n < 3 {
        proof {
            assert(repaired(orig) == orig);
        }
        return;
    }
    let mut i: usize = 1;
    while i < n - 1
        invariant
            n == orig.len(),
            n >= 3,
            1 <= i <= n - 1,
            midis@.len() == n,
            midis@ == repaired_through(orig, i - 1),
            forall|k: int| i <= k < n ==> #[trigger] midis@[k] == orig[k],
            forall|j: int|
                #![trigger midis@[j]]
                1 <= j < i - 1 && midis@[j - 1] is Some && midis@[j + 1] == midis@[j - 1]
                    ==> midis@[j] == midis@[j - 1],
            i >= 2 && midis@[i - 2] is Some && orig[i as int] == midis@[i - 2] ==> midis@[i - 1]
                == midis@[i - 2],
        decreases n - 1 - i,
    {
        let ghost before = midis@;
        let prev = midis[i - 1];
        let cur = midis[i];
        let next = midis[i + 1];
        if prev.is_some() && next == prev && cur != prev {
            midis.set(i, prev);
        }
        proof {
            assert(midis@ == repair_at(before, i as int));
            assert forall|j: int|
                #![trigger midis@[j]]
                1 <= j < i && midis@[j - 1] is Some && midis@[j + 1] == midis@[j - 1] implies midis@[j]
                == midis@[j - 1] by {
                if j < i - 1 {
                    assert(before[j - 1] == midis@[j - 1]);
                    assert(before[j + 1] == midis@[j + 1]);
                    assert(before[j] == midis@[j]);
                } else {
                    assert(j == i - 1);
                }
            }
        }
        i += 1;
    }
    proof {
        assert forall|j: int|
            #![trigger midis@[j]]
            1 <= j < n - 1 && midis@[j - 1] is Some && midis@[j + 1] == midis@[j - 1] implies midis@[j]
            == midis@[j - 1] by {
            if j == n - 2 {
                assert(midis@[j + 1] == orig[j + 1]);
            }
        }
    }
}

/// `runs` are the maximal runs of frames carrying one note, as ascending
/// `(start, end, note)` with `end` exclusive; unvoiced frames belong to no
/// run.
pub open spec fn are_note_runs(s: Seq<Option<i32>>, runs: Seq<(usize, usize, i32)>) -> bool {
    &&& forall|k: int|
        #![trigger runs[k]]
        0 <= k < runs.len() ==> {
            let (a, b, m) = runs[k];
            &&& a < b <= s.len()
            &&& forall|q: int| a <= q < b ==> #[trigger] s[q] == Some(m)
            &&& a == 0 || s[a - 1] != Some(m)
            &&& b == s.len() || s[b as int] != Some(m)
        }
    &&& forall|k: int| 0 <= k < runs.len() - 1 ==> #[trigger] runs[k].1 <= runs[k + 1].0
    &&& forall|q: int|
        0 <= q < s.len() && #[trigger] s[q] is Some ==> exists|k: int|
            0 <= k < runs.len() && #[trigger] runs[k].0 <= q < runs[k].1
}

/// Groups a repaired track into its note runs.
pub fn note_runs(midis: &Vec<Option<i32>>) -> (runs: Vec<(usize, usize, i32)>)
    ensures
        are_note_runs(midis@, runs@),
{
    let n = midis.len();
    let mut runs: Vec<(usize, usize, i32)> = Vec::new();
    let mut i: usize = 0;
    while i < n
        invariant
            n == midis@.len(),
            i <= n,
            forall|k: int|
                #![trigger runs@[k]]
                0 <= k < runs@.len() ==> {
                    let (a, b, m) = runs@[k];
                    &&& a < b <= i
                    &&& forall|q: int| a <= q < b ==> #[trigger] midis@[q] == Some(m)
                    &&& a == 0 || midis@[a - 1] != Some(m)
                    &&& b == n || midis@[b as int] != Some(m)
                },
            forall|k: int| 0 <= k < runs@.len() - 1 ==> #[trigger] runs@[k].1 <= runs@[k + 1].0,
            runs@.len() > 0 ==> runs@.last().1 <= i,
            i > 0 && i < n && midis@[i as int] is Some ==> midis@[i - 1] != midis@[i as int],
            forall|q: int|
                0 <= q < i && #[trigger] midis@[q] is Some ==> exists|k: int|
                    0 <= k < runs@.len() && #[trigger] runs@[k].0 <= q < runs@[k].1,
        decreases n - i,
    {
        let m = match midis[i] {
            Some(m) => m,
            None => {
                i += 1;
                continue;
            },
        };
        let start = i;
        while i < n && midis[i] == Some(m)
            invariant
                n == midis@.len(),
                start < n,
                start <= i <= n,
                midis@[start as int] == Some(m),
                forall|q: int| start <= q < i ==> #[trigger] midis@[q] == Some(m),
            decreases n - i,
        {
            i += 1;
        }
        let ghost before = runs@;
        runs.push((start, i, m));
        proof {
            assert(runs@[runs@.len() - 1] == (start, i, m));
            assert forall|q: int| 0 <= q < i && #[trigger] midis@[q] is Some implies exists|k: int|
                0 <= k < runs@.len() && #[trigger] runs@[k].0 <= q < runs@[k].1 by {
                if q >= start {
                    assert(runs@[runs@.len() - 1].0 <= q < runs@[runs@.len() - 1].1);
                } else {
                    let k = choose|k: int|
                        0 <= k < before.len() && #[trigger] before[k].0 <= q < before[k].1;
                    assert(runs@[k] == before[k]);
                }
            }
        }
    }
    runs
}

} // verus!
