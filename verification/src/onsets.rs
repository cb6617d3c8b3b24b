//! Peak picking of the onset detector over its spectral-flux curve. The
//! flux values are non-negative floats; the caller hands them in as keys
//! that order exactly as the values do (the IEEE-754 bit patterns of
//! non-negative floats do), together with which frames clear the adaptive
//! threshold.

use vstd::prelude::*;

verus! {

/// Frame `t` is a candidate onset: an interior frame above the threshold
/// that is at least its predecessor and strictly above its successor.
pub open spec fn is_peak(strength: Seq<u64>, above: Seq<bool>, t: int) -> bool {
    1 <= t < strength.len() - 1 && above[t] && strength[t] >= strength[t - 1] && strength[t]
        > strength[t + 1]
}

/// The candidate onset frames, ascending.
pub fn pick_peaks(strength: &Vec<u64>, above: &Vec<bool>) -> (peaks: Vec<usize>)
    requires
        above@.len() == strength@.len(),
    ensures
        forall|k: int| 0 <= k < peaks@.len() ==> is_peak(strength@, above@, #[trigger] peaks@[k] as int),
        forall|k: int, l: int| 0 <= k < l < peaks@.len() ==> #[trigger] peaks@[k] < #[trigger] peaks@[l],
        forall|t: int| is_peak(strength@, above@, t) ==> exists|k: int|
            0 <= k < peaks@.len() && #[trigger] peaks@[k] == t,
{
    let n = strength.len();
    let mut peaks: Vec<usize> = Vec::new();
    if n < 3 {
        return peaks;
    }
    let mut t: usize = 1;
    while t < n - 1
        invariant
            n == strength@.len(),
            n == above@.len(),
            n >= 3,
            1 <= t <= n - 1,
            forall|k: int| 0 <= k < peaks@.len() ==> is_peak(strength@, above@, #[trigger] peaks@[k] as int),
            forall|k: int| 0 <= k < peaks@.len() ==> #[trigger] peaks@[k] < t,
            forall|k: int, l: int| 0 <= k < l < peaks@.len() ==> #[trigger] peaks@[k] < #[trigger] peaks@[l],
            forall|u: int| u < t && is_peak(strength@, above@, u) ==> exists|k: int|
                0 <= k < peaks@.len() && #[trigger] peaks@[k] == u,
        decreases n - 1 - t,
    {
        let ghost before = peaks@;
        if above[t] && strength[t] >= strength[t - 1] && strength[t] > strength[t + 1] {
            peaks.push(t);
            proof {
                assert(peaks@[peaks@.len() - 1] == t);
            }
        }
        proof {
            assert forall|u: int| u < t + 1 && is_peak(strength@, above@, u) implies exists|k: int|
                0 <= k < peaks@.len() && #[trigger] peaks@[k] == u by {
                if u == t {
                    assert(peaks@[peaks@.len() - 1] == t);
                } else {
                    let k = choose|k: int| 0 <= k < before.len() && #[trigger] before[k] == u;
                    assert(peaks@[k] == before[k]);
                }
            }
        }
        t += 1;
    }
    peaks
}

/// From peak `j` on, with `best` the strongest peak of the current group
/// so far: the group's winner and the index of the first peak past it. A
/// peak joins the group while it lies within `min_gap` frames of the
/// current winner; a strictly stronger peak takes over as winner.
pub open spec fn scan_group(
    peaks: Seq<usize>,
    strength: Seq<u64>,
    min_gap: nat,
    best: int,
    j: int,
) -> (int, int)
    decreases peaks.len() - j,
{
    if 0 <= j < peaks.len() && peaks[j] - best <= min_gap {
        let next_best = if strength[peaks[j] as int] > strength[best] {
            peaks[j] as int
        } else {
            best
        };
        scan_group(peaks, strength, min_gap, next_best, j + 1)
    } else {
        (best, j)
    }
}

/// The accepted onsets from peak `i` on: each group's winner.
pub open spec fn suppressed_from(peaks: Seq<usize>, strength: Seq<u64>, min_gap: nat, i: int) -> Seq<
    usize,
>
    decreases peaks.len() - i,
{
    if i < 0 || i >= peaks.len() {
        Seq::empty()
    } else {
        let (best, j) = scan_group(peaks, strength, min_gap, peaks[i] as int, i + 1);
        proof {
            lemma_scan_group(peaks, strength, min_gap, peaks[i] as int, i + 1);
        }
        if j <= i {
            Seq::empty()
        } else {
            seq![best as usize] + suppressed_from(peaks, strength, min_gap, j)
        }
    }
}

/// Strictly ascending peaks.
pub open spec fn ascending(peaks: Seq<usize>) -> bool {
    forall|k: int, l: int| 0 <= k < l < peaks.len() ==> #[trigger] peaks[k] < #[trigger] peaks[l]
}

/// The scan moves forward and its winner is a peak of the scanned group,
/// lying between the group's opener and the first peak past the group.
pub proof fn lemma_scan_group(peaks: Seq<usize>, strength: Seq<u64>, min_gap: nat, best: int, j: int)
    ensures
        scan_group(peaks, strength, min_gap, best, j).1 >= j,
        scan_group(peaks, strength, min_gap, best, j).1 > j ==> 0 <= j,
        j <= peaks.len() ==> scan_group(peaks, strength, min_gap, best, j).1 <= peaks.len(),
        ({
            let (b, e) = scan_group(peaks, strength, min_gap, best, j);
            0 <= e < peaks.len() ==> peaks[e] - b > min_gap
        }),
        ({
            let (b, e) = scan_group(peaks, strength, min_gap, best, j);
            b == best || exists|k: int| j <= k < e && 0 <= k < peaks.len() && b == peaks[k]
        }),
    decreases peaks.len() - j,
{
    if 0 <= j < peaks.len() && peaks[j] - best <= min_gap {
        let next_best = if strength[peaks[j] as int] > strength[best] {
            peaks[j] as int
        } else {
            best
        };
        lemma_scan_group(peaks, strength, min_gap, next_best, j + 1);
    }
}

/// A group's winner is at least as strong as the peak it started from and
/// as every peak the group took in.
proof fn lemma_scan_group_max(peaks: Seq<usize>, strength: Seq<u64>, min_gap: nat, best: int, j: int)
    ensures
        ({
            let (b, e) = scan_group(peaks, strength, min_gap, best, j);
            &&& strength[best] <= strength[b]
            &&& forall|k: int| j <= k < e ==> strength[#[trigger] peaks[k] as int] <= strength[b]
        }),
    decreases peaks.len() - j,
{
    if 0 <= j < peaks.len() && peaks[j] - best <= min_gap {
        let next_best = if strength[peaks[j] as int] > strength[best] {
            peaks[j] as int
        } else {
            best
        };
        lemma_scan_group_max(peaks, strength, min_gap, next_best, j + 1);
    }
}

/// Suppression never drops a peak in favour of a weaker one: every input
/// peak is at most as strong as some accepted onset.
pub proof fn lemma_no_dropped_peak_is_stronger(
    peaks: Seq<usize>,
    strength: Seq<u64>,
    min_gap: nat,
    i: int,
)
    requires
        0 <= i,
    ensures
        forall|m: int|
            i <= m < peaks.len() ==> exists|k: int|
                0 <= k < suppressed_from(peaks, strength, min_gap, i).len() && strength[#[trigger] peaks[m] as int]
                    <= strength[#[trigger] suppressed_from(peaks, strength, min_gap, i)[k] as int],
    decreases peaks.len() - i,
{
    if i < peaks.len() {
        let (b, e) = scan_group(peaks, strength, min_gap, peaks[i] as int, i + 1);
        lemma_scan_group(peaks, strength, min_gap, peaks[i] as int, i + 1);
        lemma_scan_group_max(peaks, strength, min_gap, peaks[i] as int, i + 1);
        lemma_no_dropped_peak_is_stronger(peaks, strength, min_gap, e);
        let acc = suppressed_from(peaks, strength, min_gap, i);
        let rest = suppressed_from(peaks, strength, min_gap, e);
        assert(acc == seq![b as usize] + rest);
        assert forall|m: int| i <= m < peaks.len() implies exists|k: int|
            0 <= k < acc.len() && strength[#[trigger] peaks[m] as int] <= strength[#[trigger] acc[k] as int] by {
            if m < e {
                assert(acc[0] == b as usize);
                if m > i {
                    assert(strength[peaks[m] as int] <= strength[b]);
                }
            } else {
                let k = choose|k: int|
                    0 <= k < rest.len() && strength[#[trigger] peaks[m] as int] <= strength[#[trigger] rest[k] as int];
                assert(acc[k + 1] == rest[k]);
            }
        }
    }
}

/// Peak `m` has a rival: another input peak within `min_gap` frames of it,
/// on either side, that is at least as strong.
pub open spec fn has_rival(peaks: Seq<usize>, strength: Seq<u64>, min_gap: nat, m: int) -> bool {
    exists|p: int|
        0 <= p < peaks.len() && p != m && -min_gap <= peaks[p] - peaks[m] <= min_gap
            && #[trigger] strength[peaks[p] as int] >= strength[peaks[m] as int]
}

/// Within a group, every peak other than the current winner has a rival.
proof fn lemma_scan_group_rivals(
    peaks: Seq<usize>,
    strength: Seq<u64>,
    min_gap: nat,
    i: int,
    bi: int,
    j: int,
)
    requires
        ascending(peaks),
        0 <= i <= bi < j <= peaks.len(),
        forall|k: int| i <= k < j && k != bi ==> has_rival(peaks, strength, min_gap, k),
    ensures
        ({
            let (b, e) = scan_group(peaks, strength, min_gap, peaks[bi] as int, j);
            forall|k: int|
                i <= k < e && peaks[k] as int != b ==> has_rival(peaks, strength, min_gap, k)
        }),
    decreases peaks.len() - j,
{
    let best = peaks[bi] as int;
    if j < peaks.len() && peaks[j] - best <= min_gap {
        if strength[peaks[j] as int] > strength[best] {
            assert(has_rival(peaks, strength, min_gap, bi)) by {
                assert(strength[peaks[j] as int] >= strength[peaks[bi] as int]);
                assert(peaks[bi] < peaks[j]);
            }
            assert forall|k: int| i <= k < j + 1 && k != j implies has_rival(
                peaks,
                strength,
                min_gap,
                k,
            ) by {
                if k != bi {
                }
            }
            lemma_scan_group_rivals(peaks, strength, min_gap, i, j, j + 1);
        } else {
            assert(has_rival(peaks, strength, min_gap, j)) by {
                assert(strength[peaks[bi] as int] >= strength[peaks[j] as int]);
                assert(peaks[bi] < peaks[j]);
            }
            lemma_scan_group_rivals(peaks, strength, min_gap, i, bi, j + 1);
        }
        lemma_scan_group(peaks, strength, min_gap, best, j);
    } else {
        assert forall|k: int| i <= k < j && peaks[k] as int != best implies has_rival(
            peaks,
            strength,
            min_gap,
            k,
        ) by {
            assert(k != bi);
        }
    }
}

/// A peak is only ever suppressed by a rival: every input peak that is not
/// an accepted onset has another peak within `min_gap` frames of it that
/// is at least as strong. A peak with no such neighbour is always kept.
pub proof fn lemma_suppressed_peaks_have_rivals(
    peaks: Seq<usize>,
    strength: Seq<u64>,
    min_gap: nat,
    i: int,
)
    requires
        ascending(peaks),
        0 <= i,
    ensures
        forall|m: int|
            i <= m < peaks.len() && !suppressed_from(peaks, strength, min_gap, i).contains(
                #[trigger] peaks[m],
            ) ==> has_rival(peaks, strength, min_gap, m),
    decreases peaks.len() - i,
{
    if i < peaks.len() {
        let (b, e) = scan_group(peaks, strength, min_gap, peaks[i] as int, i + 1);
        lemma_scan_group(peaks, strength, min_gap, peaks[i] as int, i + 1);
        lemma_scan_group_rivals(peaks, strength, min_gap, i, i, i + 1);
        lemma_suppressed_peaks_have_rivals(peaks, strength, min_gap, e);
        let acc = suppressed_from(peaks, strength, min_gap, i);
        let rest = suppressed_from(peaks, strength, min_gap, e);
        assert(acc == seq![b as usize] + rest);
        assert forall|m: int|
            i <= m < peaks.len() && !acc.contains(#[trigger] peaks[m]) implies has_rival(
            peaks,
            strength,
            min_gap,
            m,
        ) by {
            if m < e {
                if peaks[m] as int == b {
                    assert(acc[0] == peaks[m]);
                }
            } else {
                if rest.contains(peaks[m]) {
                    let k = choose|k: int| 0 <= k < rest.len() && rest[k] == peaks[m];
                    assert(acc[k + 1] == peaks[m]);
                }
            }
        }
    }
}

/// The accepted onsets are input peaks, ascending, and consecutive ones
/// lie more than `min_gap` frames apart: no two onsets closer than the gap.
pub proof fn lemma_accepted_onsets_are_spaced(
    peaks: Seq<usize>,
    strength: Seq<u64>,
    min_gap: nat,
    i: int,
)
    requires
        ascending(peaks),
        0 <= i,
    ensures
        ({
            let acc = suppressed_from(peaks, strength, min_gap, i);
            &&& forall|k: int|
                0 <= k < acc.len() ==> exists|m: int| i <= m < peaks.len() && #[trigger] acc[k] == peaks[m]
            &&& forall|k: int| 0 <= k < acc.len() - 1 ==> #[trigger] acc[k] + min_gap < acc[k + 1]
        }),
    decreases peaks.len() - i,
{
    if i < peaks.len() {
        let (b, e) = scan_group(peaks, strength, min_gap, peaks[i] as int, i + 1);
        lemma_scan_group(peaks, strength, min_gap, peaks[i] as int, i + 1);
        lemma_accepted_onsets_are_spaced(peaks, strength, min_gap, e);
        let acc = suppressed_from(peaks, strength, min_gap, i);
        let rest = suppressed_from(peaks, strength, min_gap, e);
        assert(acc == seq![b as usize] + rest);
        assert(b == peaks[i] as int || exists|k: int| i + 1 <= k < e && 0 <= k < peaks.len() && b == peaks[k]);
        if rest.len() > 0 {
            let (b2, e2) = scan_group(peaks, strength, min_gap, peaks[e] as int, e + 1);
            lemma_scan_group(peaks, strength, min_gap, peaks[e] as int, e + 1);
            assert(rest[0] == b2 as usize);
            if b2 != peaks[e] as int {
                let k = choose|k: int| e + 1 <= k < e2 && 0 <= k < peaks.len() && b2 == peaks[k];
                assert(peaks[e] < peaks[k]);
            }
            assert(b + min_gap < b2);
        }
        assert forall|k: int| 0 <= k < acc.len() implies exists|m: int|
            i <= m < peaks.len() && #[trigger] acc[k] == peaks[m] by {
            if k == 0 {
                if b == peaks[i] as int {
                    assert(acc[0] == peaks[i]);
                } else {
                    let w = choose|w: int| i + 1 <= w < e && 0 <= w < peaks.len() && b == peaks[w];
                    assert(acc[0] == peaks[w]);
                }
            } else {
                assert(acc[k] == rest[k - 1]);
            }
        }
        assert forall|k: int| 0 <= k < acc.len() - 1 implies #[trigger] acc[k] + min_gap < acc[k + 1] by {
            if k > 0 {
                assert(acc[k] == rest[k - 1]);
                assert(acc[k + 1] == rest[k]);
            }
        }
    }
}

/// Keeps the strongest peak of each cluster: scanning ascending peaks, a
/// peak within `min_gap` frames of the current cluster's strongest joins
/// that cluster (taking over when strictly stronger); the first peak
/// further away opens the next cluster.
pub fn suppress_close_peaks(peaks: &Vec<usize>, strength: &Vec<u64>, min_gap: usize) -> (accepted:
    Vec<usize>)
    requires
        ascending(peaks@),
        forall|k: int| 0 <= k < peaks@.len() ==> #[trigger] peaks@[k] < strength@.len(),
    ensures
        accepted@ == suppressed_from(peaks@, strength@, min_gap as nat, 0),
        forall|m: int|
            0 <= m < peaks@.len() && !accepted@.contains(#[trigger] peaks@[m]) ==> has_rival(
                peaks@,
                strength@,
                min_gap as nat,
                m,
            ),
        forall|k: int| 0 <= k < accepted@.len() - 1 ==> #[trigger] accepted@[k] + min_gap < accepted@[k + 1],
{
    proof {
        lemma_suppressed_peaks_have_rivals(peaks@, strength@, min_gap as nat, 0);
        lemma_accepted_onsets_are_spaced(peaks@, strength@, min_gap as nat, 0);
    }
    let n = peaks.len();
    let mut accepted: Vec<usize> = Vec::new();
    let mut i: usize = 0;
    while i < n
        invariant
            n == peaks@.len(),
            ascending(peaks@),
            forall|k: int| 0 <= k < peaks@.len() ==> #[trigger] peaks@[k] < strength@.len(),
            i <= n,
            suppressed_from(peaks@, strength@, min_gap as nat, 0) == accepted@ + suppressed_from(
                peaks@,
                strength@,
                min_gap as nat,
                i as int,
            ),
        decreases n - i,
    {
        let mut best = peaks[i];
        let mut j = i + 1;
        proof {
            lemma_scan_group(peaks@, strength@, min_gap as nat, peaks@[i as int] as int, i + 1);
        }
        while j < n && peaks[j] - best <= min_gap
            invariant
                n == peaks@.len(),
                ascending(peaks@),
                forall|k: int| 0 <= k < peaks@.len() ==> #[trigger] peaks@[k] < strength@.len(),
                i < j <= n,
                best <= peaks@[j - 1],
                best < strength@.len(),
                scan_group(peaks@, strength@, min_gap as nat, best as int, j as int) == scan_group(
                    peaks@,
                    strength@,
                    min_gap as nat,
                    peaks@[i as int] as int,
                    i + 1,
                ),
            decreases n - j,
        {
            proof {
                assert(peaks@[j - 1] < peaks@[j as int]);
            }
            if strength[peaks[j]] > strength[best] {
                best = peaks[j];
            }
            j += 1;
        }
        proof {
            if j < n {
                assert(peaks@[j - 1] < peaks@[j as int]);
            }
            let ghost pair = scan_group(peaks@, strength@, min_gap as nat, peaks@[i as int] as int, i + 1);
            assert(pair == (best as int, j as int));
            assert(suppressed_from(peaks@, strength@, min_gap as nat, i as int) == seq![best]
                + suppressed_from(peaks@, strength@, min_gap as nat, j as int));
        }
        accepted.push(best);
        proof {
            assert(accepted@ + suppressed_from(peaks@, strength@, min_gap as nat, j as int)
                =~= (accepted@.drop_last() + seq![best]) + suppressed_from(
                peaks@,
                strength@,
                min_gap as nat,
                j as int,
            ));
        }
        i = j;
    }
    proof {
        assert(accepted@ + suppressed_from(peaks@, strength@, min_gap as nat, n as int) =~= accepted@);
    }
    accepted
}

} // verus!
