//! Chord vocabulary and the run logic of the chord timeline: qualities and
//! their lead-sheet symbols, short-run smoothing of per-frame chord labels,
//! and the maximal labeled runs that become chord spans.
//!
//! A label carries a per-frame payload (the match strength); runs compare
//! root and quality only, never the payload.

use vstd::prelude::*;
use crate::report::PitchClass;

verus! {

/// The quality of a detected chord, relative to its root.
#[derive(Debug, Clone, Copy, PartialEq, Eq, Hash, Structural)]
pub enum ChordQuality {
    Major,
    Minor,
    Dominant7,
    Major7,
    Minor7,
    Diminished,
    Augmented,
    Sus4,
}

impl ChordQuality {
    /// The chord tones as semitone offsets above the root.
    pub open spec fn spec_intervals(self) -> Seq<usize> {
        match self {
            ChordQuality::Major => seq![0usize, 4, 7],
            ChordQuality::Minor => seq![0usize, 3, 7],
            ChordQuality::Dominant7 => seq![0usize, 4, 7, 10],
            ChordQuality::Major7 => seq![0usize, 4, 7, 11],
            ChordQuality::Minor7 => seq![0usize, 3, 7, 10],
            ChordQuality::Diminished => seq![0usize, 3, 6],
            ChordQuality::Augmented => seq![0usize, 4, 8],
            ChordQuality::Sus4 => seq![0usize, 5, 7],
        }
    }

    /// Lead-sheet suffix appended to the root name.
    pub open spec fn spec_suffix(self) -> Seq<char> {
        match self {
            ChordQuality::Major => ""@,
            ChordQuality::Minor => "m"@,
            ChordQuality::Dominant7 => "7"@,
            ChordQuality::Major7 => "maj7"@,
            ChordQuality::Minor7 => "m7"@,
            ChordQuality::Diminished => "dim"@,
            ChordQuality::Augmented => "aug"@,
            ChordQuality::Sus4 => "sus4"@,
        }
    }

    /// The chord tones as semitone offsets above the root.
    pub fn intervals(self) -> (r: &'static [usize])
        ensures
            r@ == self.spec_intervals(),
    {
        match self {
            ChordQuality::Major => &[0, 4, 7],
            ChordQuality::Minor => &[0, 3, 7],
            ChordQuality::Dominant7 => &[0, 4, 7, 10],
            ChordQuality::Major7 => &[0, 4, 7, 11],
            ChordQuality::Minor7 => &[0, 3, 7, 10],
            ChordQuality::Diminished => &[0, 3, 6],
            ChordQuality::Augmented => &[0, 4, 8],
            ChordQuality::Sus4 => &[0, 5, 7],
        }
    }

    /// Lead-sheet suffix: `""` for a plain major triad, `m` for minor, `7`
    /// for dominant seventh, and so on.
    pub fn suffix(self) -> (r: &'static str)
        ensures
            r@ == self.spec_suffix(),
    {
        match self {
            ChordQuality::Major => "",
            ChordQuality::Minor => "m",
            ChordQuality::Dominant7 => "7",
            ChordQuality::Major7 => "maj7",
            ChordQuality::Minor7 => "m7",
            ChordQuality::Diminished => "dim",
            ChordQuality::Augmented => "aug",
            ChordQuality::Sus4 => "sus4",
        }
    }

    /// Every quality the detector considers, in template-preference order
    /// (triads before their seventh extensions).
    pub fn preference_order() -> (r: [ChordQuality; 8])
        ensures
            r@ == seq![
                ChordQuality::Major,
                ChordQuality::Minor,
                ChordQuality::Diminished,
                ChordQuality::Augmented,
                ChordQuality::Sus4,
                ChordQuality::Dominant7,
                ChordQuality::Major7,
                ChordQuality::Minor7,
            ],
    {
        let r = [
            ChordQuality::Major,
            ChordQuality::Minor,
            ChordQuality::Diminished,
            ChordQuality::Augmented,
            ChordQuality::Sus4,
            ChordQuality::Dominant7,
            ChordQuality::Major7,
            ChordQuality::Minor7,
        ];
        assert(r@ =~= seq![
            ChordQuality::Major,
            ChordQuality::Minor,
            ChordQuality::Diminished,
            ChordQuality::Augmented,
            ChordQuality::Sus4,
            ChordQuality::Dominant7,
            ChordQuality::Major7,
            ChordQuality::Minor7,
        ]);
        r
    }
}

/// Lead-sheet symbol: root name followed by the quality suffix (`"C"`,
/// `"Am"`, `"G7"`, `"Fmaj7"`).
pub fn chord_symbol(root: PitchClass, quality: ChordQuality) -> (r: String)
    ensures
        r@ == root.spec_name() + quality.spec_suffix(),
{
    let mut out = String::new();
    out.append(root.name());
    out.append(quality.suffix());
    out
}

/// A per-frame chord label: `Some((root, quality, strength))`, or `None`
/// for a gap (silence or an atonal passage).
pub type ChordLabel<T> = Option<(usize, ChordQuality, T)>;

/// Two labels are the same for run-merging when both are gaps or both name
/// the same root and quality.
pub open spec fn same_spec<T>(a: ChordLabel<T>, b: ChordLabel<T>) -> bool {
    match (a, b) {
        (None, None) => true,
        (Some(x), Some(y)) => x.0 == y.0 && x.1 == y.1,
        _ => false,
    }
}

/// First index of the maximal same-label run containing `i`.
pub open spec fn run_start<T>(s: Seq<ChordLabel<T>>, i: int) -> int
    decreases i,
{
    if i > 0 && same_spec(s[i - 1], s[i]) {
        run_start(s, i - 1)
    } else {
        i
    }
}

/// One past the last index of the maximal same-label run containing `i`.
pub open spec fn run_end<T>(s: Seq<ChordLabel<T>>, i: int) -> int
    decreases s.len() - i,
{
    if 0 <= i && i + 1 < s.len() && same_spec(s[i], s[i + 1]) {
        run_end(s, i + 1)
    } else {
        i + 1
    }
}

/// The last labeled index strictly before `i`, if any.
pub open spec fn last_labeled_before<T>(s: Seq<ChordLabel<T>>, i: int) -> Option<int>
    decreases i,
{
    if i <= 0 {
        None
    } else if s[i - 1] is Some {
        Some(i - 1)
    } else {
        last_labeled_before(s, i - 1)
    }
}

/// The first labeled index at or after `i`, if any.
pub open spec fn first_labeled_from<T>(s: Seq<ChordLabel<T>>, i: int) -> Option<int>
    decreases s.len() - i,
{
    if i < 0 || i >= s.len() {
        None
    } else if s[i] is Some {
        Some(i)
    } else {
        first_labeled_from(s, i + 1)
    }
}

/// The smoothed label at `i`: a labeled run shorter than `min_run` takes
/// the label that opens the nearest labeled run before it, or else the
/// nearest labeled run after it; gaps and long-enough runs are kept.
pub open spec fn smoothed_at<T>(s: Seq<ChordLabel<T>>, min_run: nat, i: int) -> ChordLabel<T> {
    if s[i] is Some && run_end(s, i) - run_start(s, i) < min_run {
        match last_labeled_before(s, run_start(s, i)) {
            Some(j) => s[run_start(s, j)],
            None => match first_labeled_from(s, run_end(s, i)) {
                Some(j) => s[j],
                None => s[i],
            },
        }
    } else {
        s[i]
    }
}

/// The whole smoothed label sequence.
pub open spec fn smoothed<T>(s: Seq<ChordLabel<T>>, min_run: nat) -> Seq<ChordLabel<T>> {
    Seq::new(s.len(), |i: int| smoothed_at(s, min_run, i))
}

/// The maximal labeled runs from index `i` on, as `(start, end)` pairs
/// (`end` exclusive): one entry at each index that opens a labeled run.
pub open spec fn labeled_runs_from<T>(s: Seq<ChordLabel<T>>, i: int) -> Seq<(usize, usize)>
    decreases s.len() - i,
{
    if i < 0 || i >= s.len() {
        Seq::empty()
    } else if s[i] is None || (i > 0 && same_spec(s[i - 1], s[i])) {
        labeled_runs_from(s, i + 1)
    } else {
        seq![(i as usize, run_end(s, i) as usize)] + labeled_runs_from(s, i + 1)
    }
}

/// Whether two labels name the same chord (or are both gaps); the match
/// strength is ignored.
pub fn same_label<T: Copy>(a: &ChordLabel<T>, b: &ChordLabel<T>) -> (r: bool)
    ensures
        r == same_spec(*a, *b),
{
    match (a, b) {
        (None, None) => true,
        (Some((ra, qa, _)), Some((rb, qb, _))) => *ra == *rb && *qa == *qb,
        _ => false,
    }
}

/// `run_start` is the same for every index of a run whose opening index
/// starts a run and whose members all match the opener.
proof fn lemma_run_start_const<T>(s: Seq<ChordLabel<T>>, a: int, p: int)
    requires
        0 <= a <= p < s.len(),
        a == 0 || !same_spec(s[a - 1], s[a]),
        forall|q: int| a <= q <= p ==> same_spec(s[a], #[trigger] s[q]),
    ensures
        run_start(s, p) == a,
    decreases p - a,
{
    if p > a {
        assert(same_spec(s[a], s[p - 1]));
        assert(same_spec(s[a], s[p]));
        lemma_run_start_const(s, a, p - 1);
    }
}

/// `run_end` is the same for every index of a run that ends at `e`.
proof fn lemma_run_end_const<T>(s: Seq<ChordLabel<T>>, p: int, e: int)
    requires
        0 <= p < e <= s.len(),
        e == s.len() || !same_spec(s[e - 1], s[e]),
        forall|q: int| p <= q < e ==> same_spec(s[p], #[trigger] s[q]),
    ensures
        run_end(s, p) == e,
    decreases e - p,
{
    if p + 1 < e {
        assert(same_spec(s[p], s[p + 1]));
        assert forall|q: int| p + 1 <= q < e implies same_spec(s[p + 1], #[trigger] s[q]) by {
            assert(same_spec(s[p], s[q]));
        }
        lemma_run_end_const(s, p + 1, e);
    }
}

/// Finds the end of the run that opens at `i`.
fn run_end_from<T: Copy>(s: &Vec<ChordLabel<T>>, i: usize) -> (e: usize)
    requires
        i < s@.len(),
    ensures
        i < e <= s@.len(),
        e == s@.len() || !same_spec(s@[e - 1], s@[e as int]),
        forall|q: int| i <= q < e ==> same_spec(s@[i as int], #[trigger] s@[q]),
{
    let n = s.len();
    let mut j: usize = i + 1;
    while j < n && same_label(&s[j - 1], &s[j])
        invariant
            n == s@.len(),
            i < j <= n,
            forall|q: int| i <= q < j ==> same_spec(s@[i as int], #[trigger] s@[q]),
        decreases n - j,
    {
        assert(same_spec(s@[i as int], s@[j - 1]));
        j += 1;
    }
    j
}

/// Index of the label that opens the run containing `j`.
fn run_start_of<T: Copy>(s: &Vec<ChordLabel<T>>, j: usize) -> (k: usize)
    requires
        j < s@.len(),
    ensures
        k <= j,
        k as int == run_start(s@, j as int),
{
    let mut k: usize = j;
    while k > 0 && same_label(&s[k - 1], &s[k])
        invariant
            k <= j < s@.len(),
            run_start(s@, j as int) == run_start(s@, k as int),
        decreases k,
    {
        k -= 1;
    }
    k
}

/// The last labeled index strictly before `i`.
fn last_labeled_before_exec<T: Copy>(s: &Vec<ChordLabel<T>>, i: usize) -> (r: Option<usize>)
    requires
        i <= s@.len(),
    ensures
        match r {
            Some(j) => last_labeled_before(s@, i as int) == Some(j as int) && j < i,
            None => last_labeled_before(s@, i as int) is None,
        },
{
    let mut k: usize = i;
    while k > 0 && s[k - 1].is_none()
        invariant
            k <= i <= s@.len(),
            last_labeled_before(s@, i as int) == last_labeled_before(s@, k as int),
        decreases k,
    {
        k -= 1;
    }
    if k == 0 {
        None
    } else {
        Some(k - 1)
    }
}

/// The first labeled index at or after `i`.
fn first_labeled_from_exec<T: Copy>(s: &Vec<ChordLabel<T>>, i: usize) -> (r: Option<usize>)
    requires
        i <= s@.len(),
    ensures
        match r {
            Some(j) => first_labeled_from(s@, i as int) == Some(j as int) && i <= j < s@.len(),
            None => first_labeled_from(s@, i as int) is None,
        },
{
    let n = s.len();
    let mut k: usize = i;
    while k < n && s[k].is_none()
        invariant
            i <= k <= n,
            n == s@.len(),
            first_labeled_from(s@, i as int) == first_labeled_from(s@, k as int),
        decreases n - k,
    {
        k += 1;
    }
    if k == n {
        None
    } else {
        Some(k)
    }
}

/// Absorbs labeled runs shorter than `min_run` frames into the run before
/// them (or, for a short leading run, the one after), so a held chord isn't
/// shattered by a one-frame wobble. Gaps are never absorbed.
pub fn smooth_runs<T: Copy>(labels: &mut Vec<ChordLabel<T>>, min_run: usize)
    ensures
        final(labels)@ == smoothed(old(labels)@, min_run as nat),
{
    let ghost s = labels@;
    let n = labels.len();
    let mut out: Vec<ChordLabel<T>> = Vec::new();
    let mut i: usize = 0;
    while i < n
        invariant
            s == labels@,
            n == s.len(),
            i <= n,
            i == 0 || i == n || !same_spec(s[i - 1], s[i as int]),
            out@.len() == i,
            forall|p: int| 0 <= p < i ==> #[trigger] out@[p] == smoothed_at(s, min_run as nat, p),
        decreases n - i,
    {
        let end = run_end_from(labels, i);
        let labeled = labels[i].is_some();
        let short = labeled && end - i < min_run;
        let mut replacement: Option<ChordLabel<T>> = None;
        if short {
            match last_labeled_before_exec(labels, i) {
                Some(j) => {
                    let k = run_start_of(labels, j);
                    replacement = Some(labels[k]);
                },
                None => match first_labeled_from_exec(labels, end) {
                    Some(j) => {
                        replacement = Some(labels[j]);
                    },
                    None => {},
                },
            }
        }
        let mut p: usize = i;
        while p < end
            invariant
                s == labels@,
                n == s.len(),
                i <= p <= end <= n,
                i < end,
                i == 0 || !same_spec(s[i - 1], s[i as int]),
                end == n || !same_spec(s[end - 1], s[end as int]),
                forall|q: int| i <= q < end ==> same_spec(s[i as int], #[trigger] s[q]),
                labeled == (s[i as int] is Some),
                short == (labeled && end - i < min_run),
                short ==> match last_labeled_before(s, i as int) {
                    Some(j) => replacement == Some(s[run_start(s, j)]),
                    None => match first_labeled_from(s, end as int) {
                        Some(j) => replacement == Some(s[j]),
                        None => replacement is None,
                    },
                },
                !short ==> replacement is None,
                out@.len() == p,
                forall|q: int| 0 <= q < p ==> #[trigger] out@[q] == smoothed_at(s, min_run as nat, q),
            decreases end - p,
        {
            proof {
                assert(same_spec(s[i as int], s[p as int]));
                lemma_run_start_const(s, i as int, p as int);
                assert forall|q: int| p <= q < end implies same_spec(s[p as int], #[trigger] s[q]) by {
                    assert(same_spec(s[i as int], s[q]));
                }
                lemma_run_end_const(s, p as int, end as int);
            }
            match replacement {
                Some(r) => out.push(r),
                None => out.push(labels[p]),
            }
            p += 1;
        }
        i = end;
    }
    proof {
        assert(out@ =~= smoothed(s, min_run as nat));
    }
    *labels = out;
}

/// The maximal labeled runs of `labels` as `(start, end)` frame ranges
/// (`end` exclusive), ascending; gaps separate runs and never appear in one.
pub fn chord_runs<T: Copy>(labels: &Vec<ChordLabel<T>>) -> (runs: Vec<(usize, usize)>)
    ensures
        runs@ == labeled_runs_from(labels@, 0),
        are_chord_runs(labels@, runs@),
{
    let ghost s = labels@;
    let n = labels.len();
    proof {
        lemma_chord_runs_are_the_chord_spans(labels@);
    }
    let mut runs: Vec<(usize, usize)> = Vec::new();
    let mut i: usize = 0;
    while i < n
        invariant
            s == labels@,
            n == s.len(),
            i <= n,
            i == 0 || i == n || !same_spec(s[i - 1], s[i as int]),
            labeled_runs_from(s, 0) == runs@ + labeled_runs_from(s, i as int),
        decreases n - i,
    {
        let end = run_end_from(labels, i);
        proof {
            lemma_run_end_const(s, i as int, end as int);
            lemma_runs_skip_inside(s, i as int, end as int);
        }
        if labels[i].is_some() {
            runs.push((i, end));
            proof {
                assert(labeled_runs_from(s, i as int) == seq![(i, end)] + labeled_runs_from(
                    s,
                    i + 1,
                ));
                assert(runs@ + labeled_runs_from(s, end as int) =~= (runs@.drop_last() + seq![
                    (i, end),
                ]) + labeled_runs_from(s, end as int));
            }
        } else {
            proof {
                assert(labeled_runs_from(s, i as int) == labeled_runs_from(s, i + 1));
            }
        }
        i = end;
    }
    proof {
        assert(labeled_runs_from(s, n as int) =~= Seq::<(usize, usize)>::empty());
        assert(runs@ + Seq::<(usize, usize)>::empty() =~= runs@);
    }
    runs
}

/// `(a, b)` is a chord span of `s` starting at or after frame `i`: a
/// non-empty stretch of frames carrying one chord, extended as far as that
/// chord goes on both sides.
#[verifier::opaque]
pub open spec fn is_chord_span<T>(s: Seq<ChordLabel<T>>, i: int, r: (usize, usize)) -> bool {
    let (a, b) = r;
    &&& i <= a < b <= s.len()
    &&& s[a as int] is Some
    &&& forall|q: int| a <= q < b ==> same_spec(s[a as int], #[trigger] s[q])
    &&& a == 0 || !same_spec(s[a - 1], s[a as int])
    &&& b == s.len() || !same_spec(s[b - 1], s[b as int])
}

/// `runs` are the chord spans of the frames of `s` from `i` on: each a
/// chord span, in frame order without overlap, and every labeled frame from
/// `i` on lies in one of them.
pub open spec fn are_chord_runs_from<T>(s: Seq<ChordLabel<T>>, i: int, runs: Seq<(usize, usize)>) -> bool {
    &&& forall|k: int| 0 <= k < runs.len() ==> is_chord_span(s, i, #[trigger] runs[k])
    &&& forall|k: int| 0 <= k < runs.len() - 1 ==> #[trigger] runs[k].1 <= runs[k + 1].0
    &&& forall|q: int|
        i <= q < s.len() && #[trigger] s[q] is Some ==> exists|k: int|
            0 <= k < runs.len() && #[trigger] runs[k].0 <= q < runs[k].1
}

/// `runs` are the chord spans of `s`: nothing labeled is left out, no span
/// stops short of where its chord does, and gaps never appear in one.
pub open spec fn are_chord_runs<T>(s: Seq<ChordLabel<T>>, runs: Seq<(usize, usize)>) -> bool {
    are_chord_runs_from(s, 0, runs)
}

/// The run through `i` reaches `run_end(s, i)`: every frame up to it
/// carries the same chord as `i`, and the next one does not.
proof fn lemma_run_end_props<T>(s: Seq<ChordLabel<T>>, i: int)
    requires
        0 <= i < s.len(),
    ensures
        i < run_end(s, i) <= s.len(),
        forall|q: int| i <= q < run_end(s, i) ==> same_spec(s[i], #[trigger] s[q]),
        run_end(s, i) == s.len() || !same_spec(s[run_end(s, i) - 1], s[run_end(s, i)]),
    decreases s.len() - i,
{
    if i + 1 < s.len() && same_spec(s[i], s[i + 1]) {
        lemma_run_end_props(s, i + 1);
        assert forall|q: int| i <= q < run_end(s, i) implies same_spec(s[i], #[trigger] s[q]) by {
            if q > i {
                assert(same_spec(s[i + 1], s[q]));
            }
        }
    }
}

/// Prepending the span that opens at boundary `i` to the spans from its end.
proof fn lemma_prepend_span<T>(s: Seq<ChordLabel<T>>, i: int, e: int, rest: Seq<(usize, usize)>)
    requires
        s.len() <= usize::MAX,
        0 <= i < e <= s.len(),
        s[i] is Some,
        forall|q: int| i <= q < e ==> same_spec(s[i], #[trigger] s[q]),
        i == 0 || !same_spec(s[i - 1], s[i]),
        e == s.len() || !same_spec(s[e - 1], s[e]),
        are_chord_runs_from(s, e, rest),
    ensures
        are_chord_runs_from(s, i, seq![(i as usize, e as usize)] + rest),
{
    let runs = seq![(i as usize, e as usize)] + rest;
    assert(is_chord_span(s, i, runs[0])) by {
        reveal(is_chord_span);
    }
    assert forall|k: int| 0 <= k < runs.len() implies is_chord_span(s, i, #[trigger] runs[k]) by {
        if k > 0 {
            assert(runs[k] == rest[k - 1]);
            assert(is_chord_span(s, e, rest[k - 1]));
            reveal(is_chord_span);
        }
    }
    assert forall|k: int| 0 <= k < runs.len() - 1 implies #[trigger] runs[k].1 <= runs[k + 1].0 by {
        assert(runs[k + 1] == rest[k]);
        if k > 0 {
            assert(runs[k] == rest[k - 1]);
            let j = k - 1;
            assert(rest[j].1 <= rest[j + 1].0);
        } else {
            assert(is_chord_span(s, e, rest[0]));
            reveal(is_chord_span);
        }
    }
    assert forall|q: int| i <= q < s.len() && #[trigger] s[q] is Some implies exists|k: int|
        0 <= k < runs.len() && #[trigger] runs[k].0 <= q < runs[k].1 by {
        if q < e {
            assert(runs[0].0 <= q < runs[0].1);
        } else {
            let k = choose|k: int| 0 <= k < rest.len() && #[trigger] rest[k].0 <= q < rest[k].1;
            assert(runs[k + 1] == rest[k]);
        }
    }
}

/// From a run boundary `i` on, the listed runs are the chord spans of the
/// frames from `i`.
proof fn lemma_runs_from_boundary<T>(s: Seq<ChordLabel<T>>, i: int)
    requires
        0 <= i <= s.len(),
        s.len() <= usize::MAX,
        i == 0 || i == s.len() || !same_spec(s[i - 1], s[i]),
    ensures
        are_chord_runs_from(s, i, labeled_runs_from(s, i)),
    decreases s.len() - i,
{
    if i < s.len() {
        lemma_run_end_props(s, i);
        let e = run_end(s, i);
        lemma_runs_skip_inside(s, i, e);
        lemma_runs_from_boundary(s, e);
        let rest = labeled_runs_from(s, e);
        let runs = labeled_runs_from(s, i);
        if s[i] is None {
            assert(runs == rest);
            assert forall|k: int| 0 <= k < runs.len() implies is_chord_span(s, i, #[trigger] runs[k]) by {
                assert(is_chord_span(s, e, rest[k]));
                reveal(is_chord_span);
            }
            assert forall|q: int| i <= q < s.len() && #[trigger] s[q] is Some implies exists|k: int|
                0 <= k < runs.len() && #[trigger] runs[k].0 <= q < runs[k].1 by {
                if q < e {
                    assert(same_spec(s[i], s[q]));
                }
            }
        } else {
            assert(runs == seq![(i as usize, e as usize)] + rest);
            lemma_prepend_span(s, i, e, rest);
        }
    } else {
        assert(labeled_runs_from(s, i) =~= Seq::<(usize, usize)>::empty());
    }
}

/// The chord spans are the maximal one-chord stretches of labeled frames:
/// nothing labeled is left out, no span stops short of where its chord
/// does, and gaps never appear in one.
pub proof fn lemma_chord_runs_are_the_chord_spans<T>(s: Seq<ChordLabel<T>>)
    requires
        s.len() <= usize::MAX,
    ensures
        are_chord_runs(s, labeled_runs_from(s, 0)),
{
    lemma_runs_from_boundary(s, 0);
}

/// Inside a run, no new run opens: the runs listed from just past the
/// opener equal those listed from the run's end.
proof fn lemma_runs_skip_inside<T>(s: Seq<ChordLabel<T>>, i: int, end: int)
    requires
        0 <= i < end <= s.len(),
        forall|q: int| i <= q < end ==> same_spec(s[i], #[trigger] s[q]),
    ensures
        labeled_runs_from(s, i + 1) == labeled_runs_from(s, end),
    decreases end - i,
{
    if i + 1 < end {
        assert(same_spec(s[i], s[i + 1]));
        assert forall|q: int| i + 1 <= q < end implies same_spec(s[i + 1], #[trigger] s[q]) by {
            assert(same_spec(s[i], s[q]));
        }
        lemma_runs_skip_inside(s, i + 1, end);
    }
}

/// A run opened from a labeled frame is opened by a labeled frame.
proof fn lemma_run_start_labeled<T>(s: Seq<ChordLabel<T>>, j: int)
    requires
        0 <= j < s.len(),
        s[j] is Some,
    ensures
        0 <= run_start(s, j) <= j,
        s[run_start(s, j)] is Some,
    decreases j,
{
    if j > 0 && same_spec(s[j - 1], s[j]) {
        lemma_run_start_labeled(s, j - 1);
    }
}

/// `last_labeled_before` finds a labeled frame before `i`.
proof fn lemma_last_labeled_before<T>(s: Seq<ChordLabel<T>>, i: int)
    requires
        i <= s.len(),
    ensures
        last_labeled_before(s, i) matches Some(j) ==> 0 <= j < i && s[j] is Some,
    decreases i,
{
    if i > 0 && s[i - 1] is None {
        lemma_last_labeled_before(s, i - 1);
    }
}

/// `first_labeled_from` finds a labeled frame at or after `i`.
proof fn lemma_first_labeled_from<T>(s: Seq<ChordLabel<T>>, i: int)
    ensures
        first_labeled_from(s, i) matches Some(j) ==> i <= j < s.len() && s[j] is Some,
    decreases s.len() - i,
{
    if 0 <= i < s.len() && s[i] is None {
        lemma_first_labeled_from(s, i + 1);
    }
}

/// A run's bounds straddle each of its frames.
proof fn lemma_run_bounds<T>(s: Seq<ChordLabel<T>>, i: int)
    requires
        0 <= i < s.len(),
    ensures
        0 <= run_start(s, i) <= i < run_end(s, i) <= s.len(),
    decreases s.len() - i,
{
    lemma_run_start_bounds(s, i);
    if i + 1 < s.len() && same_spec(s[i], s[i + 1]) {
        lemma_run_bounds(s, i + 1);
    }
}

proof fn lemma_run_start_bounds<T>(s: Seq<ChordLabel<T>>, i: int)
    requires
        0 <= i < s.len(),
    ensures
        0 <= run_start(s, i) <= i,
    decreases i,
{
    if i > 0 && same_spec(s[i - 1], s[i]) {
        lemma_run_start_bounds(s, i - 1);
    }
}

/// Smoothing never fills a gap and never opens one: a frame is unlabeled
/// after smoothing exactly when it was unlabeled before.
pub proof fn lemma_smoothing_keeps_gaps<T>(s: Seq<ChordLabel<T>>, min_run: nat, i: int)
    requires
        0 <= i < s.len(),
    ensures
        (smoothed(s, min_run)[i] is None) == (s[i] is None),
{
    lemma_run_bounds(s, i);
    lemma_last_labeled_before(s, run_start(s, i));
    lemma_first_labeled_from(s, run_end(s, i));
    if let Some(j) = last_labeled_before(s, run_start(s, i)) {
        lemma_run_start_labeled(s, j);
    }
}

/// A chord already held for at least `min_run` frames is left as it is.
pub proof fn lemma_long_runs_untouched<T>(s: Seq<ChordLabel<T>>, min_run: nat, i: int)
    requires
        0 <= i < s.len(),
        run_end(s, i) - run_start(s, i) >= min_run,
    ensures
        smoothed(s, min_run)[i] == s[i],
{
}

/// Smoothing invents no chord: every label it leaves is one that some
/// frame carried before.
pub proof fn lemma_smoothing_invents_no_label<T>(s: Seq<ChordLabel<T>>, min_run: nat, i: int)
    requires
        0 <= i < s.len(),
    ensures
        exists|j: int| 0 <= j < s.len() && #[trigger] s[j] == smoothed(s, min_run)[i],
{
    lemma_run_bounds(s, i);
    lemma_last_labeled_before(s, run_start(s, i));
    lemma_first_labeled_from(s, run_end(s, i));
    if let Some(j) = last_labeled_before(s, run_start(s, i)) {
        lemma_run_start_labeled(s, j);
    }
    let r = smoothed(s, min_run)[i];
    if s[i] is Some && run_end(s, i) - run_start(s, i) < min_run {
        match last_labeled_before(s, run_start(s, i)) {
            Some(j) => {
                assert(s[run_start(s, j)] == r);
            },
            None => match first_labeled_from(s, run_end(s, i)) {
                Some(j) => {
                    assert(s[j] == r);
                },
                None => {
                    assert(s[i] == r);
                },
            },
        }
    } else {
        assert(s[i] == r);
    }
}

} // verus!
