//! The verdict of a feature-space comparison between two analyses, its text
//! and wire spellings, and the integer structure delta.

use vstd::prelude::*;
use crate::text::{join, joined};

verus! {

/// How close two analyses are, in the determinism-contract vocabulary.
#[derive(Debug, Clone, PartialEq)]
pub enum Verdict {
    /// Same PCM, sample rate and channel count.
    ByteIdentical,
    /// Every checked dimension inside the cross-platform tolerance.
    Tier2Equivalent,
    /// At least one dimension out of tolerance; each is named, in check order.
    Different { dimensions: Vec<String> },
}

/// Structure-detection delta, `b` relative to `a`.
#[derive(Debug, Clone, Copy)]
pub struct StructureDelta {
    pub section_count_delta: i64,
}

impl StructureDelta {
    /// `b_sections - a_sections`, as a signed count.
    pub fn between(a_sections: usize, b_sections: usize) -> (d: StructureDelta)
        requires
            a_sections <= i64::MAX,
            b_sections <= i64::MAX,
        ensures
            d.section_count_delta == b_sections - a_sections,
    {
        StructureDelta { section_count_delta: b_sections as i64 - a_sections as i64 }
    }
}

/// The outcome of each tolerance check, in the order they are reported.
#[derive(Debug, Clone, Copy)]
pub struct ToleranceChecks {
    /// Durations agree within a millisecond.
    pub duration_ok: bool,
    /// Integrated loudness agrees (both undefined, or within tolerance).
    pub loudness_ok: bool,
    /// Every onset matched within tolerance, none unmatched on either side.
    pub onsets_ok: bool,
    /// Voicing agrees and the median pitch is within tolerance.
    pub pitch_ok: bool,
    /// Tonic and mode agree.
    pub key_ok: bool,
}

/// Names of the failed checks, in check order.
pub open spec fn failed_dimensions(c: ToleranceChecks) -> Seq<Seq<char>> {
    let d1: Seq<Seq<char>> = if c.duration_ok { Seq::empty() } else { seq!["duration"@] };
    let d2 = if c.loudness_ok { d1 } else { d1.push("loudness"@) };
    let d3 = if c.onsets_ok { d2 } else { d2.push("onsets"@) };
    let d4 = if c.pitch_ok { d3 } else { d3.push("pitch"@) };
    if c.key_ok { d4 } else { d4.push("key"@) }
}

/// The dimension names of a verdict as character sequences.
pub open spec fn dimension_views(dimensions: Vec<String>) -> Seq<Seq<char>> {
    dimensions@.map_values(|s: String| s@)
}

/// How an identity flag and the tolerance checks decide the comparison.
/// Byte identity wins; otherwise equivalence holds exactly when every check
/// is within tolerance.
pub open spec fn spec_verdict(byte_identical: bool, c: ToleranceChecks, v: Verdict) -> bool {
    if byte_identical {
        v is ByteIdentical
    } else if failed_dimensions(c).len() == 0 {
        v is Tier2Equivalent
    } else {
        v matches Verdict::Different { dimensions } && dimension_views(dimensions)
            == failed_dimensions(c)
    }
}

/// The identity flag settles only whether the samples are the same: with
/// it the comparison reads byte-identical whatever the checks say; without
/// it it never does, and reads equivalent exactly when every check is within
/// tolerance.
pub proof fn lemma_identity_flag_settles_only_identity(
    c: ToleranceChecks,
    with_flag: Verdict,
    without_flag: Verdict,
)
    requires
        spec_verdict(true, c, with_flag),
        spec_verdict(false, c, without_flag),
    ensures
        with_flag is ByteIdentical,
        !(without_flag is ByteIdentical),
        without_flag is Tier2Equivalent <==> (c.duration_ok && c.loudness_ok && c.onsets_ok
            && c.pitch_ok && c.key_ok),
{
}

fn push_name(v: &mut Vec<String>, name: &str)
    ensures
        final(v)@.map_values(|s: String| s@) == old(v)@.map_values(|s: String| s@).push(name@),
{
    let ghost before = v@;
    v.push(String::from_str(name));
    assert(v@.map_values(|s: String| s@) =~= before.map_values(|s: String| s@).push(name@));
}

/// How two analyses compare, as [`spec_verdict`] defines it: identical
/// samples first, then agreement within every tolerance, else the list of
/// dimensions that disagree (`duration`, `loudness`, `onsets`, `pitch`,
/// `key`, in that order).
pub fn verdict_from_checks(byte_identical: bool, checks: ToleranceChecks) -> (v: Verdict)
    ensures
        spec_verdict(byte_identical, checks, v),
{
    if byte_identical {
        return Verdict::ByteIdentical;
    }
    let mut dimensions: Vec<String> = Vec::new();
    assert(dimensions@.map_values(|s: String| s@) =~= Seq::<Seq<char>>::empty());
    if !checks.duration_ok {
        push_name(&mut dimensions, "duration");
    }
    if !checks.loudness_ok {
        push_name(&mut dimensions, "loudness");
    }
    if !checks.onsets_ok {
        push_name(&mut dimensions, "onsets");
    }
    if !checks.pitch_ok {
        push_name(&mut dimensions, "pitch");
    }
    if !checks.key_ok {
        push_name(&mut dimensions, "key");
    }
    if dimensions.len() == 0 {
        Verdict::Tier2Equivalent
    } else {
        Verdict::Different { dimensions }
    }
}

/// The one-line text form of a verdict.
pub open spec fn spec_verdict_text(v: Verdict) -> Seq<char> {
    match v {
        Verdict::ByteIdentical => "byte-identical"@,
        Verdict::Tier2Equivalent => "tier2-equivalent"@,
        Verdict::Different { dimensions } => "different ("@ + joined(
            dimension_views(dimensions),
            ", "@,
        ) + ")"@,
    }
}

/// `byte-identical`, `tier2-equivalent`, or `different (a, b, ...)`.
pub fn verdict_text(v: &Verdict) -> (r: String)
    ensures
        r@ == spec_verdict_text(*v),
{
    match v {
        Verdict::ByteIdentical => String::from_str("byte-identical"),
        Verdict::Tier2Equivalent => String::from_str("tier2-equivalent"),
        Verdict::Different { dimensions } => {
            let mut out = String::from_str("different (");
            let inner = join(dimensions, ", ");
            out.append(inner.as_str());
            out.append(")");
            out
        },
    }
}

/// The serde/display name of a verdict's kind.
pub open spec fn spec_verdict_name(v: Verdict) -> Seq<char> {
    match v {
        Verdict::ByteIdentical => "byte_identical"@,
        Verdict::Tier2Equivalent => "tier2_equivalent"@,
        Verdict::Different { .. } => "different"@,
    }
}

/// `byte_identical`, `tier2_equivalent`, or `different`.
pub fn verdict_name(v: &Verdict) -> (r: &'static str)
    ensures
        r@ == spec_verdict_name(*v),
{
    match v {
        Verdict::ByteIdentical => "byte_identical",
        Verdict::Tier2Equivalent => "tier2_equivalent",
        Verdict::Different { .. } => "different",
    }
}

/// Whether candidate pair `k` would reuse an onset already taken by one of
/// the first `k` decisions.
pub open spec fn conflicts(pairs: Seq<(usize, usize)>, taken: Seq<bool>, k: int) -> bool {
    exists|m: int|
        0 <= m < k && #[trigger] taken[m] && (pairs[m].0 == pairs[k].0 || pairs[m].1 == pairs[k].1)
}

/// The greedy decisions for the first `k` candidate pairs, taken in
/// priority order: a pair is taken unless one of its two onsets already is.
pub open spec fn greedy_taken(pairs: Seq<(usize, usize)>, k: int) -> Seq<bool>
    decreases k,
{
    if k <= 0 {
        Seq::empty()
    } else {
        let prev = greedy_taken(pairs, k - 1);
        prev.push(!conflicts(pairs, prev, k - 1))
    }
}

proof fn lemma_greedy_taken_len(pairs: Seq<(usize, usize)>, k: int)
    requires
        0 <= k,
    ensures
        greedy_taken(pairs, k).len() == k,
        forall|j: int, m: int|
            0 <= m < j <= k ==> #[trigger] greedy_taken(pairs, j)[m] == #[trigger] greedy_taken(
                pairs,
                k,
            )[m],
    decreases k,
{
    if k > 0 {
        lemma_greedy_taken_len(pairs, k - 1);
        assert forall|j: int, m: int| 0 <= m < j <= k implies #[trigger] greedy_taken(pairs, j)[m]
            == #[trigger] greedy_taken(pairs, k)[m] by {
            if j < k {
                assert(greedy_taken(pairs, k)[m] == greedy_taken(pairs, k - 1)[m]);
            }
        }
    }
}

/// The result of matching two onset lists: which candidate pairs were
/// taken, and which onsets of each side ended up matched.
#[derive(Debug)]
pub struct Pairing {
    pub taken: Vec<bool>,
    pub used_a: Vec<bool>,
    pub used_b: Vec<bool>,
}

/// Greedy one-to-one matching over candidate pairs `(a index, b index)`
/// already in priority order (shortest offset first): each pair is taken
/// unless one of its onsets is already matched. Marks which onsets of each
/// side were used.
pub fn greedy_matching(pairs: &Vec<(usize, usize)>, count_a: usize, count_b: usize) -> (p: Pairing)
    requires
        forall|k: int|
            0 <= k < pairs@.len() ==> (#[trigger] pairs@[k]).0 < count_a && pairs@[k].1 < count_b,
    ensures
        p.taken@ == greedy_taken(pairs@, pairs@.len() as int),
        forall|k: int|
            0 <= k < pairs@.len() && !(#[trigger] p.taken@[k]) ==> p.used_a@[pairs@[k].0 as int]
                || p.used_b@[pairs@[k].1 as int],
        p.used_a@.len() == count_a,
        p.used_b@.len() == count_b,
        forall|x: int|
            0 <= x < count_a ==> (#[trigger] p.used_a@[x] <==> exists|m: int|
                0 <= m < pairs@.len() && p.taken@[m] && #[trigger] pairs@[m].0 == x),
        forall|y: int|
            0 <= y < count_b ==> (#[trigger] p.used_b@[y] <==> exists|m: int|
                0 <= m < pairs@.len() && p.taken@[m] && #[trigger] pairs@[m].1 == y),
{
    let mut used_a: Vec<bool> = Vec::new();
    let mut x: usize = 0;
    while x < count_a
        invariant
            x <= count_a,
            used_a@.len() == x,
            forall|q: int| 0 <= q < x ==> !(#[trigger] used_a@[q]),
        decreases count_a - x,
    {
        used_a.push(false);
        x += 1;
    }
    let mut used_b: Vec<bool> = Vec::new();
    let mut y: usize = 0;
    while y < count_b
        invariant
            y <= count_b,
            used_b@.len() == y,
            forall|q: int| 0 <= q < y ==> !(#[trigger] used_b@[q]),
        decreases count_b - y,
    {
        used_b.push(false);
        y += 1;
    }
    let mut taken: Vec<bool> = Vec::new();
    let mut k: usize = 0;
    while k < pairs.len()
        invariant
            k <= pairs@.len(),
            forall|q: int|
                0 <= q < pairs@.len() ==> (#[trigger] pairs@[q]).0 < count_a && pairs@[q].1 < count_b,
            used_a@.len() == count_a,
            used_b@.len() == count_b,
            taken@ == greedy_taken(pairs@, k as int),
            forall|a: int|
                0 <= a < count_a ==> (#[trigger] used_a@[a] <==> exists|m: int|
                    0 <= m < k && taken@[m] && #[trigger] pairs@[m].0 == a),
            forall|b: int|
                0 <= b < count_b ==> (#[trigger] used_b@[b] <==> exists|m: int|
                    0 <= m < k && taken@[m] && #[trigger] pairs@[m].1 == b),
        decreases pairs@.len() - k,
    {
        proof {
            lemma_greedy_taken_len(pairs@, k as int);
        }
        let (i, j) = pairs[k];
        let free = !used_a[i] && !used_b[j];
        proof {
            if free {
                if conflicts(pairs@, taken@, k as int) {
                    let m = choose|m: int|
                        0 <= m < k && #[trigger] taken@[m] && (pairs@[m].0 == pairs@[k as int].0
                            || pairs@[m].1 == pairs@[k as int].1);
                    if pairs@[m].0 == i {
                        assert(used_a@[i as int]);
                    } else {
                        assert(used_b@[j as int]);
                    }
                }
            } else {
                if used_a[i as int] {
                    let m = choose|m: int| 0 <= m < k && taken@[m] && #[trigger] pairs@[m].0 == i;
                    assert(conflicts(pairs@, taken@, k as int));
                } else {
                    let m = choose|m: int| 0 <= m < k && taken@[m] && #[trigger] pairs@[m].1 == j;
                    assert(conflicts(pairs@, taken@, k as int));
                }
            }
        }
        let ghost before = taken@;
        taken.push(free);
        if free {
            used_a.set(i, true);
            used_b.set(j, true);
        }
        proof {
            assert(taken@ == greedy_taken(pairs@, k + 1));
            assert forall|a: int| 0 <= a < count_a implies (#[trigger] used_a@[a] <==> exists|m: int|
                0 <= m < k + 1 && taken@[m] && #[trigger] pairs@[m].0 == a) by {
                if exists|m: int| 0 <= m < k + 1 && taken@[m] && #[trigger] pairs@[m].0 == a {
                    let m = choose|m: int| 0 <= m < k + 1 && taken@[m] && #[trigger] pairs@[m].0 == a;
                    if m < k {
                        assert(before[m]);
                    }
                }
                if used_a@[a] && !(free && a == i) {
                    let m = choose|m: int| 0 <= m < k && before[m] && #[trigger] pairs@[m].0 == a;
                    assert(taken@[m]);
                }
                if free && a == i {
                    assert(taken@[k as int] && pairs@[k as int].0 == a);
                }
            }
            assert forall|b: int| 0 <= b < count_b implies (#[trigger] used_b@[b] <==> exists|m: int|
                0 <= m < k + 1 && taken@[m] && #[trigger] pairs@[m].1 == b) by {
                if exists|m: int| 0 <= m < k + 1 && taken@[m] && #[trigger] pairs@[m].1 == b {
                    let m = choose|m: int| 0 <= m < k + 1 && taken@[m] && #[trigger] pairs@[m].1 == b;
                    if m < k {
                        assert(before[m]);
                    }
                }
                if used_b@[b] && !(free && b == j) {
                    let m = choose|m: int| 0 <= m < k && before[m] && #[trigger] pairs@[m].1 == b;
                    assert(taken@[m]);
                }
                if free && b == j {
                    assert(taken@[k as int] && pairs@[k as int].1 == b);
                }
            }
        }
        k += 1;
    }
    proof {
        assert forall|k: int|
            0 <= k < pairs@.len() && !(#[trigger] taken@[k]) implies used_a@[pairs@[k].0 as int]
            || used_b@[pairs@[k].1 as int] by {
            lemma_greedy_matching_is_maximal(pairs@, k);
            let m = choose|m: int|
                0 <= m < pairs@.len() && #[trigger] greedy_taken(pairs@, pairs@.len() as int)[m] && (
                pairs@[m].0 == pairs@[k].0 || pairs@[m].1 == pairs@[k].1);
            assert(taken@[m]);
        }
    }
    Pairing { taken, used_a, used_b }
}

/// The greedy matching is one-to-one: no onset of either side belongs to
/// two taken pairs.
pub proof fn lemma_greedy_matching_is_one_to_one(pairs: Seq<(usize, usize)>, m1: int, m2: int)
    requires
        0 <= m1 < m2 < pairs.len(),
        greedy_taken(pairs, pairs.len() as int)[m1],
        greedy_taken(pairs, pairs.len() as int)[m2],
    ensures
        pairs[m1].0 != pairs[m2].0,
        pairs[m1].1 != pairs[m2].1,
{
    let n = pairs.len() as int;
    lemma_greedy_taken_len(pairs, n);
    lemma_greedy_taken_len(pairs, m2);
    let prev = greedy_taken(pairs, m2);
    assert(greedy_taken(pairs, m2 + 1)[m2] == !conflicts(pairs, prev, m2));
    assert(greedy_taken(pairs, m2 + 1)[m2] == greedy_taken(pairs, n)[m2]);
    assert(prev[m1] == greedy_taken(pairs, n)[m1]);
    if pairs[m1].0 == pairs[m2].0 || pairs[m1].1 == pairs[m2].1 {
        assert(conflicts(pairs, prev, m2));
    }
}

/// Greedy in priority order: a candidate pair is taken exactly when
/// neither of its onsets belongs to an earlier taken pair.
pub proof fn lemma_greedy_matching_takes_every_free_pair(pairs: Seq<(usize, usize)>, k: int)
    requires
        0 <= k < pairs.len(),
    ensures
        greedy_taken(pairs, pairs.len() as int)[k] <==> (forall|m: int|
            0 <= m < k && #[trigger] greedy_taken(pairs, pairs.len() as int)[m] ==> pairs[m].0
                != pairs[k].0 && pairs[m].1 != pairs[k].1),
{
    let n = pairs.len() as int;
    lemma_greedy_taken_len(pairs, n);
    lemma_greedy_taken_len(pairs, k);
    let prev = greedy_taken(pairs, k);
    let all = greedy_taken(pairs, n);
    assert(greedy_taken(pairs, k + 1)[k] == !conflicts(pairs, prev, k));
    assert(greedy_taken(pairs, k + 1)[k] == all[k]);
    assert forall|m: int| 0 <= m < k implies #[trigger] prev[m] == all[m] by {}
    if all[k] {
        assert forall|m: int| 0 <= m < k && #[trigger] all[m] implies pairs[m].0 != pairs[k].0
            && pairs[m].1 != pairs[k].1 by {
            assert(prev[m]);
        }
    } else {
        let m = choose|m: int|
            0 <= m < k && #[trigger] prev[m] && (pairs[m].0 == pairs[k].0 || pairs[m].1 == pairs[k].1);
        assert(all[m]);
    }
}

/// The matching is maximal: every candidate pair left untaken shares an
/// onset with a taken pair.
pub proof fn lemma_greedy_matching_is_maximal(pairs: Seq<(usize, usize)>, k: int)
    requires
        0 <= k < pairs.len(),
        !greedy_taken(pairs, pairs.len() as int)[k],
    ensures
        exists|m: int|
            0 <= m < pairs.len() && #[trigger] greedy_taken(pairs, pairs.len() as int)[m] && (
            pairs[m].0 == pairs[k].0 || pairs[m].1 == pairs[k].1),
{
    lemma_greedy_matching_takes_every_free_pair(pairs, k);
}

} // verus!
