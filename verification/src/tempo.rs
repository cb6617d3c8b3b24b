//! Integer steps of beat tracking and section picking: reading the beat
//! grid back from the dynamic program's predecessor links, splitting the
//! envelope into windows for the tempo-stability check, and capping a list
//! of candidate boundaries to the strongest few. Scores are floats;
//! the caller hands in predecessor links and order-preserving keys.

use vstd::prelude::*;
use vstd::relations::injective_on;
use vstd::set_lib::{lemma_int_range, lemma_len_subset, lemma_map_size, set_int_range};

verus! {

/// Predecessor links point strictly backwards.
pub open spec fn links_backward(back: Seq<Option<usize>>) -> bool {
    forall|t: int| 0 <= t < back.len() ==> (#[trigger] back[t] matches Some(p) ==> p < t)
}

/// The frames on the path that ends at `t`, earliest first.
pub open spec fn path_to(back: Seq<Option<usize>>, t: int) -> Seq<usize>
    decreases t,
{
    if t < 0 || t >= back.len() {
        Seq::empty()
    } else {
        match back[t] {
            Some(p) => if p < t {
                path_to(back, p as int).push(t as usize)
            } else {
                seq![t as usize]
            },
            None => seq![t as usize],
        }
    }
}

/// A path to `t` is ascending and ends at `t`.
pub proof fn lemma_path_shape(back: Seq<Option<usize>>, t: int)
    requires
        0 <= t < back.len(),
        back.len() <= usize::MAX,
    ensures
        path_to(back, t).len() >= 1,
        path_to(back, t).last() == t,
        forall|i: int, j: int|
            0 <= i < j < path_to(back, t).len() ==> #[trigger] path_to(back, t)[i] < #[trigger] path_to(
                back,
                t,
            )[j],
    decreases t,
{
    let path = path_to(back, t);
    match back[t] {
        Some(p) => {
            if p < t {
                lemma_path_shape(back, p as int);
                let prev = path_to(back, p as int);
                assert(path == prev.push(t as usize));
                assert(path.last() == t);
                assert forall|i: int, j: int| 0 <= i < j < path.len() implies #[trigger] path[i]
                    < #[trigger] path[j] by {
                    if j < prev.len() {
                        assert(path[i] == prev[i] && path[j] == prev[j]);
                    } else {
                        assert(path[j] == t);
                        assert(path[i] == prev[i]);
                        if i < prev.len() - 1 {
                            assert(prev[i] < prev[prev.len() - 1]);
                        }
                        assert(prev[prev.len() - 1] == p);
                    }
                }
            } else {
                assert(path == seq![t as usize]);
            }
        },
        None => {
            assert(path == seq![t as usize]);
        },
    }
}

/// The beat frames, earliest first, from following predecessor links back
/// from `end`: an ascending path ending at `end`.
pub fn beat_path(back: &Vec<Option<usize>>, end: usize) -> (beats: Vec<usize>)
    requires
        end < back@.len(),
        links_backward(back@),
    ensures
        beats@ == path_to(back@, end as int),
        beats@.len() >= 1,
        beats@.last() == end,
        forall|i: int, j: int| 0 <= i < j < beats@.len() ==> #[trigger] beats@[i] < #[trigger] beats@[j],
{
    let mut rev: Vec<usize> = Vec::new();
    let mut cur: usize = end;
    let ghost mut acc: Seq<usize> = Seq::empty();
    loop
        invariant_except_break
            path_to(back@, end as int) == path_to(back@, cur as int) + acc,
            rev@ == acc.reverse(),
        invariant
            cur < back@.len(),
            links_backward(back@),
            end < back@.len(),
        ensures
            rev@ == path_to(back@, end as int).reverse(),
        decreases cur,
    {
        rev.push(cur);
        proof {
            assert(rev@ =~= (seq![cur] + acc).reverse());
        }
        match back[cur] {
            Some(p) => {
                assert(p < cur);
                proof {
                    assert(path_to(back@, cur as int) == path_to(back@, p as int).push(cur));
                    assert(path_to(back@, cur as int) + acc =~= path_to(back@, p as int) + (seq![cur]
                        + acc));
                    acc = seq![cur] + acc;
                }
                cur = p;
            },
            None => {
                proof {
                    assert(path_to(back@, cur as int) == seq![cur]);
                    acc = seq![cur] + acc;
                    assert(path_to(back@, end as int) =~= acc);
                    assert(rev@ == path_to(back@, end as int).reverse());
                }
                break;
            },
        }
    }
    let frames = back.len();
    assert(back@.len() == frames);
    let mut beats: Vec<usize> = Vec::new();
    let n = rev.len();
    let mut k: usize = 0;
    while k < n
        invariant
            n == rev@.len(),
            k <= n,
            beats@.len() == k,
            forall|i: int| 0 <= i < k ==> #[trigger] beats@[i] == rev@[n - 1 - i],
        decreases n - k,
    {
        beats.push(rev[n - 1 - k]);
        k += 1;
    }
    proof {
        assert(beats@ =~= rev@.reverse());
        assert(rev@.reverse() =~= path_to(back@, end as int).reverse().reverse());
        assert(path_to(back@, end as int).reverse().reverse() =~= path_to(back@, end as int));
        lemma_path_shape(back@, end as int);
    }
    beats
}

/// Candidate `y` outranks `x`: a strictly stronger key, or an equal key at
/// an earlier frame.
pub open spec fn outranks(strength: Seq<u64>, y: usize, x: usize) -> bool {
    strength[y as int] > strength[x as int] || (strength[y as int] == strength[x as int] && y < x)
}

/// How many of the first `i` candidates outrank `x`.
pub open spec fn outranked_by(cands: Seq<usize>, strength: Seq<u64>, x: usize, i: int) -> nat
    decreases i,
{
    if i <= 0 {
        0
    } else {
        outranked_by(cands, strength, x, i - 1) + if outranks(strength, cands[i - 1], x) {
            1nat
        } else {
            0nat
        }
    }
}

/// The place of `x` in the candidates ordered strongest first, earlier
/// frames first among equals.
pub open spec fn rank(cands: Seq<usize>, strength: Seq<u64>, x: usize) -> nat {
    outranked_by(cands, strength, x, cands.len() as int)
}

/// The first `i` candidates that rank among the `max` strongest, in order.
pub open spec fn strongest_prefix(cands: Seq<usize>, strength: Seq<u64>, max: nat, i: int) -> Seq<
    usize,
>
    decreases i,
{
    if i <= 0 {
        Seq::empty()
    } else {
        let prev = strongest_prefix(cands, strength, max, i - 1);
        if rank(cands, strength, cands[i - 1]) < max {
            prev.push(cands[i - 1])
        } else {
            prev
        }
    }
}

/// The candidates that rank among the `max` strongest, in their order.
pub open spec fn strongest(cands: Seq<usize>, strength: Seq<u64>, max: nat) -> Seq<usize> {
    strongest_prefix(cands, strength, max, cands.len() as int)
}

/// Keeps at most `max` candidate boundaries: when there are more, the
/// strongest (earlier frames first among equal keys), in frame order.
pub fn keep_strongest(cands: &Vec<usize>, strength: &Vec<u64>, max: usize) -> (kept: Vec<usize>)
    requires
        forall|k: int| 0 <= k < cands@.len() ==> #[trigger] cands@[k] < strength@.len(),
    ensures
        kept@ == strongest(cands@, strength@, max as nat),
{
    let n = cands.len();
    let mut kept: Vec<usize> = Vec::new();
    let mut i: usize = 0;
    while i < n
        invariant
            n == cands@.len(),
            i <= n,
            forall|k: int| 0 <= k < cands@.len() ==> #[trigger] cands@[k] < strength@.len(),
            kept@ == strongest_prefix(cands@, strength@, max as nat, i as int),
        decreases n - i,
    {
        let x = cands[i];
        let mut above: usize = 0;
        let mut j: usize = 0;
        while j < n
            invariant
                n == cands@.len(),
                j <= n,
                i < n,
                x == cands@[i as int],
                forall|k: int| 0 <= k < cands@.len() ==> #[trigger] cands@[k] < strength@.len(),
                above == outranked_by(cands@, strength@, x, j as int),
                above <= j,
            decreases n - j,
        {
            let y = cands[j];
            if strength[y] > strength[x] || (strength[y] == strength[x] && y < x) {
                above += 1;
            }
            j += 1;
        }
        if above < max {
            kept.push(x);
        }
        i += 1;
    }
    kept
}

/// Counting the stronger candidates: a candidate outranked by `y` is
/// outranked by everything that outranks `y`, and by `y` itself.
proof fn lemma_outranked_by_grows(cands: Seq<usize>, strength: Seq<u64>, p: int, q: int, i: int)
    requires
        0 <= p < cands.len(),
        0 <= q < cands.len(),
        0 <= i <= cands.len(),
        outranks(strength, cands[q], cands[p]),
    ensures
        outranked_by(cands, strength, cands[p], i) >= outranked_by(cands, strength, cands[q], i) + if q
            < i {
            1int
        } else {
            0int
        },
    decreases i,
{
    if i > 0 {
        lemma_outranked_by_grows(cands, strength, p, q, i - 1);
    }
}

/// Strictly ascending candidates.
pub open spec fn strictly_ascending(cands: Seq<usize>) -> bool {
    forall|a: int, b: int| 0 <= a < b < cands.len() ==> #[trigger] cands[a] < #[trigger] cands[b]
}

/// The positions of the first `i` candidates that rank among the `max`
/// strongest.
spec fn kept_positions(cands: Seq<usize>, strength: Seq<u64>, max: nat, i: int) -> Set<int> {
    Set::new(|p: int| 0 <= p < i && rank(cands, strength, cands[p]) < max)
}

proof fn lemma_kept_positions_count(cands: Seq<usize>, strength: Seq<u64>, max: nat, i: int)
    requires
        0 <= i <= cands.len(),
    ensures
        kept_positions(cands, strength, max, i).finite(),
        kept_positions(cands, strength, max, i).len() == strongest_prefix(
            cands,
            strength,
            max,
            i,
        ).len(),
    decreases i,
{
    let now = kept_positions(cands, strength, max, i);
    if i == 0 {
        assert(now =~= Set::<int>::empty());
    } else {
        lemma_kept_positions_count(cands, strength, max, i - 1);
        let before = kept_positions(cands, strength, max, i - 1);
        if rank(cands, strength, cands[i - 1]) < max {
            assert(now =~= before.insert(i - 1));
        } else {
            assert(now =~= before);
        }
    }
}

/// Never more than `max` boundaries survive: distinct candidates have
/// distinct ranks, and only ranks below `max` are kept.
pub proof fn lemma_keeps_at_most_max(cands: Seq<usize>, strength: Seq<u64>, max: nat)
    requires
        strictly_ascending(cands),
        forall|k: int| 0 <= k < cands.len() ==> #[trigger] cands[k] < strength.len(),
    ensures
        strongest(cands, strength, max).len() <= max,
{
    let n = cands.len() as int;
    let positions = kept_positions(cands, strength, max, n);
    lemma_kept_positions_count(cands, strength, max, n);
    let f = |p: int| rank(cands, strength, cands[p]) as int;
    assert(injective_on(f, positions)) by {
        assert forall|p: int, q: int|
            positions.contains(p) && positions.contains(q) && #[trigger] f(p) == #[trigger] f(q) implies p
            == q by {
            if p != q {
                if p < q {
                    assert(cands[p] < cands[q]);
                } else {
                    assert(cands[q] < cands[p]);
                }
                if outranks(strength, cands[q], cands[p]) {
                    lemma_outranked_by_grows(cands, strength, p, q, n);
                } else {
                    lemma_outranked_by_grows(cands, strength, q, p, n);
                }
            }
        }
    }
    let image = positions.map(f);
    lemma_map_size(positions, image, f);
    lemma_int_range(0, max as int);
    assert(image.subset_of(set_int_range(0, max as int))) by {
        assert forall|r: int| image.contains(r) implies set_int_range(0, max as int).contains(r) by {
            let p = choose|p: int| positions.contains(p) && f(p) == r;
        }
    }
    lemma_len_subset(image, set_int_range(0, max as int));
}

/// A candidate never outranks itself, so its rank is below the number of
/// candidates.
proof fn lemma_rank_below_count(cands: Seq<usize>, strength: Seq<u64>, x: usize, i: int)
    requires
        0 <= i <= cands.len(),
        exists|p: int| 0 <= p < i && cands[p] == x,
    ensures
        outranked_by(cands, strength, x, i) < i,
    decreases i,
{
    if cands[i - 1] == x {
        lemma_outranked_at_most(cands, strength, x, i - 1);
    } else {
        lemma_rank_below_count(cands, strength, x, i - 1);
    }
}

proof fn lemma_outranked_at_most(cands: Seq<usize>, strength: Seq<u64>, x: usize, i: int)
    requires
        0 <= i <= cands.len(),
    ensures
        outranked_by(cands, strength, x, i) <= i,
    decreases i,
{
    if i > 0 {
        lemma_outranked_at_most(cands, strength, x, i - 1);
    }
}

/// What the first `i` kept candidates are: exactly the candidates among
/// the first `i` that rank below `max`.
proof fn lemma_strongest_prefix_members(cands: Seq<usize>, strength: Seq<u64>, max: nat, i: int)
    requires
        strictly_ascending(cands),
        0 <= i <= cands.len(),
    ensures
        forall|k: int|
            0 <= k < strongest_prefix(cands, strength, max, i).len() ==> exists|p: int|
                0 <= p < i && #[trigger] strongest_prefix(cands, strength, max, i)[k] == cands[p]
                    && rank(cands, strength, cands[p]) < max,
        forall|p: int|
            0 <= p < i ==> (strongest_prefix(cands, strength, max, i).contains(#[trigger] cands[p])
                <==> rank(cands, strength, cands[p]) < max),
    decreases i,
{
    if i > 0 {
        lemma_strongest_prefix_members(cands, strength, max, i - 1);
        let prev = strongest_prefix(cands, strength, max, i - 1);
        let now = strongest_prefix(cands, strength, max, i);
        let x = cands[i - 1];
        assert forall|p: int| 0 <= p < i implies (now.contains(#[trigger] cands[p]) <==> rank(
            cands,
            strength,
            cands[p],
        ) < max) by {
            if p < i - 1 {
                assert(cands[p] < x);
                if rank(cands, strength, x) < max {
                    assert(now == prev.push(x));
                    if now.contains(cands[p]) {
                        let k = choose|k: int| 0 <= k < now.len() && now[k] == cands[p];
                        if k < prev.len() {
                            assert(prev[k] == cands[p]);
                        }
                    }
                    if prev.contains(cands[p]) {
                        let k = choose|k: int| 0 <= k < prev.len() && prev[k] == cands[p];
                        assert(now[k] == cands[p]);
                    }
                }
            } else {
                if rank(cands, strength, x) < max {
                    assert(now[now.len() - 1] == x);
                } else {
                    assert(now == prev);
                    if prev.contains(x) {
                        let k = choose|k: int| 0 <= k < prev.len() && prev[k] == x;
                        let q = choose|q: int| 0 <= q < i - 1 && prev[k] == cands[q] && rank(
                            cands,
                            strength,
                            cands[q],
                        ) < max;
                        assert(cands[q] < x);
                    }
                }
            }
        }
    }
}

/// With no more candidates than the cap, every candidate is kept.
pub proof fn lemma_few_candidates_all_kept(cands: Seq<usize>, strength: Seq<u64>, max: nat)
    requires
        cands.len() <= max,
    ensures
        strongest(cands, strength, max) == cands,
{
    assert forall|i: int| 0 <= i <= cands.len() implies #[trigger] strongest_prefix(
        cands,
        strength,
        max,
        i,
    ) == cands.take(i) by {
        lemma_prefix_is_taken(cands, strength, max, i);
    }
    assert(cands.take(cands.len() as int) =~= cands);
}

proof fn lemma_prefix_is_taken(cands: Seq<usize>, strength: Seq<u64>, max: nat, i: int)
    requires
        cands.len() <= max,
        0 <= i <= cands.len(),
    ensures
        strongest_prefix(cands, strength, max, i) == cands.take(i),
    decreases i,
{
    if i == 0 {
        assert(cands.take(0) =~= Seq::<usize>::empty());
    } else {
        lemma_prefix_is_taken(cands, strength, max, i - 1);
        let len = cands.len() as int;
        assert(cands[i - 1] == cands[i - 1]);
        lemma_rank_below_count(cands, strength, cands[i - 1], len);
        assert(cands.take(i) =~= cands.take(i - 1).push(cands[i - 1]));
    }
}

/// The strongest win: every kept candidate outranks every candidate that
/// was dropped.
pub proof fn lemma_kept_outrank_dropped(cands: Seq<usize>, strength: Seq<u64>, max: nat, p: int, q: int)
    requires
        strictly_ascending(cands),
        forall|k: int| 0 <= k < cands.len() ==> #[trigger] cands[k] < strength.len(),
        0 <= p < cands.len(),
        0 <= q < cands.len(),
        strongest(cands, strength, max).contains(cands[p]),
        !strongest(cands, strength, max).contains(cands[q]),
    ensures
        outranks(strength, cands[p], cands[q]),
{
    let n = cands.len() as int;
    lemma_strongest_prefix_members(cands, strength, max, n);
    assert(rank(cands, strength, cands[p]) < max);
    assert(rank(cands, strength, cands[q]) >= max);
    if p == q {
    } else if !outranks(strength, cands[p], cands[q]) {
        if p < q {
            assert(cands[p] < cands[q]);
        } else {
            assert(cands[q] < cands[p]);
        }
        assert(outranks(strength, cands[q], cands[p]));
        lemma_outranked_by_grows(cands, strength, p, q, n);
    }
}

/// How many windows the tempo-stability check splits an envelope of `n`
/// frames into: as many as fit at least `max_lag + 2` frames each, at most
/// `max_windows`.
pub open spec fn stability_window_count(n: nat, max_lag: nat, max_windows: nat) -> nat {
    let fit = n / (max_lag + 2);
    if fit < max_windows {
        fit
    } else {
        max_windows
    }
}

/// The windows of the tempo-stability check: `None` when fewer than two
/// fit; else that many equal, consecutive windows `[k * len, (k + 1) *
/// len)` from frame 0, `len = n / count`. Each is long enough for the lag
/// search up to `max_lag`, and all lie inside the envelope.
pub fn stability_windows(n: usize, max_lag: usize, max_windows: usize) -> (r: Option<Vec<(usize, usize)>>)
    requires
        max_lag + 2 <= usize::MAX,
    ensures
        ({
            let count = stability_window_count(n as nat, max_lag as nat, max_windows as nat);
            match r {
                None => count < 2,
                Some(w) => {
                    &&& count >= 2
                    &&& w@.len() == count
                    &&& forall|k: int|
                        0 <= k < count ==> #[trigger] w@[k] == ((k * (n as int / count as int)) as usize, ((k
                            + 1) * (n as int / count as int)) as usize)
                    &&& forall|k: int|
                        0 <= k < count ==> #[trigger] w@[k].1 <= n && w@[k].0 + max_lag + 2 <= w@[k].1
                },
            }
        }),
{
    let m = max_lag + 2;
    let fit = n / m;
    let count = if fit < max_windows {
        fit
    } else {
        max_windows
    };
    if count < 2 {
        return None;
    }
    let len = n / count;
    proof {
        assert(fit * m <= n) by (nonlinear_arith)
            requires
                fit == n / m,
                m >= 1,
        ;
        assert(count * m <= n) by (nonlinear_arith)
            requires
                count <= fit,
                fit * m <= n,
                m >= 1,
        ;
        assert(len >= m) by (nonlinear_arith)
            requires
                len == n / count,
                count * m <= n,
                count >= 1,
        ;
        assert(count * len <= n) by (nonlinear_arith)
            requires
                len == n / count,
                count >= 1,
        ;
    }
    let mut w: Vec<(usize, usize)> = Vec::new();
    let mut k: usize = 0;
    let mut start: usize = 0;
    while k < count
        invariant
            count >= 2,
            len == n / count,
            len >= m,
            m == max_lag + 2,
            count * len <= n,
            k <= count,
            start == k * len,
            w@.len() == k,
            forall|j: int|
                0 <= j < k ==> #[trigger] w@[j] == ((j * len) as usize, ((j + 1) * len) as usize),
            forall|j: int| 0 <= j < k ==> #[trigger] w@[j].1 <= n && w@[j].0 + m <= w@[j].1,
        decreases count - k,
    {
        assert((k + 1) * len <= count * len) by (nonlinear_arith)
            requires
                k < count,
                len >= 0,
        ;
        assert((k + 1) * len == k * len + len) by (nonlinear_arith);
        let end = start + len;
        w.push((start, end));
        k += 1;
        start = end;
    }
    Some(w)
}

} // verus!
