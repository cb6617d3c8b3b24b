//! Layout of the text digest's timeline table: how many segments share a
//! display row, and which display rows collapse into one silent-run line.

use vstd::prelude::*;
use crate::text::{decimal, join, joined, push_decimal};

verus! {

/// Cap on rendered timeline rows; longer timelines merge into wider buckets.
pub const MAX_TIMELINE_ROWS: usize = 40;

/// Minimum run of consecutive silent display rows collapsed into one line.
pub const MIN_SILENT_RUN: usize = 3;

/// Segments per display row: `1` up to the row cap, else
/// `ceil(n / MAX_TIMELINE_ROWS)`.
pub open spec fn spec_bucket_width(n: nat) -> nat {
    if n > 40 {
        ((n + 39) / 40) as nat
    } else {
        1
    }
}

/// Segments per display row for a timeline of `n` segments.
pub fn bucket_width(n: usize) -> (w: usize)
    ensures
        w == spec_bucket_width(n as nat),
        w >= 1,
{
    if n > MAX_TIMELINE_ROWS {
        n / MAX_TIMELINE_ROWS + if n % MAX_TIMELINE_ROWS == 0 { 0 } else { 1 }
    } else {
        1
    }
}

/// Bucketing never yields more than the row cap: `ceil(n / w) <= 40`.
pub proof fn lemma_bucket_rows_capped(n: nat)
    ensures
        (n + spec_bucket_width(n) - 1) / (spec_bucket_width(n) as int) <= MAX_TIMELINE_ROWS,
{
    let w = spec_bucket_width(n);
    if n > 40 {
        assert(40 * w >= n) by (nonlinear_arith)
            requires
                w == (n + 39) / 40,
        ;
        assert((n + w - 1) / (w as int) <= 40) by (nonlinear_arith)
            requires
                40 * w >= n,
                w >= 1,
        ;
    } else {
        assert(w == 1);
        assert((n + 1 - 1) / (1 as int) == n);
    }
}

/// One line of the rendered timeline table.
#[derive(Debug, Clone, Copy, PartialEq, Eq)]
pub enum TimelineLine {
    /// Display row `i`, printed on its own.
    Row(usize),
    /// Display rows `first..=last`, all silent, printed as one line.
    SilentRun { first: usize, last: usize },
}

/// Length of the run of silent rows starting at `i`.
pub open spec fn silent_run_len(silent: Seq<bool>, i: int) -> nat
    decreases silent.len() - i,
{
    if 0 <= i < silent.len() && silent[i] {
        1 + silent_run_len(silent, i + 1)
    } else {
        0
    }
}

/// The table lines from display row `i` on: a silent run of at least
/// [`MIN_SILENT_RUN`] rows becomes one line, every other row its own line.
pub open spec fn layout_from(silent: Seq<bool>, i: int) -> Seq<TimelineLine>
    decreases silent.len() - i,
{
    if i < 0 || i >= silent.len() {
        Seq::empty()
    } else if silent_run_len(silent, i) >= 3 {
        proof {
            lemma_run_len_bound(silent, i);
        }
        seq![
            TimelineLine::SilentRun {
                first: i as usize,
                last: (i + silent_run_len(silent, i) - 1) as usize,
            },
        ] + layout_from(silent, i + silent_run_len(silent, i))
    } else {
        seq![TimelineLine::Row(i as usize)] + layout_from(silent, i + 1)
    }
}

/// A silent run stays inside the rows and is maximal.
pub proof fn lemma_run_len_bound(silent: Seq<bool>, i: int)
    requires
        0 <= i <= silent.len(),
    ensures
        i + silent_run_len(silent, i) <= silent.len(),
        forall|k: int| i <= k < i + silent_run_len(silent, i) ==> silent[k],
        i + silent_run_len(silent, i) == silent.len() || !silent[i + silent_run_len(
            silent,
            i,
        )],
    decreases silent.len() - i,
{
    if i < silent.len() && silent[i] {
        lemma_run_len_bound(silent, i + 1);
    }
}

/// Lay out the timeline table over the display rows' silent flags: runs
/// of [`MIN_SILENT_RUN`]-or-more consecutive silent rows collapse into one
/// [`TimelineLine::SilentRun`], every other row stays a
/// [`TimelineLine::Row`]. The number of lines is the table's row count.
pub fn layout_timeline(silent: &Vec<bool>) -> (lines: Vec<TimelineLine>)
    ensures
        lines@ == layout_from(silent@, 0),
        forall|k: int|
            0 <= k < lines@.len() ==> (#[trigger] lines@[k] matches TimelineLine::SilentRun { first, last } ==> (
            first == 0 || !silent@[first - 1]) && (last + 1 == silent@.len() || !silent@[last + 1])),
{
    let n = silent.len();
    proof {
        lemma_silent_lines_are_maximal(silent@);
    }
    let mut lines: Vec<TimelineLine> = Vec::new();
    let mut i: usize = 0;
    while i < n
        invariant
            n == silent@.len(),
            i <= n,
            layout_from(silent@, 0) == lines@ + layout_from(silent@, i as int),
        decreases n - i,
    {
        let mut end: usize = i;
        while end < n && silent[end]
            invariant
                n == silent@.len(),
                i <= end <= n,
                silent_run_len(silent@, i as int) == (end - i) + silent_run_len(
                    silent@,
                    end as int,
                ),
            decreases n - end,
        {
            end += 1;
        }
        assert(silent_run_len(silent@, i as int) == end - i);
        if end - i >= MIN_SILENT_RUN {
            lines.push(TimelineLine::SilentRun { first: i, last: end - 1 });
            proof {
                assert(lines@ + layout_from(silent@, end as int) =~= lines@.drop_last() + (
                seq![lines@.last()] + layout_from(silent@, end as int)));
            }
            i = end;
        } else {
            lines.push(TimelineLine::Row(i));
            proof {
                assert(lines@ + layout_from(silent@, i + 1) =~= lines@.drop_last() + (seq![
                    lines@.last(),
                ] + layout_from(silent@, i + 1)));
            }
            i += 1;
        }
    }
    assert(lines@ + layout_from(silent@, n as int) =~= lines@);
    lines
}

/// From row `i` on, a collapsed silent line is a whole silent stretch: the
/// row before its first is not silent (or it starts the table) and the row
/// after its last is not silent (or it ends the table).
proof fn lemma_silent_lines_maximal_from(silent: Seq<bool>, i: int)
    requires
        0 <= i <= silent.len(),
        silent.len() <= usize::MAX,
        i == 0 || !silent[i - 1] || silent_run_len(silent, i - 1) < MIN_SILENT_RUN,
    ensures
        forall|k: int|
            0 <= k < layout_from(silent, i).len() ==> (#[trigger] layout_from(silent, i)[k] matches TimelineLine::SilentRun { first, last } ==> (
            first == 0 || !silent[first - 1]) && (last + 1 == silent.len() || !silent[last + 1])),
    decreases silent.len() - i,
{
    let n = silent.len() as int;
    if i < n {
        lemma_run_len_bound(silent, i);
        let len = silent_run_len(silent, i);
        let next = if len >= 3 { i + len } else { i + 1 };
        if len >= 3 {
            lemma_run_len_bound(silent, next - 1);
            assert(silent_run_len(silent, next - 1) == 1);
            if i > 0 && silent[i - 1] {
                assert(silent_run_len(silent, i - 1) == 1 + len);
            }
        }
        lemma_silent_lines_maximal_from(silent, next);
        let rest = layout_from(silent, next);
        let all = layout_from(silent, i);
        let head = if len >= 3 {
            TimelineLine::SilentRun { first: i as usize, last: (i + len - 1) as usize }
        } else {
            TimelineLine::Row(i as usize)
        };
        assert(all == seq![head] + rest);
        assert forall|k: int| 0 <= k < all.len() implies (#[trigger] all[k] matches TimelineLine::SilentRun { first, last } ==> (
        first == 0 || !silent[first - 1]) && (last + 1 == silent.len() || !silent[last + 1])) by {
            if k > 0 {
                assert(all[k] == rest[k - 1]);
            } else {
                assert(all[k] == head);
                if len >= 3 {
                    assert(i + len <= n);
                    assert(i + len == n || !silent[i + len]);
                }
            }
        }
    } else {
        assert(layout_from(silent, i) =~= Seq::<TimelineLine>::empty());
    }
}

/// Every collapsed line is a whole silent stretch: a silent run is never
/// split across lines, so the row before a collapsed line's first row and
/// the row after its last are not silent (or lie outside the table).
pub proof fn lemma_silent_lines_are_maximal(silent: Seq<bool>)
    requires
        silent.len() <= usize::MAX,
    ensures
        forall|k: int|
            0 <= k < layout_from(silent, 0).len() ==> (#[trigger] layout_from(silent, 0)[k] matches TimelineLine::SilentRun { first, last } ==> (
            first == 0 || !silent[first - 1]) && (last + 1 == silent.len() || !silent[last + 1])),
{
    lemma_silent_lines_maximal_from(silent, 0);
}

/// First display row a line covers.
pub open spec fn line_first(l: TimelineLine) -> int {
    match l {
        TimelineLine::Row(i) => i as int,
        TimelineLine::SilentRun { first, .. } => first as int,
    }
}

/// Last display row a line covers.
pub open spec fn line_last(l: TimelineLine) -> int {
    match l {
        TimelineLine::Row(i) => i as int,
        TimelineLine::SilentRun { last, .. } => last as int,
    }
}

/// The lines tile rows `i..n` in order with no gap or overlap.
pub open spec fn lines_tile_rows(lines: Seq<TimelineLine>, i: int, n: int) -> bool {
    &&& (lines.len() == 0 <==> i >= n)
    &&& lines.len() > 0 ==> line_first(lines[0]) == i
    &&& lines.len() > 0 ==> line_last(lines.last()) == n - 1
    &&& forall|k: int|
        0 <= k < lines.len() ==> line_first(#[trigger] lines[k]) <= line_last(lines[k])
    &&& forall|k: int|
        0 <= k < lines.len() - 1 ==> line_first(#[trigger] lines[k + 1]) == line_last(lines[k])
            + 1
}

/// Collapsing never drops or repeats a display row: the table's lines tile
/// the rows in order, a collapsed line covers only silent rows and at least
/// [`MIN_SILENT_RUN`] of them, and a row printed alone never sits inside a
/// silent stretch that long.
pub proof fn lemma_layout_tiles_rows(silent: Seq<bool>, i: int)
    requires
        0 <= i <= silent.len(),
        silent.len() <= usize::MAX,
    ensures
        lines_tile_rows(layout_from(silent, i), i, silent.len() as int),
        forall|k: int|
            0 <= k < layout_from(silent, i).len() ==> match #[trigger] layout_from(silent, i)[k] {
                TimelineLine::SilentRun { first, last } => last - first + 1 >= MIN_SILENT_RUN && (
                forall|r: int| first <= r <= last ==> silent[r]),
                TimelineLine::Row(r) => silent_run_len(silent, r as int) < MIN_SILENT_RUN,
            },
    decreases silent.len() - i,
{
    let n = silent.len() as int;
    if i < n {
        lemma_run_len_bound(silent, i);
        let len = silent_run_len(silent, i);
        let next = if len >= 3 { i + len } else { i + 1 };
        lemma_layout_tiles_rows(silent, next);
        let rest = layout_from(silent, next);
        let head = if len >= 3 {
            TimelineLine::SilentRun { first: i as usize, last: (i + len - 1) as usize }
        } else {
            TimelineLine::Row(i as usize)
        };
        assert(layout_from(silent, i) == seq![head] + rest);
        let all = layout_from(silent, i);
        assert forall|k: int| 0 <= k < all.len() implies line_first(#[trigger] all[k]) <= line_last(
            all[k],
        ) by {
            if k > 0 {
                assert(all[k] == rest[k - 1]);
            } else {
                assert(all[k] == head);
            }
        }
        assert forall|k: int| 0 <= k < all.len() - 1 implies line_first(#[trigger] all[k + 1])
            == line_last(all[k]) + 1 by {
            assert(all[k + 1] == rest[k]);
            if k > 0 {
                assert(all[k] == rest[k - 1]);
                let j = k - 1;
                assert(line_first(rest[j + 1]) == line_last(rest[j]) + 1);
            } else {
                assert(all[k] == head);
                assert(rest.len() > 0);
                assert(line_first(rest[0]) == next);
            }
        }
        assert forall|k: int| 0 <= k < all.len() implies match #[trigger] all[k] {
            TimelineLine::SilentRun { first, last } => last - first + 1 >= MIN_SILENT_RUN && (
            forall|r: int| first <= r <= last ==> silent[r]),
            TimelineLine::Row(r) => silent_run_len(silent, r as int) < MIN_SILENT_RUN,
        } by {
            if k > 0 {
                assert(all[k] == rest[k - 1]);
            } else {
                assert(all[k] == head);
            }
        }
    } else {
        assert(layout_from(silent, i) =~= Seq::<TimelineLine>::empty());
    }
}

/// The digest's structure line: `structure: 3 sections @ 8.0s, 16.0s`
/// when boundaries were found, else `structure: 1 section` or
/// `structure: N sections` (the noun agrees with the count itself).
pub open spec fn spec_structure_line(section_count: nat, times: Seq<Seq<char>>) -> Seq<char> {
    if times.len() == 0 {
        "structure: "@ + decimal(section_count) + if section_count == 1 {
            " section"@
        } else {
            " sections"@
        }
    } else {
        "structure: "@ + decimal(section_count) + " sections @ "@ + joined(times, ", "@)
    }
}

/// Renders the structure line from the section count and the section
/// boundary times, each already written as seconds with one decimal and
/// an `s` (`8.0s`).
pub fn fmt_structure_line(section_count: usize, boundary_times: &Vec<String>) -> (r: String)
    ensures
        r@ == spec_structure_line(
            section_count as nat,
            boundary_times@.map_values(|t: String| t@),
        ),
{
    let mut out = String::from_str("structure: ");
    push_decimal(&mut out, section_count as u64);
    if boundary_times.len() == 0 {
        if section_count == 1 {
            out.append(" section");
        } else {
            out.append(" sections");
        }
    } else {
        out.append(" sections @ ");
        let times = join(boundary_times, ", ");
        out.append(times.as_str());
    }
    out
}

/// The digest's tempo line: `tempo: 120.0bpm (conf 0.11) clear_rhythm=true`
/// when a tempo was detected, else `tempo: -`.
pub open spec fn spec_tempo_line(reading: Option<(Seq<char>, Seq<char>)>, clear_rhythm: bool) -> Seq<
    char,
> {
    match reading {
        Some((bpm, confidence)) => "tempo: "@ + bpm + "bpm (conf "@ + confidence + ") clear_rhythm="@
            + if clear_rhythm {
            "true"@
        } else {
            "false"@
        },
        None => "tempo: -"@,
    }
}

/// Renders the tempo line from the detected tempo and its confidence, each
/// already written with its decimals (`120.0`, `0.11`), or `None` when no
/// tempo was detected.
pub fn fmt_tempo_line(reading: &Option<(String, String)>, clear_rhythm: bool) -> (r: String)
    ensures
        r@ == spec_tempo_line(
            match reading {
                Some(p) => Some((p.0@, p.1@)),
                None => None,
            },
            clear_rhythm,
        ),
{
    match reading {
        Some(p) => {
            let mut out = String::from_str("tempo: ");
            out.append(p.0.as_str());
            out.append("bpm (conf ");
            out.append(p.1.as_str());
            out.append(") clear_rhythm=");
            if clear_rhythm {
                out.append("true");
            } else {
                out.append("false");
            }
            out
        },
        None => String::from_str("tempo: -"),
    }
}

} // verus!
