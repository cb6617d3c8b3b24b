//! Frame geometry shared by the analyzers: where sliding analysis windows
//! sit in a buffer, and how a buffer (or a list of rows) splits into
//! consecutive fixed-width tiles.

use vstd::prelude::*;

verus! {

/// Number of `size`-sample windows, `hop` apart from sample 0, that fit in
/// `len` samples.
pub open spec fn spec_window_count(len: nat, size: nat, hop: nat) -> nat {
    if len < size || hop == 0 {
        0
    } else {
        ((len - size) as nat / hop + 1) as nat
    }
}

/// The start of every `size`-sample window, `hop` apart from sample 0, that
/// fits in a buffer of `len` samples: window `f` starts at `f * hop`, each
/// lies inside the buffer, and no further window would.
pub fn window_starts(len: usize, size: usize, hop: usize) -> (r: Vec<usize>)
    requires
        size > 0,
        hop > 0,
    ensures
        r@.len() == spec_window_count(len as nat, size as nat, hop as nat),
        forall|f: int| 0 <= f < r@.len() ==> #[trigger] r@[f] == f * hop,
        forall|f: int| 0 <= f < r@.len() ==> #[trigger] r@[f] + size <= len,
        r@.len() * hop + size > len,
{
    let mut r: Vec<usize> = Vec::new();
    if len < size {
        return r;
    }
    let q = (len - size) / hop;
    assert(q <= len - size) by (nonlinear_arith)
        requires
            q == (len - size) as int / (hop as int),
            hop >= 1,
            len >= size,
    ;
    let count = q + 1;
    proof {
        let d = (len - size) as int;
        let h = hop as int;
        assert(q * h <= d && d < q * h + h) by (nonlinear_arith)
            requires
                q == d / h,
                h > 0,
                d >= 0,
        ;
        assert(count * h == q * h + h) by (nonlinear_arith)
            requires
                count == q + 1,
        ;
    }
    let mut f: usize = 0;
    while f < count
        invariant
            len >= size,
            hop > 0,
            f <= count,
            count == q + 1,
            q * hop <= len - size,
            count * hop == q * hop + hop,
            count * hop + size > len,
            r@.len() == f,
            forall|g: int| 0 <= g < f ==> #[trigger] r@[g] == g * hop,
            forall|g: int| 0 <= g < f ==> #[trigger] r@[g] + size <= len,
        decreases count - f,
    {
        assert(f * hop <= q * hop) by (nonlinear_arith)
            requires
                f <= q,
        ;
        r.push(f * hop);
        f += 1;
    }
    r
}

/// `ceil(len / width)`.
pub open spec fn spec_tile_count(len: nat, width: nat) -> nat {
    if width == 0 {
        0
    } else {
        ((len + width - 1) / (width as int)) as nat
    }
}

/// Splits `0..len` into consecutive tiles of `width` (the last one possibly
/// shorter), as `(start, end)` with `end` exclusive: tile `i` is
/// `i * width .. min((i + 1) * width, len)`. The tiles abut, start at 0,
/// end at `len`, and none is empty.
pub fn tiles(len: usize, width: usize) -> (r: Vec<(usize, usize)>)
    requires
        width > 0,
    ensures
        r@.len() == spec_tile_count(len as nat, width as nat),
        forall|i: int|
            0 <= i < r@.len() ==> (#[trigger] r@[i]).0 == i * width && r@[i].1 == if (i + 1)
                * width <= len {
                (i + 1) * width
            } else {
                len as int
            },
        forall|i: int| 0 <= i < r@.len() ==> (#[trigger] r@[i]).0 < r@[i].1,
        forall|i: int| 0 <= i < r@.len() - 1 ==> #[trigger] r@[i].1 == r@[i + 1].0,
        r@.len() > 0 ==> r@[0].0 == 0 && r@.last().1 == len,
        r@.len() == 0 <==> len == 0,
{
    let q = len / width;
    let extra: usize = if len % width == 0 {
        0
    } else {
        1
    };
    proof {
        assert(q * width + len % width == len && q <= len) by (nonlinear_arith)
            requires
                width > 0,
                q == len / width,
        ;
        if extra == 1 {
            assert(q < len) by (nonlinear_arith)
                requires
                    q * width + len % width == len,
                    len % width > 0,
                    width > 0,
            ;
        }
    }
    let n = q + extra;
    proof {
        lemma_tile_count(len as int, width as int, n as int);
    }
    let mut r: Vec<(usize, usize)> = Vec::new();
    let mut k: usize = 0;
    while k < n
        invariant
            width > 0,
            n == spec_tile_count(len as nat, width as nat),
            n == 0 ==> len == 0,
            n > 0 ==> (n - 1) * width < len <= n * width,
            k <= n,
            r@.len() == k,
            forall|j: int|
                0 <= j < k ==> (#[trigger] r@[j]).0 == j * width && r@[j].1 == if (j + 1) * width
                    <= len {
                    (j + 1) * width
                } else {
                    len as int
                },
        decreases n - k,
    {
        proof {
            assert(k * width <= (n - 1) * width) by (nonlinear_arith)
                requires
                    k <= n - 1,
            ;
            assert((k + 1) * width == k * width + width) by (nonlinear_arith);
        }
        let start = k * width;
        let end = if len - start > width {
            start + width
        } else {
            len
        };
        r.push((start, end));
        k += 1;
    }
    proof {
        assert forall|j: int| 0 <= j < r@.len() implies (#[trigger] r@[j]).0 < r@[j].1 by {
            assert(j * width <= (n - 1) * width) by (nonlinear_arith)
                requires
                    j <= n - 1,
            ;
            assert((j + 1) * width == j * width + width) by (nonlinear_arith);
        }
        assert forall|j: int| 0 <= j < r@.len() - 1 implies #[trigger] r@[j].1 == r@[j + 1].0 by {
            assert((j + 1) * width <= (n - 1) * width) by (nonlinear_arith)
                requires
                    j + 1 <= n - 1,
            ;
        }
        if n > 0 {
            assert(r@.last() == r@[n - 1]);
            assert(n * width == (n - 1) * width + width) by (nonlinear_arith);
        }
    }
    r
}

/// The loop's tile count is `ceil(len / width)`.
proof fn lemma_tile_count(len: int, width: int, n: int)
    requires
        width > 0,
        len >= 0,
        n == len / width + if len % width == 0 {
            0int
        } else {
            1int
        },
    ensures
        n == (len + width - 1) / width,
        n == 0 ==> len == 0,
        n > 0 ==> (n - 1) * width < len <= n * width,
{
    let q = len / width;
    let m = len % width;
    assert(len == q * width + m && 0 <= m < width) by (nonlinear_arith)
        requires
            width > 0,
            q == len / width,
            m == len % width,
    ;
    if m == 0 {
        assert((len + width - 1) / width == q) by (nonlinear_arith)
            requires
                width > 0,
                len == q * width,
        ;
        assert(q * width - width < len) by (nonlinear_arith)
            requires
                width > 0,
                len == q * width,
        ;
        assert((q - 1) * width == q * width - width) by (nonlinear_arith);
        if q == 0 {
            assert(len == 0) by (nonlinear_arith)
                requires
                    len == q * width,
                    q == 0,
            ;
        }
    } else {
        assert((len + width - 1) / width == q + 1) by (nonlinear_arith)
            requires
                width > 0,
                len == q * width + m,
                0 < m < width,
        ;
        assert((q + 1) * width == q * width + width) by (nonlinear_arith);
    }
}

} // verus!
