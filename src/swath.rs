//! Swath line offsets across the sweep.
//!
//! Offsets are kept doubled so that half a width stays an integer: the
//! doubled offset `h` stands for the line at `h / 2`.
use vstd::arithmetic::div_mod::{
    lemma_fundamental_div_mod,
    lemma_fundamental_div_mod_converse,
    lemma_mod_pos_bound,
};
use vstd::prelude::*;

verus! {

/// How many lines fit at `lo + w/2, lo + 3w/2, ...` without passing
/// `hi - w/2`.
pub open spec fn full_steps(lo: int, hi: int, w: int) -> nat {
    if hi - lo >= w {
        ((hi - lo - w) / w + 1) as nat
    } else {
        0
    }
}

/// The doubled offsets of the swath lines over `[lo, hi]` for width `w`:
/// lines a width apart from `lo + w/2` up to `hi - w/2`, then one more line
/// at `hi - w/2` where the last of them falls short of it (or none fit).
pub open spec fn line_offsets(lo: int, hi: int, w: int) -> Seq<int> {
    let n = full_steps(lo, hi, w);
    let base = Seq::new(n, |k: int| 2 * lo + w + 2 * (k * w));
    if n == 0 || base[n - 1] < 2 * hi - w {
        base.push(2 * hi - w)
    } else {
        base
    }
}

/// `a / b` rounded up, for `a >= 0` and `b > 0`.
pub open spec fn ceil_div(a: int, b: int) -> int {
    (a + b - 1) / b
}

/// Step `k` stays within the trailing bound exactly when `k` is at most the
/// number of whole widths in `d`.
proof fn lemma_step_fits(k: int, d: int, w: int)
    requires
        w > 0,
        k >= 0,
    ensures
        (k * w <= d) <==> (d >= 0 && k <= d / w),
{
    if d >= 0 {
        lemma_fundamental_div_mod(d, w);
        lemma_mod_pos_bound(d, w);
        let q = d / w;
        let r = d % w;
        assert((k * w <= d) <==> (k <= q)) by (nonlinear_arith)
            requires
                w > 0,
                d == w * q + r,
                0 <= r < w,
        ;
    } else {
        assert(k * w >= 0) by (nonlinear_arith)
            requires
                w > 0,
                k >= 0,
        ;
    }
}

/// The doubled offsets of the swath lines over `[lo, hi]` for width `width`.
pub fn swath_lines(lo: i32, hi: i32, width: u32) -> (r: Vec<i64>)
    requires
        lo <= hi,
        width > 0,
    ensures
        r@.len() == line_offsets(lo as int, hi as int, width as int).len(),
        forall|i: int|
            0 <= i < r@.len() ==> #[trigger] r@[i] as int == line_offsets(
                lo as int,
                hi as int,
                width as int,
            )[i],
{
    let ghost n = full_steps(lo as int, hi as int, width as int);
    let ghost d = hi - lo - width;
    let w = width as i64;
    let last_line = 2 * (hi as i64) - w;
    let mut lines: Vec<i64> = Vec::new();
    let mut y: i64 = 2 * (lo as i64) + w;
    let ghost mut k: int = 0;
    proof {
        lemma_step_fits(0, d, width as int);
        assert(0 * (width as int) == 0);
    }
    while y <= last_line
        invariant
            w == width as int,
            w > 0,
            last_line == 2 * hi - w,
            d == hi - lo - width,
            n == full_steps(lo as int, hi as int, width as int),
            0 <= k <= n,
            lines@.len() == k,
            forall|i: int| 0 <= i < k ==> #[trigger] lines@[i] == 2 * lo + w + 2 * (i * w),
            y == 2 * lo + w + 2 * (k * w),
            (k < n) <==> (y <= last_line),
            y <= last_line + 2 * w,
        decreases last_line + 2 * w - y,
    {
        lines.push(y);
        proof {
            assert((k + 1) * w == k * w + w) by (nonlinear_arith);
            lemma_step_fits(k + 1, d, w as int);
        }
        y = y + 2 * w;
        proof {
            k = k + 1;
        }
    }
    let ghost base = Seq::new(n, |j: int| 2 * lo + w + 2 * (j * w));
    assert(k == n);
    if lines.len() == 0 || lines[lines.len() - 1] < last_line {
        lines.push(last_line);
    }
    lines
}

/// Over an extent of at least one width, the number of swath lines is one
/// more than the number of widths, rounded up, in the extent less one
/// width; every line lies within half a width of the bounds.
pub proof fn lemma_swath_count(lo: int, hi: int, w: int)
    requires
        w > 0,
        hi - lo >= w,
    ensures
        line_offsets(lo, hi, w).len() == ceil_div(hi - lo - w, w) + 1,
        forall|i: int|
            0 <= i < line_offsets(lo, hi, w).len() ==> 2 * lo + w <= #[trigger] line_offsets(
                lo,
                hi,
                w,
            )[i] <= 2 * hi - w,
{
    let d = hi - lo - w;
    let q = d / w;
    let r = d % w;
    lemma_fundamental_div_mod(d, w);
    lemma_mod_pos_bound(d, w);
    let n = full_steps(lo, hi, w);
    assert(n == q + 1);
    let base = Seq::new(n, |k: int| 2 * lo + w + 2 * (k * w));
    assert(base[n - 1] == 2 * lo + w + 2 * (q * w));
    assert(w * q == q * w) by (nonlinear_arith);
    if r == 0 {
        lemma_fundamental_div_mod_converse(d + w - 1, w, q, w - 1);
        assert(!(base[n - 1] < 2 * hi - w));
        assert(line_offsets(lo, hi, w) == base);
    } else {
        assert((q + 1) * w == q * w + w) by (nonlinear_arith);
        lemma_fundamental_div_mod_converse(d + w - 1, w, q + 1, r - 1);
        assert(base[n - 1] < 2 * hi - w);
    }
    assert forall|i: int| 0 <= i < line_offsets(lo, hi, w).len() implies 2 * lo + w
        <= #[trigger] line_offsets(lo, hi, w)[i] <= 2 * hi - w by {
        if i < n {
            assert(0 <= i * w <= q * w) by (nonlinear_arith)
                requires
                    0 <= i <= q,
                    w > 0,
            ;
        }
    }
}

/// The offsets strictly increase, none passes `hi - w/2`, and each is at
/// least `lo + w/2` unless it is the one line at `hi - w/2`.
pub proof fn lemma_lines_increasing(lo: int, hi: int, w: int)
    requires
        w > 0,
    ensures
        forall|i: int, j: int|
            0 <= i < j < line_offsets(lo, hi, w).len() ==> #[trigger] line_offsets(lo, hi, w)[i]
                < #[trigger] line_offsets(lo, hi, w)[j],
        forall|i: int|
            0 <= i < line_offsets(lo, hi, w).len() ==> {
                &&& #[trigger] line_offsets(lo, hi, w)[i] <= 2 * hi - w
                &&& line_offsets(lo, hi, w)[i] >= 2 * lo + w || line_offsets(lo, hi, w)[i] == 2
                    * hi - w
            },
{
    let n = full_steps(lo, hi, w);
    let d = hi - lo - w;
    let base = Seq::new(n, |k: int| 2 * lo + w + 2 * (k * w));
    assert forall|i: int, j: int| 0 <= i < j < n implies #[trigger] base[i] < #[trigger] base[j] by {
        assert(i * w < j * w) by (nonlinear_arith)
            requires
                i < j,
                w > 0,
        ;
    }
    assert forall|i: int| 0 <= i < n implies 2 * lo + w <= #[trigger] base[i] <= 2 * hi - w by {
        lemma_step_fits(i, d, w);
        assert(0 <= i * w) by (nonlinear_arith)
            requires
                0 <= i,
                w > 0,
        ;
    }
    let s = line_offsets(lo, hi, w);
    assert forall|i: int, j: int| 0 <= i < j < s.len() implies #[trigger] s[i] < #[trigger] s[j] by {
        if j == n {
            if i < n - 1 {
                assert(base[i] < base[n - 1]);
            }
        } else {
            assert(base[i] < base[j]);
        }
    }
}

} // verus!
