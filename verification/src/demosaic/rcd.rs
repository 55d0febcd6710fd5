//! Ratio-corrected demosaicing: edge-clamped sampling.

use vstd::prelude::*;
use crate::cfa::{Cfa, CfaModel};
use crate::demosaic::{
    clamp_int, lemma_scan_contains, lemma_scan_member, window_col, window_positions, window_row,
};

verus! {

/// Row-major index of the site nearest to (`row`, `col`) inside a `w` x `h` image.
pub open spec fn clamped_index_spec(w: int, h: int, row: int, col: int) -> int {
    clamp_int(row, 0, h - 1) * w + clamp_int(col, 0, w - 1)
}

/// Index of the sample read at (`row`, `col`), with coordinates outside the
/// image moved to its nearest edge, so reads never leave the buffer.
pub fn clamped_index(width: usize, height: usize, row: i32, col: i32) -> (r: usize)
    requires
        0 < width <= i32::MAX,
        0 < height <= i32::MAX,
        width * height <= usize::MAX,
    ensures
        r == clamped_index_spec(width as int, height as int, row as int, col as int),
        r < width * height,
        0 <= row < height && 0 <= col < width ==> r == row * width + col,
        r as int / width as int == (if row < 0 {
            0
        } else if row >= height {
            height - 1
        } else {
            row as int
        }),
        r as int % width as int == (if col < 0 {
            0
        } else if col >= width {
            width - 1
        } else {
            col as int
        }),
{
    let r: usize = if row < 0 {
        0
    } else if row as usize > height - 1 {
        height - 1
    } else {
        row as usize
    };
    let c: usize = if col < 0 {
        0
    } else if col as usize > width - 1 {
        width - 1
    } else {
        col as usize
    };
    proof {
        assert(r * width + c < width * height) by (nonlinear_arith)
            requires
                r < height,
                c < width,
        ;
        crate::cfa::lemma_cell_position(r as int, c as int, height as int, width as int);
    }
    r * width + c
}

/// Indices of the sites among the first `k` of the 3 x 3 window around
/// (`row`, `col`), each moved to the nearest edge of the image, that carry
/// colour `channel`, in scan order; an edge site may appear more than once.
pub open spec fn clamped_window(
    m: CfaModel,
    w: int,
    h: int,
    row: int,
    col: int,
    channel: int,
    k: nat,
) -> Seq<usize>
    decreases k,
{
    if k == 0 {
        seq![]
    } else {
        let prev = clamped_window(m, w, h, row, col, channel, (k - 1) as nat);
        let nr = clamp_int(window_row(row, k - 1), 0, h - 1);
        let nc = clamp_int(window_col(col, k - 1), 0, w - 1);
        if m.color(nr, nc) == channel {
            prev.push((nr * w + nc) as usize)
        } else {
            prev
        }
    }
}

/// Whether window position `k` around (`row`, `col`), moved to the nearest
/// edge of the `w` x `h` image, carries colour `channel`.
pub open spec fn clamped_hit(m: CfaModel, w: int, h: int, row: int, col: int, channel: int) -> spec_fn(int) -> bool {
    |k: int| m.color(clamp_int(row + k / 3 - 1, 0, h - 1), clamp_int(col + k % 3 - 1, 0, w - 1)) == channel
}

/// Row-major index of window position `k` around (`row`, `col`), moved to the
/// nearest edge of the `w` x `h` image.
pub open spec fn clamped_site(w: int, h: int, row: int, col: int) -> spec_fn(int) -> usize {
    |k: int| (clamp_int(row + k / 3 - 1, 0, h - 1) * w + clamp_int(col + k % 3 - 1, 0, w - 1)) as usize
}

/// The edge-clamped window, read position by position, keeps exactly the
/// positions whose site carries the colour, in scan order, each as its site's index.
pub proof fn lemma_clamped_window_scan(
    m: CfaModel,
    w: int,
    h: int,
    row: int,
    col: int,
    channel: int,
    n: nat,
)
    ensures
        clamped_window(m, w, h, row, col, channel, n) == window_positions(n).filter(
            clamped_hit(m, w, h, row, col, channel),
        ).map_values(clamped_site(w, h, row, col)),
    decreases n,
{
    reveal(Seq::filter);
    let hit = clamped_hit(m, w, h, row, col, channel);
    let site = clamped_site(w, h, row, col);
    if n == 0 {
        assert(window_positions(0).filter(hit).map_values(site) =~= seq![]);
    } else {
        lemma_clamped_window_scan(m, w, h, row, col, channel, (n - 1) as nat);
        let s = window_positions(n);
        assert(s.drop_last() =~= window_positions((n - 1) as nat));
        assert(s.last() == n - 1);
        let sub = window_positions((n - 1) as nat).filter(hit);
        assert(sub.push(n - 1).map_values(site) =~= sub.map_values(site).push(site(n - 1)));
    }
}

/// The known ratios averaged to smooth the ratio map of colour `channel` at
/// (`row`, `col`): the edge-clamped 3 x 3 window sites of that colour.
pub fn smoothing_sources(
    cfa: &Cfa,
    width: usize,
    height: usize,
    row: usize,
    col: usize,
    channel: usize,
) -> (r: Vec<usize>)
    requires
        row < height <= i32::MAX,
        col < width <= i32::MAX,
        width * height <= usize::MAX,
    ensures
        r@ == clamped_window(cfa@, width as int, height as int, row as int, col as int, channel as int, 9),
        r@.len() <= 9,
        forall|i: int| 0 <= i < r@.len() ==> #[trigger] r@[i] < width * height,
        forall|i: int|
            0 <= i < r@.len() ==> cfa@.color((#[trigger] r@[i] as int) / (width as int), (r@[i] as int) % (width as int))
                == channel,
        r@ == window_positions(9).filter(
            clamped_hit(cfa@, width as int, height as int, row as int, col as int, channel as int),
        ).map_values(clamped_site(width as int, height as int, row as int, col as int)),
        r@.len() == window_positions(9).filter(
            clamped_hit(cfa@, width as int, height as int, row as int, col as int, channel as int),
        ).len(),
        forall|k: int|
            0 <= k < 9 && #[trigger] cfa@.color(
                clamp_int(row + k / 3 - 1, 0, height - 1),
                clamp_int(col + k % 3 - 1, 0, width - 1),
            ) == channel ==> r@.contains(
                (clamp_int(row + k / 3 - 1, 0, height - 1) * width + clamp_int(
                    col + k % 3 - 1,
                    0,
                    width - 1,
                )) as usize,
            ),
        forall|i: int|
            0 <= i < r@.len() ==> clamp_int(row - 1, 0, height - 1) <= (#[trigger] r@[i] as int)
                / (width as int) <= clamp_int(row + 1, 0, height - 1) && clamp_int(col - 1, 0, width - 1)
                <= (r@[i] as int) % (width as int) <= clamp_int(col + 1, 0, width - 1),
{
    let mut out: Vec<usize> = Vec::new();
    let mut k: usize = 0;
    while k < 9
        invariant
            k <= 9,
            row < height <= i32::MAX,
            col < width <= i32::MAX,
            width * height <= usize::MAX,
            out@ == clamped_window(cfa@, width as int, height as int, row as int, col as int, channel as int, k as nat),
            out@.len() <= k,
            forall|i: int| 0 <= i < out@.len() ==> #[trigger] out@[i] < width * height,
            forall|i: int|
                0 <= i < out@.len() ==> cfa@.color((#[trigger] out@[i] as int) / (width as int), (out@[i] as int) % (width as int))
                    == channel,
        decreases 9 - k,
    {
        let dr = k / 3;
        let dc = k % 3;
        let nr: usize = if row + dr == 0 {
            0
        } else if row + dr - 1 > height - 1 {
            height - 1
        } else {
            row + dr - 1
        };
        let nc: usize = if col + dc == 0 {
            0
        } else if col + dc - 1 > width - 1 {
            width - 1
        } else {
            col + dc - 1
        };
        if cfa.color_at(nr, nc) == channel {
            proof {
                assert(nr * width + nc < width * height) by (nonlinear_arith)
                    requires
                        nr < height,
                        nc < width,
                ;
                crate::cfa::lemma_cell_position(nr as int, nc as int, height as int, width as int);
            }
            out.push(nr * width + nc);
        }
        k = k + 1;
    }
    proof {
        let hit = clamped_hit(cfa@, width as int, height as int, row as int, col as int, channel as int);
        let site = clamped_site(width as int, height as int, row as int, col as int);
        lemma_clamped_window_scan(cfa@, width as int, height as int, row as int, col as int, channel as int, 9);
        assert forall|k: int|
            0 <= k < 9 && #[trigger] cfa@.color(
                clamp_int(row + k / 3 - 1, 0, height - 1),
                clamp_int(col + k % 3 - 1, 0, width - 1),
            ) == channel implies out@.contains(
                (clamp_int(row + k / 3 - 1, 0, height - 1) * width + clamp_int(
                    col + k % 3 - 1,
                    0,
                    width - 1,
                )) as usize,
            ) by {
            lemma_scan_contains(hit, site, k);
        }
        assert forall|i: int| 0 <= i < out@.len() implies clamp_int(row - 1, 0, height - 1) <= (
        #[trigger] out@[i] as int) / (width as int) <= clamp_int(row + 1, 0, height - 1) && clamp_int(
            col - 1,
            0,
            width - 1,
        ) <= (out@[i] as int) % (width as int) <= clamp_int(col + 1, 0, width - 1) by {
            lemma_scan_member(hit, site, i);
            let k = window_positions(9).filter(hit)[i];
            let cr = clamp_int(row + k / 3 - 1, 0, height - 1);
            let cc = clamp_int(col + k % 3 - 1, 0, width - 1);
            crate::cfa::lemma_cell_position(cr, cc, height as int, width as int);
            vstd::arithmetic::mul::lemma_mul_is_commutative(height as int, width as int);
            assert(out@[i] == site(k));
            assert(out@[i] as int == cr * width + cc);
        }
    }
    out
}

} // verus!
