//! Bilinear demosaicing: which neighbours feed a missing channel.

use vstd::prelude::*;
use crate::cfa::{Cfa, CfaModel};
use crate::demosaic::{
    lemma_scan_contains, lemma_scan_member, window_col, window_positions, window_row,
};

verus! {

/// Indices (row-major, `w` to a row) of the sites among the first `k` of the
/// 3 x 3 window around (`row`, `col`) that lie inside the `w` x `h` image and
/// carry colour `channel`, in scan order.
pub open spec fn bilinear_window(
    m: CfaModel,
    w: int,
    h: int,
    row: int,
    col: int,
    channel: int,
    k: nat,
) -> Seq<usize>
    decreases k,
{
    if k == 0 {
        seq![]
    } else {
        let prev = bilinear_window(m, w, h, row, col, channel, (k - 1) as nat);
        let nr = window_row(row, k - 1);
        let nc = window_col(col, k - 1);
        if 0 <= nr < h && 0 <= nc < w && m.color(nr, nc) == channel {
            prev.push((nr * w + nc) as usize)
        } else {
            prev
        }
    }
}

/// Whether window position `k` around (`row`, `col`) lies inside the `w` x `h`
/// image and carries colour `channel`.
pub open spec fn bilinear_hit(m: CfaModel, w: int, h: int, row: int, col: int, channel: int) -> spec_fn(int) -> bool {
    |k: int|
        0 <= row + k / 3 - 1 < h && 0 <= col + k % 3 - 1 < w && m.color(row + k / 3 - 1, col + k % 3 - 1)
            == channel
}

/// Row-major index of window position `k` around (`row`, `col`) in an image `w` wide.
pub open spec fn bilinear_site(w: int, row: int, col: int) -> spec_fn(int) -> usize {
    |k: int| ((row + k / 3 - 1) * w + (col + k % 3 - 1)) as usize
}

/// The window, read position by position, keeps exactly the positions inside
/// the image whose site carries the colour, in scan order, each as its site's index.
pub proof fn lemma_bilinear_window_scan(
    m: CfaModel,
    w: int,
    h: int,
    row: int,
    col: int,
    channel: int,
    n: nat,
)
    ensures
        bilinear_window(m, w, h, row, col, channel, n) == window_positions(n).filter(
            bilinear_hit(m, w, h, row, col, channel),
        ).map_values(bilinear_site(w, row, col)),
    decreases n,
{
    reveal(Seq::filter);
    let hit = bilinear_hit(m, w, h, row, col, channel);
    let site = bilinear_site(w, row, col);
    if n == 0 {
        assert(window_positions(0).filter(hit).map_values(site) =~= seq![]);
    } else {
        lemma_bilinear_window_scan(m, w, h, row, col, channel, (n - 1) as nat);
        let s = window_positions(n);
        assert(s.drop_last() =~= window_positions((n - 1) as nat));
        assert(s.last() == n - 1);
        let sub = window_positions((n - 1) as nat).filter(hit);
        assert(sub.push(n - 1).map_values(site) =~= sub.map_values(site).push(site(n - 1)));
    }
}

/// The same-channel neighbours whose average fills channel `channel` at
/// (`row`, `col`): the sites of the 3 x 3 window around it that lie inside the
/// image and carry that colour, as row-major indices in scan order.
pub fn neighbor_sources(
    cfa: &Cfa,
    width: usize,
    height: usize,
    row: usize,
    col: usize,
    channel: usize,
) -> (r: Vec<usize>)
    requires
        row < height <= i32::MAX,
        col < width <= i32::MAX,
        width * height <= usize::MAX,
    ensures
        r@ == bilinear_window(cfa@, width as int, height as int, row as int, col as int, channel as int, 9),
        r@.len() <= 9,
        forall|i: int| 0 <= i < r@.len() ==> #[trigger] r@[i] < width * height,
        forall|i: int|
            0 <= i < r@.len() ==> cfa@.color((#[trigger] r@[i] as int) / (width as int), (r@[i] as int) % (width as int))
                == channel,
        r@ == window_positions(9).filter(
            bilinear_hit(cfa@, width as int, height as int, row as int, col as int, channel as int),
        ).map_values(bilinear_site(width as int, row as int, col as int)),
        r@.len() == window_positions(9).filter(
            bilinear_hit(cfa@, width as int, height as int, row as int, col as int, channel as int),
        ).len(),
        forall|nr: int, nc: int|
            0 <= nr < height && 0 <= nc < width && row - 1 <= nr <= row + 1 && col - 1 <= nc <= col + 1
                && #[trigger] cfa@.color(nr, nc) == channel ==> r@.contains((nr * width + nc) as usize),
        forall|i: int|
            0 <= i < r@.len() ==> row - 1 <= (#[trigger] r@[i] as int) / (width as int) <= row + 1 && col - 1
                <= (r@[i] as int) % (width as int) <= col + 1,
{
    let mut out: Vec<usize> = Vec::new();
    let mut k: usize = 0;
    while k < 9
        invariant
            k <= 9,
            row < height <= i32::MAX,
            col < width <= i32::MAX,
            width * height <= usize::MAX,
            out@ == bilinear_window(cfa@, width as int, height as int, row as int, col as int, channel as int, k as nat),
            out@.len() <= k,
            forall|i: int| 0 <= i < out@.len() ==> #[trigger] out@[i] < width * height,
            forall|i: int|
                0 <= i < out@.len() ==> cfa@.color((#[trigger] out@[i] as int) / (width as int), (out@[i] as int) % (width as int))
                    == channel,
        decreases 9 - k,
    {
        let dr = k / 3;
        let dc = k % 3;
        if row + dr >= 1 && row + dr - 1 < height && col + dc >= 1 && col + dc - 1 < width {
            let nr = row + dr - 1;
            let nc = col + dc - 1;
            if cfa.color_at(nr, nc) == channel {
                proof {
                    assert(nr * width + nc < width * height) by (nonlinear_arith)
                        requires
                            nr < height,
                            nc < width,
                    ;
                    crate::cfa::lemma_cell_position(nr as int, nc as int, height as int, width as int);
                }
                out.push(nr * width + nc);
            }
        }
        k = k + 1;
    }
    proof {
        let hit = bilinear_hit(cfa@, width as int, height as int, row as int, col as int, channel as int);
        let site = bilinear_site(width as int, row as int, col as int);
        lemma_bilinear_window_scan(cfa@, width as int, height as int, row as int, col as int, channel as int, 9);
        assert forall|nr: int, nc: int|
            0 <= nr < height && 0 <= nc < width && row - 1 <= nr <= row + 1 && col - 1 <= nc <= col + 1
                && #[trigger] cfa@.color(nr, nc) == channel implies out@.contains((nr * width + nc) as usize) by {
            let k = (nr - row + 1) * 3 + (nc - col + 1);
            assert(k / 3 == nr - row + 1 && k % 3 == nc - col + 1);
            lemma_scan_contains(hit, site, k);
        }
        assert forall|i: int| 0 <= i < out@.len() implies row - 1 <= (#[trigger] out@[i] as int) / (
        width as int) <= row + 1 && col - 1 <= (out@[i] as int) % (width as int) <= col + 1 by {
            lemma_scan_member(hit, site, i);
            let k = window_positions(9).filter(hit)[i];
            let nr = row + k / 3 - 1;
            let nc = col + k % 3 - 1;
            crate::cfa::lemma_cell_position(nr, nc, height as int, width as int);
            vstd::arithmetic::mul::lemma_mul_is_commutative(height as int, width as int);
            assert(out@[i] == site(k));
            assert(out@[i] as int == nr * width + nc);
        }
    }
    out
}

} // verus!
