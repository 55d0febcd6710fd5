//! Index logic shared by the demosaicing algorithms.

pub mod bilinear;
pub mod rcd;

use vstd::prelude::*;

verus! {

/// Position of a site inside its 2 x 2 block, counted row by row; it selects
/// the per-position black and white levels of the sensor.
pub open spec fn bayer_slot_spec(row: int, col: int) -> int {
    (row % 2) * 2 + col % 2
}

/// Computes the position of site (`row`, `col`) inside its 2 x 2 block.
pub fn bayer_slot(row: usize, col: usize) -> (r: usize)
    ensures
        r == bayer_slot_spec(row as int, col as int),
        r < 4,
{
    (row % 2) * 2 + (col % 2)
}

/// The block position repeats every two rows and every two columns.
pub proof fn lemma_bayer_slot_periodic(row: int, col: int)
    ensures
        bayer_slot_spec(row + 2, col) == bayer_slot_spec(row, col),
        bayer_slot_spec(row, col + 2) == bayer_slot_spec(row, col),
{
}

/// Row of the `k`-th site of the 3 x 3 window around `row`, scanned row by row.
pub open spec fn window_row(row: int, k: int) -> int {
    row + k / 3 - 1
}

/// Column of the `k`-th site of the 3 x 3 window around `col`, scanned row by row.
pub open spec fn window_col(col: int, k: int) -> int {
    col + k % 3 - 1
}

/// The first `n` positions of a 3 x 3 window, numbered row by row from 0.
pub open spec fn window_positions(n: nat) -> Seq<int> {
    Seq::new(n, |k: int| k)
}

/// A window position that passes `hit` gives its site to the scan of the window.
pub proof fn lemma_scan_contains(hit: spec_fn(int) -> bool, site: spec_fn(int) -> usize, k: int)
    requires
        0 <= k < 9,
        hit(k),
    ensures
        window_positions(9).filter(hit).map_values(site).contains(site(k)),
{
    let s = window_positions(9);
    s.lemma_filter_contains(hit, k);
    let fl = s.filter(hit);
    let j = choose|j: int| 0 <= j < fl.len() && fl[j] == s[k];
    assert(fl.map_values(site)[j] == site(k));
}

/// Each entry of the scan of a window is the site of a position that passes `hit`.
pub proof fn lemma_scan_member(hit: spec_fn(int) -> bool, site: spec_fn(int) -> usize, i: int)
    requires
        0 <= i < window_positions(9).filter(hit).len(),
    ensures
        0 <= window_positions(9).filter(hit)[i] < 9,
        hit(window_positions(9).filter(hit)[i]),
        window_positions(9).filter(hit).map_values(site)[i] == site(window_positions(9).filter(hit)[i]),
{
    let s = window_positions(9);
    let fl = s.filter(hit);
    s.lemma_filter_pred(hit, i);
    assert(fl.contains(fl[i]));
    s.lemma_filter_contains_rev(hit, fl[i]);
}

/// `v` limited to `lo..=hi`.
pub open spec fn clamp_int(v: int, lo: int, hi: int) -> int {
    if v < lo {
        lo
    } else if v > hi {
        hi
    } else {
        v
    }
}

} // verus!
