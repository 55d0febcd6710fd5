use rawdev::cfa::Cfa;
use rawdev::demosaic::bayer_slot;
use rawdev::demosaic::bilinear::neighbor_sources;
use rawdev::demosaic::rcd::{clamped_index, smoothing_sources};

fn rggb() -> Cfa {
    Cfa::new(2, 2, vec![0, 1, 1, 2]).unwrap()
}

#[test]
fn bayer_slots() {
    assert_eq!(bayer_slot(0, 0), 0);
    assert_eq!(bayer_slot(0, 1), 1);
    assert_eq!(bayer_slot(1, 0), 2);
    assert_eq!(bayer_slot(1, 1), 3);
    assert_eq!(bayer_slot(7, 4), 2);
}

#[test]
fn clamped_reads() {
    assert_eq!(clamped_index(4, 3, 1, 2), 6);
    assert_eq!(clamped_index(4, 3, -2, -1), 0);
    assert_eq!(clamped_index(4, 3, 5, 9), 11);
    assert_eq!(clamped_index(4, 3, 2, -3), 8);
}

#[test]
fn bilinear_red_at_blue_site() {
    // 4 x 4 RGGB; site (1,1) is blue, its red neighbours are the four diagonals
    let cfa = rggb();
    let r = neighbor_sources(&cfa, 4, 4, 1, 1, 0);
    assert_eq!(r, vec![0, 2, 8, 10]);
}

#[test]
fn bilinear_green_at_corner_red_site() {
    let cfa = rggb();
    let r = neighbor_sources(&cfa, 4, 4, 0, 0, 1);
    assert_eq!(r, vec![1, 4]);
}

#[test]
fn bilinear_missing_channel_has_no_sources() {
    let cfa = Cfa::new(2, 2, vec![0, 1, 1, 1]).unwrap();
    let r = neighbor_sources(&cfa, 2, 2, 0, 1, 2);
    assert!(r.is_empty());
}

#[test]
fn smoothing_window_clamps_to_edges() {
    // at the red corner site (0,0) of RGGB every clamped window site equal to
    // (0,0) is counted once per window position that lands on it
    let cfa = rggb();
    let r = smoothing_sources(&cfa, 4, 4, 0, 0, 0);
    assert_eq!(r, vec![0, 0, 0, 0]);
    let b = smoothing_sources(&cfa, 4, 4, 0, 0, 2);
    assert_eq!(b, vec![5]);
}

#[test]
fn smoothing_window_interior() {
    let cfa = rggb();
    let r = smoothing_sources(&cfa, 4, 4, 2, 2, 0);
    assert_eq!(r, vec![10]);
    let g = smoothing_sources(&cfa, 4, 4, 2, 2, 1);
    assert_eq!(g, vec![6, 9, 11, 14]);
}

#[test]
fn bayer_slot_repeats_every_two() {
    for r in 0..6 {
        for c in 0..6 {
            assert_eq!(bayer_slot(r + 2, c), bayer_slot(r, c));
            assert_eq!(bayer_slot(r, c + 2), bayer_slot(r, c));
        }
    }
}
