use rawdev::cfa::Cfa;

fn rggb() -> Cfa {
    Cfa::new(2, 2, vec![0, 1, 1, 2]).unwrap()
}

#[test]
fn rggb_colors() {
    let cfa = rggb();
    assert_eq!(cfa.color_at(0, 0), 0);
    assert_eq!(cfa.color_at(0, 1), 1);
    assert_eq!(cfa.color_at(1, 0), 1);
    assert_eq!(cfa.color_at(1, 1), 2);
    assert_eq!(cfa.color_at(100, 101), 1);
    assert_eq!(cfa.color_at(47, 47), 2);
    assert_eq!(cfa.color_at(48, 48), 0);
}

#[test]
fn shift_by_one_gives_bggr() {
    let shifted = rggb().shift(1, 1);
    assert_eq!(shifted.color_at(0, 0), 2);
    assert_eq!(shifted.color_at(0, 1), 1);
    assert_eq!(shifted.color_at(1, 0), 1);
    assert_eq!(shifted.color_at(1, 1), 0);
}

#[test]
fn shift_reads_unshifted_at_offset() {
    // a 6x6 pattern with distinct-looking rows
    let pattern: Vec<u8> = (0..36).map(|i| ((i * 7 + i / 6) % 6) as u8).collect();
    let cfa = Cfa::new(6, 6, pattern).unwrap();
    let s = cfa.shift(4, 9);
    for r in 0..20 {
        for c in 0..20 {
            assert_eq!(s.color_at(r, c), cfa.color_at(r + 9, c + 4));
        }
    }
}

#[test]
fn shifts_compose() {
    let cfa = Cfa::new(2, 8, vec![0, 1, 1, 2, 2, 1, 1, 0, 3, 4, 4, 5, 5, 4, 4, 3]).unwrap();
    let twice = cfa.shift(1, 3).shift(2, 6);
    let once = cfa.shift(3, 9);
    for r in 0..16 {
        for c in 0..4 {
            assert_eq!(twice.color_at(r, c), once.color_at(r, c));
        }
    }
}

#[test]
fn large_shift_offsets() {
    let cfa = rggb();
    let s = cfa.shift(usize::MAX, usize::MAX - 1);
    // usize::MAX is odd, usize::MAX - 1 is even
    assert_eq!(s.color_at(0, 0), cfa.color_at(0, 1));
}

#[test]
fn rejected_shapes() {
    assert!(Cfa::new(2, 2, vec![0, 1, 1]).is_none());
    assert!(Cfa::new(5, 5, vec![0; 25]).is_none());
    assert!(Cfa::new(0, 2, vec![]).is_none());
    assert!(Cfa::new(12, 12, vec![1; 144]).is_some());
}

#[test]
fn empty_pattern_reads_zero() {
    let cfa = Cfa::empty();
    assert_eq!(cfa.width(), 0);
    assert_eq!(cfa.height(), 0);
    assert_eq!(cfa.color_at(3, 5), 0);
    assert!(Cfa::new(0, 0, vec![]).is_some());
}

#[test]
fn named_colors() {
    assert!(rggb().is_named());
    assert!(!Cfa::new(2, 2, vec![0, 1, 7, 2]).unwrap().is_named());
}

#[test]
fn pattern_repeats_by_its_period() {
    let cfa = Cfa::new(6, 6, (0..36).map(|i| (i % 5) as u8).collect()).unwrap();
    for r in 0..12 {
        for c in 0..12 {
            assert_eq!(cfa.color_at(r + 6, c), cfa.color_at(r, c));
            assert_eq!(cfa.color_at(r, c + 6), cfa.color_at(r, c));
        }
    }
}
