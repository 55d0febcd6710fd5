use rawdev::color::{
    adapts_from_d50, lut_cell, lut_dims_valid, lut_entry_index, plan_dcp, tone_curve_points,
    DcpError, LutSource, MatrixSlot, TargetColorSpace, ToneCurveSource,
};
use rawdev::dcp::{DcpLayout, LutDims};
use rawdev::decode::Illuminant;

#[test]
fn bradford_only_for_d50() {
    assert!(adapts_from_d50(Some(Illuminant::D50)));
    assert!(!adapts_from_d50(Some(Illuminant::D65)));
    assert!(!adapts_from_d50(Some(Illuminant::A)));
    assert!(!adapts_from_d50(None));
    assert_ne!(TargetColorSpace::Srgb, TargetColorSpace::DisplayP3);
}

fn with_forward(len: usize) -> DcpLayout {
    let mut l = DcpLayout::empty();
    l.forward_matrix1_len = Some(len);
    l
}

#[test]
fn dcp_without_forward_matrix_refused() {
    assert_eq!(plan_dcp(&DcpLayout::empty()).err(), Some(DcpError::NoForwardMatrix));
}

#[test]
fn dcp_short_forward_matrix_refused() {
    assert_eq!(plan_dcp(&with_forward(8)).err(), Some(DcpError::ForwardMatrixTooShort));
    let mut l = DcpLayout::empty();
    l.forward_matrix2_len = Some(3);
    assert_eq!(plan_dcp(&l).err(), Some(DcpError::ForwardMatrixTooShort));
    // the first matrix is used even when the second would do
    let mut l = with_forward(4);
    l.forward_matrix2_len = Some(9);
    assert_eq!(plan_dcp(&l).err(), Some(DcpError::ForwardMatrixTooShort));
}

#[test]
fn dcp_plan_defaults() {
    let p = plan_dcp(&with_forward(9)).ok().unwrap();
    assert_eq!(p.forward, MatrixSlot::First);
    assert_eq!(p.lut, None);
    assert_eq!(p.tone, Some(ToneCurveSource::DefaultBase));
    let mut l = DcpLayout::empty();
    l.forward_matrix2_len = Some(9);
    assert_eq!(plan_dcp(&l).ok().unwrap().forward, MatrixSlot::Second);
}

#[test]
fn dcp_look_table_preferred() {
    let mut l = with_forward(9);
    l.look_table_dims = Some(LutDims { hue: 4, sat: 2, val: 2 });
    l.look_table_len = Some(48);
    l.map_dims = Some(LutDims { hue: 2, sat: 2, val: 2 });
    l.hue_sat_map1_len = Some(24);
    let lut = plan_dcp(&l).ok().unwrap().lut.unwrap();
    assert_eq!(lut.source, LutSource::LookTable);
    assert_eq!((lut.hue_divisions, lut.sat_divisions, lut.val_divisions), (4, 2, 2));
}

#[test]
fn dcp_look_table_dims_without_data_applies_no_table() {
    let mut l = with_forward(9);
    l.look_table_dims = Some(LutDims { hue: 4, sat: 2, val: 2 });
    l.map_dims = Some(LutDims { hue: 2, sat: 2, val: 2 });
    l.hue_sat_map1_len = Some(24);
    assert_eq!(plan_dcp(&l).ok().unwrap().lut, None);
}

#[test]
fn dcp_hue_sat_maps() {
    let mut l = with_forward(9);
    l.map_dims = Some(LutDims { hue: 2, sat: 2, val: 2 });
    l.hue_sat_map2_len = Some(24);
    assert_eq!(plan_dcp(&l).ok().unwrap().lut.unwrap().source, LutSource::HueSatMap2);
    l.hue_sat_map1_len = Some(24);
    assert_eq!(plan_dcp(&l).ok().unwrap().lut.unwrap().source, LutSource::HueSatMap1);
    l.hue_sat_map1_len = Some(23);
    assert_eq!(plan_dcp(&l).ok().unwrap().lut, None);
}

#[test]
fn dcp_tone_curve() {
    let mut l = with_forward(9);
    l.tone_curve_len = Some(4);
    assert_eq!(plan_dcp(&l).ok().unwrap().tone, Some(ToneCurveSource::Profile));
    l.tone_curve_len = Some(3);
    assert_eq!(plan_dcp(&l).ok().unwrap().tone, None);
}

#[test]
fn lut_dimension_checks() {
    assert!(lut_dims_valid(LutDims { hue: 1, sat: 2, val: 2 }, 12));
    assert!(!lut_dims_valid(LutDims { hue: 1, sat: 2, val: 2 }, 11));
    assert!(!lut_dims_valid(LutDims { hue: 0, sat: 2, val: 2 }, 100));
    assert!(!lut_dims_valid(LutDims { hue: 3, sat: 1, val: 2 }, 100));
    assert!(!lut_dims_valid(LutDims { hue: 3, sat: 2, val: 1 }, 100));
    assert!(!lut_dims_valid(LutDims { hue: u32::MAX, sat: u32::MAX, val: u32::MAX }, usize::MAX));
}

#[test]
fn lut_entry_positions() {
    // dh = 4, ds = 2: entry (h, s, v) starts at ((v * 2 + s) * 4 + h) * 3
    assert_eq!(lut_entry_index(3, 1, 1, 4, 2, 48), Some(45));
    assert_eq!(lut_entry_index(0, 0, 0, 4, 2, 48), Some(0));
    assert_eq!(lut_entry_index(3, 1, 1, 4, 2, 47), None);
    assert_eq!(lut_entry_index(0, 0, usize::MAX, 4, 2, 48), None);
    // saturation index times hue divisions saturates before the bound check
    assert_eq!(lut_entry_index(0, usize::MAX, 0, 2, 0, usize::MAX), None);
}

#[test]
fn lut_cells_wrap_hue_and_clamp() {
    let c = lut_cell(7, 1, 0, 4, 2, 3);
    assert_eq!((c.h0, c.h1, c.s0, c.s1, c.v0, c.v1), (3, 0, 1, 1, 0, 1));
    let c = lut_cell(1, 0, 2, 4, 2, 3);
    assert_eq!((c.h0, c.h1, c.s0, c.s1, c.v0, c.v1), (1, 2, 0, 1, 2, 2));
}

#[test]
fn tone_curve_point_counts() {
    assert_eq!(tone_curve_points(4), Some(2));
    assert_eq!(tone_curve_points(5), Some(2));
    assert_eq!(tone_curve_points(3), None);
    assert_eq!(tone_curve_points(256), Some(128));
}

#[test]
fn valid_table_stores_every_grid_entry() {
    let dims = LutDims { hue: 5, sat: 3, val: 4 };
    let len = 5 * 3 * 4 * 3;
    assert!(lut_dims_valid(dims, len));
    for v in 0..4 {
        for s in 0..3 {
            for h in 0..5 {
                assert_eq!(lut_entry_index(h, s, v, 5, 3, len), Some(((v * 3 + s) * 5 + h) * 3));
            }
        }
    }
}

#[test]
fn lut_cells_past_the_grid_clamp_their_upper_corner() {
    let c = lut_cell(0, 5, 9, 4, 2, 3);
    assert_eq!((c.s0, c.s1, c.v0, c.v1), (5, 1, 9, 2));
}
