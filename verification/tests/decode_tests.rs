use rawdev::cfa::Cfa;
use rawdev::decode::{
    frame_from_sensor, resolve_camera_illuminant, select_color_matrix, Area, DecodeError,
    Illuminant, SensorData,
};

#[test]
fn prefers_d65_then_d50_then_first() {
    assert_eq!(select_color_matrix(&[Illuminant::A, Illuminant::D50, Illuminant::D65]), Some(2));
    assert_eq!(select_color_matrix(&[Illuminant::D50, Illuminant::A]), Some(0));
    assert_eq!(select_color_matrix(&[Illuminant::A, Illuminant::D50]), Some(1));
    assert_eq!(select_color_matrix(&[Illuminant::Tungsten, Illuminant::A]), Some(0));
    assert_eq!(select_color_matrix(&[]), None);
}

#[test]
fn camera_illuminant_kept_only_for_usable_matrix() {
    assert_eq!(resolve_camera_illuminant(Some(Illuminant::D65), 9, true), Some(Illuminant::D65));
    assert_eq!(resolve_camera_illuminant(Some(Illuminant::D50), 12, true), Some(Illuminant::D50));
    assert_eq!(resolve_camera_illuminant(Some(Illuminant::D65), 8, true), None);
    assert_eq!(resolve_camera_illuminant(Some(Illuminant::D65), 9, false), None);
    assert_eq!(resolve_camera_illuminant(None, 9, true), None);
}

fn rggb() -> Cfa {
    Cfa::new(2, 2, vec![0, 1, 1, 2]).unwrap()
}

#[test]
fn non_mosaic_refused() {
    let r = frame_from_sensor(SensorData::Integer(vec![1, 2, 3, 4]), 2, None, None);
    assert_eq!(r.err(), Some(DecodeError::UnsupportedPhotometric));
    let r = frame_from_sensor(SensorData::Float, 2, None, None);
    assert_eq!(r.err(), Some(DecodeError::UnsupportedPhotometric));
}

#[test]
fn float_data_refused() {
    let r = frame_from_sensor(SensorData::Float, 2, Some(rggb()), None);
    assert_eq!(r.err(), Some(DecodeError::FloatData));
}

#[test]
fn without_active_area_frame_is_whole_image() {
    let px: Vec<u16> = (0..12).collect();
    let f = frame_from_sensor(SensorData::Integer(px.clone()), 4, Some(rggb()), None).ok().unwrap();
    assert_eq!(f.pixels, px);
    assert_eq!(f.width, 4);
    assert_eq!(f.height, 3);
    assert_eq!(f.cfa.color_at(0, 0), 0);
}

#[test]
fn active_area_crops_and_shifts_pattern() {
    // 5 x 4 image, sample value = 10 * row + col
    let mut px = Vec::new();
    for r in 0..4u16 {
        for c in 0..5u16 {
            px.push(10 * r + c);
        }
    }
    let area = Area { x: 1, y: 1, width: 3, height: 2 };
    let full = rggb();
    let f = frame_from_sensor(SensorData::Integer(px), 5, Some(rggb()), Some(area)).ok().unwrap();
    assert_eq!(f.pixels, vec![11, 12, 13, 21, 22, 23]);
    assert_eq!(f.width, 3);
    assert_eq!(f.height, 2);
    for r in 0..2 {
        for c in 0..3 {
            assert_eq!(f.cfa.color_at(r, c), full.color_at(r + 1, c + 1));
        }
    }
    assert_eq!(f.cfa.color_at(0, 0), 2);
}

#[test]
fn active_area_past_last_row_takes_rows_present() {
    let px: Vec<u16> = (0..8).collect();
    let area = Area { x: 0, y: 1, width: 2, height: 5 };
    let f = frame_from_sensor(SensorData::Integer(px), 2, Some(rggb()), Some(area)).ok().unwrap();
    assert_eq!(f.pixels, vec![2, 3, 4, 5, 6, 7]);
    assert_eq!(f.height, 5);
}
