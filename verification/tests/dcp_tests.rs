use std::io::Cursor;

use rawdev::color::{plan_dcp, LutSource, MatrixSlot, ToneCurveSource};
use rawdev::dcp::{
    dcp_layout_from_bytes, parse_dcp, read_u16, read_u32, value_position, value_size, DcpLayout,
    DcpLoadError, LutDims, TAG_CALIBRATION_ILLUMINANT_1, TAG_COLOR_MATRIX_1, TAG_FORWARD_MATRIX_1,
    TAG_FORWARD_MATRIX_2, TAG_PROFILE_HUE_SAT_MAP_DATA_1, TAG_PROFILE_HUE_SAT_MAP_DIMS,
    TAG_PROFILE_TONE_CURVE,
};
use tiff::encoder::{colortype, TiffEncoder};
use tiff::tags::Tag;

fn profile_bytes() -> Vec<u8> {
    let mut buf = Cursor::new(Vec::new());
    {
        let mut enc = TiffEncoder::new(&mut buf).unwrap();
        let mut img = enc.new_image::<colortype::Gray8>(1, 1).unwrap();
        let e = img.encoder();
        e.write_tag(Tag::from_u16_exhaustive(TAG_CALIBRATION_ILLUMINANT_1), 21u16).unwrap();
        e.write_tag(Tag::from_u16_exhaustive(TAG_COLOR_MATRIX_1), &[0.5f32; 9][..]).unwrap();
        e.write_tag(Tag::from_u16_exhaustive(TAG_FORWARD_MATRIX_2), &[0.25f32; 9][..]).unwrap();
        e.write_tag(Tag::from_u16_exhaustive(TAG_PROFILE_HUE_SAT_MAP_DIMS), &[4u32, 2, 2][..]).unwrap();
        e.write_tag(Tag::from_u16_exhaustive(TAG_PROFILE_HUE_SAT_MAP_DATA_1), &[1.0f32; 48][..]).unwrap();
        e.write_tag(Tag::from_u16_exhaustive(TAG_PROFILE_TONE_CURVE), &[0.0f32, 0.0, 1.0, 1.0][..]).unwrap();
        img.write_data(&[0u8]).unwrap();
    }
    buf.into_inner()
}

#[test]
fn layout_read_from_profile_bytes() {
    let layout = dcp_layout_from_bytes(&profile_bytes()).ok().unwrap();
    assert_eq!(layout.illuminant1, Some(21));
    assert_eq!(layout.illuminant2, None);
    assert_eq!(layout.color_matrix1_len, Some(9));
    assert_eq!(layout.color_matrix2_len, None);
    assert_eq!(layout.forward_matrix1_len, None);
    assert_eq!(layout.forward_matrix2_len, Some(9));
    assert_eq!(layout.map_dims, Some(LutDims { hue: 4, sat: 2, val: 2 }));
    assert_eq!(layout.hue_sat_map1_len, Some(48));
    assert_eq!(layout.hue_sat_map2_len, None);
    assert_eq!(layout.look_table_dims, None);
    assert_eq!(layout.look_table_len, None);
    assert_eq!(layout.tone_curve_len, Some(4));
}

#[test]
fn profile_bytes_plan() {
    let layout = dcp_layout_from_bytes(&profile_bytes()).ok().unwrap();
    let plan = plan_dcp(&layout).ok().unwrap();
    assert_eq!(plan.forward, MatrixSlot::Second);
    assert_eq!(plan.lut.unwrap().source, LutSource::HueSatMap1);
    assert_eq!(plan.tone, Some(ToneCurveSource::Profile));
}

#[test]
fn tiff_without_profile_tags_has_empty_layout() {
    let mut buf = Cursor::new(Vec::new());
    {
        let mut enc = TiffEncoder::new(&mut buf).unwrap();
        enc.write_image::<colortype::Gray8>(1, 1, &[7u8]).unwrap();
    }
    let layout = dcp_layout_from_bytes(&buf.into_inner()).ok().unwrap();
    assert_eq!(layout, DcpLayout::empty());
}

#[test]
fn non_tiff_bytes_refused() {
    assert_eq!(dcp_layout_from_bytes(b"not a profile").err(), Some(DcpLoadError::NotTiff));
    assert_eq!(dcp_layout_from_bytes(&[]).err(), Some(DcpLoadError::NotTiff));
}

/// A little- or big-endian DCP file ("IIRC"/"MMCR") with the given entries:
/// (tag, field type, count, value bytes). Values longer than four bytes are
/// stored after the directory.
fn dcp_bytes(little: bool, entries: &[(u16, u16, u32, Vec<u8>)]) -> Vec<u8> {
    let u16b = |v: u16| if little { v.to_le_bytes() } else { v.to_be_bytes() };
    let u32b = |v: u32| if little { v.to_le_bytes() } else { v.to_be_bytes() };
    let mut out = Vec::new();
    out.extend_from_slice(if little { b"II" } else { b"MM" });
    out.extend_from_slice(&u16b(0x4352));
    out.extend_from_slice(&u32b(8));
    out.extend_from_slice(&u16b(entries.len() as u16));
    let mut data_pos = 8 + 2 + 12 * entries.len() + 4;
    let mut data = Vec::new();
    for (tag, t, count, value) in entries {
        out.extend_from_slice(&u16b(*tag));
        out.extend_from_slice(&u16b(*t));
        out.extend_from_slice(&u32b(*count));
        if value.len() <= 4 {
            let mut v = value.clone();
            v.resize(4, 0);
            out.extend_from_slice(&v);
        } else {
            out.extend_from_slice(&u32b(data_pos as u32));
            data_pos += value.len();
            data.extend_from_slice(value);
        }
    }
    out.extend_from_slice(&[0, 0, 0, 0]);
    out.extend_from_slice(&data);
    out
}

fn f32s(little: bool, v: &[f32]) -> Vec<u8> {
    v.iter().flat_map(|x| if little { x.to_le_bytes() } else { x.to_be_bytes() }).collect()
}

fn u32s(little: bool, v: &[u32]) -> Vec<u8> {
    v.iter().flat_map(|x| if little { x.to_le_bytes() } else { x.to_be_bytes() }).collect()
}

fn sample_profile(little: bool) -> Vec<u8> {
    let u16b = |v: u16| if little { v.to_le_bytes().to_vec() } else { v.to_be_bytes().to_vec() };
    let srational: Vec<u8> = (0..9).flat_map(|i| u32s(little, &[i as u32, 2])).collect();
    dcp_bytes(
        little,
        &[
            (TAG_COLOR_MATRIX_1, 10, 9, srational.clone()),
            (TAG_CALIBRATION_ILLUMINANT_1, 3, 1, u16b(17)),
            (TAG_PROFILE_HUE_SAT_MAP_DIMS, 4, 3, u32s(little, &[90, 30, 1])),
            (TAG_FORWARD_MATRIX_1, 10, 9, srational),
            (TAG_PROFILE_TONE_CURVE, 11, 4, f32s(little, &[0.0, 0.0, 1.0, 1.0])),
        ],
    )
}

#[test]
fn dcp_signature_read_in_both_byte_orders() {
    for little in [true, false] {
        let layout = dcp_layout_from_bytes(&sample_profile(little)).ok().unwrap();
        assert_eq!(layout.illuminant1, Some(17));
        assert_eq!(layout.color_matrix1_len, Some(9));
        assert_eq!(layout.forward_matrix1_len, Some(9));
        assert_eq!(layout.forward_matrix2_len, None);
        assert_eq!(layout.map_dims, Some(LutDims { hue: 90, sat: 30, val: 1 }));
        assert_eq!(layout.tone_curve_len, Some(4));
        assert_eq!(layout.hue_sat_map1_len, None);
    }
}

#[test]
fn directory_entries_and_value_positions() {
    let bytes = sample_profile(true);
    let file = parse_dcp(&bytes).ok().unwrap();
    assert!(file.little_endian);
    assert_eq!(file.entries.len(), 5);
    let e = file.find_entry(TAG_PROFILE_TONE_CURVE).unwrap();
    assert_eq!((e.field_type, e.count), (11, 4));
    let p = value_position(&e, 2, bytes.len()).unwrap();
    assert_eq!(f32::from_bits(read_u32(&bytes, p, true)), 1.0);
    assert_eq!(value_position(&e, 4, bytes.len()), Some(e.value_pos + 16).filter(|&q| q + 4 <= bytes.len()));
    let ill = file.find_entry(TAG_CALIBRATION_ILLUMINANT_1).unwrap();
    assert_eq!(read_u16(&bytes, ill.value_pos, true), 17);
    assert!(file.find_entry(TAG_FORWARD_MATRIX_2).is_none());
}

#[test]
fn entries_past_the_end_or_of_unknown_type_are_left_out() {
    let mut bytes = dcp_bytes(
        true,
        &[
            (TAG_FORWARD_MATRIX_1, 99, 9, vec![0; 36]),
            (TAG_PROFILE_TONE_CURVE, 11, 4, f32s(true, &[0.0, 0.0, 1.0, 1.0])),
        ],
    );
    let truncated = bytes.len() - 4;
    bytes.truncate(truncated);
    let file = parse_dcp(&bytes).ok().unwrap();
    assert_eq!(file.entries.len(), 0);
    let layout = dcp_layout_from_bytes(&bytes).ok().unwrap();
    assert_eq!(layout, DcpLayout::empty());
}

#[test]
fn bad_headers_refused() {
    let good = sample_profile(true);
    let mut bad_magic = good.clone();
    bad_magic[2] = 0;
    assert_eq!(parse_dcp(&bad_magic).err(), Some(DcpLoadError::NotTiff));
    let mut bad_order = good.clone();
    bad_order[1] = b'M';
    assert_eq!(parse_dcp(&bad_order).err(), Some(DcpLoadError::NotTiff));
    let mut bad_offset = good.clone();
    bad_offset[4] = 0xff;
    bad_offset[5] = 0xff;
    assert_eq!(parse_dcp(&bad_offset).err(), Some(DcpLoadError::NotTiff));
    let short_directory = good[..20].to_vec();
    assert_eq!(parse_dcp(&short_directory).err(), Some(DcpLoadError::NotTiff));
}

#[test]
fn value_sizes() {
    assert_eq!(value_size(1), 1);
    assert_eq!(value_size(3), 2);
    assert_eq!(value_size(11), 4);
    assert_eq!(value_size(10), 8);
    assert_eq!(value_size(13), 0);
}

#[test]
fn read_integers_in_both_orders() {
    let b = [0x12u8, 0x34, 0x56, 0x78];
    assert_eq!(read_u16(&b, 0, true), 0x3412);
    assert_eq!(read_u16(&b, 0, false), 0x1234);
    assert_eq!(read_u32(&b, 0, true), 0x78563412);
    assert_eq!(read_u32(&b, 0, false), 0x12345678);
}
