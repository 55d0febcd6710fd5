use rawdev::output::{encode_ppm, output_format, ppm_header, OutputFormat};

#[test]
fn ppm_header_text() {
    assert_eq!(ppm_header(3, 2), b"P6\n3 2\n255\n".to_vec());
    assert_eq!(ppm_header(0, 10), b"P6\n0 10\n255\n".to_vec());
    assert_eq!(ppm_header(6000, 4000), b"P6\n6000 4000\n255\n".to_vec());
}

#[test]
fn ppm_header_matches_std_formatting() {
    for (w, h) in [(1usize, 1usize), (19, 305), (123456, 7), (usize::MAX, 0)] {
        assert_eq!(ppm_header(w, h), format!("P6\n{} {}\n255\n", w, h).into_bytes());
    }
}

#[test]
fn ppm_file_bytes() {
    let rgb = vec![1u8, 2, 3, 4, 5, 6];
    let mut expected = b"P6\n2 1\n255\n".to_vec();
    expected.extend_from_slice(&rgb);
    assert_eq!(encode_ppm(&rgb, 2, 1), expected);
}

#[test]
fn output_format_by_extension() {
    assert_eq!(output_format(""), OutputFormat::Ppm);
    assert_eq!(output_format("ppm"), OutputFormat::Ppm);
    assert_eq!(output_format("PpM"), OutputFormat::Ppm);
    assert_eq!(output_format("png"), OutputFormat::Png);
    assert_eq!(output_format("PNG"), OutputFormat::Png);
    assert_eq!(output_format("jpg"), OutputFormat::PpmFallback);
    assert_eq!(output_format("pngx"), OutputFormat::PpmFallback);
    assert_eq!(output_format("tiff"), OutputFormat::PpmFallback);
}
