use raytracer::ppm::{clamp_channel, ppm_header, push_pixel_line};

fn line(r: i32, g: i32, b: i32) -> String {
    let mut out = Vec::new();
    push_pixel_line(&mut out, r, g, b);
    String::from_utf8(out).unwrap()
}

#[test]
fn header_names_size_and_channel_range() {
    assert_eq!(String::from_utf8(ppm_header(768, 486)).unwrap(), "P3\n768 486\n255\n");
    assert_eq!(String::from_utf8(ppm_header(1, 0)).unwrap(), "P3\n1 0\n255\n");
}

#[test]
fn pixel_line_writes_channels_in_decimal() {
    assert_eq!(line(12, 0, 255), "12 0 255\n");
    assert_eq!(line(7, 100, 9), "7 100 9\n");
}

#[test]
fn pixel_line_clamps_out_of_range_channels() {
    assert_eq!(line(256, -1, 300), "255 0 255\n");
    assert_eq!(line(i32::MIN, i32::MAX, 128), "0 255 128\n");
}

#[test]
fn pixel_lines_append() {
    let mut out = b"P3\n1 2\n255\n".to_vec();
    push_pixel_line(&mut out, 1, 2, 3);
    push_pixel_line(&mut out, 4, 5, 6);
    assert_eq!(String::from_utf8(out).unwrap(), "P3\n1 2\n255\n1 2 3\n4 5 6\n");
}

#[test]
fn channel_clamp_edges() {
    assert_eq!(clamp_channel(-5), 0);
    assert_eq!(clamp_channel(0), 0);
    assert_eq!(clamp_channel(255), 255);
    assert_eq!(clamp_channel(256), 255);
    assert_eq!(clamp_channel(99), 99);
}
