use toolshot::crop::{crop_bounds, crop_rgba, FrozenScreen};
use toolshot::imaging::{encode_png, rgb_to_rgba, tray_icon_rgba};
use toolshot::payload::parse_annotated;

// The overlay's selection edges, logical coordinates times the frame's
// scale, rounded and floored at zero, as the UI process computes them.
fn edge(v: f64, scale: f64) -> u32 {
    (v * scale).round().max(0.0) as u32
}

fn crop_logical(
    scale: f64,
    frame_w: u32,
    frame_h: u32,
    x: f64,
    y: f64,
    width: f64,
    height: f64,
) -> Result<(u32, u32, u32, u32), String> {
    crop_bounds(
        frame_w,
        frame_h,
        edge(x, scale),
        edge(y, scale),
        edge(x + width, scale),
        edge(y + height, scale),
    )
}

#[test]
fn crop_bounds_scales_logical_to_physical() {
    // 2x retina: logical 10,20 100x50 is physical 20,40 200x100.
    let (x0, y0, w, h) = crop_logical(2.0, 3000, 2000, 10.0, 20.0, 100.0, 50.0).unwrap();
    assert_eq!((x0, y0, w, h), (20, 40, 200, 100));
}

#[test]
fn crop_bounds_clamps_to_frame_edges() {
    // Selection dragged past the top-left and the bottom-right.
    let (x0, y0, w, h) = crop_logical(1.0, 800, 600, -50.0, -50.0, 900.0, 700.0).unwrap();
    assert_eq!((x0, y0, w, h), (0, 0, 800, 600));
}

#[test]
fn crop_bounds_rejects_tiny_selections() {
    assert!(crop_logical(1.0, 800, 600, 10.0, 10.0, 1.0, 1.0).is_err());
    // Fully outside the frame collapses to zero size.
    assert!(crop_logical(1.0, 800, 600, 900.0, 700.0, 50.0, 50.0).is_err());
}

#[test]
fn crop_bounds_rounds_fractional_logical_pixels() {
    // 1.5x scale: 3.0 logical is 4.5 physical, rounds to 5; width 10
    // logical spans 4.5..19.5 -> 5..20.
    let (x0, y0, w, h) = crop_logical(1.5, 1000, 1000, 3.0, 3.0, 10.0, 10.0).unwrap();
    assert_eq!((x0, y0), (5, 5));
    assert_eq!((w, h), (15, 15));
}

#[test]
fn crop_bounds_error_message() {
    assert_eq!(crop_bounds(800, 600, 10, 10, 11, 400), Err("selection too small".to_string()));
    assert_eq!(crop_bounds(800, 600, 10, 10, 12, 12), Ok((10, 10, 2, 2)));
}

#[test]
fn parse_annotated_roundtrip() {
    let mut payload = Vec::new();
    payload.extend_from_slice(&2u32.to_le_bytes());
    payload.extend_from_slice(&3u32.to_le_bytes());
    payload.extend_from_slice(&[7u8; 2 * 3 * 4]);
    let (w, h, rgba) = parse_annotated(&payload).unwrap();
    assert_eq!((w, h), (2, 3));
    assert_eq!(rgba.len(), 24);
}

#[test]
fn parse_annotated_rejects_bad_payloads() {
    assert!(parse_annotated(&[1, 2, 3]).is_err());
    let mut payload = Vec::new();
    payload.extend_from_slice(&2u32.to_le_bytes());
    payload.extend_from_slice(&2u32.to_le_bytes());
    payload.extend_from_slice(&[0u8; 15]); // needs 16
    assert!(parse_annotated(&payload).is_err());
}

#[test]
fn parse_annotated_messages_and_large_header() {
    assert_eq!(parse_annotated(&[0; 7]).unwrap_err(), "payload too short");
    // 0x0102 x 1 pixels, little endian, with the right byte count.
    let mut payload = vec![0x02, 0x01, 0, 0, 1, 0, 0, 0];
    payload.extend(std::iter::repeat(9u8).take(0x102 * 4));
    let (w, h, rgba) = parse_annotated(&payload).unwrap();
    assert_eq!((w, h), (0x102, 1));
    assert_eq!(rgba, &payload[8..]);
    // A header whose size does not fit the machine never matches.
    let huge = [0xff, 0xff, 0xff, 0xff, 0xff, 0xff, 0xff, 0xff, 1, 2, 3, 4];
    assert_eq!(parse_annotated(&huge).unwrap_err(), "payload size mismatch");
}

#[test]
fn encode_png_roundtrips_pixels() {
    let rgba: Vec<u8> = vec![
        255, 0, 0, 255, /**/ 0, 255, 0, 255, //
        0, 0, 255, 255, /**/ 255, 255, 255, 128,
    ];
    let png = encode_png(&rgba, 2, 2).unwrap();
    let decoded = image::load_from_memory(&png).unwrap().to_rgba8();
    assert_eq!(decoded.dimensions(), (2, 2));
    assert_eq!(decoded.into_raw(), rgba);
}

#[test]
fn encode_png_refuses_empty_image() {
    assert!(encode_png(&[], 0, 5).is_err());
    assert!(encode_png(&[], 5, 0).is_err());
}

#[test]
fn crop_rgba_copies_the_selected_rows() {
    // 3x2 frame, pixel (x, y) filled with 10 * y + x.
    let mut frame = Vec::new();
    for y in 0..2u8 {
        for x in 0..3u8 {
            frame.extend_from_slice(&[10 * y + x; 4]);
        }
    }
    let out = crop_rgba(&frame, 3, 2, 1, 0, 2, 2);
    let mut expected = Vec::new();
    for v in [1u8, 2, 11, 12] {
        expected.extend_from_slice(&[v; 4]);
    }
    assert_eq!(out, expected);
}

#[test]
fn frozen_screen_crops_selection() {
    assert!(FrozenScreen::from_capture(2, 2, vec![0; 15]).is_none());
    let mut rgba = Vec::new();
    for i in 0..16u8 {
        rgba.extend_from_slice(&[i, i, i, 255]);
    }
    let frame = FrozenScreen::from_capture(4, 4, rgba).unwrap();
    let (px, w, h) = frame.crop_selection(2, 2, 10, 10).unwrap();
    assert_eq!((w, h), (2, 2));
    let expected: Vec<u8> = [10u8, 11, 14, 15].iter().flat_map(|&v| [v, v, v, 255]).collect();
    assert_eq!(px, expected);
    assert_eq!(frame.crop_selection(3, 0, 9, 9).unwrap_err(), "selection too small");
}

#[test]
fn rgb_to_rgba_adds_opaque_alpha() {
    assert_eq!(rgb_to_rgba(&[1, 2, 3, 4, 5, 6]), vec![1, 2, 3, 255, 4, 5, 6, 255]);
    assert!(rgb_to_rgba(&[]).is_empty());
}

#[test]
fn tray_icon_decodes_rgba_png() {
    let rgba: Vec<u8> = vec![1, 2, 3, 4, 5, 6, 7, 8];
    let png = encode_png(&rgba, 2, 1).unwrap();
    let (pixels, w, h) = tray_icon_rgba(&png).unwrap();
    assert_eq!((w, h), (2, 1));
    assert_eq!(pixels, rgba);
    assert!(tray_icon_rgba(b"not a png").is_none());
}

#[test]
fn tray_icon_expands_rgb_png() {
    let rgb: Vec<u8> = vec![10, 20, 30, 40, 50, 60];
    let mut png = Vec::new();
    {
        let mut enc = png::Encoder::new(&mut png, 2, 1);
        enc.set_color(png::ColorType::Rgb);
        enc.set_depth(png::BitDepth::Eight);
        let mut w = enc.write_header().unwrap();
        w.write_image_data(&rgb).unwrap();
    }
    let (pixels, w, h) = tray_icon_rgba(&png).unwrap();
    assert_eq!((w, h), (2, 1));
    assert_eq!(pixels, vec![10, 20, 30, 255, 40, 50, 60, 255]);
}
