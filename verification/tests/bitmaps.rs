use signpad::canvas::EventCanvas;
use signpad::event::{Event, UNIT};
use signpad::image_path::BitmapPath;
use signpad::path::{IntoTrace, Point, Trace};

#[test]
fn threshold_splits_at_the_ink_level() {
    let path = BitmapPath::new(2, 1, vec![19, 20]);
    let trace = path.trace();
    let mut buffer: Vec<Point> = Vec::new();
    // Only the first pixel is ink, so the trace holds exactly one dab.
    assert_eq!(trace.get(0, &mut buffer), 2);
    assert_eq!(trace.get(UNIT, &mut buffer), 0);
}

#[test]
fn single_ink_pixel_becomes_a_dab() {
    // One ink pixel at a quarter across and three quarters down.
    let mut luma = vec![255u8; 16];
    luma[3 * 4 + 1] = 0;
    let path = BitmapPath::new(4, 4, luma);
    let trace = path.trace();
    let mut buffer: Vec<Point> = Vec::new();
    assert_eq!(trace.get(0, &mut buffer), 2);
    assert_eq!(
        buffer,
        vec![
            Point { x: UNIT / 4, y: 3 * (UNIT / 4), touch: true },
            Point { x: UNIT / 4, y: 3 * (UNIT / 4), touch: false },
        ]
    );
}

#[test]
fn exhausted_stamp_trace_yields_nothing() {
    let mut luma = vec![255u8; 4];
    luma[0] = 0;
    let path = BitmapPath::new(2, 2, luma);
    let trace = path.trace();
    let mut buffer: Vec<Point> = Vec::new();
    // The parameter maps to index 1 of a single-dab trace: out of range.
    assert_eq!(trace.get(UNIT, &mut buffer), 0);
    assert!(buffer.is_empty());
}

#[test]
fn ink_pixels_come_in_column_major_order() {
    // Ink at (0, 1) and (1, 0): scanning columns first finds (0, 1).
    let luma = vec![255, 0, 0, 255];
    let path = BitmapPath::new(2, 2, luma);
    let trace = path.trace();
    let mut buffer: Vec<Point> = Vec::new();
    assert_eq!(trace.get(0, &mut buffer), 2);
    assert_eq!(buffer[0], Point { x: 0, y: UNIT / 2, touch: true });
    let mut buffer: Vec<Point> = Vec::new();
    assert_eq!(trace.get(UNIT / 2, &mut buffer), 2);
    assert_eq!(buffer[0], Point { x: UNIT / 2, y: 0, touch: true });
}

#[test]
fn canvas_bitmap_roundtrip_preserves_the_pattern() {
    let mut canvas = EventCanvas::new(5, 4).unwrap();
    canvas.process(Event::new(0, 0, 0, 0, true, true));
    canvas.process(Event::new(1, UNIT, UNIT / 3, 0, true, true));
    canvas.set(2, 3, true);
    let encoded = canvas.to_bitmap();
    let decoded = image::load_from_memory(&encoded).unwrap().to_rgb8();
    assert_eq!(decoded.width(), 5);
    assert_eq!(decoded.height(), 4);
    for y in 0..4 {
        for x in 0..5 {
            let expected = if canvas.get(x, y) == Some(true) {
                [0u8, 0u8, 0u8]
            } else {
                [255u8, 255u8, 255u8]
            };
            assert_eq!(decoded.get_pixel(x, y).0, expected, "pixel ({}, {})", x, y);
        }
    }
}

#[test]
fn bitmap_path_export_is_high_contrast() {
    let luma = vec![0, 10, 19, 20, 128, 255];
    let path = BitmapPath::new(3, 2, luma.clone());
    let encoded = path.to_bitmap();
    let decoded = image::load_from_memory(&encoded).unwrap().to_rgb8();
    assert_eq!(decoded.width(), 3);
    assert_eq!(decoded.height(), 2);
    for y in 0..2u32 {
        for x in 0..3u32 {
            let source = luma[(y * 3 + x) as usize];
            let expected = if source < 20 { [0u8; 3] } else { [255u8; 3] };
            assert_eq!(decoded.get_pixel(x, y).0, expected, "pixel ({}, {})", x, y);
        }
    }
}

#[test]
fn empty_canvas_exports_all_white() {
    let canvas = EventCanvas::new(3, 3).unwrap();
    let encoded = canvas.to_bitmap();
    let decoded = image::load_from_memory(&encoded).unwrap().to_rgb8();
    for y in 0..3 {
        for x in 0..3 {
            assert_eq!(decoded.get_pixel(x, y).0, [255u8, 255u8, 255u8]);
        }
    }
}

#[test]
fn export_has_the_documented_container_size() {
    // A 5x4 raster: 15 pixel bytes per row padded to 16, after the
    // 54-byte header.
    let canvas = EventCanvas::new(5, 4).unwrap();
    let encoded = canvas.to_bitmap();
    assert_eq!(encoded.len(), 54 + 16 * 4);
    assert_eq!(&encoded[0..2], b"BM");
}
