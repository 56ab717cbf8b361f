use signpad::canvas::{CanvasError, EventCanvas};
use signpad::event::{Event, UNIT};

#[test]
fn fresh_canvas_reads_unset() {
    let canvas = EventCanvas::new(4, 3).unwrap();
    assert_eq!(canvas.width(), 4);
    assert_eq!(canvas.height(), 3);
    for y in 0..3 {
        for x in 0..4 {
            assert_eq!(canvas.get(x, y), Some(false));
        }
    }
    assert_eq!(canvas.get(4, 0), None);
    assert_eq!(canvas.get(0, 3), None);
    assert_eq!(canvas.get(4, 3), None);
    assert_eq!(canvas.get(u32::MAX, u32::MAX), None);
}

#[test]
fn zero_width_is_refused() {
    assert_eq!(EventCanvas::new(0, 5), Err(CanvasError::ZeroWidth));
}

#[test]
fn zero_height_is_refused() {
    assert_eq!(EventCanvas::new(5, 0), Err(CanvasError::ZeroHeight));
}

#[test]
fn set_then_unset_restores_the_bit() {
    let mut canvas = EventCanvas::new(9, 2).unwrap();
    canvas.set(5, 1, true);
    assert_eq!(canvas.get(5, 1), Some(true));
    assert_eq!(canvas.get(4, 1), Some(false));
    assert_eq!(canvas.get(6, 1), Some(false));
    canvas.set(5, 1, false);
    for y in 0..2 {
        for x in 0..9 {
            assert_eq!(canvas.get(x, y), Some(false));
        }
    }
}

#[test]
fn clear_resets_every_bit() {
    let mut canvas = EventCanvas::new(6, 6).unwrap();
    canvas.set(0, 0, true);
    canvas.set(5, 5, true);
    canvas.set(2, 4, true);
    canvas.clear();
    for y in 0..6 {
        for x in 0..6 {
            assert_eq!(canvas.get(x, y), Some(false));
        }
    }
}

#[test]
fn touch_extremes_hit_the_corners() {
    let mut canvas = EventCanvas::new(5, 4).unwrap();
    canvas.process(Event::new(0, 0, 0, 0, true, true));
    assert_eq!(canvas.get(0, 0), Some(true));
    let mut canvas = EventCanvas::new(5, 4).unwrap();
    canvas.process(Event::new(0, UNIT, UNIT, 0, true, true));
    assert_eq!(canvas.get(4, 3), Some(true));
}

#[test]
fn consecutive_touches_draw_a_connected_line() {
    let mut canvas = EventCanvas::new(8, 1).unwrap();
    canvas.process(Event::new(0, 0, 0, 0, true, true));
    canvas.process(Event::new(1, UNIT, 0, 0, true, true));
    for x in 0..8 {
        assert_eq!(canvas.get(x, 0), Some(true), "pixel {} should be on the line", x);
    }
}

#[test]
fn a_lift_breaks_the_line() {
    let mut canvas = EventCanvas::new(8, 1).unwrap();
    canvas.process(Event::new(0, 0, 0, 0, true, true));
    canvas.process(Event::new(1, UNIT / 2, 0, 0, false, true));
    canvas.process(Event::new(2, UNIT, 0, 0, true, true));
    assert_eq!(canvas.get(0, 0), Some(true));
    assert_eq!(canvas.get(7, 0), Some(true));
    for x in 1..7 {
        assert_eq!(canvas.get(x, 0), Some(false), "pixel {} should stay unset", x);
    }
}

#[test]
fn clear_also_breaks_the_line() {
    let mut canvas = EventCanvas::new(8, 1).unwrap();
    canvas.process(Event::new(0, 0, 0, 0, true, true));
    canvas.clear();
    canvas.process(Event::new(1, UNIT, 0, 0, true, true));
    assert_eq!(canvas.get(7, 0), Some(true));
    for x in 0..7 {
        assert_eq!(canvas.get(x, 0), Some(false), "pixel {} should stay unset", x);
    }
}

#[test]
fn diagonal_stroke_covers_every_column() {
    let mut canvas = EventCanvas::new(10, 4).unwrap();
    canvas.process(Event::new(0, 0, 0, 0, true, true));
    canvas.process(Event::new(1, UNIT, UNIT, 0, true, true));
    for x in 0..10 {
        let mut column_hit = false;
        for y in 0..4 {
            if canvas.get(x, y) == Some(true) {
                column_hit = true;
            }
        }
        assert!(column_hit, "column {} should hold a pixel of the stroke", x);
    }
}

#[test]
fn non_touching_event_changes_nothing() {
    let mut canvas = EventCanvas::new(4, 4).unwrap();
    canvas.process(Event::new(0, UNIT / 2, UNIT / 2, 0, false, true));
    for y in 0..4 {
        for x in 0..4 {
            assert_eq!(canvas.get(x, y), Some(false));
        }
    }
}
