use signpad::capability::Capability;
use signpad::event::{Event, UNIT};
use signpad::path::{EventPath, IntoTrace, Point, Trace};
use signpad::report::ReportHandler;

#[test]
fn empty_trace_yields_nothing() {
    let path = EventPath::new();
    let trace = path.trace();
    let mut buffer: Vec<Point> = Vec::new();
    assert_eq!(trace.get(0, &mut buffer), 0);
    assert_eq!(trace.get(UNIT / 2, &mut buffer), 0);
    assert_eq!(trace.get(UNIT, &mut buffer), 0);
    assert!(buffer.is_empty());
}

#[test]
fn single_sample_everywhere() {
    let mut path = EventPath::new();
    path.process(Event::new(7, UNIT / 4, 3 * (UNIT / 4), UNIT / 2, true, true));
    let trace = path.trace();
    let expected = Point { x: UNIT / 4, y: 3 * (UNIT / 4), touch: true };
    for t in [0, 1, UNIT / 3, UNIT / 2, UNIT - 1, UNIT, u32::MAX] {
        let mut buffer: Vec<Point> = Vec::new();
        assert_eq!(trace.get(t, &mut buffer), 1);
        assert_eq!(buffer, vec![expected]);
    }
}

#[test]
fn midpoint_interpolates_linearly() {
    let mut path = EventPath::new();
    path.process(Event::new(0, 0, 0, 0, true, true));
    path.process(Event::new(10, UNIT, UNIT, 0, false, true));
    let trace = path.trace();
    let mut buffer: Vec<Point> = Vec::new();
    assert_eq!(trace.get(UNIT / 2, &mut buffer), 1);
    // Halfway between the two samples, rounded to nearest: exactly the
    // middle of the range; the touch flag comes from the lower sample.
    assert_eq!(buffer, vec![Point { x: UNIT / 2, y: UNIT / 2, touch: true }]);
}

#[test]
fn endpoints_reproduce_the_samples() {
    let mut path = EventPath::new();
    path.process(Event::new(0, 1000, 2000, 0, true, true));
    path.process(Event::new(10, 3000, 4000, 0, false, true));
    let trace = path.trace();
    let mut buffer: Vec<Point> = Vec::new();
    assert_eq!(trace.get(0, &mut buffer), 1);
    assert_eq!(trace.get(UNIT, &mut buffer), 1);
    assert_eq!(
        buffer,
        vec![
            Point { x: 1000, y: 2000, touch: true },
            Point { x: 3000, y: 4000, touch: false },
        ]
    );
}

#[test]
fn same_timestamp_replaces_the_sample() {
    let mut path = EventPath::new();
    let first = Event::new(5, 100, 200, 0, true, true);
    assert_eq!(path.process(first), None);
    let second = Event::new(5, 300, 400, 0, false, true);
    assert_eq!(path.process(second), Some(first));
    let trace = path.trace();
    let mut buffer: Vec<Point> = Vec::new();
    assert_eq!(trace.get(0, &mut buffer), 1);
    assert_eq!(buffer, vec![Point { x: 300, y: 400, touch: false }]);
}

#[test]
fn samples_are_ordered_by_time() {
    let mut path = EventPath::new();
    path.process(Event::new(9, 3000, 3000, 0, false, true));
    path.process(Event::new(2, 1000, 1000, 0, true, true));
    let trace = path.trace();
    let mut buffer: Vec<Point> = Vec::new();
    assert_eq!(trace.get(0, &mut buffer), 1);
    assert_eq!(buffer[0], Point { x: 1000, y: 1000, touch: true });
    let mut buffer: Vec<Point> = Vec::new();
    assert_eq!(trace.get(UNIT, &mut buffer), 1);
    assert_eq!(buffer[0], Point { x: 3000, y: 3000, touch: false });
}

#[test]
fn duplicated_path_traces_identically() {
    let mut path = EventPath::new();
    path.process(Event::new(1, 500, 600, 0, true, true));
    path.process(Event::new(2, 700, 800, 0, true, true));
    let frozen = path.duplicate();
    path.process(Event::new(3, 900, 900, 0, false, true));
    let trace = frozen.trace();
    let mut buffer: Vec<Point> = Vec::new();
    assert_eq!(trace.get(UNIT, &mut buffer), 1);
    assert_eq!(buffer[0], Point { x: 700, y: 800, touch: true });
}

#[test]
fn clear_empties_the_path() {
    let mut path = EventPath::new();
    path.process(Event::new(1, 500, 600, 0, true, true));
    path.clear();
    let trace = path.trace();
    let mut buffer: Vec<Point> = Vec::new();
    assert_eq!(trace.get(0, &mut buffer), 0);
}

#[test]
fn event_coordinates_are_clamped() {
    let event = Event::new(0, UNIT + 5, u32::MAX, UNIT, true, false);
    assert_eq!(event.x(), UNIT);
    assert_eq!(event.y(), UNIT);
    assert_eq!(event.pressure(), UNIT);
    assert!(event.touching());
    assert!(!event.hovering());
    assert_eq!(event.time(), 0);
}

#[test]
fn grid_readings_normalize_exactly() {
    let event = Event::new(0, 0, 0, 0, false, true);
    assert!(!event.touching());
    assert!(event.hovering());
    let event = Event::from_grid(42, 500, 1000, 250, 1000, 1000, 1000, true, true);
    assert_eq!(event.time(), 42);
    assert_eq!(event.x(), 500 * UNIT / 1000);
    assert_eq!(event.y(), UNIT);
    assert_eq!(event.pressure(), 250 * UNIT / 1000);
    // A reading beyond the grid span is clamped to the maximum.
    let event = Event::from_grid(43, 2000, 0, 0, 1000, 1000, 1000, false, false);
    assert_eq!(event.x(), UNIT);
}

#[test]
fn report_queue_is_first_in_first_out() {
    let caps = Capability::new(800, 480, 1000, 1000, 512);
    assert_eq!(caps.width(), 800);
    assert_eq!(caps.height(), 480);
    assert_eq!(caps.input_grid_width(), 1000);
    assert_eq!(caps.input_grid_height(), 1000);
    assert_eq!(caps.input_grid_pressure(), 512);

    let mut handler = ReportHandler::new(&caps);
    assert_eq!(handler.pop_event(), None);
    let first = Event::new(1, 10, 20, 30, true, true);
    let second = Event::new(2, 40, 50, 60, false, true);
    handler.push_event(first);
    handler.push_event(second);
    assert_eq!(handler.pop_event(), Some(first));
    assert_eq!(handler.pop_event(), Some(second));
    assert_eq!(handler.pop_event(), None);
}

#[test]
fn pen_readings_normalize_against_the_grid() {
    let caps = Capability::new(800, 480, 1000, 500, 512);
    let mut handler = ReportHandler::new(&caps);
    handler.handle_pen_reading(7, 250, 250, 256, true, true);
    let event = handler.pop_event().unwrap();
    assert_eq!(event.time(), 7);
    assert_eq!(event.x(), 250 * UNIT / 1000);
    assert_eq!(event.y(), 250 * UNIT / 500);
    assert_eq!(event.pressure(), UNIT / 2);
    assert!(event.touching());
}
