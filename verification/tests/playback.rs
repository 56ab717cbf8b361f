use signpad::event::{Event, UNIT};
use signpad::path::EventPath;
use signpad::robot::{
    ButtonChange, Playback, PlaybackError, PlaybackLock, PointerInput, ScreenArea,
};

fn single_touch_path() -> EventPath {
    let mut path = EventPath::new();
    path.process(Event::new(0, UNIT, UNIT, 0, true, true));
    path
}

#[test]
fn zero_steps_are_rejected() {
    let playback = Playback {
        path: single_touch_path(),
        target: ScreenArea { x: 0, y: 0, width: 100, height: 100 },
        delta: 1_000_000_000,
        steps: 0,
    };
    assert_eq!(playback.script(1920, 1080), Err(PlaybackError::ZeroSteps));
    assert_eq!(playback.step_duration(), Err(PlaybackError::ZeroSteps));
}

#[test]
fn empty_monitor_is_rejected() {
    let playback = Playback {
        path: single_touch_path(),
        target: ScreenArea { x: 0, y: 0, width: 100, height: 100 },
        delta: 1_000_000_000,
        steps: 4,
    };
    assert_eq!(playback.script(0, 1080), Err(PlaybackError::EmptyMonitor));
    assert_eq!(playback.script(1920, 0), Err(PlaybackError::EmptyMonitor));
}

#[test]
fn step_duration_splits_the_total_evenly() {
    let playback = Playback {
        path: single_touch_path(),
        target: ScreenArea { x: 0, y: 0, width: 100, height: 100 },
        delta: 1_000_000_000,
        steps: 4,
    };
    assert_eq!(playback.step_duration(), Ok(250_000_000));
}

#[test]
fn script_emits_at_most_steps_and_ends_released() {
    let playback = Playback {
        path: single_touch_path(),
        target: ScreenArea { x: 0, y: 0, width: 100, height: 100 },
        delta: 1_000_000_000,
        steps: 5,
    };
    let script = playback.script(1920, 1080).unwrap();
    // One micro-step per step plus the final unconditional button-up.
    assert_eq!(script.len(), 6);
    let last = script.last().unwrap();
    assert_eq!(
        *last,
        PointerInput { x: 0, y: 0, movement: false, button: ButtonChange::Release }
    );
    assert_eq!(script[0].button, ButtonChange::Press);
    assert!(script[0].movement);
    for input in &script[1..5] {
        assert_eq!(input.button, ButtonChange::Keep);
        assert!(input.movement);
    }
}

#[test]
fn empty_path_still_releases_the_button() {
    let playback = Playback {
        path: EventPath::new(),
        target: ScreenArea { x: 0, y: 0, width: 100, height: 100 },
        delta: 1_000_000_000,
        steps: 5,
    };
    let script = playback.script(1920, 1080).unwrap();
    assert_eq!(script.len(), 1);
    assert_eq!(
        script[0],
        PointerInput { x: 0, y: 0, movement: false, button: ButtonChange::Release }
    );
}

#[test]
fn mapping_scales_into_the_absolute_range() {
    // A point at the far corner of a 100x100 target at the origin of a
    // 100x100 monitor: 99 / 100 of the absolute range, truncated.
    let playback = Playback {
        path: single_touch_path(),
        target: ScreenArea { x: 0, y: 0, width: 100, height: 100 },
        delta: 0,
        steps: 1,
    };
    let script = playback.script(100, 100).unwrap();
    assert_eq!(script.len(), 2);
    assert_eq!(script[0].x, 99 * 65535 / 100);
    assert_eq!(script[0].y, 99 * 65535 / 100);
    assert_eq!(script[0].button, ButtonChange::Press);
}

#[test]
fn mapping_honors_the_target_origin() {
    // A whole-monitor target: the top-left corner of a target at
    // (64, 64) of a 128x128 monitor is half the absolute range plus the
    // fraction the stroke adds.
    let mut path = EventPath::new();
    path.process(Event::new(0, 0, 0, 0, true, true));
    let playback = Playback {
        path,
        target: ScreenArea { x: 64, y: 64, width: 10, height: 10 },
        delta: 0,
        steps: 1,
    };
    let script = playback.script(128, 128).unwrap();
    assert_eq!(script[0].x, 64 * 65535 / 128);
    assert_eq!(script[0].y, 64 * 65535 / 128);
}

#[test]
fn lifting_mid_stroke_releases_once() {
    let mut path = EventPath::new();
    path.process(Event::new(0, 0, 0, 0, true, true));
    path.process(Event::new(1, UNIT / 2, 0, 0, false, true));
    path.process(Event::new(2, UNIT, 0, 0, false, true));
    let playback = Playback {
        path,
        target: ScreenArea { x: 0, y: 0, width: 100, height: 100 },
        delta: 0,
        steps: 4,
    };
    let script = playback.script(1920, 1080).unwrap();
    assert_eq!(script.len(), 5);
    assert_eq!(script[0].button, ButtonChange::Press);
    assert_eq!(script[1].button, ButtonChange::Keep);
    // The lifted sample comes into view at the halfway step.
    assert_eq!(script[2].button, ButtonChange::Release);
    assert_eq!(script[3].button, ButtonChange::Keep);
    assert_eq!(script[4].button, ButtonChange::Release);
    assert!(!script[4].movement);
}

#[test]
fn second_playback_is_refused_while_running() {
    let mut lock = PlaybackLock::new();
    assert!(!lock.engaged());
    assert!(lock.try_acquire());
    assert!(lock.engaged());
    // A second start while one playback runs must be treated as fatal.
    assert!(!lock.try_acquire());
    lock.release();
    assert!(!lock.engaged());
    assert!(lock.try_acquire());
}
