//! Capture, preview and replay of pen strokes from a signature pad.
//!
//! The crate accumulates timestamped pen samples into paths, turns a path
//! into a parametric curve (a trace), rasterizes strokes into a bit-packed
//! monochrome canvas with a bitmap export, and compiles a trace into a timed
//! script of absolute pointer actions for synthetic replay.

/// Normalized pen samples and their fixed-point coordinate scale.
pub mod event;

/// The bit-packed monochrome raster accumulator.
pub mod canvas;

/// Paths accumulated from ordered events, and their traces.
pub mod path;

/// Paths derived from a monochrome raster image.
pub mod image_path;

/// The timed-replay engine: playback scripts and their guard.
pub mod robot;

/// The bitmap container export behind the preview images.
pub mod bmp;

/// The capabilities a tablet device reports.
pub mod capability;

/// The queue of normalized events behind a device's report stream.
pub mod report;

/// Strings used in the UI.
pub mod strings;

pub use event::{Event, UNIT};
pub use canvas::{CanvasError, EventCanvas};
pub use path::{EventPath, EventTrace, IntoTrace, Point, Trace};
pub use image_path::{BitmapPath, BitmapTrace};
pub use robot::{AreaSelectionParameters, ButtonChange, Playback, PlaybackError, PlaybackLock,
    PointerInput, ScreenArea};
pub use capability::Capability;
pub use report::ReportHandler;
