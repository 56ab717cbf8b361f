use vstd::prelude::*;

verus! {

/// The fixed-point scale of normalized coordinates: a coordinate holds a
/// numerator over `UNIT`, so `0` stands for the minimum position and `UNIT`
/// for the maximum position of an axis.
pub const UNIT: u32 = 65536;

/// Clamps a raw fixed-point coordinate into the normalized range.
pub open spec fn clamp_unit(v: u32) -> u32 {
    if v > UNIT {
        UNIT
    } else {
        v
    }
}

/// The normalized value of a reading `raw` on an input grid that spans
/// `0 ..= grid`: `raw / grid` scaled to `UNIT` and clamped to the range.
pub open spec fn normalized_of(raw: u32, grid: u32) -> u32
    recommends
        grid >= 1,
{
    let scaled = (raw as int * UNIT as int) / grid as int;
    if scaled > UNIT as int {
        UNIT
    } else {
        scaled as u32
    }
}

/// An input event coming from a tablet device.
///
/// Coordinates and pressure are normalized so that `0` is the minimum
/// allowed value and `UNIT` is the maximum allowed value for each axis.
#[derive(Debug, Copy, Clone, PartialEq, Eq, Structural)]
pub struct Event {
    /// The point in time in which this event was generated, as a reading of
    /// a monotonic clock.
    timestamp: u64,
    /// The position of the pen on the horizontal axis, over `UNIT`.
    x: u32,
    /// The position of the pen on the vertical axis, over `UNIT`.
    y: u32,
    /// The pressure of the pen against the surface, over `UNIT`.
    pressure: u32,
    /// Whether the pen is touching the surface.
    touching: bool,
    /// Whether the pen is in proximity of the surface.
    close: bool,
}

impl Event {
    /// All coordinates stay inside the normalized range.
    #[verifier::type_invariant]
    spec fn valid(self) -> bool {
        self.x <= UNIT && self.y <= UNIT && self.pressure <= UNIT
    }

    /// The point in time in which this event was generated.
    pub closed spec fn spec_time(self) -> u64 {
        self.timestamp
    }

    /// The normalized horizontal position.
    pub closed spec fn spec_x(self) -> u32 {
        self.x
    }

    /// The normalized vertical position.
    pub closed spec fn spec_y(self) -> u32 {
        self.y
    }

    /// The normalized pressure.
    pub closed spec fn spec_pressure(self) -> u32 {
        self.pressure
    }

    /// Whether the pen was touching the surface.
    pub closed spec fn spec_touching(self) -> bool {
        self.touching
    }

    /// Whether the pen was hovering over the surface.
    pub closed spec fn spec_hovering(self) -> bool {
        self.close
    }

    /// Creates an event from already normalized readings, clamping each
    /// coordinate into the normalized range.
    pub fn new(
        timestamp: u64,
        x: u32,
        y: u32,
        pressure: u32,
        touching: bool,
        hovering: bool,
    ) -> (r: Event)
        ensures
            r.spec_time() == timestamp,
            r.spec_x() == clamp_unit(x),
            r.spec_y() == clamp_unit(y),
            r.spec_pressure() == clamp_unit(pressure),
            r.spec_touching() == touching,
            r.spec_hovering() == hovering,
    {
        Event {
            timestamp,
            x: clamp_exec(x),
            y: clamp_exec(y),
            pressure: clamp_exec(pressure),
            touching,
            close: hovering,
        }
    }

    /// Creates an event from raw pen readings on an input grid whose axes
    /// span `0 ..= grid_x`, `0 ..= grid_y` and `0 ..= grid_pressure`,
    /// normalizing each reading against its grid span.
    pub fn from_grid(
        timestamp: u64,
        raw_x: u32,
        raw_y: u32,
        raw_pressure: u32,
        grid_x: u32,
        grid_y: u32,
        grid_pressure: u32,
        touching: bool,
        hovering: bool,
    ) -> (r: Event)
        requires
            grid_x >= 1,
            grid_y >= 1,
            grid_pressure >= 1,
        ensures
            r.spec_time() == timestamp,
            r.spec_x() == normalized_of(raw_x, grid_x),
            r.spec_y() == normalized_of(raw_y, grid_y),
            r.spec_pressure() == normalized_of(raw_pressure, grid_pressure),
            r.spec_touching() == touching,
            r.spec_hovering() == hovering,
    {
        Event {
            timestamp,
            x: normalize_exec(raw_x, grid_x),
            y: normalize_exec(raw_y, grid_y),
            pressure: normalize_exec(raw_pressure, grid_pressure),
            touching,
            close: hovering,
        }
    }

    /// The point in time in which this event was generated.
    pub fn time(&self) -> (r: u64)
        ensures
            r == self.spec_time(),
    {
        self.timestamp
    }

    /// The position of the pen on the horizontal axis when this event was
    /// generated, normalized over `UNIT`.
    pub fn x(&self) -> (r: u32)
        ensures
            r == self.spec_x(),
            r <= UNIT,
    {
        proof {
            use_type_invariant(self);
        }
        self.x
    }

    /// The position of the pen on the vertical axis when this event was
    /// generated, normalized over `UNIT`.
    pub fn y(&self) -> (r: u32)
        ensures
            r == self.spec_y(),
            r <= UNIT,
    {
        proof {
            use_type_invariant(self);
        }
        self.y
    }

    /// The pressure applied with the pen when this event was generated,
    /// normalized over `UNIT`.
    pub fn pressure(&self) -> (r: u32)
        ensures
            r == self.spec_pressure(),
            r <= UNIT,
    {
        proof {
            use_type_invariant(self);
        }
        self.pressure
    }

    /// Whether the pen was touching the screen when this event was
    /// generated.
    pub fn touching(&self) -> (r: bool)
        ensures
            r == self.spec_touching(),
    {
        self.touching
    }

    /// Whether the pen was close enough to be considered as having been
    /// hovering over the screen when this event was generated.
    pub fn hovering(&self) -> (r: bool)
        ensures
            r == self.spec_hovering(),
    {
        self.close
    }
}

/// Clamps a raw fixed-point coordinate into the normalized range.
fn clamp_exec(v: u32) -> (r: u32)
    ensures
        r == clamp_unit(v),
{
    if v > UNIT {
        UNIT
    } else {
        v
    }
}

/// Normalizes a raw grid reading against the grid span.
fn normalize_exec(raw: u32, grid: u32) -> (r: u32)
    requires
        grid >= 1,
    ensures
        r == normalized_of(raw, grid),
{
    let scaled: u64 = (raw as u64 * UNIT as u64) / grid as u64;
    if scaled > UNIT as u64 {
        UNIT
    } else {
        scaled as u32
    }
}

} // verus!
