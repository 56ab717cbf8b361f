use vstd::prelude::*;

verus! {

/// The set of capabilities reported by a tablet device.
#[derive(Debug, Copy, Clone, Eq, PartialEq, Hash, Structural)]
pub struct Capability {
    /// Width of the display screen, in pixels.
    display_width: u32,
    /// Height of the display screen, in pixels.
    display_height: u32,
    /// The width of the input polling grid.
    input_width: u32,
    /// The height of the input polling grid.
    input_height: u32,
    /// The depth (of pressures) of the input polling grid.
    input_depth: u32,
}

impl Capability {
    /// Width of the display screen, in pixels.
    pub closed spec fn spec_width(self) -> u32 {
        self.display_width
    }

    /// Height of the display screen, in pixels.
    pub closed spec fn spec_height(self) -> u32 {
        self.display_height
    }

    /// The width of the input grid.
    pub closed spec fn spec_input_grid_width(self) -> u32 {
        self.input_width
    }

    /// The height of the input grid.
    pub closed spec fn spec_input_grid_height(self) -> u32 {
        self.input_height
    }

    /// The maximum pressure value on the input grid.
    pub closed spec fn spec_input_grid_pressure(self) -> u32 {
        self.input_depth
    }

    /// Assembles the capability set a device reported.
    pub fn new(
        display_width: u32,
        display_height: u32,
        input_width: u32,
        input_height: u32,
        input_depth: u32,
    ) -> (r: Capability)
        ensures
            r.spec_width() == display_width,
            r.spec_height() == display_height,
            r.spec_input_grid_width() == input_width,
            r.spec_input_grid_height() == input_height,
            r.spec_input_grid_pressure() == input_depth,
    {
        Capability { display_width, display_height, input_width, input_height, input_depth }
    }

    /// Width of the display screen, in pixels.
    pub fn width(&self) -> (r: u32)
        ensures
            r == self.spec_width(),
    {
        self.display_width
    }

    /// Height of the display screen, in pixels.
    pub fn height(&self) -> (r: u32)
        ensures
            r == self.spec_height(),
    {
        self.display_height
    }

    /// The width of the input grid.
    ///
    /// The input grid is the grid whose cells are the smallest possible
    /// for detecting and tracking the position of the stylus. This is
    /// the maximum value the position of the pen will assume.
    pub fn input_grid_width(&self) -> (r: u32)
        ensures
            r == self.spec_input_grid_width(),
    {
        self.input_width
    }

    /// The height of the input grid.
    ///
    /// The input grid is the grid whose cells are the smallest possible
    /// for detecting and tracking the position of the stylus. This is
    /// the maximum value the position of the pen will assume.
    pub fn input_grid_height(&self) -> (r: u32)
        ensures
            r == self.spec_input_grid_height(),
    {
        self.input_height
    }

    /// The maximum pressure value on the input grid.
    ///
    /// This value can be thought of as a third dimension to the pen
    /// input grid, indicating how many cells deep the input grid is.
    pub fn input_grid_pressure(&self) -> (r: u32)
        ensures
            r == self.spec_input_grid_pressure(),
    {
        self.input_depth
    }
}

} // verus!
