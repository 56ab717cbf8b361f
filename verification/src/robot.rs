use vstd::prelude::*;

use crate::event::UNIT;
use crate::path::{IntoTrace, Point, Trace};

verus! {

/// The resolution of the platform's normalized absolute-pointer
/// coordinate space: positions are fractions over this range, scaled to
/// the monitor's pixel dimensions.
pub const ABSOLUTE_RANGE: u32 = 65535;

/// An area in physical screen coordinate space encoded as a rectangle.
///
/// The coordinates in this structure are in screen space, rather than
/// virtual space, so it is expected that positions may be negative when
/// the rectangle does not point to the primary screen.
#[derive(Debug, Copy, Clone, Eq, PartialEq, Hash, Structural)]
pub struct ScreenArea {
    /// The position of the top left corner along the horizontal axis.
    pub x: i32,
    /// The position of the top left corner along the vertical axis.
    pub y: i32,
    /// The width of the rectangular region.
    pub width: u32,
    /// The height of the rectangular region.
    pub height: u32,
}

/// Parameters controlling the prompt for picking a physical area on the
/// screen: the region the picked [`ScreenArea`] should preferably have.
#[derive(Debug, Copy, Clone, Eq, PartialEq, Hash)]
pub struct AreaSelectionParameters {
    /// The preferred width and height of the rectangle.
    pub preferred_dimensions: (u32, u32),
}

/// A change of the emulated button state carried by a pointer input.
#[derive(Debug, Copy, Clone, PartialEq, Eq, Structural)]
pub enum ButtonChange {
    /// The button state is left as it is.
    Keep,
    /// The button goes down.
    Press,
    /// The button goes up.
    Release,
}

/// One synthetic pointer input of a playback run: an absolute position in
/// the pointer coordinate space, whether the pointer moves there, and a
/// button transition.
#[derive(Debug, Copy, Clone, PartialEq, Eq, Structural)]
pub struct PointerInput {
    /// The absolute position along the horizontal axis.
    pub x: i32,
    /// The absolute position along the vertical axis.
    pub y: i32,
    /// Whether this input moves the pointer to `(x, y)`; the final
    /// button-up of a run moves nothing.
    pub movement: bool,
    /// The button transition this input carries.
    pub button: ButtonChange,
}

/// The reasons why a playback cannot run.
#[derive(Debug, Copy, Clone, PartialEq, Eq, Structural)]
pub enum PlaybackError {
    /// The configured step count is zero.
    ZeroSteps,
    /// A monitor dimension is zero.
    EmptyMonitor,
}

/// Division truncated toward zero, as the platform coordinate conversion
/// truncates.
pub open spec fn to_zero_div(p: int, q: int) -> int
    recommends
        q >= 1,
{
    if p >= 0 {
        p / q
    } else {
        -((-p) / q)
    }
}

/// `v` clamped into the range of an `i32`.
pub open spec fn clamp_i32(v: int) -> int {
    if v > i32::MAX {
        i32::MAX as int
    } else if v < i32::MIN {
        i32::MIN as int
    } else {
        v
    }
}

/// One less, saturating at zero.
pub open spec fn sub1(v: u32) -> int {
    if v == 0 {
        0
    } else {
        v - 1
    }
}

/// Maps a normalized coordinate `v` (over `UNIT`) into the target span
/// `[origin, origin + extent)` of the screen, and from there into the
/// absolute pointer space of a monitor axis of `monitor` pixels:
/// `(v * (extent - 1) / UNIT + origin) / monitor * ABSOLUTE_RANGE`,
/// truncated toward zero and clamped into an `i32`.
pub open spec fn map_axis(v: u32, extent: u32, origin: int, monitor: u32) -> int
    recommends
        monitor >= 1,
{
    clamp_i32(
        to_zero_div(
            ((v as int) * sub1(extent) + origin * (UNIT as int)) * (ABSOLUTE_RANGE as int),
            (monitor as int) * (UNIT as int),
        ),
    )
}

/// Maps a normalized coordinate into the absolute pointer space of one
/// monitor axis.
fn map_axis_exec(v: u32, extent: u32, origin: i32, monitor: u32) -> (r: i32)
    requires
        monitor >= 1,
    ensures
        r as int == map_axis(v, extent, origin as int, monitor),
{
    let ew: u32 = if extent == 0 {
        0
    } else {
        extent - 1
    };
    proof {
        crate::canvas::lemma_mul_le(v as int, ew as int, u32::MAX as int, u32::MAX as int);
        assert((origin as int) * (UNIT as int) <= 0x7fffffff * 65536) by (nonlinear_arith)
            requires
                origin <= 0x7fffffff,
                UNIT == 65536,
        ;
        assert((origin as int) * (UNIT as int) >= -(0x80000000 * 65536)) by (nonlinear_arith)
            requires
                origin >= -0x80000000,
                UNIT == 65536,
        ;
        let s_val = (v as int) * (ew as int) + (origin as int) * (UNIT as int);
        assert(-(i128::MAX as int) <= s_val * (ABSOLUTE_RANGE as int) <= i128::MAX as int) by (
        nonlinear_arith)
            requires
                -(0x80000000 * 65536) <= s_val <= 0xffffffff * 0xffffffff + 0x7fffffff * 65536,
                ABSOLUTE_RANGE == 65535,
                i128::MAX == 0x7fffffff_ffffffff_ffffffff_ffffffff,
        ;
    }
    let num: i128 = ((v as i128) * (ew as i128) + (origin as i128) * (UNIT as i128)) * (
    ABSOLUTE_RANGE as i128);
    let den: i128 = (monitor as i128) * (UNIT as i128);
    let q: i128 = if num >= 0 {
        (((num as u128) / (den as u128)) as i128)
    } else {
        let mag: u128 = ((-num) as u128) / (den as u128);
        -(mag as i128)
    };
    if q > i32::MAX as i128 {
        i32::MAX
    } else if q < i32::MIN as i128 {
        i32::MIN
    } else {
        q as i32
    }
}

/// The curve parameter of the `m`-th micro-step of a playback of `steps`
/// steps: the parameter advances by one `steps`-th of the range per
/// micro-step.
pub open spec fn step_param(m: int, steps: u32) -> u32
    recommends
        steps >= 1,
        0 <= m < steps,
{
    ((m * (UNIT as int)) / (steps as int)) as u32
}

/// The points that a playback of `steps` steps emits, sampling the curve
/// of `path` from micro-step `m` on: each sampling yields the curve's
/// points at the current parameter, the parameter advances by one step
/// per point, the run stops early when the curve yields nothing, and at
/// most `steps` points are emitted in all.
pub open spec fn gathered<T: IntoTrace>(path: &T, steps: u32, m: int) -> Seq<Point>
    recommends
        steps >= 1,
    decreases (steps as int) - m,
{
    if m < 0 || m >= steps {
        Seq::empty()
    } else {
        let pts = path.curve_at(step_param(m, steps));
        if pts.len() == 0 {
            Seq::empty()
        } else {
            let room = (steps as int) - m;
            let taken = if pts.len() <= room {
                pts
            } else {
                pts.take(room)
            };
            let next = if m + pts.len() >= steps {
                steps as int
            } else {
                m + pts.len()
            };
            taken + gathered(path, steps, next)
        }
    }
}

/// A playback emits at most `steps` micro-steps.
pub proof fn lemma_gathered_len<T: IntoTrace>(path: &T, steps: u32, m: int)
    ensures
        gathered(path, steps, m).len() <= if 0 <= m <= steps {
            (steps as int) - m
        } else {
            0
        },
    decreases (steps as int) - m,
{
    if 0 <= m < steps {
        let pts = path.curve_at(step_param(m, steps));
        if pts.len() != 0 {
            let next = if m + pts.len() >= steps {
                steps as int
            } else {
                m + pts.len()
            };
            lemma_gathered_len(path, steps, next);
        }
    }
}

/// The pointer inputs that replay the gathered points, threading the
/// emulated button state through: every point becomes one movement to its
/// mapped position, a touching point presses the button if it was up and
/// a lifted point releases it if it was down, and the run always ends
/// with one final unconditional button-up that moves nothing.
pub open spec fn rendered(
    pts: Seq<Point>,
    target: ScreenArea,
    monitor_w: u32,
    monitor_h: u32,
    pressed: bool,
) -> Seq<PointerInput>
    decreases pts.len(),
{
    if pts.len() == 0 {
        seq![PointerInput { x: 0, y: 0, movement: false, button: ButtonChange::Release }]
    } else {
        let p = pts[0];
        let change = if p.touch && !pressed {
            ButtonChange::Press
        } else if !p.touch && pressed {
            ButtonChange::Release
        } else {
            ButtonChange::Keep
        };
        seq![
            PointerInput {
                x: map_axis(p.x, target.width, target.x as int, monitor_w) as i32,
                y: map_axis(p.y, target.height, target.y as int, monitor_h) as i32,
                movement: true,
                button: change,
            },
        ] + rendered(pts.skip(1), target, monitor_w, monitor_h, p.touch)
    }
}

/// A rendered run emits one input per point plus the final button-up,
/// and ends with that button-up whatever the final touch state was.
pub proof fn lemma_rendered_shape(
    pts: Seq<Point>,
    target: ScreenArea,
    monitor_w: u32,
    monitor_h: u32,
    pressed: bool,
)
    ensures
        rendered(pts, target, monitor_w, monitor_h, pressed).len() == pts.len() + 1,
        rendered(pts, target, monitor_w, monitor_h, pressed).last() == (PointerInput {
            x: 0,
            y: 0,
            movement: false,
            button: ButtonChange::Release,
        }),
    decreases pts.len(),
{
    if pts.len() > 0 {
        lemma_rendered_shape(pts.skip(1), target, monitor_w, monitor_h, pts[0].touch);
    }
}

/// The full script of a playback: its gathered points rendered into
/// pointer inputs, with the emulated button initially up.
pub open spec fn playback_script<T: IntoTrace>(
    pb: &Playback<T>,
    monitor_w: u32,
    monitor_h: u32,
) -> Seq<PointerInput> {
    rendered(gathered(&pb.path, pb.steps, 0), pb.target, monitor_w, monitor_h, false)
}

/// A structure controlling the playback of an event path over a region
/// of the screen.
#[derive(Debug, Clone, PartialEq)]
pub struct Playback<T> {
    /// The path this structure is going to be playing back.
    pub path: T,
    /// The rectangular region that maps the output to the physical
    /// screen.
    pub target: ScreenArea,
    /// The amount of time that the path should take to get written down,
    /// in nanoseconds.
    pub delta: u64,
    /// The number of steps that will be used to play the path back; zero
    /// is invalid and is rejected rather than dividing by zero.
    pub steps: u32,
}

impl<T: IntoTrace> Playback<T> {
    /// The time budget of each micro-step, in nanoseconds: the total
    /// duration split evenly over the steps. Replaying should wait this
    /// long after each emitted input, spinning rather than sleeping where
    /// sub-tens-of-milliseconds accuracy is needed.
    pub fn step_duration(&self) -> (r: Result<u64, PlaybackError>)
        ensures
            r == if self.steps == 0 {
                Err::<u64, PlaybackError>(PlaybackError::ZeroSteps)
            } else {
                Ok::<u64, PlaybackError>(self.delta / self.steps as u64)
            },
    {
        if self.steps == 0 {
            Err(PlaybackError::ZeroSteps)
        } else {
            Ok(self.delta / self.steps as u64)
        }
    }

    /// Compiles this playback into the script of synthetic pointer inputs
    /// that replays its path over the target rectangle, for a primary
    /// monitor of the given pixel dimensions.
    ///
    /// The script emits at most `steps` micro-steps and always ends with
    /// one final unconditional button-up, so no simulated button is ever
    /// left logically down, however the trace ended.
    pub fn script(&self, monitor_width: u32, monitor_height: u32) -> (r: Result<
        Vec<PointerInput>,
        PlaybackError,
    >)
        ensures
            match r {
                Ok(s) => {
                    &&& self.steps >= 1
                    &&& monitor_width >= 1
                    &&& monitor_height >= 1
                    &&& s@ == playback_script(self, monitor_width, monitor_height)
                    &&& 1 <= s@.len() <= self.steps + 1
                    &&& s@.last() == (PointerInput {
                        x: 0,
                        y: 0,
                        movement: false,
                        button: ButtonChange::Release,
                    })
                },
                Err(PlaybackError::ZeroSteps) => self.steps == 0,
                Err(PlaybackError::EmptyMonitor) => self.steps >= 1 && (monitor_width == 0
                    || monitor_height == 0),
            },
    {
        if self.steps == 0 {
            return Err(PlaybackError::ZeroSteps);
        }
        if monitor_width == 0 || monitor_height == 0 {
            return Err(PlaybackError::EmptyMonitor);
        }
        let steps = self.steps;
        let trace = self.path.trace();
        let mut pts: Vec<Point> = Vec::new();
        let mut buffer: Vec<Point> = Vec::new();
        let mut m: u32 = 0;
        while m < steps
            invariant
                m <= steps,
                steps == self.steps,
                steps >= 1,
                buffer@.len() == 0,
                forall|t: u32| #[trigger] trace.points_at(t) == self.path.curve_at(t),
                pts@ + gathered(&self.path, steps, m as int) == gathered(&self.path, steps, 0),
            ensures
                pts@ == gathered(&self.path, steps, 0),
            decreases steps - m,
        {
            proof {
                assert((m as int) * (UNIT as int) <= 0xffffffff * 65536) by (nonlinear_arith)
                    requires
                        m <= 0xffffffff,
                        UNIT == 65536,
                ;
            }
            let t: u32 = (((m as u64) * (UNIT as u64)) / (steps as u64)) as u32;
            assert(t == step_param(m as int, steps));
            let n = trace.get(t, &mut buffer);
            if n == 0 {
                assert(pts@ =~= gathered(&self.path, steps, 0));
                break ;
            }
            let room: u32 = steps - m;
            let take_n: usize = if n <= room as usize {
                n
            } else {
                room as usize
            };
            let ghost before = pts@;
            let mut i: usize = 0;
            while i < take_n
                invariant
                    i <= take_n,
                    take_n <= buffer@.len(),
                    pts@ == before + buffer@.take(i as int),
                decreases take_n - i,
            {
                pts.push(buffer[i]);
                i = i + 1;
                assert(pts@ =~= before + buffer@.take(i as int));
            }
            proof {
                let pcurve = self.path.curve_at(t);
                assert(buffer@ == pcurve);
                let roomi = (steps as int) - (m as int);
                let taken = if pcurve.len() <= roomi {
                    pcurve
                } else {
                    pcurve.take(roomi)
                };
                assert(buffer@.take(take_n as int) =~= taken);
            }
            let next: u32 = if (n as u64) >= (room as u64) {
                steps
            } else {
                m + (n as u32)
            };
            proof {
                let ghost spec_next = if (m as int) + buffer@.len() >= steps {
                    steps as int
                } else {
                    m + buffer@.len()
                };
                assert(next as int == spec_next);
            }
            m = next;
            buffer.clear();
        }
        let mut out: Vec<PointerInput> = Vec::new();
        let mut pressed = false;
        let len = pts.len();
        let mut i: usize = 0;
        let ghost full = rendered(pts@, self.target, monitor_width, monitor_height, false);
        proof {
            assert(pts@.skip(0) =~= pts@);
            assert(out@ + rendered(pts@, self.target, monitor_width, monitor_height, false)
                =~= full);
        }
        while i < len
            invariant
                i <= len,
                len == pts@.len(),
                monitor_width >= 1,
                monitor_height >= 1,
                out@ + rendered(
                    pts@.skip(i as int),
                    self.target,
                    monitor_width,
                    monitor_height,
                    pressed,
                ) == full,
            decreases len - i,
        {
            let p = pts[i];
            let change: ButtonChange = if p.touch && !pressed {
                ButtonChange::Press
            } else if !p.touch && pressed {
                ButtonChange::Release
            } else {
                ButtonChange::Keep
            };
            let x = map_axis_exec(p.x, self.target.width, self.target.x, monitor_width);
            let y = map_axis_exec(p.y, self.target.height, self.target.y, monitor_height);
            let ghost rest = pts@.skip(i as int);
            out.push(PointerInput { x, y, movement: true, button: change });
            pressed = p.touch;
            i = i + 1;
            proof {
                assert(rest.skip(1) =~= pts@.skip(i as int));
            }
        }
        proof {
            assert(pts@.skip(len as int) =~= Seq::<Point>::empty());
        }
        out.push(PointerInput { x: 0, y: 0, movement: false, button: ButtonChange::Release });
        proof {
            assert(out@ =~= full);
            lemma_gathered_len(&self.path, steps, 0);
            lemma_rendered_shape(pts@, self.target, monitor_width, monitor_height, false);
        }
        Ok(out)
    }
}

/// The singleton guard that keeps at most one playback running at a
/// time.
///
/// A replay operation takes the guard before it starts and releases it
/// when it finishes; a second start while the guard is held is refused,
/// and the caller must treat that as a fatal programming error rather
/// than run concurrently.
#[derive(Debug)]
pub struct PlaybackLock {
    /// Whether a playback currently holds the guard.
    engaged: bool,
}

impl PlaybackLock {
    /// Whether a playback currently holds the guard.
    pub closed spec fn spec_engaged(self) -> bool {
        self.engaged
    }

    /// A fresh guard, held by nobody.
    pub fn new() -> (r: PlaybackLock)
        ensures
            !r.spec_engaged(),
    {
        PlaybackLock { engaged: false }
    }

    /// Takes the guard if nobody holds it. The guard is engaged
    /// afterwards in either case, and the caller may proceed only on
    /// `true`: a `false` means a playback is already running, which is a
    /// fatal caller-side bug, never a request to queue.
    pub fn try_acquire(&mut self) -> (r: bool)
        ensures
            final(self).spec_engaged(),
            r == !old(self).spec_engaged(),
    {
        let free = !self.engaged;
        self.engaged = true;
        free
    }

    /// Whether a playback currently holds the guard.
    pub fn engaged(&self) -> (r: bool)
        ensures
            r == self.spec_engaged(),
    {
        self.engaged
    }

    /// Releases the guard when a playback finishes.
    pub fn release(&mut self)
        ensures
            !final(self).spec_engaged(),
    {
        self.engaged = false;
    }
}

} // verus!
