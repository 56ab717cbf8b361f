use vstd::prelude::*;

use std::collections::VecDeque;

use crate::capability::Capability;
use crate::event::Event;

verus! {

/// This structure holds the event data shared between the raw report
/// handler callbacks and the receiving side of a device queue. Raw pen
/// readings are normalized against the device's input grid and queued in
/// the order they arrived.
#[derive(Debug)]
pub struct ReportHandler {
    /// The resolution of the input grid in each of the three axes.
    resolution: (u32, u32, u32),
    /// The internal queue of converted events.
    queue: VecDeque<Event>,
}

impl View for ReportHandler {
    type V = Seq<Event>;

    closed spec fn view(&self) -> Seq<Event> {
        self.queue@
    }
}

impl ReportHandler {
    /// The width of the input grid the readings are normalized against.
    pub closed spec fn spec_grid_width(self) -> u32 {
        self.resolution.0
    }

    /// The height of the input grid the readings are normalized against.
    pub closed spec fn spec_grid_height(self) -> u32 {
        self.resolution.1
    }

    /// The pressure depth of the input grid the readings are normalized
    /// against.
    pub closed spec fn spec_grid_pressure(self) -> u32 {
        self.resolution.2
    }

    /// Creates an empty handler for a device with the given
    /// capabilities.
    ///
    /// A device that reports an empty input grid cannot have its
    /// readings normalized; such readings are excluded by precondition,
    /// as the raw handler refuses them outright.
    pub fn new(caps: &Capability) -> (r: ReportHandler)
        requires
            caps.spec_input_grid_width() >= 1,
            caps.spec_input_grid_height() >= 1,
            caps.spec_input_grid_pressure() >= 1,
        ensures
            r@ == Seq::<Event>::empty(),
            r.spec_grid_width() == caps.spec_input_grid_width(),
            r.spec_grid_height() == caps.spec_input_grid_height(),
            r.spec_grid_pressure() == caps.spec_input_grid_pressure(),
            r.spec_grid_width() >= 1,
            r.spec_grid_height() >= 1,
            r.spec_grid_pressure() >= 1,
    {
        ReportHandler {
            resolution: (
                caps.input_grid_width(),
                caps.input_grid_height(),
                caps.input_grid_pressure(),
            ),
            queue: VecDeque::new(),
        }
    }

    /// Enqueue a new event on this handler.
    pub fn push_event(&mut self, event: Event)
        ensures
            final(self)@ == old(self)@.push(event),
            final(self).spec_grid_width() == old(self).spec_grid_width(),
            final(self).spec_grid_height() == old(self).spec_grid_height(),
            final(self).spec_grid_pressure() == old(self).spec_grid_pressure(),
    {
        self.queue.push_back(event)
    }

    /// Pop the oldest event, if it is available.
    pub fn pop_event(&mut self) -> (r: Option<Event>)
        ensures
            old(self)@.len() == 0 ==> r is None && final(self)@ == old(self)@,
            old(self)@.len() > 0 ==> r == Some(old(self)@[0]) && final(self)@ == old(
                self,
            )@.skip(1),
            final(self).spec_grid_width() == old(self).spec_grid_width(),
            final(self).spec_grid_height() == old(self).spec_grid_height(),
            final(self).spec_grid_pressure() == old(self).spec_grid_pressure(),
    {
        let r = self.queue.pop_front();
        proof {
            if old(self)@.len() > 0 {
                assert(old(self)@.subrange(1, old(self)@.len() as int) =~= old(self)@.skip(1));
            }
        }
        r
    }

    /// Converts one raw pen reading into a normalized event and queues
    /// it, timestamped with the given monotonic clock reading.
    pub fn handle_pen_reading(
        &mut self,
        timestamp: u64,
        raw_x: u32,
        raw_y: u32,
        raw_pressure: u32,
        touching: bool,
        hovering: bool,
    )
        requires
            old(self).spec_grid_width() >= 1,
            old(self).spec_grid_height() >= 1,
            old(self).spec_grid_pressure() >= 1,
        ensures
            final(self)@.len() == old(self)@.len() + 1,
            final(self)@ == old(self)@.push(final(self)@.last()),
            ({
                let e = final(self)@.last();
                &&& e.spec_time() == timestamp
                &&& e.spec_x() == crate::event::normalized_of(raw_x, old(self).spec_grid_width())
                &&& e.spec_y() == crate::event::normalized_of(raw_y, old(self).spec_grid_height())
                &&& e.spec_pressure() == crate::event::normalized_of(
                    raw_pressure,
                    old(self).spec_grid_pressure(),
                )
                &&& e.spec_touching() == touching
                &&& e.spec_hovering() == hovering
            }),
            final(self).spec_grid_width() == old(self).spec_grid_width(),
            final(self).spec_grid_height() == old(self).spec_grid_height(),
            final(self).spec_grid_pressure() == old(self).spec_grid_pressure(),
    {
        let event = Event::from_grid(
            timestamp,
            raw_x,
            raw_y,
            raw_pressure,
            self.resolution.0,
            self.resolution.1,
            self.resolution.2,
            touching,
            hovering,
        );
        self.push_event(event);
    }
}

} // verus!
