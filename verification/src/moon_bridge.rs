//! The bridge between the logical units of the interface and the pixels of
//! the backend, and the decisions of the frame loop.

use vstd::prelude::*;
use crate::backend::Op;
use crate::element::Color;
use crate::geometry::{scaled_coordinate, scaled_length, ScaleFactor};

verus! {

/// Holds the scale factor that the window reported last.
#[derive(Clone, Copy, Debug, PartialEq, Eq, Structural)]
pub struct MoonBridge {
    pub scale_factor: ScaleFactor,
}

/// Something that the window or the platform tells the frame loop.
#[derive(Clone, Copy, Debug, PartialEq, Eq, Structural)]
pub enum LoopEvent {
    /// The user asked to close the window.
    CloseRequested,
    /// The window has a new size, in pixels.
    Resized { width: u32, height: u32 },
    /// The window has a new scale factor.
    ScaleFactorChanged { scale_factor: ScaleFactor },
    /// All pending events are handled; the loop is about to wait.
    AboutToWait,
    /// The platform asks for the interface to be drawn.
    Draw,
    /// The loop is ending.
    LoopExiting,
    /// The platform has no more events and never will.
    Finished,
    /// Anything else.
    Other,
}

/// What the frame loop does in answer to an event.
#[derive(Clone, Copy, Debug, PartialEq, Eq, Structural)]
pub enum LoopAction {
    /// Leave the loop.
    Exit,
    /// Tell the backend the size of the viewport, in pixels.
    SetViewport { width: u32, height: u32 },
    /// Build the interface anew and bring the backend up to date.
    Rebuild,
    /// Have the backend draw a frame on the given background.
    RenderFrame { clear: Color },
    /// Build the interface anew, bring the backend up to date, tell it the
    /// size of the viewport and have it draw a frame.
    DrawFrame { clear: Color },
    /// Give the window back.
    ReleaseWindow,
    /// Nothing.
    Wait,
}

/// The background on which frames are drawn: a dark blue.
pub open spec fn clear_color() -> Color {
    Color { r: 100, g: 200, b: 300, a: 1000 }
}

/// The scale factor of a device that does not report one: two and a half
/// pixels per unit.
pub open spec fn fallback_scale() -> ScaleFactor {
    ScaleFactor { per_mille: 2500 }
}

/// The action that answers an event.
pub open spec fn action_for(event: LoopEvent) -> LoopAction {
    match event {
        LoopEvent::CloseRequested => LoopAction::Exit,
        LoopEvent::Resized { width, height } => LoopAction::SetViewport { width, height },
        LoopEvent::ScaleFactorChanged { .. } => LoopAction::Rebuild,
        LoopEvent::AboutToWait => LoopAction::RenderFrame { clear: clear_color() },
        LoopEvent::Draw => LoopAction::DrawFrame { clear: clear_color() },
        LoopEvent::LoopExiting => LoopAction::ReleaseWindow,
        LoopEvent::Finished => LoopAction::Exit,
        LoopEvent::Other => LoopAction::Wait,
    }
}

/// The scale factor that holds after an event.
pub open spec fn scale_after(scale_factor: ScaleFactor, event: LoopEvent) -> ScaleFactor {
    match event {
        LoopEvent::ScaleFactorChanged { scale_factor: reported } => reported,
        _ => scale_factor,
    }
}

impl MoonBridge {
    /// A bridge for a window with the given scale factor.
    pub fn new(scale_factor: ScaleFactor) -> (bridge: MoonBridge)
        ensures
            bridge.scale_factor == scale_factor,
    {
        MoonBridge { scale_factor }
    }

    /// A bridge for a device that reports no scale factor.
    pub fn with_fallback_scale() -> (bridge: MoonBridge)
        ensures
            bridge.scale_factor == fallback_scale(),
    {
        MoonBridge { scale_factor: ScaleFactor { per_mille: 2500 } }
    }

    pub fn set_scale_factor(&mut self, factor: ScaleFactor)
        ensures
            final(self).scale_factor == factor,
    {
        self.scale_factor = factor;
    }

    /// The call that puts an object at a position given in logical units.
    pub fn config_position_dp(&self, x: i64, y: i64) -> (op: Op)
        ensures
            op == (Op::SetPosition {
                x: scaled_coordinate(x as int, self.scale_factor.per_mille as int) as i64,
                y: scaled_coordinate(y as int, self.scale_factor.per_mille as int) as i64,
            }),
    {
        Op::SetPosition {
            x: self.scale_factor.scale_coordinate(x),
            y: self.scale_factor.scale_coordinate(y),
        }
    }

    /// The call that gives an object a size given in logical units.
    pub fn config_size_dp(&self, width: u32, height: u32) -> (op: Op)
        ensures
            op == (Op::SetSize {
                width: scaled_length(width as int, self.scale_factor.per_mille as int) as u64,
                height: scaled_length(height as int, self.scale_factor.per_mille as int) as u64,
            }),
    {
        Op::SetSize {
            width: self.scale_factor.scale_length(width),
            height: self.scale_factor.scale_length(height),
        }
    }

    /// Takes note of an event and says what the frame loop does next.  Only
    /// a new scale factor changes the bridge.
    pub fn handle_event(&mut self, event: LoopEvent) -> (action: LoopAction)
        ensures
            action == action_for(event),
            final(self).scale_factor == scale_after(old(self).scale_factor, event),
    {
        match event {
            LoopEvent::CloseRequested => LoopAction::Exit,
            LoopEvent::Resized { width, height } => LoopAction::SetViewport { width, height },
            LoopEvent::ScaleFactorChanged { scale_factor } => {
                self.set_scale_factor(scale_factor);
                LoopAction::Rebuild
            },
            LoopEvent::AboutToWait => LoopAction::RenderFrame {
                clear: Color { r: 100, g: 200, b: 300, a: 1000 },
            },
            LoopEvent::Draw => LoopAction::DrawFrame { clear: Color { r: 100, g: 200, b: 300, a: 1000 } },
            LoopEvent::LoopExiting => LoopAction::ReleaseWindow,
            LoopEvent::Finished => LoopAction::Exit,
            LoopEvent::Other => LoopAction::Wait,
        }
    }
}

} // verus!
