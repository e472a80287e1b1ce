//! What the window event loop decides.
//!
//! The loop itself belongs to the windowing system. For each event it
//! hands over, the loop asks `react` what to do: pass the event on to the
//! application, pause before the next round, or leave.

use vstd::prelude::*;

verus! {

/// How long the loop pauses after each round of events, in milliseconds.
pub const IDLE_PAUSE_MILLIS: u64 = 4;

/// A message from the application to the event loop.
#[derive(Debug, Clone, Copy, PartialEq, Eq, Structural)]
pub enum EventLoopMsg {
    /// The application is done: leave the loop.
    Stop,
}

/// What the windowing system reports to the loop.
#[derive(Debug, Clone, Copy, PartialEq, Eq, Structural)]
pub enum LoopEvent {
    /// Something happened to the window.
    Window,
    /// All pending events were delivered. Carries the message from the
    /// application that was waiting at that moment, if there was one.
    EventsCleared(Option<EventLoopMsg>),
    /// Anything else.
    Other,
}

/// What the loop does about an event.
#[derive(Debug, Clone, Copy, PartialEq, Eq, Structural)]
pub enum LoopAction {
    /// Pass the event on to the application.
    Forward,
    /// Pause for `millis` milliseconds; leave the loop afterwards if
    /// `exit` is set.
    Pause { millis: u64, exit: bool },
    /// Do nothing.
    Ignore,
}

/// What the loop does about `event`.
pub open spec fn reaction(event: LoopEvent) -> LoopAction {
    match event {
        LoopEvent::Window => LoopAction::Forward,
        LoopEvent::EventsCleared(msg) => LoopAction::Pause {
            millis: IDLE_PAUSE_MILLIS,
            exit: match msg {
                Some(EventLoopMsg::Stop) => true,
                None => false,
            },
        },
        LoopEvent::Other => LoopAction::Ignore,
    }
}

/// Decides what the loop does about `event`: window events go to the
/// application, the end of a round of events is followed by a short pause,
/// after which the loop leaves if the application asked it to stop, and
/// everything else is ignored.
pub fn react(event: LoopEvent) -> (action: LoopAction)
    ensures
        action == reaction(event),
{
    match event {
        LoopEvent::Window => LoopAction::Forward,
        LoopEvent::EventsCleared(msg) => {
            let exit = match msg {
                Some(EventLoopMsg::Stop) => true,
                None => false,
            };
            LoopAction::Pause { millis: IDLE_PAUSE_MILLIS, exit }
        },
        LoopEvent::Other => LoopAction::Ignore,
    }
}

} // verus!
