//! The dashboard's view state and how key presses change it.

use vstd::prelude::*;

verus! {

/// Active dashboard view.
#[derive(Debug, Clone, Copy, PartialEq, Eq, Structural)]
pub enum View {
    Dashboard,
    Flows,
    Packets,
    Help,
}

/// A key press, as far as the dashboard tells key presses apart.
#[derive(Debug, Clone, Copy, PartialEq, Eq, Structural)]
pub enum KeyPress {
    /// A character key without modifiers.
    Plain(char),
    /// A character key with Control and no other modifier.
    Control(char),
    /// Anything else.
    Other,
}

/// What the dashboard reacts to.
#[derive(Debug, Clone, Copy, PartialEq, Eq, Structural)]
pub enum AppEvent {
    Tick,
    Key(KeyPress),
    Resize(u16, u16),
    PacketUpdate,
}

/// The dashboard's state.
#[derive(Debug, Clone, Copy, PartialEq, Eq, Structural)]
pub struct AppState {
    pub view: View,
    pub should_quit: bool,
    /// Refresh interval in milliseconds.
    pub tick_ms: u64,
}

/// The state after an event: `q` or Control-C quits; `1`, `2`, `3` and `?`
/// switch to the dashboard, flows, packets and help views; anything else
/// changes nothing.
pub open spec fn after_event(s: AppState, ev: AppEvent) -> AppState {
    match ev {
        AppEvent::Key(KeyPress::Plain('q')) => AppState { should_quit: true, ..s },
        AppEvent::Key(KeyPress::Control('c')) => AppState { should_quit: true, ..s },
        AppEvent::Key(KeyPress::Plain('1')) => AppState { view: View::Dashboard, ..s },
        AppEvent::Key(KeyPress::Plain('2')) => AppState { view: View::Flows, ..s },
        AppEvent::Key(KeyPress::Plain('3')) => AppState { view: View::Packets, ..s },
        AppEvent::Key(KeyPress::Plain('?')) => AppState { view: View::Help, ..s },
        _ => s,
    }
}

impl AppState {
    /// The dashboard view, not quitting, refreshed every `tick_ms`
    /// milliseconds.
    pub fn new(tick_ms: u64) -> (r: Self)
        ensures
            r == (AppState { view: View::Dashboard, should_quit: false, tick_ms }),
    {
        AppState { view: View::Dashboard, should_quit: false, tick_ms }
    }

    pub fn handle_event(&mut self, ev: AppEvent)
        ensures
            *final(self) == after_event(*old(self), ev),
    {
        match ev {
            AppEvent::Key(KeyPress::Plain('q')) => self.should_quit = true,
            AppEvent::Key(KeyPress::Control('c')) => self.should_quit = true,
            AppEvent::Key(KeyPress::Plain('1')) => self.view = View::Dashboard,
            AppEvent::Key(KeyPress::Plain('2')) => self.view = View::Flows,
            AppEvent::Key(KeyPress::Plain('3')) => self.view = View::Packets,
            AppEvent::Key(KeyPress::Plain('?')) => self.view = View::Help,
            _ => {},
        }
    }
}

/// Keys: quitting is asked for only by `q` or Control-C and is never
/// taken back; a view key changes only the view; the refresh interval
/// never changes; `1`, `2`, `3`, `?` lead to the dashboard, flows, packets
/// and help views from any state.
pub proof fn law_keys(s: AppState, ev: AppEvent)
    ensures
        after_event(s, ev).tick_ms == s.tick_ms,
        s.should_quit ==> after_event(s, ev).should_quit,
        !s.should_quit && after_event(s, ev).should_quit ==> (ev == AppEvent::Key(KeyPress::Plain('q')) || ev == AppEvent::Key(KeyPress::Control('c'))),
        ev == AppEvent::Key(KeyPress::Plain('q')) ==> after_event(s, ev).should_quit && after_event(s, ev).view == s.view,
        ev == AppEvent::Key(KeyPress::Control('c')) ==> after_event(s, ev).should_quit,
        ev == AppEvent::Key(KeyPress::Plain('1')) ==> after_event(s, ev) == (AppState { view: View::Dashboard, ..s }),
        ev == AppEvent::Key(KeyPress::Plain('2')) ==> after_event(s, ev) == (AppState { view: View::Flows, ..s }),
        ev == AppEvent::Key(KeyPress::Plain('3')) ==> after_event(s, ev) == (AppState { view: View::Packets, ..s }),
        ev == AppEvent::Key(KeyPress::Plain('?')) ==> after_event(s, ev) == (AppState { view: View::Help, ..s }),
        ev == AppEvent::Tick || ev == AppEvent::PacketUpdate || ev == AppEvent::Key(KeyPress::Other) ==> after_event(s, ev) == s,
{
}

} // verus!
