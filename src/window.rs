//! Window strategies: each decides, from the timestamps of the events it is
//! shown, when a window opens and when the window before closes and emits.
use vstd::prelude::*;
use crate::event::Event;
use crate::script::AggrState;

verus! {

/// What a window strategy decides for one event.
#[derive(Debug, Clone, Copy, PartialEq, Eq, Structural)]
pub struct WindowEvent {
    /// A new window is opened.
    pub open: bool,
    /// The window before this event closes and emits.
    pub emit: bool,
}

/// When an event is folded relative to an emission: not at all, before it,
/// or after it.
#[derive(Debug, Clone, Copy, PartialEq, Eq, Structural)]
pub enum Accumulate {
    Not,
    Before,
    After,
}

/// A strategy that can be shown events one at a time.
pub trait WindowTrait: Sized {
    /// The strategy's state after seeing an event at `ts`, and its decision.
    spec fn next(&self, ts: u64) -> (Self, WindowEvent);

    /// Any window boundary that an event at `ts` sets fits in a `u64`.
    spec fn admits(&self, ts: u64) -> bool;

    fn on_event(&mut self, event: &Event) -> (r: WindowEvent)
        requires
            old(self).admits(event.ingest_ns),
        ensures
            (*final(self), r) == old(self).next(event.ingest_ns);
}

/// Every event is a window of its own: it opens one on the first event and
/// emits on every event.
#[derive(Debug, Clone, Copy, PartialEq, Eq, Structural)]
pub struct NoWindow {
    pub open: bool,
}

impl Default for NoWindow {
    fn default() -> (r: NoWindow)
        ensures
            !r.open,
    {
        NoWindow { open: false }
    }
}

impl WindowTrait for NoWindow {
    open spec fn next(&self, ts: u64) -> (NoWindow, WindowEvent) {
        (NoWindow { open: true }, WindowEvent { open: !self.open, emit: true })
    }

    open spec fn admits(&self, ts: u64) -> bool {
        true
    }

    fn on_event(&mut self, _event: &Event) -> (r: WindowEvent) {
        if self.open {
            WindowEvent { open: false, emit: true }
        } else {
            self.open = true;
            WindowEvent { open: true, emit: true }
        }
    }
}

/// Fixed, contiguous windows of `size` nanoseconds of event time. The first
/// event opens a window; the first event at or past the boundary closes it
/// and starts the next one at its own time.
#[derive(Debug, Clone, Copy, PartialEq, Eq, Structural)]
pub struct TumblingWindowOnEventTime {
    pub next_window: Option<u64>,
    pub size: u64,
}

impl Default for TumblingWindowOnEventTime {
    fn default() -> (r: TumblingWindowOnEventTime)
        ensures
            r.next_window is None,
            r.size == 0,
    {
        TumblingWindowOnEventTime { next_window: None, size: 0 }
    }
}

impl WindowTrait for TumblingWindowOnEventTime {
    open spec fn next(&self, ts: u64) -> (TumblingWindowOnEventTime, WindowEvent) {
        match self.next_window {
            None => (
                TumblingWindowOnEventTime { next_window: Some((ts + self.size) as u64), size: self.size },
                WindowEvent { open: true, emit: false },
            ),
            Some(boundary) => if boundary <= ts {
                (
                    TumblingWindowOnEventTime { next_window: Some((ts + self.size) as u64), size: self.size },
                    WindowEvent { open: false, emit: true },
                )
            } else {
                (*self, WindowEvent { open: false, emit: false })
            },
        }
    }

    /// Only an event that sets a new boundary needs it to fit.
    open spec fn admits(&self, ts: u64) -> bool {
        (self.next_window is None || self.next_window->Some_0 <= ts) ==> ts + self.size <= u64::MAX
    }

    fn on_event(&mut self, event: &Event) -> (r: WindowEvent) {
        match self.next_window {
            None => {
                self.next_window = Some(event.ingest_ns + self.size);
                WindowEvent { open: true, emit: false }
            },
            Some(next_window) => {
                if next_window <= event.ingest_ns {
                    self.next_window = Some(event.ingest_ns + self.size);
                    WindowEvent { open: false, emit: true }
                } else {
                    WindowEvent { open: false, emit: false }
                }
            },
        }
    }
}

/// The closed set of window strategies.
#[derive(Debug, Clone, Copy, PartialEq, Eq, Structural)]
pub enum WindowImpl {
    Tumbling(TumblingWindowOnEventTime),
    No(NoWindow),
}

/// The width of the default window: fifteen seconds.
pub const DEFAULT_WINDOW_NS: u64 = 15_000_000_000;

impl Default for WindowImpl {
    /// A tumbling window of fifteen seconds that has seen no event.
    fn default() -> (r: WindowImpl)
        ensures
            r == WindowImpl::Tumbling(TumblingWindowOnEventTime { next_window: None, size: DEFAULT_WINDOW_NS }),
    {
        WindowImpl::Tumbling(TumblingWindowOnEventTime { size: DEFAULT_WINDOW_NS, next_window: None })
    }
}

impl WindowTrait for WindowImpl {
    open spec fn next(&self, ts: u64) -> (WindowImpl, WindowEvent) {
        match *self {
            WindowImpl::Tumbling(w) => (WindowImpl::Tumbling(w.next(ts).0), w.next(ts).1),
            WindowImpl::No(w) => (WindowImpl::No(w.next(ts).0), w.next(ts).1),
        }
    }

    open spec fn admits(&self, ts: u64) -> bool {
        match *self {
            WindowImpl::Tumbling(w) => w.admits(ts),
            WindowImpl::No(w) => w.admits(ts),
        }
    }

    fn on_event(&mut self, event: &Event) -> (r: WindowEvent) {
        match self {
            WindowImpl::Tumbling(w) => w.on_event(event),
            WindowImpl::No(w) => w.on_event(event),
        }
    }
}

impl From<NoWindow> for WindowImpl {
    fn from(w: NoWindow) -> (r: WindowImpl) {
        WindowImpl::No(w)
    }
}

impl vstd::std_specs::convert::FromSpecImpl<NoWindow> for WindowImpl {
    open spec fn obeys_from_spec() -> bool {
        true
    }

    open spec fn from_spec(w: NoWindow) -> WindowImpl {
        WindowImpl::No(w)
    }
}

impl From<TumblingWindowOnEventTime> for WindowImpl {
    fn from(w: TumblingWindowOnEventTime) -> (r: WindowImpl) {
        WindowImpl::Tumbling(w)
    }
}

impl vstd::std_specs::convert::FromSpecImpl<TumblingWindowOnEventTime> for WindowImpl {
    open spec fn obeys_from_spec() -> bool {
        true
    }

    open spec fn from_spec(w: TumblingWindowOnEventTime) -> WindowImpl {
        WindowImpl::Tumbling(w)
    }
}

/// The state of one group: its window strategy and the accumulators of the
/// query's aggregate call sites, in call-site order.
#[derive(Debug)]
pub struct Window {
    pub window_impl: WindowImpl,
    pub aggregates: Vec<AggrState>,
}

/// The mathematical form of a `Window`.
pub struct WindowV {
    pub window_impl: WindowImpl,
    pub aggregates: Seq<AggrState>,
}

impl View for Window {
    type V = WindowV;

    open spec fn view(&self) -> WindowV {
        WindowV { window_impl: self.window_impl, aggregates: self.aggregates@ }
    }
}

impl Window {
    pub fn from_aggregates(aggregates: Vec<AggrState>, window_impl: WindowImpl) -> (r: Window)
        ensures
            r.window_impl == window_impl,
            r.aggregates == aggregates,
    {
        Window { aggregates, window_impl }
    }
}

impl WindowTrait for Window {
    open spec fn next(&self, ts: u64) -> (Window, WindowEvent) {
        (Window { window_impl: self.window_impl.next(ts).0, aggregates: self.aggregates }, self.window_impl.next(ts).1)
    }

    open spec fn admits(&self, ts: u64) -> bool {
        self.window_impl.admits(ts)
    }

    fn on_event(&mut self, event: &Event) -> (r: WindowEvent) {
        self.window_impl.on_event(event)
    }
}

} // verus!
