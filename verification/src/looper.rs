use vstd::prelude::*;

verus! {

/// Whether the frame loop polls continuously or waits for events.
#[derive(Debug, Clone, Copy, PartialEq, Eq, Hash)]
pub enum LooperMode {
    Poll,
    Wait,
}

impl Default for LooperMode {
    fn default() -> (r: LooperMode)
        ensures
            r == LooperMode::Poll,
    {
        LooperMode::Poll
    }
}

/// A frame rate in millihertz; it is never zero.
#[derive(Debug, Clone, Copy, PartialEq, Eq, Hash)]
pub struct Millihertz(u32);

impl Millihertz {
    #[verifier::type_invariant]
    spec fn inv(self) -> bool {
        self.0 != 0
    }

    /// The rate this holds.
    pub closed spec fn value(self) -> u32 {
        self.0
    }

    /// The rate, unless it is zero.
    pub fn new(rate: u32) -> (r: Option<Millihertz>)
        ensures
            r is Some <==> rate != 0,
            r matches Some(m) ==> m.value() == rate,
    {
        if rate == 0 {
            None
        } else {
            Some(Millihertz(rate))
        }
    }

    pub fn get(self) -> (r: u32)
        ensures
            r == self.value(),
            r != 0,
    {
        proof {
            use_type_invariant(self);
        }
        self.0
    }
}

/// The frame rate the loop aims for.
#[derive(Debug, Clone, Copy, PartialEq, Eq, Hash)]
pub enum TargetFps {
    VSync,
    MilliHertz(Millihertz),
    Unlimited,
}

impl Default for TargetFps {
    fn default() -> (r: TargetFps)
        ensures
            r == TargetFps::VSync,
    {
        TargetFps::VSync
    }
}

impl TargetFps {
    /// The rate handed to the frame interval: only an explicit rate is one.
    pub fn millihertz(self) -> (r: Option<u32>)
        ensures
            r == match self {
                TargetFps::MilliHertz(m) => Some(m.value()),
                _ => None,
            },
            r matches Some(v) ==> v != 0,
    {
        match self {
            TargetFps::VSync => None,
            TargetFps::MilliHertz(m) => Some(m.get()),
            TargetFps::Unlimited => None,
        }
    }
}

/// Window settings of the frame loop.
#[derive(Debug, Clone, Hash)]
pub struct LooperConfig {
    title: String,
    resizable: bool,
    width: u32,
    height: u32,
}

/// What the frame loop remembers of the window between events.
#[derive(Debug, Clone, Copy, PartialEq, Eq)]
pub struct LoopWindowState {
    pub window_occluded: bool,
    pub window_too_small: bool,
}

/// A window event, as far as the frame loop decides on it. Events of other
/// windows, and kinds the loop ignores, are `Other`.
#[derive(Debug, Clone, Copy, PartialEq, Eq)]
pub enum LoopEvent {
    /// The event loop woke up to poll.
    Poll,
    /// A redraw was asked for; `within_frame_interval` holds when the last
    /// frame began less than the target frame interval ago and the platform
    /// throttles polled frames.
    RedrawRequested { within_frame_interval: bool },
    Occluded(bool),
    KeyboardInput,
    /// The window's inner size changed.
    Resized { width: u32, height: u32 },
    /// The scale factor changed; the size is the window's inner size after the
    /// target frame interval has been brought up to date.
    ScaleFactorChanged { width: u32, height: u32 },
    CloseRequested,
    Other,
}

/// What the frame loop does in answer to an event.
#[derive(Debug, Clone, Copy, PartialEq, Eq)]
pub enum LoopAction {
    /// Calls the driver's init, before the loop handles any event.
    Init,
    Nothing,
    RequestRedraw,
    /// Runs the phases of a frame, in the order `frame_phases` gives.
    RenderFrame,
    /// Hands the key event to the input state.
    HandleKey,
    /// Records the new screen size and resizes the surface, after waiting for
    /// the device when `poll_device` holds; then asks for a redraw when
    /// `request_redraw` holds.
    Resize { width: u32, height: u32, poll_device: bool, request_redraw: bool },
    /// Leaves the event loop and tells the driver that the loop finished.
    Exit,
}

/// A step of a frame.
#[derive(Debug, Clone, Copy, PartialEq, Eq)]
pub enum FramePhase {
    Update,
    LateUpdate,
    PrepareRender,
    Render,
    /// Clears the per-frame key states, once the frame is done.
    ResetInput,
}

/// The phases of a frame, in order: update, late update, render
/// preparation, render, and then the reset of the per-frame input state.
pub open spec fn frame_phase_seq() -> Seq<FramePhase> {
    seq![
        FramePhase::Update,
        FramePhase::LateUpdate,
        FramePhase::PrepareRender,
        FramePhase::Render,
        FramePhase::ResetInput,
    ]
}

/// The phases a `RenderFrame` runs, in order.
pub fn frame_phases() -> (r: Vec<FramePhase>)
    ensures
        r@ == frame_phase_seq(),
{
    let mut r: Vec<FramePhase> = Vec::new();
    r.push(FramePhase::Update);
    r.push(FramePhase::LateUpdate);
    r.push(FramePhase::PrepareRender);
    r.push(FramePhase::Render);
    r.push(FramePhase::ResetInput);
    assert(r@ =~= frame_phase_seq());
    r
}

/// The loop waits for events.
pub open spec fn is_wait(mode: LooperMode) -> bool {
    mode matches LooperMode::Wait
}

/// The state and action after a resize to `width` by `height`.
pub open spec fn resize_step(
    s: LoopWindowState,
    mode: LooperMode,
    width: u32,
    height: u32,
    poll_device: bool,
) -> (LoopWindowState, LoopAction) {
    if width == 0 || height == 0 {
        (LoopWindowState { window_too_small: true, ..s }, LoopAction::Nothing)
    } else {
        (
            LoopWindowState { window_too_small: false, ..s },
            LoopAction::Resize {
                width,
                height,
                poll_device,
                request_redraw: is_wait(mode) && !s.window_occluded,
            },
        )
    }
}

/// The state and action after an event.
pub open spec fn loop_step(s: LoopWindowState, mode: LooperMode, event: LoopEvent) -> (
    LoopWindowState,
    LoopAction,
) {
    match event {
        LoopEvent::Poll => (
            s,
            if !s.window_occluded && !s.window_too_small {
                LoopAction::RequestRedraw
            } else {
                LoopAction::Nothing
            },
        ),
        LoopEvent::RedrawRequested { within_frame_interval } => (
            s,
            if !is_wait(mode) && within_frame_interval {
                LoopAction::Nothing
            } else {
                LoopAction::RenderFrame
            },
        ),
        LoopEvent::Occluded(occluded) => (
            LoopWindowState { window_occluded: occluded, ..s },
            if is_wait(mode) && !occluded && !s.window_too_small {
                LoopAction::RequestRedraw
            } else {
                LoopAction::Nothing
            },
        ),
        LoopEvent::KeyboardInput => (s, LoopAction::HandleKey),
        LoopEvent::Resized { width, height } => resize_step(s, mode, width, height, true),
        LoopEvent::ScaleFactorChanged { width, height } => resize_step(s, mode, width, height, false),
        LoopEvent::CloseRequested => (s, LoopAction::Exit),
        LoopEvent::Other => (s, LoopAction::Nothing),
    }
}

/// The action asks for a redraw.
pub open spec fn requests_redraw(a: LoopAction) -> bool {
    a matches LoopAction::RequestRedraw || a matches LoopAction::Resize { request_redraw: true, .. }
}

impl LoopWindowState {
    /// A visible window of usable size.
    pub fn new() -> (r: LoopWindowState)
        ensures
            !r.window_occluded,
            !r.window_too_small,
    {
        LoopWindowState { window_occluded: false, window_too_small: false }
    }

    /// The start of the loop: a visible window of usable size, and the
    /// driver's init, which comes before any event.
    pub fn start() -> (r: (LoopWindowState, LoopAction))
        ensures
            r == (LoopWindowState { window_occluded: false, window_too_small: false }, LoopAction::Init),
    {
        (LoopWindowState::new(), LoopAction::Init)
    }

    /// Decides what the loop does with the event, and updates what it knows of
    /// the window.
    pub fn step(&mut self, mode: LooperMode, event: LoopEvent) -> (r: LoopAction)
        ensures
            (*final(self), r) == loop_step(*old(self), mode, event),
            resize_of(event) matches Some((w, h)) ==> ((w != 0 && h != 0) ==> ((r is Resize) && requests_redraw(r)
                == (is_wait(mode) && !old(self).window_occluded))),
    {
        let wait = match mode {
            LooperMode::Wait => true,
            LooperMode::Poll => false,
        };
        match event {
            LoopEvent::Poll => {
                if !self.window_occluded && !self.window_too_small {
                    LoopAction::RequestRedraw
                } else {
                    LoopAction::Nothing
                }
            },
            LoopEvent::RedrawRequested { within_frame_interval } => {
                if !wait && within_frame_interval {
                    LoopAction::Nothing
                } else {
                    LoopAction::RenderFrame
                }
            },
            LoopEvent::Occluded(occluded) => {
                self.window_occluded = occluded;
                if wait && !occluded && !self.window_too_small {
                    LoopAction::RequestRedraw
                } else {
                    LoopAction::Nothing
                }
            },
            LoopEvent::KeyboardInput => LoopAction::HandleKey,
            LoopEvent::Resized { width, height } => self.resize(wait, width, height, true),
            LoopEvent::ScaleFactorChanged { width, height } => self.resize(wait, width, height, false),
            LoopEvent::CloseRequested => LoopAction::Exit,
            LoopEvent::Other => LoopAction::Nothing,
        }
    }

    fn resize(&mut self, wait: bool, width: u32, height: u32, poll_device: bool) -> (r: LoopAction)
        ensures
            forall|mode: LooperMode| is_wait(mode) == wait ==> (#[trigger] resize_step(*old(self), mode, width, height, poll_device)) == (*final(self), r),
    {
        if width == 0 || height == 0 {
            self.window_too_small = true;
            LoopAction::Nothing
        } else {
            self.window_too_small = false;
            LoopAction::Resize {
                width,
                height,
                poll_device,
                request_redraw: wait && !self.window_occluded,
            }
        }
    }
}

/// What the loop knows of the window after the events.
pub open spec fn state_after(mode: LooperMode, events: Seq<LoopEvent>) -> LoopWindowState
    decreases events.len(),
{
    if events.len() == 0 {
        LoopWindowState { window_occluded: false, window_too_small: false }
    } else {
        loop_step(state_after(mode, events.drop_last()), mode, events.last()).0
    }
}

/// What the loop does over a run: the driver's init, then the answer to each
/// event in turn.
pub open spec fn run_actions(mode: LooperMode, events: Seq<LoopEvent>) -> Seq<LoopAction>
    decreases events.len(),
{
    if events.len() == 0 {
        seq![LoopAction::Init]
    } else {
        run_actions(mode, events.drop_last()).push(
            loop_step(state_after(mode, events.drop_last()), mode, events.last()).1,
        )
    }
}

/// The driver's init comes first in every run, exactly once, before the
/// answer to any event; after it comes one answer per event, in order.
pub proof fn lemma_init_comes_first(mode: LooperMode, events: Seq<LoopEvent>)
    ensures
        run_actions(mode, events).len() == events.len() + 1,
        run_actions(mode, events)[0] == LoopAction::Init,
        forall|k: int| 0 < k < run_actions(mode, events).len() ==> #[trigger] run_actions(mode, events)[k] != LoopAction::Init,
        forall|k: int|
            0 <= k < events.len() ==> #[trigger] run_actions(mode, events)[k + 1] == loop_step(
                state_after(mode, events.take(k)),
                mode,
                events[k],
            ).1,
    decreases events.len(),
{
    if events.len() > 0 {
        let front = events.drop_last();
        lemma_init_comes_first(mode, front);
        let prev = run_actions(mode, front);
        assert forall|k: int| 0 <= k < events.len() implies #[trigger] run_actions(mode, events)[k + 1] == loop_step(
            state_after(mode, events.take(k)),
            mode,
            events[k],
        ).1 by {
            if k < front.len() {
                assert(events.take(k) =~= front.take(k));
                assert(prev[k + 1] == loop_step(state_after(mode, front.take(k)), mode, front[k]).1);
            } else {
                assert(events.take(k) =~= front);
            }
        }
        assert forall|k: int| 0 < k < run_actions(mode, events).len() implies #[trigger] run_actions(mode, events)[k] != LoopAction::Init by {
            if k < prev.len() {
                assert(run_actions(mode, events)[k] == prev[k]);
            }
        }
    }
}

/// A frame ends with the reset of the per-frame input state, after the
/// render, and runs each phase once.
pub proof fn lemma_frame_ends_with_input_reset()
    ensures
        frame_phase_seq().len() == 5,
        frame_phase_seq().last() == FramePhase::ResetInput,
        frame_phase_seq()[3] == FramePhase::Render,
        frame_phase_seq().no_duplicates(),
{
    let s = frame_phase_seq();
    assert forall|i: int, j: int| 0 <= i < s.len() && 0 <= j < s.len() && i != j implies s[i] != s[j] by {
    }
}

/// The new size an event gives the window, for a resize or a change of scale.
pub open spec fn resize_of(event: LoopEvent) -> Option<(u32, u32)> {
    match event {
        LoopEvent::Resized { width, height } => Some((width, height)),
        LoopEvent::ScaleFactorChanged { width, height } => Some((width, height)),
        _ => None,
    }
}

/// A resize and a change of scale to a usable size are handled alike: the
/// surface is resized to that size, the window is no longer too small, and a
/// redraw is asked for exactly when the loop waits for events and the window
/// is not occluded; only a resize waits for the device first. A size with no
/// area changes nothing but marking the window too small.
pub proof fn lemma_resize_redraw(s: LoopWindowState, mode: LooperMode, width: u32, height: u32)
    ensures
        ({
            let (s1, a1) = loop_step(s, mode, LoopEvent::Resized { width, height });
            let (s2, a2) = loop_step(s, mode, LoopEvent::ScaleFactorChanged { width, height });
            &&& s1 == s2
            &&& s1.window_occluded == s.window_occluded
            &&& s1.window_too_small == (width == 0 || height == 0)
            &&& (width != 0 && height != 0) ==> {
                &&& a1 == (LoopAction::Resize {
                    width,
                    height,
                    poll_device: true,
                    request_redraw: !s.window_occluded && is_wait(mode),
                })
                &&& a2 == (LoopAction::Resize {
                    width,
                    height,
                    poll_device: false,
                    request_redraw: !s.window_occluded && is_wait(mode),
                })
            }
            &&& (width == 0 || height == 0) ==> (a1 == LoopAction::Nothing && a2 == LoopAction::Nothing)
        }),
{
}

/// The loop never asks for a redraw of a window that is occluded or too small
/// to draw into.
pub proof fn lemma_no_redraw_when_hidden(s: LoopWindowState, mode: LooperMode, event: LoopEvent)
    ensures
        requests_redraw(loop_step(s, mode, event).1) ==> !loop_step(s, mode, event).0.window_occluded
            && !loop_step(s, mode, event).0.window_too_small,
{
}

/// A window resized to nothing is marked too small and nothing is resized.
pub proof fn lemma_empty_resize_ignored(s: LoopWindowState, mode: LooperMode, width: u32, height: u32)
    requires
        width == 0 || height == 0,
    ensures
        loop_step(s, mode, LoopEvent::Resized { width, height }) == (
            LoopWindowState { window_too_small: true, ..s },
            LoopAction::Nothing,
        ),
        loop_step(s, mode, LoopEvent::ScaleFactorChanged { width, height }) == (
            LoopWindowState { window_too_small: true, ..s },
            LoopAction::Nothing,
        ),
{
}

} // verus!
