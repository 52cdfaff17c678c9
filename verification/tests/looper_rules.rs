use lvl_core::perf::perf_recorder::FrameTimes;
use lvl_core::looper::{frame_phases, FramePhase, LoopAction, LoopEvent, LoopWindowState, LooperMode, Millihertz, TargetFps};

#[test]
fn looper_mode_defaults_to_poll() {
    assert_eq!(LooperMode::default(), LooperMode::Poll);
}

#[test]
fn polling_redraws_only_visible_windows() {
    let mut state = LoopWindowState::new();
    assert_eq!(state.step(LooperMode::Poll, LoopEvent::Poll), LoopAction::RequestRedraw);
    assert_eq!(state.step(LooperMode::Poll, LoopEvent::Occluded(true)), LoopAction::Nothing);
    assert_eq!(state.step(LooperMode::Poll, LoopEvent::Poll), LoopAction::Nothing);
    assert_eq!(state.step(LooperMode::Poll, LoopEvent::Occluded(false)), LoopAction::Nothing);
    assert_eq!(state.step(LooperMode::Poll, LoopEvent::Poll), LoopAction::RequestRedraw);
}

#[test]
fn waiting_redraws_when_the_window_shows_again() {
    let mut state = LoopWindowState::new();
    assert_eq!(state.step(LooperMode::Wait, LoopEvent::Occluded(true)), LoopAction::Nothing);
    assert_eq!(state.step(LooperMode::Wait, LoopEvent::Occluded(false)), LoopAction::RequestRedraw);
}

#[test]
fn resizes_to_nothing_are_held_back() {
    let mut state = LoopWindowState::new();
    assert_eq!(
        state.step(LooperMode::Wait, LoopEvent::Resized { width: 0, height: 300 }),
        LoopAction::Nothing
    );
    assert!(state.window_too_small);
    assert_eq!(state.step(LooperMode::Wait, LoopEvent::Poll), LoopAction::Nothing);
    assert_eq!(
        state.step(LooperMode::Wait, LoopEvent::Resized { width: 640, height: 480 }),
        LoopAction::Resize { width: 640, height: 480, poll_device: true, request_redraw: true }
    );
    assert!(!state.window_too_small);
    assert_eq!(
        state.step(LooperMode::Poll, LoopEvent::ScaleFactorChanged { width: 1280, height: 960 }),
        LoopAction::Resize { width: 1280, height: 960, poll_device: false, request_redraw: false }
    );
}

#[test]
fn frames_render_unless_throttled() {
    let mut state = LoopWindowState::new();
    assert_eq!(
        state.step(LooperMode::Poll, LoopEvent::RedrawRequested { within_frame_interval: true }),
        LoopAction::Nothing
    );
    assert_eq!(
        state.step(LooperMode::Poll, LoopEvent::RedrawRequested { within_frame_interval: false }),
        LoopAction::RenderFrame
    );
    assert_eq!(
        state.step(LooperMode::Wait, LoopEvent::RedrawRequested { within_frame_interval: true }),
        LoopAction::RenderFrame
    );
    assert_eq!(state.step(LooperMode::Wait, LoopEvent::KeyboardInput), LoopAction::HandleKey);
    assert_eq!(state.step(LooperMode::Wait, LoopEvent::CloseRequested), LoopAction::Exit);
    assert_eq!(state.step(LooperMode::Wait, LoopEvent::Other), LoopAction::Nothing);
}

#[test]
fn frame_time_windows_keep_the_last_frames() {
    let mut times: FrameTimes<u32> = FrameTimes::new();
    for t in 0..40u32 {
        times.record(t);
    }
    assert_eq!(times.len(), 32);
    assert_eq!(times.samples().front(), Some(&8));
    assert_eq!(times.samples().back(), Some(&39));
    let mut short: FrameTimes<u32> = FrameTimes::new();
    short.record(5);
    assert_eq!(short.samples().iter().copied().collect::<Vec<_>>(), vec![5]);
}

#[test]
fn target_fps_defaults_to_vsync_and_rates_are_never_zero() {
    assert_eq!(TargetFps::default(), TargetFps::VSync);
    assert_eq!(TargetFps::VSync.millihertz(), None);
    assert_eq!(TargetFps::Unlimited.millihertz(), None);
    assert!(Millihertz::new(0).is_none());
    let rate = Millihertz::new(60_000).unwrap();
    assert_eq!(rate.get(), 60_000);
    assert_eq!(TargetFps::MilliHertz(rate).millihertz(), Some(60_000));
}

#[test]
fn the_loop_starts_with_init_and_frames_end_with_the_input_reset() {
    let (mut state, action) = LoopWindowState::start();
    assert_eq!(action, LoopAction::Init);
    assert_eq!(state, LoopWindowState::new());
    assert_eq!(state.step(LooperMode::Poll, LoopEvent::Poll), LoopAction::RequestRedraw);
    assert_eq!(
        frame_phases(),
        vec![
            FramePhase::Update,
            FramePhase::LateUpdate,
            FramePhase::PrepareRender,
            FramePhase::Render,
            FramePhase::ResetInput,
        ]
    );
}
