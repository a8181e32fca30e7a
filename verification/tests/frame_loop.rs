use resident_engine::frame_loop::{App, AppAction, AppInput};

#[test]
fn resume_creates_the_window_once() {
    let mut app = App::new();
    assert!(!app.window);
    assert_eq!(app.step(AppInput::AboutToWait), AppAction::Nothing);
    assert_eq!(app.step(AppInput::Resumed), AppAction::Init);
    assert_eq!(app.step(AppInput::InitDone { ok: true }), AppAction::Nothing);
    assert!(app.window);
    assert_eq!(app.step(AppInput::Resumed), AppAction::Nothing);
    assert_eq!(app.step(AppInput::AboutToWait), AppAction::RequestRedraw);
}

#[test]
fn failed_init_exits() {
    let mut app = App::new();
    assert_eq!(app.step(AppInput::Resumed), AppAction::Init);
    assert_eq!(app.step(AppInput::InitDone { ok: false }), AppAction::Exit);
    assert!(!app.window);
}

#[test]
fn window_events() {
    let mut app = App { window: true };
    assert_eq!(app.step(AppInput::CloseRequested), AppAction::Exit);
    assert_eq!(
        app.step(AppInput::Resized { width: 640, height: 480 }),
        AppAction::Resize { width: 640, height: 480 }
    );
    assert_eq!(app.step(AppInput::RedrawRequested), AppAction::Frame);
    assert_eq!(app.step(AppInput::FrameDone { ok: true }), AppAction::Nothing);
    assert_eq!(app.step(AppInput::FrameDone { ok: false }), AppAction::Exit);
    assert_eq!(app.step(AppInput::Other), AppAction::Nothing);
}
