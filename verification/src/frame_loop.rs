//! The window's event handling as a state machine: from the application's state
//! and what happened to what the event loop does next.

use vstd::prelude::*;

verus! {

/// What the event loop reports to the application.
#[derive(Clone, Copy, PartialEq, Eq, Debug)]
pub enum AppInput {
    /// The application was resumed (on start, and when coming back).
    Resumed,
    /// The window was asked to close.
    CloseRequested,
    /// The window now has this inner size.
    Resized { width: u32, height: u32 },
    /// The window asks to be redrawn.
    RedrawRequested,
    /// The event loop is about to wait for new events.
    AboutToWait,
    /// Any other window event.
    Other,
    /// Creating the window and setting up the world finished, successfully or not.
    InitDone { ok: bool },
    /// Running one frame finished, successfully or not.
    FrameDone { ok: bool },
}

/// What the event loop is to do next.
#[derive(Clone, Copy, PartialEq, Eq, Debug)]
pub enum AppAction {
    /// Create the window and set up the renderer, the UI and the profilers.
    Init,
    /// Leave the event loop.
    Exit,
    /// Resize the surface to this size.
    Resize { width: u32, height: u32 },
    /// Run one frame.
    Frame,
    /// Ask the window for a redraw.
    RequestRedraw,
    /// Nothing.
    Nothing,
}

/// The application's state as far as its event handling goes.
#[derive(Clone, Copy, PartialEq, Eq, Debug)]
pub struct App {
    /// Whether the window has been created.
    pub window: bool,
}

/// The next state and action for one input.
pub open spec fn next(window: bool, input: AppInput) -> (bool, AppAction) {
    match input {
        AppInput::Resumed => (window, if window {
            AppAction::Nothing
        } else {
            AppAction::Init
        }),
        AppInput::CloseRequested => (window, AppAction::Exit),
        AppInput::Resized { width, height } => (window, AppAction::Resize { width, height }),
        AppInput::RedrawRequested => (window, AppAction::Frame),
        AppInput::AboutToWait => (window, if window {
            AppAction::RequestRedraw
        } else {
            AppAction::Nothing
        }),
        AppInput::Other => (window, AppAction::Nothing),
        AppInput::InitDone { ok } => (window || ok, if ok {
            AppAction::Nothing
        } else {
            AppAction::Exit
        }),
        AppInput::FrameDone { ok } => (window, if ok {
            AppAction::Nothing
        } else {
            AppAction::Exit
        }),
    }
}

/// The window state after a run of inputs.
pub open spec fn window_after(window: bool, inputs: Seq<AppInput>) -> bool
    decreases inputs.len(),
{
    if inputs.len() == 0 {
        window
    } else {
        next(window_after(window, inputs.drop_last()), inputs.last()).0
    }
}

/// The actions for a run of inputs, one per input.
pub open spec fn actions(window: bool, inputs: Seq<AppInput>) -> Seq<AppAction>
    decreases inputs.len(),
{
    if inputs.len() == 0 {
        Seq::empty()
    } else {
        actions(window, inputs.drop_last()).push(
            next(window_after(window, inputs.drop_last()), inputs.last()).1,
        )
    }
}

impl App {
    /// An application whose window is not created yet.
    pub fn new() -> (app: Self)
        ensures
            !app.window,
    {
        App { window: false }
    }

    /// Handles one input: on resume, creates the window if there is none; a close
    /// request exits; a resize resizes the surface; a redraw request runs a frame;
    /// before waiting, an existing window is asked for a redraw; a failed init or a
    /// failed frame exits, and a successful init records the window.
    pub fn step(&mut self, input: AppInput) -> (action: AppAction)
        ensures
            (final(self).window, action) == next(old(self).window, input),
            input matches AppInput::Resized { width, height } ==> action == (AppAction::Resize {
                width,
                height,
            }),
    {
        match input {
            AppInput::Resumed => {
                if self.window {
                    AppAction::Nothing
                } else {
                    AppAction::Init
                }
            },
            AppInput::CloseRequested => AppAction::Exit,
            AppInput::Resized { width, height } => AppAction::Resize { width, height },
            AppInput::RedrawRequested => AppAction::Frame,
            AppInput::AboutToWait => {
                if self.window {
                    AppAction::RequestRedraw
                } else {
                    AppAction::Nothing
                }
            },
            AppInput::Other => AppAction::Nothing,
            AppInput::InitDone { ok } => {
                if ok {
                    self.window = true;
                    AppAction::Nothing
                } else {
                    AppAction::Exit
                }
            },
            AppInput::FrameDone { ok } => {
                if ok {
                    AppAction::Nothing
                } else {
                    AppAction::Exit
                }
            },
        }
    }
}

/// Once the window exists, it stays, and no input ever asks to create another.
pub proof fn lemma_single_window(inputs: Seq<AppInput>)
    ensures
        window_after(true, inputs),
        !actions(true, inputs).contains(AppAction::Init),
    decreases inputs.len(),
{
    if inputs.len() > 0 {
        lemma_single_window(inputs.drop_last());
        let prev = actions(true, inputs.drop_last());
        let a = actions(true, inputs);
        assert(a.drop_last() =~= prev);
        if a.contains(AppAction::Init) {
            let k = choose|k: int| 0 <= k < a.len() && a[k] == AppAction::Init;
            if k < prev.len() {
                assert(prev[k] == AppAction::Init);
            }
        }
    }
}

/// A redraw is only ever asked of a window that exists, and every failed init or
/// failed frame makes the loop exit.
pub proof fn lemma_redraw_needs_window(window: bool, input: AppInput)
    ensures
        next(window, input).1 == AppAction::RequestRedraw ==> window,
        next(window, input).1 == AppAction::Init ==> !window,
        input == (AppInput::InitDone { ok: false }) ==> next(window, input).1 == AppAction::Exit,
        input == (AppInput::FrameDone { ok: false }) ==> next(window, input).1 == AppAction::Exit,
        input == (AppInput::InitDone { ok: true }) ==> next(window, input).0,
{
}

/// Whatever the window's state, each window event maps to its action: a resize to
/// a resize of the surface to exactly that width and height, a close request to
/// exiting, a redraw request to a frame, any other event to nothing; and no window
/// event changes whether the window exists.
pub proof fn lemma_window_events(window: bool, width: u32, height: u32)
    ensures
        next(window, AppInput::Resized { width, height }) == (window, AppAction::Resize {
            width,
            height,
        }),
        next(window, AppInput::CloseRequested) == (window, AppAction::Exit),
        next(window, AppInput::RedrawRequested) == (window, AppAction::Frame),
        next(window, AppInput::Other) == (window, AppAction::Nothing),
        next(window, AppInput::Resumed).0 == window,
        next(window, AppInput::AboutToWait).0 == window,
        next(window, AppInput::FrameDone { ok: true }) == (window, AppAction::Nothing),
        next(window, AppInput::FrameDone { ok: false }) == (window, AppAction::Exit),
{
}

/// On resume, the window is created exactly when there is none; before waiting,
/// a redraw is asked exactly when there is one; a successful init records the
/// window and asks nothing more, a failed one exits and leaves the state alone.
pub proof fn lemma_window_lifecycle(window: bool)
    ensures
        next(window, AppInput::Resumed).1 == (if window {
            AppAction::Nothing
        } else {
            AppAction::Init
        }),
        next(window, AppInput::AboutToWait).1 == (if window {
            AppAction::RequestRedraw
        } else {
            AppAction::Nothing
        }),
        next(window, AppInput::InitDone { ok: true }) == (true, AppAction::Nothing),
        next(window, AppInput::InitDone { ok: false }) == (window, AppAction::Exit),
{
}

} // verus!
