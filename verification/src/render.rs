//! The renderer's decisions: what each answer of the surface means for a frame,
//! when a resize reaches the surface, and how the surface is first configured.

use vstd::prelude::*;

verus! {

/// Declares shipyard's storage-borrow error, which a [`RenderError`] can carry.
#[verifier::external_type_specification]
#[verifier::external_body]
pub struct ExGetStorage(shipyard::error::GetStorage);

/// Errors from the frame-loop operations of the renderer.
pub enum RenderError {
    /// A storage of the world could not be borrowed.
    Storage(shipyard::error::GetStorage),
    /// No frame to present: the frame unique is missing from the world.
    MissingFrame,
    /// The surface was lost or outdated and has been reconfigured.
    Reconfigured,
    /// No surface texture is available (timeout or occluded).
    Unavailable,
    /// The surface reported a validation error.
    Validation,
}

/// What the surface answered when asked for the next texture.
#[derive(Clone, Copy, PartialEq, Eq, Debug)]
pub enum SurfaceStatus {
    /// A texture, with no issues.
    Success,
    /// A texture, but it no longer matches the surface.
    Suboptimal,
    /// Timed out waiting for a texture.
    Timeout,
    /// The window is occluded.
    Occluded,
    /// The surface configuration is outdated.
    Outdated,
    /// The surface was lost.
    Lost,
    /// A validation error was raised.
    Validation,
}

/// What acquiring a frame does with the surface's answer.
pub struct AcquirePlan {
    /// Configure the surface again before going on.
    pub reconfigure: bool,
    /// `Ok` when the texture is used for this frame, else why there is no frame.
    pub outcome: Result<(), RenderError>,
}

/// What the frame loop does after trying to acquire a frame.
pub enum FrameStep {
    /// Go on with the frame.
    Continue,
    /// Skip this frame without error; the next one may succeed.
    Skip,
    /// Stop with this error.
    Fail(RenderError),
}

/// How the surface is configured when the renderer is set up.
#[derive(Clone, Copy, PartialEq, Eq, Debug)]
pub struct SurfacePlan {
    /// Width in physical pixels, never zero.
    pub width: u32,
    /// Height in physical pixels, never zero.
    pub height: u32,
    /// Present without waiting for vertical sync.
    pub no_vsync: bool,
}

/// The acquire plan for each answer of the surface.
pub open spec fn spec_plan_acquire(status: SurfaceStatus) -> (bool, Option<RenderError>) {
    match status {
        SurfaceStatus::Success => (false, None),
        SurfaceStatus::Suboptimal => (true, None),
        SurfaceStatus::Lost | SurfaceStatus::Outdated => (true, Some(RenderError::Reconfigured)),
        SurfaceStatus::Timeout | SurfaceStatus::Occluded => (false, Some(RenderError::Unavailable)),
        SurfaceStatus::Validation => (false, Some(RenderError::Validation)),
    }
}

/// Decides what acquiring a frame does with the surface's answer: a suboptimal
/// texture is used after reconfiguring; a lost or outdated surface is reconfigured
/// and the frame reported as `Reconfigured`; a timeout or an occluded window is
/// `Unavailable`; a validation error is reported as such.
pub fn plan_acquire(status: SurfaceStatus) -> (plan: AcquirePlan)
    ensures
        plan.reconfigure == spec_plan_acquire(status).0,
        match spec_plan_acquire(status).1 {
            None => plan.outcome is Ok,
            Some(e) => plan.outcome == Err::<(), RenderError>(e),
        },
{
    match status {
        SurfaceStatus::Success => AcquirePlan { reconfigure: false, outcome: Ok(()) },
        SurfaceStatus::Suboptimal => AcquirePlan { reconfigure: true, outcome: Ok(()) },
        SurfaceStatus::Lost | SurfaceStatus::Outdated => AcquirePlan {
            reconfigure: true,
            outcome: Err(RenderError::Reconfigured),
        },
        SurfaceStatus::Timeout | SurfaceStatus::Occluded => AcquirePlan {
            reconfigure: false,
            outcome: Err(RenderError::Unavailable),
        },
        SurfaceStatus::Validation => AcquirePlan {
            reconfigure: false,
            outcome: Err(RenderError::Validation),
        },
    }
}

/// Decides how the frame loop goes on after acquiring: a reconfigured or
/// unavailable surface skips the frame, any other error stops the loop.
pub fn frame_step(acquired: Result<(), RenderError>) -> (step: FrameStep)
    ensures
        step == spec_frame_step(
            match acquired {
                Ok(()) => None,
                Err(e) => Some(e),
            },
        ),
        acquired is Ok ==> step is Continue,
        acquired matches Err(e) ==> (if e is Reconfigured || e is Unavailable {
            step is Skip
        } else {
            step == FrameStep::Fail(e)
        }),
{
    match acquired {
        Ok(()) => FrameStep::Continue,
        Err(RenderError::Reconfigured) | Err(RenderError::Unavailable) => FrameStep::Skip,
        Err(e) => FrameStep::Fail(e),
    }
}

/// The new surface size for a resize to `width` x `height`; `None` when either is
/// zero (a minimized window), which leaves the surface as it is.
pub fn resized(width: u32, height: u32) -> (size: Option<(u32, u32)>)
    ensures
        size == (if width > 0 && height > 0 {
            Some((width, height))
        } else {
            None::<(u32, u32)>
        }),
{
    if width > 0 && height > 0 {
        Some((width, height))
    } else {
        None
    }
}

/// The first surface configuration for a window of the given inner size: each
/// side at least one pixel, and vertical sync off unless asked for.
pub fn plan_surface(width: u32, height: u32, vsync: bool) -> (plan: SurfacePlan)
    ensures
        plan.width == (if width > 0 { width } else { 1 }),
        plan.height == (if height > 0 { height } else { 1 }),
        plan.no_vsync == !vsync,
{
    SurfacePlan {
        width: if width > 0 { width } else { 1 },
        height: if height > 0 { height } else { 1 },
        no_vsync: !vsync,
    }
}

/// How the frame loop goes on after an acquire that ended with `error`.
pub open spec fn spec_frame_step(error: Option<RenderError>) -> FrameStep {
    match error {
        None => FrameStep::Continue,
        Some(RenderError::Reconfigured) | Some(RenderError::Unavailable) => FrameStep::Skip,
        Some(e) => FrameStep::Fail(e),
    }
}

/// Acquiring a frame, then deciding the frame loop's next step: a frame goes on
/// exactly when the surface gave a texture; a timed-out, occluded, lost or
/// outdated surface only skips the frame; a validation error alone stops the loop.
pub proof fn lemma_acquire_then_step(status: SurfaceStatus)
    ensures
        (spec_frame_step(spec_plan_acquire(status).1) is Continue) <==> (status
            == SurfaceStatus::Success || status == SurfaceStatus::Suboptimal),
        (spec_frame_step(spec_plan_acquire(status).1) is Skip) <==> (status
            == SurfaceStatus::Timeout || status == SurfaceStatus::Occluded || status
            == SurfaceStatus::Lost || status == SurfaceStatus::Outdated),
        (spec_frame_step(spec_plan_acquire(status).1) is Fail) <==> status
            == SurfaceStatus::Validation,
        spec_plan_acquire(status).0 <==> (status == SurfaceStatus::Suboptimal || status
            == SurfaceStatus::Lost || status == SurfaceStatus::Outdated),
{
}

/// After an acquire, the frame goes on when it succeeded; a reconfigured or
/// unavailable surface skips the frame; every other error, whatever it is (a
/// storage that could not be borrowed, a missing frame, a validation error),
/// fails the frame with that same error.
pub proof fn lemma_frame_step_errors(error: RenderError)
    ensures
        spec_frame_step(None) is Continue,
        (error is Reconfigured || error is Unavailable) ==> spec_frame_step(Some(error)) is Skip,
        !(error is Reconfigured || error is Unavailable) ==> spec_frame_step(Some(error))
            == FrameStep::Fail(error),
{
}

/// The answer of the surface decides the acquire exactly so: a texture (with a
/// reconfigure first when suboptimal), a lost or outdated surface reconfigured and
/// reported as `Reconfigured`, a timeout or occlusion reported as `Unavailable`,
/// and a validation error reported as `Validation`.
pub proof fn lemma_acquire_table(status: SurfaceStatus)
    ensures
        status == SurfaceStatus::Success ==> spec_plan_acquire(status) == (false, None::<
            RenderError,
        >),
        status == SurfaceStatus::Suboptimal ==> spec_plan_acquire(status) == (true, None::<
            RenderError,
        >),
        (status == SurfaceStatus::Lost || status == SurfaceStatus::Outdated) ==> spec_plan_acquire(
            status,
        ) == (true, Some(RenderError::Reconfigured)),
        (status == SurfaceStatus::Timeout || status == SurfaceStatus::Occluded)
            ==> spec_plan_acquire(status) == (false, Some(RenderError::Unavailable)),
        status == SurfaceStatus::Validation ==> spec_plan_acquire(status) == (false, Some(
            RenderError::Validation,
        )),
{
}

} // verus!
