use resident_engine::render::{
    frame_step, plan_acquire, plan_surface, resized, FrameStep, RenderError, SurfaceStatus,
};

fn plan(status: SurfaceStatus) -> (bool, Result<(), &'static str>) {
    let p = plan_acquire(status);
    let outcome = match p.outcome {
        Ok(()) => Ok(()),
        Err(RenderError::Reconfigured) => Err("reconfigured"),
        Err(RenderError::Unavailable) => Err("unavailable"),
        Err(RenderError::Validation) => Err("validation"),
        Err(RenderError::MissingFrame) => Err("missing"),
        Err(RenderError::Storage(_)) => Err("storage"),
    };
    (p.reconfigure, outcome)
}

#[test]
fn acquire_plans() {
    assert_eq!(plan(SurfaceStatus::Success), (false, Ok(())));
    assert_eq!(plan(SurfaceStatus::Suboptimal), (true, Ok(())));
    assert_eq!(plan(SurfaceStatus::Lost), (true, Err("reconfigured")));
    assert_eq!(plan(SurfaceStatus::Outdated), (true, Err("reconfigured")));
    assert_eq!(plan(SurfaceStatus::Timeout), (false, Err("unavailable")));
    assert_eq!(plan(SurfaceStatus::Occluded), (false, Err("unavailable")));
    assert_eq!(plan(SurfaceStatus::Validation), (false, Err("validation")));
}

#[test]
fn frame_steps() {
    assert!(matches!(frame_step(Ok(())), FrameStep::Continue));
    assert!(matches!(frame_step(Err(RenderError::Reconfigured)), FrameStep::Skip));
    assert!(matches!(frame_step(Err(RenderError::Unavailable)), FrameStep::Skip));
    assert!(matches!(
        frame_step(Err(RenderError::Validation)),
        FrameStep::Fail(RenderError::Validation)
    ));
    assert!(matches!(
        frame_step(Err(RenderError::MissingFrame)),
        FrameStep::Fail(RenderError::MissingFrame)
    ));
}

#[test]
fn only_validation_stops_the_loop_after_acquire() {
    for s in [
        SurfaceStatus::Success,
        SurfaceStatus::Suboptimal,
        SurfaceStatus::Timeout,
        SurfaceStatus::Occluded,
        SurfaceStatus::Outdated,
        SurfaceStatus::Lost,
        SurfaceStatus::Validation,
    ] {
        let step = frame_step(plan_acquire(s).outcome);
        assert_eq!(matches!(step, FrameStep::Fail(_)), s == SurfaceStatus::Validation);
    }
}

#[test]
fn resize_ignores_zero_sizes() {
    assert_eq!(resized(800, 600), Some((800, 600)));
    assert_eq!(resized(0, 600), None);
    assert_eq!(resized(800, 0), None);
    assert_eq!(resized(0, 0), None);
}

#[test]
fn surface_plan_clamps_and_sets_vsync() {
    let p = plan_surface(0, 720, true);
    assert_eq!((p.width, p.height, p.no_vsync), (1, 720, false));
    let p = plan_surface(1280, 0, false);
    assert_eq!((p.width, p.height, p.no_vsync), (1280, 1, true));
}
