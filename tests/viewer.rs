use renderkit::viewer::{change_fractal, FractalKind, ViewerAction, ViewerKey, ViewerState};

#[test]
fn fractals_cycle() {
    assert_eq!(change_fractal(FractalKind::Empty), FractalKind::Mandelbrot);
    assert_eq!(change_fractal(FractalKind::Mandelbrot), FractalKind::Julia);
    assert_eq!(change_fractal(FractalKind::Julia), FractalKind::SierpinskiTriangle);
    assert_eq!(change_fractal(FractalKind::SierpinskiTriangle), FractalKind::Mandelbrot);
}

#[test]
fn viewer_starts_running_on_mandelbrot() {
    let v = ViewerState::new();
    assert!(v.run);
    assert_eq!(v.steps, 0);
    assert_eq!(v.kind, FractalKind::Mandelbrot);
}

#[test]
fn space_toggles_the_animation() {
    let mut v = ViewerState::new();
    assert_eq!(v.event(ViewerKey::Space), ViewerAction::Nothing);
    assert!(!v.run);
    v.event(ViewerKey::Space);
    assert!(v.run);
}

#[test]
fn r_rebuilds_and_c_changes() {
    let mut v = ViewerState::new();
    v.steps = 7;
    assert_eq!(v.event(ViewerKey::R), ViewerAction::Rebuild(FractalKind::Mandelbrot));
    assert_eq!(v.steps, 0);
    v.steps = 3;
    assert_eq!(v.event(ViewerKey::C), ViewerAction::Rebuild(FractalKind::Julia));
    assert_eq!(v.kind, FractalKind::Julia);
    assert_eq!(v.steps, 0);
}

#[test]
fn arrows_and_zoom_move_escape_time_views() {
    let mut v = ViewerState::new();
    assert_eq!(v.event(ViewerKey::Left), ViewerAction::Pan(1, 0));
    assert_eq!(v.event(ViewerKey::Right), ViewerAction::Pan(-1, 0));
    assert_eq!(v.event(ViewerKey::Up), ViewerAction::Pan(0, 1));
    assert_eq!(v.event(ViewerKey::Down), ViewerAction::Pan(0, -1));
    assert_eq!(v.event(ViewerKey::Z), ViewerAction::Zoom(1));
    assert_eq!(v.event(ViewerKey::X), ViewerAction::Zoom(-1));
    assert_eq!(v.event(ViewerKey::Other), ViewerAction::Nothing);
}

#[test]
fn sierpinski_view_does_not_move() {
    let mut v = ViewerState { run: true, steps: 2, kind: FractalKind::SierpinskiTriangle };
    assert_eq!(v.event(ViewerKey::Left), ViewerAction::Nothing);
    assert_eq!(v.event(ViewerKey::Z), ViewerAction::Nothing);
    assert_eq!(v.steps, 2);
    assert_eq!(v.kind, FractalKind::SierpinskiTriangle);
}
