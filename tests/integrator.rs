use raytracer::integrator::{after_scatter, on_intersection, TraceStep, MAX_DEPTH};

#[test]
fn ray_that_misses_shows_background() {
    assert_eq!(on_intersection(0, false), TraceStep::Background);
    assert_eq!(on_intersection(MAX_DEPTH, false), TraceStep::Background);
}

#[test]
fn hit_below_depth_cap_scatters() {
    assert_eq!(on_intersection(0, true), TraceStep::Scatter);
    assert_eq!(on_intersection(49, true), TraceStep::Scatter);
}

#[test]
fn hit_at_depth_cap_is_black() {
    assert_eq!(on_intersection(50, true), TraceStep::Black);
    assert_eq!(on_intersection(51, true), TraceStep::Black);
}

#[test]
fn failed_scatter_absorbs_path() {
    assert_eq!(after_scatter(0, false), None);
    assert_eq!(after_scatter(49, false), None);
}

#[test]
fn successful_scatter_goes_one_bounce_deeper() {
    assert_eq!(after_scatter(0, true), Some(1));
    assert_eq!(after_scatter(49, true), Some(50));
}

#[test]
fn enclosed_camera_path_goes_black_at_depth_cap() {
    // Every ray hits the enclosing sphere and every scatter succeeds.
    let mut depth: u32 = 0;
    let mut steps: u32 = 0;
    loop {
        steps += 1;
        assert!(steps <= 100, "path did not end");
        match on_intersection(depth, true) {
            TraceStep::Scatter => depth = after_scatter(depth, true).unwrap(),
            TraceStep::Black => break,
            TraceStep::Background => panic!("enclosed path escaped"),
        }
    }
    assert_eq!(depth, 50);
    assert_eq!(steps, 51);
}
