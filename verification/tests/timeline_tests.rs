use rlottie_core::timeline::{Animator, CubicBezier, Keyframe};
use rlottie_core::types::Vec2Fx;

fn fx(v: f32) -> i32 {
    (v * 65536.0) as i32
}

fn pt(x: f32, y: f32) -> Vec2Fx {
    Vec2Fx { x: fx(x), y: fx(y) }
}

fn frame(v: f32) -> i64 {
    (v * 65536.0) as i64
}

#[test]
fn create_keyframe() {
    let kf = Keyframe {
        start: 0,
        end: 10,
        start_v: fx(1.0),
        end_v: fx(2.0),
        ease: CubicBezier::new(pt(0.0, 0.0), pt(1.0, 1.0)),
    };
    assert_eq!(kf.start, 0);
    assert_eq!(kf.end, 10);
}

#[test]
fn bezier_value_matches_cpp() {
    let bez = CubicBezier::new(pt(0.42, 0.0), pt(0.58, 1.0));
    let v = bez.value(fx(0.25)) as f32 / 65536.0;
    assert!((v - 0.129162).abs() < 0.0001);
}

#[test]
fn bezier_endpoints_are_exact() {
    let bez = CubicBezier::new(pt(0.42, 0.0), pt(0.58, 1.0));
    assert_eq!(bez.value(0), 0);
    assert_eq!(bez.value(65536), 65536);
}

#[test]
fn bezier_diagonal_curve_is_identity() {
    let bez = CubicBezier::new(pt(0.3, 0.3), pt(0.8, 0.8));
    assert_eq!(bez.value(fx(0.37)), fx(0.37));
    assert_eq!(bez.value(fx(0.99)), fx(0.99));
}

#[test]
fn keyframe_sample() {
    let kf = Keyframe {
        start: 0,
        end: 10,
        start_v: fx(0.0),
        end_v: fx(1.0),
        ease: CubicBezier::new(pt(0.42, 0.0), pt(0.58, 1.0)),
    };
    let v = kf.sample(frame(2.5)) as f32 / 65536.0;
    assert!((v - 0.129162).abs() < 0.0001);
}

#[test]
fn animator_value() {
    let kf = Keyframe {
        start: 0,
        end: 10,
        start_v: fx(0.0),
        end_v: fx(1.0),
        ease: CubicBezier::new(pt(0.42, 0.0), pt(0.58, 1.0)),
    };
    let anim = Animator { frames: vec![kf.clone()] };
    let v = anim.value(frame(2.5)) as f32 / 65536.0;
    assert!((v - 0.129162).abs() < 0.0001);
    assert_eq!(anim.value(frame(-1.0)), 0);
    assert_eq!(anim.value(frame(20.0)), fx(1.0));
}

#[test]
fn animator_empty_yields_default() {
    let anim: Animator<i32> = Animator { frames: vec![] };
    assert_eq!(anim.value(frame(3.0)), 0);
}

#[test]
fn animator_gap_yields_default() {
    let ease = CubicBezier::new(pt(0.0, 0.0), pt(1.0, 1.0));
    let a = Keyframe { start: 0, end: 10, start_v: fx(1.0), end_v: fx(2.0), ease: ease.clone() };
    let b = Keyframe { start: 20, end: 30, start_v: fx(5.0), end_v: fx(6.0), ease };
    let anim = Animator { frames: vec![a, b] };
    assert_eq!(anim.value(frame(15.0)), 0);
    assert_eq!(anim.value(frame(25.0)), fx(5.5));
}

#[test]
fn vector_lerp_is_componentwise() {
    let ease = CubicBezier::new(pt(0.0, 0.0), pt(1.0, 1.0));
    let kf = Keyframe {
        start: 0,
        end: 10,
        start_v: pt(0.0, 0.0),
        end_v: pt(4.0, 8.0),
        ease,
    };
    let v = kf.sample(frame(5.0));
    assert_eq!(v, pt(2.0, 4.0));
}
