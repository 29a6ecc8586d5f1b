use rlottie_core::parse::{color_from_unit, parse_path};
use rlottie_core::types::{PathCommand, Transform, Vec2Fx};

fn fx(v: f32) -> i32 {
    (v * 65536.0) as i32
}

#[test]
fn transform_default_animators() {
    let t = Transform::default();
    assert!(t.animators.is_empty());
    assert_eq!(t.scale, Vec2Fx { x: fx(1.0), y: fx(1.0) });
}

#[test]
fn transform_scalars_roundtrip_exact() {
    let t = Transform {
        anchor: Vec2Fx { x: fx(1.0), y: fx(2.0) },
        position: Vec2Fx { x: fx(-3.5), y: fx(4.25) },
        scale: Vec2Fx { x: fx(2.0), y: fx(0.5) },
        rotation: fx(45.0),
        opacity: fx(0.75),
        animators: vec![],
    };
    let enc = t.to_scalars();
    let back = Transform::from_scalars(&enc);
    assert_eq!(back.anchor, t.anchor);
    assert_eq!(back.position, t.position);
    assert_eq!(back.scale, t.scale);
    assert_eq!(back.rotation, t.rotation);
    assert_eq!(back.opacity, t.opacity);
    assert!(back.animators.is_empty());
}

#[test]
fn transform_scalars_roundtrip_through_json() {
    let t = Transform {
        anchor: Vec2Fx { x: fx(1.5), y: fx(2.25) },
        position: Vec2Fx { x: fx(-3.5), y: fx(4.0) },
        scale: Vec2Fx { x: fx(2.0), y: fx(0.5) },
        rotation: fx(90.0),
        opacity: fx(0.5),
        animators: vec![],
    };
    let enc = t.to_scalars();
    let floats: Vec<serde_json::Value> = enc
        .iter()
        .map(|&v| serde_json::Value::from(v as f64 / 65536.0))
        .collect();
    let text = serde_json::to_string(&serde_json::Value::Array(floats)).unwrap();
    let parsed: serde_json::Value = serde_json::from_str(&text).unwrap();
    let mut dec: Vec<i32> = Vec::new();
    for item in parsed.as_array().unwrap() {
        dec.push((item.as_f64().unwrap() * 65536.0) as i32);
    }
    let back = Transform::from_scalars(&dec);
    for (a, b) in t.to_scalars().iter().zip(back.to_scalars().iter()) {
        let (af, bf) = (*a as f64 / 65536.0, *b as f64 / 65536.0);
        if af.abs() > 1e-6 {
            assert!(((af - bf) / af).abs() < 1e-3);
        } else {
            assert!((af - bf).abs() < 1e-3);
        }
    }
}

#[test]
fn parse_path_basic() {
    let cmds = parse_path(b"m 1 2 l 3 4 c 1 1 2 2 3 3 o");
    assert_eq!(cmds.len(), 4);
    match &cmds[0] {
        PathCommand::MoveTo(p) => assert_eq!(*p, Vec2Fx { x: fx(1.0), y: fx(2.0) }),
        _ => panic!("expected move"),
    }
    match &cmds[1] {
        PathCommand::LineTo(p) => assert_eq!(*p, Vec2Fx { x: fx(3.0), y: fx(4.0) }),
        _ => panic!("expected line"),
    }
    match &cmds[3] {
        PathCommand::Close => {}
        _ => panic!("expected close"),
    }
}

#[test]
fn parse_path_skips_unknown_tokens() {
    let cmds = parse_path(b"zz m 1 2 qq l 3 4");
    assert_eq!(cmds.len(), 2);
}

#[test]
fn parse_path_decimals_round_to_fixed() {
    let cmds = parse_path(b"m 0.5 -2.25");
    match &cmds[0] {
        PathCommand::MoveTo(p) => {
            assert_eq!(p.x, 32768);
            assert_eq!(p.y, -147456);
        }
        _ => panic!("expected move"),
    }
}

#[test]
fn parse_path_exponent_forms() {
    let cmds = parse_path(b"m 1e3 -2.5e-1 l 5E0 1e");
    match &cmds[0] {
        PathCommand::MoveTo(p) => {
            assert_eq!(p.x, 1000 * 65536);
            assert_eq!(p.y, -16384);
        }
        _ => panic!("expected move"),
    }
    match &cmds[1] {
        PathCommand::LineTo(p) => {
            assert_eq!(p.x, 5 * 65536);
            // an exponent with no digits is not a number
            assert_eq!(p.y, 0);
        }
        _ => panic!("expected line"),
    }
}

#[test]
fn parse_path_huge_exponent_saturates() {
    let cmds = parse_path(b"m 1e40 -1e40");
    match &cmds[0] {
        PathCommand::MoveTo(p) => {
            assert_eq!(p.x, i32::MAX);
            assert_eq!(p.y, i32::MIN);
        }
        _ => panic!("expected move"),
    }
    let small = parse_path(b"m 1e-40 0");
    match &small[0] {
        PathCommand::MoveTo(p) => assert_eq!(p.x, 0),
        _ => panic!("expected move"),
    }
}

#[test]
fn parse_path_bad_number_reads_zero() {
    let cmds = parse_path(b"m abc 2");
    match &cmds[0] {
        PathCommand::MoveTo(p) => {
            assert_eq!(p.x, 0);
            assert_eq!(p.y, fx(2.0));
        }
        _ => panic!("expected move"),
    }
}

#[test]
fn color_quantization_floors() {
    let c = color_from_unit(65536, 32768, 0, 65536);
    assert_eq!(c.r, 255);
    assert_eq!(c.g, 127);
    assert_eq!(c.b, 0);
    assert_eq!(c.a, 255);
    let over = color_from_unit(2 * 65536, -65536, 65536, 65536);
    assert_eq!(over.r, 255);
    assert_eq!(over.g, 0);
}

#[test]
fn fixed_point_arithmetic_values() {
    assert_eq!(rlottie_core::fixed::fx_mul(fx(1.5) as i64, fx(2.0) as i64), fx(3.0) as i64);
    assert_eq!(rlottie_core::fixed::fx_div(fx(1.0) as i64, fx(4.0) as i64), fx(0.25) as i64);
    assert_eq!(rlottie_core::fixed::fx_div(fx(1.0) as i64, 0), 0);
    assert_eq!(rlottie_core::fixed::isqrt(144 << 32), 12 << 16);
}
