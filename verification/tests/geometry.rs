use firework::backend::Op;
use firework::geometry::{
    clamp_authored, mul_u32, saturate, Geometry, PixelGeometry, ScaleFactor,
};
use firework::moon_bridge::{LoopAction, LoopEvent, MoonBridge};
use firework::element::Color;
use firework::signals::create_signal;

#[test]
fn scaling_by_one_changes_nothing() {
    let one = ScaleFactor::identity();
    assert_eq!(one.per_mille, 1000);
    for g in [
        Geometry { x: 0, y: 0, width: 0, height: 0 },
        Geometry { x: 155, y: -7, width: 145, height: 200 },
        Geometry { x: i64::MAX, y: i64::MIN, width: u32::MAX, height: 1 },
    ] {
        assert_eq!(
            one.scale_geometry(g),
            PixelGeometry {
                x: g.x,
                y: g.y,
                width: u64::from(g.width),
                height: u64::from(g.height),
            }
        );
    }
}

#[test]
fn lengths_are_scaled_and_rounded_down() {
    let f = ScaleFactor::from_per_mille(2500);
    assert_eq!(f.scale_length(100), 250);
    assert_eq!(f.scale_length(3), 7);
    assert_eq!(f.scale_length(0), 0);
    assert_eq!(ScaleFactor::from_per_mille(1250).scale_length(145), 181);
    assert_eq!(ScaleFactor::from_per_mille(u32::MAX).scale_length(u32::MAX), 18446744065119617);
    assert_eq!(ScaleFactor::from_per_mille(0).scale_length(77), 0);
}

#[test]
fn coordinates_are_scaled_rounded_down_and_kept_in_range() {
    let f = ScaleFactor::from_per_mille(2500);
    assert_eq!(f.scale_coordinate(300), 750);
    assert_eq!(f.scale_coordinate(3), 7);
    assert_eq!(f.scale_coordinate(-3), -8);
    assert_eq!(f.scale_coordinate(-4), -10);
    assert_eq!(f.scale_coordinate(i64::MAX), i64::MAX);
    assert_eq!(f.scale_coordinate(i64::MIN), i64::MIN);
    assert_eq!(ScaleFactor::from_per_mille(500).scale_coordinate(i64::MIN), i64::MIN / 2);
}

#[test]
fn helpers_on_numbers() {
    assert_eq!(saturate(i128::from(i64::MAX) + 1), i64::MAX);
    assert_eq!(saturate(i128::from(i64::MIN) - 1), i64::MIN);
    assert_eq!(saturate(-12), -12);
    assert_eq!(clamp_authored(-5), 0);
    assert_eq!(clamp_authored(0), 0);
    assert_eq!(clamp_authored(i32::MAX), 2147483647);
    assert_eq!(mul_u32(u32::MAX, u32::MAX), 18446744065119617025);
}

#[test]
fn the_bridge_turns_logical_units_into_pixel_calls() {
    let bridge = MoonBridge::new(ScaleFactor::from_per_mille(2500));
    assert_eq!(bridge.config_position_dp(300, 200), Op::SetPosition { x: 750, y: 500 });
    assert_eq!(bridge.config_position_dp(-1, 1), Op::SetPosition { x: -3, y: 2 });
    assert_eq!(bridge.config_size_dp(100, 3), Op::SetSize { width: 250, height: 7 });
    assert_eq!(MoonBridge::with_fallback_scale().scale_factor.per_mille, 2500);
}

#[test]
fn the_bridge_keeps_the_scale_factor_it_is_given() {
    let mut bridge = MoonBridge::new(ScaleFactor::identity());
    bridge.set_scale_factor(ScaleFactor::from_per_mille(1750));
    assert_eq!(bridge.scale_factor, ScaleFactor { per_mille: 1750 });
    assert_eq!(bridge.config_size_dp(4, 8), Op::SetSize { width: 7, height: 14 });
}

#[test]
fn every_event_has_its_action() {
    let clear = Color { r: 100, g: 200, b: 300, a: 1000 };
    let mut bridge = MoonBridge::new(ScaleFactor::identity());
    assert_eq!(bridge.handle_event(LoopEvent::CloseRequested), LoopAction::Exit);
    assert_eq!(
        bridge.handle_event(LoopEvent::Resized { width: 640, height: 480 }),
        LoopAction::SetViewport { width: 640, height: 480 }
    );
    assert_eq!(bridge.handle_event(LoopEvent::AboutToWait), LoopAction::RenderFrame { clear });
    assert_eq!(bridge.handle_event(LoopEvent::Draw), LoopAction::DrawFrame { clear });
    assert_eq!(bridge.handle_event(LoopEvent::LoopExiting), LoopAction::ReleaseWindow);
    assert_eq!(bridge.handle_event(LoopEvent::Finished), LoopAction::Exit);
    assert_eq!(bridge.handle_event(LoopEvent::Other), LoopAction::Wait);
    assert_eq!(bridge.scale_factor, ScaleFactor::identity());

    let reported = ScaleFactor::from_per_mille(1500);
    assert_eq!(
        bridge.handle_event(LoopEvent::ScaleFactorChanged { scale_factor: reported }),
        LoopAction::Rebuild
    );
    assert_eq!(bridge.scale_factor, reported);
}

#[test]
fn a_signal_gives_back_its_first_value() {
    let (read, write) = create_signal(41u8);
    assert_eq!(read.get(), 41);
    write.set(42);
    assert_eq!(read.get(), 41);
    let copy = read;
    assert_eq!(copy.get(), 41);
}
