use ferricast::double::Double;
use ferricast::zoom::{
    setup_zoom, show_keyframes, time_scale, unshow_keyframes, ResizeHandle, TimelineBounds, ZoomBase, ZoomCrop,
    ZoomEffect, ZoomKeyframe, ZoomProperty, LAST_MOMENT, NEW_ZOOM_NSEC, ZOOM_ANIMATION_NSEC,
};
use std::collections::BTreeMap;

const SEC: u64 = 1_000_000_000;

fn d(x: f64) -> Double {
    Double::from_bits(x.to_bits())
}

fn effect(start: u64, end: u64) -> ZoomEffect {
    ZoomEffect {
        factor: d(2.0),
        start_nsec: start,
        end_nsec: end,
        pos_x: d(0.5),
        pos_y: d(0.25),
    }
}

fn base() -> ZoomBase {
    ZoomBase {
        top: Some(d(0.0)),
        bottom: Some(d(0.0)),
        left: Some(d(0.0)),
        right: Some(d(0.0)),
    }
}

fn target() -> ZoomCrop {
    ZoomCrop {
        top: d(1.0),
        bottom: d(2.0),
        left: d(3.0),
        right: d(4.0),
    }
}

fn divide(width: Double, duration: u64) -> Double {
    d(f64::from_bits(width.to_bits()) / duration as f64)
}

fn place(start: u64, length: u64, scale: Double) -> TimelineBounds {
    let scale = f64::from_bits(scale.to_bits());
    let x = start as f64 * scale;
    let width = length as f64 * scale;
    TimelineBounds {
        left: d(x),
        left_handle_end: d(x + 10.0),
        right_handle_start: d(x + width - 10.0),
        right: d(x + width),
        width: d(width),
    }
}

fn apply(curves: &mut BTreeMap<(&'static str, u64), f64>, keyframes: &[ZoomKeyframe]) {
    for keyframe in keyframes {
        match keyframe {
            ZoomKeyframe::Put { property, time, value } => {
                curves.insert((property.name(), *time), f64::from_bits(value.to_bits()));
            }
            ZoomKeyframe::Remove { property, time } => {
                curves.remove(&(property.name(), *time));
            }
        }
    }
}

#[test]
fn animations_stay_within_the_recording() {
    assert_eq!(effect(3 * SEC, 5 * SEC).start_anim_nsec(), 2 * SEC);
    assert_eq!(effect(SEC, 5 * SEC).start_anim_nsec(), 0);
    assert_eq!(effect(0, 5 * SEC).start_anim_nsec(), 0);
    assert_eq!(effect(SEC + 1, 5 * SEC).start_anim_nsec(), 1);
    assert_eq!(effect(3 * SEC, 5 * SEC).end_anim_nsec(10 * SEC), 6 * SEC);
    assert_eq!(effect(3 * SEC, 5 * SEC).end_anim_nsec(6 * SEC), 6 * SEC);
    assert_eq!(effect(3 * SEC, 5 * SEC).end_anim_nsec(5 * SEC), 5 * SEC);
    assert_eq!(
        effect(3 * SEC, 5 * SEC).clocktimes(10 * SEC),
        (2 * SEC, 3 * SEC, 5 * SEC, 6 * SEC)
    );
}

#[test]
fn a_new_effect_lasts_two_seconds() {
    let zoom = ZoomEffect::at_position(7, d(1.5), d(0.5), d(0.75));
    assert_eq!((zoom.start_nsec, zoom.end_nsec), (7, 7 + NEW_ZOOM_NSEC));
    assert_eq!(NEW_ZOOM_NSEC, 2_000_000_000);
    assert_eq!((zoom.factor, zoom.pos_x, zoom.pos_y), (d(1.5), d(0.5), d(0.75)));
}

#[test]
fn effects_are_hit_between_their_animations() {
    let zoom = effect(3 * SEC, 5 * SEC);
    assert_eq!(ZOOM_ANIMATION_NSEC, SEC);
    let bounds = zoom.timeline_bounds(d(100.0), 10 * SEC, &divide, &place);
    assert_eq!((bounds.left, bounds.right), (d(20.0), d(60.0)));
    assert_eq!(bounds.width, d(40.0));
    for (x, hit) in [(19.9, false), (20.0, true), (60.0, true), (60.1, false)] {
        assert_eq!(zoom.timeline_contains(d(x), d(100.0), 10 * SEC, &divide, &place), hit);
    }
}

#[test]
fn handles_lie_at_the_edges() {
    let zoom = effect(3 * SEC, 5 * SEC);
    let cases = [
        (19.0, ResizeHandle::Neither),
        (20.0, ResizeHandle::Left),
        (30.0, ResizeHandle::Left),
        (30.5, ResizeHandle::Neither),
        (50.0, ResizeHandle::Right),
        (60.0, ResizeHandle::Right),
        (61.0, ResizeHandle::Neither),
        (f64::NAN, ResizeHandle::Neither),
    ];
    for (x, handle) in cases {
        let found = zoom.timeline_resize_handle_at(d(x), d(100.0), 10 * SEC, &divide, &place);
        assert_eq!(found, handle);
    }
    let found = zoom.timeline_resize_handle_at(d(5.0), d(10.0), 10 * SEC, &divide, &place);
    assert_eq!(found, ResizeHandle::Left);
}

#[test]
fn showing_an_effect_puts_four_keyframes_per_property() {
    let keyframes = show_keyframes(&effect(3 * SEC, 5 * SEC), 10 * SEC, &base(), &target());
    assert_eq!(keyframes.len(), 16);
    let put = |property, time, value| ZoomKeyframe::Put { property, time, value: d(value) };
    assert_eq!(
        keyframes[..4].to_vec(),
        vec![
            put(ZoomProperty::Top, 2 * SEC, 0.0),
            put(ZoomProperty::Top, 3 * SEC, 1.0),
            put(ZoomProperty::Top, 5 * SEC, 1.0),
            put(ZoomProperty::Top, 6 * SEC, 0.0),
        ]
    );
    assert_eq!(keyframes[5], put(ZoomProperty::Bottom, 3 * SEC, 2.0));
    assert_eq!(keyframes[9], put(ZoomProperty::Left, 3 * SEC, 3.0));
    assert_eq!(keyframes[13], put(ZoomProperty::Right, 3 * SEC, 4.0));
}

#[test]
fn a_keyframe_at_the_beginning_is_left_alone() {
    let shown = show_keyframes(&effect(SEC / 2, 5 * SEC), 10 * SEC, &base(), &target());
    assert_eq!(shown.len(), 12);
    let unshown = unshow_keyframes(&effect(SEC / 2, 5 * SEC), 10 * SEC);
    assert_eq!(unshown.len(), 12);
    assert!(!unshown.contains(&ZoomKeyframe::Remove { property: ZoomProperty::Top, time: 0 }));
}

#[test]
fn a_property_without_a_base_value_is_left_alone() {
    let base = ZoomBase { left: None, ..base() };
    let shown = show_keyframes(&effect(3 * SEC, 5 * SEC), 10 * SEC, &base, &target());
    assert_eq!(shown.len(), 12);
    assert!(shown.iter().all(|k| !matches!(
        k,
        ZoomKeyframe::Put { property: ZoomProperty::Left, .. }
    )));
}

#[test]
fn unshowing_undoes_showing() {
    let mut curves = BTreeMap::new();
    apply(&mut curves, &setup_zoom(Some(10 * SEC)));
    let before = curves.clone();
    let zoom = effect(3 * SEC, 5 * SEC);
    apply(&mut curves, &show_keyframes(&zoom, 10 * SEC, &base(), &target()));
    assert_eq!(curves[&("right", 4 * SEC - SEC)], 4.0);
    assert_ne!(curves, before);
    apply(&mut curves, &unshow_keyframes(&zoom, 10 * SEC));
    assert_eq!(curves, before);
}

#[test]
fn setting_up_pins_every_property_at_both_ends() {
    let keyframes = setup_zoom(Some(10 * SEC));
    assert_eq!(keyframes.len(), 8);
    assert_eq!(
        keyframes[..2].to_vec(),
        vec![
            ZoomKeyframe::Put { property: ZoomProperty::Top, time: 0, value: d(0.0) },
            ZoomKeyframe::Put { property: ZoomProperty::Top, time: 10 * SEC, value: d(0.0) },
        ]
    );
    assert_eq!(LAST_MOMENT, u64::MAX - 1);
    assert_eq!(
        setup_zoom(None)[1],
        ZoomKeyframe::Put { property: ZoomProperty::Top, time: u64::MAX - 1, value: d(0.0) }
    );
}

#[test]
fn properties_have_their_names() {
    let names = [ZoomProperty::Top, ZoomProperty::Bottom, ZoomProperty::Left, ZoomProperty::Right]
        .map(|p| p.name());
    assert_eq!(names, ["top", "bottom", "left", "right"]);
}

#[test]
fn a_timeline_without_a_length_has_no_scale() {
    assert_eq!(time_scale(d(100.0), 0, &divide), d(0.0));
    assert_eq!(time_scale(d(100.0), 50, &divide), d(2.0));
    let bounds = effect(0, 0).timeline_bounds_at_scale(d(2.0), 50, &place);
    assert_eq!((bounds.left, bounds.right), (d(0.0), d(100.0)));
}

#[test]
fn handles_lie_within_their_effect() {
    let zoom = effect(3 * SEC, 5 * SEC);
    for tenths in 0..1000 {
        let x = d(tenths as f64 / 10.0);
        if zoom.timeline_resize_handle_at(x, d(100.0), 10 * SEC, &divide, &place)
            != ResizeHandle::Neither
        {
            assert!(zoom.timeline_contains(x, d(100.0), 10 * SEC, &divide, &place));
        }
    }
}
