use ferricast::double::Double;
use ferricast::timeline::{
    click_moves_playhead, drag_begin, drag_end, drag_update, find_effect_at,
    find_resize_handle_at, hover_cursor, snapshot, timeline_layout, DragState, PointerShape,
};
use ferricast::video::{Fraction, Video, VideoError};
use ferricast::zoom::{ResizeHandle, TimelineBounds, ZoomEffect};

const SEC: u64 = 1_000_000_000;

fn d(x: f64) -> Double {
    Double::from_bits(x.to_bits())
}

fn effect(start: u64, end: u64) -> ZoomEffect {
    ZoomEffect {
        factor: d(2.0),
        start_nsec: start,
        end_nsec: end,
        pos_x: d(0.5),
        pos_y: d(0.5),
    }
}

fn effects() -> Vec<ZoomEffect> {
    vec![effect(2 * SEC, 4 * SEC), effect(7 * SEC, 8 * SEC)]
}

fn video() -> Video {
    let mut video = Video::new(
        "recording.mkv".to_string(),
        1920,
        1080,
        Fraction { numer: 30, denom: 1 },
        Some(10 * SEC),
    );
    video.zoom_effects = effects();
    video
}

fn place(start: u64, length: u64, scale: Double) -> TimelineBounds {
    let scale = f64::from_bits(scale.to_bits());
    let x = start as f64 * scale;
    let width = length as f64 * scale;
    TimelineBounds {
        left: d(x),
        left_handle_end: d(x + 10.0),
        right_handle_start: d(x + width - 10.0),
        right: d(x + width),
        width: d(width),
    }
}

/// Ten pixels a second.
fn scale() -> Double {
    d(1e-8)
}

fn layout() -> Vec<TimelineBounds> {
    timeline_layout(&effects(), scale(), 10 * SEC, &place)
}

fn held(handle: ResizeHandle) -> DragState {
    DragState {
        effect_id: 0,
        handle,
        original_start_nsec: 2 * SEC,
        original_end_nsec: 4 * SEC,
    }
}

fn dragged(handle: ResizeHandle, delta: i64) -> (u64, u64) {
    let mut video = video();
    drag_update(&Some(held(handle)), &mut video, d(100.0), delta);
    assert_eq!(video.zoom_effects[1].start_nsec, 7 * SEC);
    (video.zoom_effects[0].start_nsec, video.zoom_effects[0].end_nsec)
}

#[test]
fn effects_are_laid_out_with_their_animations() {
    let layout = layout();
    assert_eq!((layout[0].left, layout[0].right), (d(10.0), d(50.0)));
    assert_eq!((layout[1].left, layout[1].right), (d(60.0), d(90.0)));
}

#[test]
fn the_first_effect_at_a_place_is_found() {
    assert_eq!(find_effect_at(&layout(), d(30.0)), Some(0));
    assert_eq!(find_effect_at(&layout(), d(55.0)), None);
    assert_eq!(find_effect_at(&layout(), d(60.0)), Some(1));
    let overlapping = timeline_layout(&vec![effect(2 * SEC, 4 * SEC); 2], scale(), 10 * SEC, &place);
    assert_eq!(find_effect_at(&overlapping, d(30.0)), Some(0));
}

#[test]
fn the_first_handle_at_a_place_is_found() {
    let found = |x| find_resize_handle_at(&effects(), &layout(), d(x));
    let (id, zoom, handle) = found(12.0).unwrap();
    assert_eq!((id, zoom.start_nsec, handle), (0, 2 * SEC, ResizeHandle::Left));
    let (id, zoom, handle) = found(85.0).unwrap();
    assert_eq!((id, zoom.start_nsec, handle), (1, 7 * SEC, ResizeHandle::Right));
    assert!(found(30.0).is_none());
    assert!(click_moves_playhead(&effects(), &layout(), d(30.0)));
    assert!(!click_moves_playhead(&effects(), &layout(), d(12.0)));
}

#[test]
fn the_pointer_shows_handles_unless_one_is_held() {
    let shape = |drag, x| hover_cursor(&drag, &effects(), &layout(), d(x));
    assert_eq!(shape(None, 12.0), PointerShape::Resize);
    assert_eq!(shape(None, 30.0), PointerShape::Usual);
    assert_eq!(shape(Some(held(ResizeHandle::Left)), 30.0), PointerShape::Keep);
}

#[test]
fn the_timeline_shows_effects_and_the_playhead() {
    let drawing = snapshot(&effects(), &layout(), 3 * SEC, 10 * SEC);
    assert_eq!(drawing.playhead, Some(3 * SEC));
    assert_eq!(drawing.effects.len(), 2);
    assert!(drawing.effects[0].labelled);
    assert_eq!(drawing.effects[1].effect.start_nsec, 7 * SEC);
    assert_eq!(snapshot(&effects(), &layout(), 0, 10 * SEC).playhead, None);
    assert_eq!(snapshot(&effects(), &layout(), 10 * SEC, 10 * SEC).playhead, Some(10 * SEC));
    assert_eq!(snapshot(&effects(), &layout(), 10 * SEC + 1, 10 * SEC).playhead, None);
    let narrow = |width: f64| {
        let bounds = TimelineBounds { width: d(width), ..layout()[0] };
        snapshot(&vec![effects()[0]], &vec![bounds], 0, 0).effects[0].labelled
    };
    assert!(!narrow(25.0));
    assert!(narrow(25.5));
    assert!(!narrow(f64::NAN));
}

#[test]
fn a_drag_remembers_the_range() {
    let mut drag = None;
    drag_begin(&mut drag, None);
    assert!(drag.is_none());
    drag_begin(&mut drag, find_resize_handle_at(&effects(), &layout(), d(12.0)));
    assert_eq!(drag, Some(held(ResizeHandle::Left)));
    drag_begin(&mut drag, None);
    assert_eq!(drag, Some(held(ResizeHandle::Left)));
}

#[test]
fn the_left_edge_stays_in_its_bounds() {
    let second = SEC as i64;
    assert_eq!(dragged(ResizeHandle::Left, second), (3 * SEC, 4 * SEC));
    assert_eq!(dragged(ResizeHandle::Left, -second / 2), (3 * SEC / 2, 4 * SEC));
    assert_eq!(dragged(ResizeHandle::Left, -second), (SEC, 4 * SEC));
    assert_eq!(dragged(ResizeHandle::Left, -second - second / 2), (SEC, 4 * SEC));
    assert_eq!(dragged(ResizeHandle::Left, 2 * second), (4 * SEC, 4 * SEC));
    assert_eq!(dragged(ResizeHandle::Left, 5 * second), (4 * SEC, 4 * SEC));
    // before the recording, the moment wraps to a very late one
    assert_eq!(dragged(ResizeHandle::Left, -3 * second), (4 * SEC, 4 * SEC));
}

#[test]
fn the_right_edge_stays_in_its_bounds() {
    let second = SEC as i64;
    assert_eq!(dragged(ResizeHandle::Right, second), (2 * SEC, 5 * SEC));
    assert_eq!(dragged(ResizeHandle::Right, -second), (2 * SEC, 3 * SEC));
    assert_eq!(dragged(ResizeHandle::Right, -2 * second), (2 * SEC, 2 * SEC));
    assert_eq!(dragged(ResizeHandle::Right, -9 * second), (2 * SEC, 2 * SEC));
    assert_eq!(dragged(ResizeHandle::Right, 5 * second), (2 * SEC, 9 * SEC));
    assert_eq!(dragged(ResizeHandle::Right, 50 * second), (2 * SEC, 9 * SEC));
    assert_eq!(dragged(ResizeHandle::Neither, second), (2 * SEC, 4 * SEC));
}

#[test]
fn nothing_moves_without_width_length_or_handle() {
    let unchanged = |video: &Video| {
        assert_eq!(video.zoom_effects[0].start_nsec, 2 * SEC);
        assert_eq!(video.zoom_effects[0].end_nsec, 4 * SEC);
    };
    let mut video = video();
    let held_left = Some(held(ResizeHandle::Left));
    drag_update(&held_left, &mut video, d(0.0), SEC as i64);
    unchanged(&video);
    drag_update(&None, &mut video, d(100.0), SEC as i64);
    unchanged(&video);
    let unknown = Some(DragState { effect_id: 9, ..held(ResizeHandle::Left) });
    drag_update(&unknown, &mut video, d(100.0), SEC as i64);
    unchanged(&video);
    video.video_duration = Some(0);
    drag_update(&held_left, &mut video, d(100.0), SEC as i64);
    unchanged(&video);
}

#[test]
fn a_drag_forgets_its_way() {
    let mut video = video();
    let drag = Some(held(ResizeHandle::Left));
    drag_update(&drag, &mut video, d(100.0), 900 * SEC as i64);
    drag_update(&drag, &mut video, d(100.0), SEC as i64);
    assert_eq!(video.zoom_effects[0].start_nsec, 3 * SEC);
    drag_update(&drag, &mut video, d(100.0), 0);
    assert_eq!(video.zoom_effects[0].start_nsec, 2 * SEC);
}

#[test]
fn the_end_of_a_drag_takes_the_old_range_back() {
    let mut video = video();
    let mut drag = Some(held(ResizeHandle::Left));
    assert!(drag_end(&mut drag, &video).unwrap().unwrap().is_none());
    assert!(drag.is_none());
    assert!(drag_end(&mut drag, &video).is_none());
    drag = Some(held(ResizeHandle::Left));
    drag_update(&drag, &mut video, d(100.0), SEC as i64);
    assert_eq!(drag_end(&mut drag, &video).unwrap().unwrap().unwrap().len(), 16);
    drag = Some(DragState { effect_id: 9, ..held(ResizeHandle::Left) });
    assert_eq!(
        drag_end(&mut drag, &video).unwrap().unwrap_err(),
        VideoError::UnknownZoom(9)
    );
    assert!(drag.is_none());
}
