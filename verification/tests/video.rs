use ferricast::cursor::{CursorEntry, CursorFile};
use ferricast::double::Double;
use ferricast::video::{
    initial_cursor_size, scaled_cursor_size, CursorKeyframe, CursorLayer, CursorSetup, Fraction,
    Video, VideoError,
};
use ferricast::zoom::{ZoomBase, ZoomCrop, ZoomEffect, ZoomKeyframe};
use std::collections::BTreeMap;

const SEC: u64 = 1_000_000_000;

fn d(x: f64) -> Double {
    Double::from_bits(x.to_bits())
}

fn f(x: Double) -> f64 {
    f64::from_bits(x.to_bits())
}

fn video() -> Video {
    Video::new(
        "/tmp/recording_1.mkv".to_string(),
        1920,
        1080,
        Fraction { numer: 30, denom: 1 },
        Some(10 * SEC),
    )
}

fn effect(start: u64, end: u64) -> ZoomEffect {
    ZoomEffect {
        factor: d(2.0),
        start_nsec: start,
        end_nsec: end,
        pos_x: d(0.5),
        pos_y: d(0.5),
    }
}

fn base() -> ZoomBase {
    ZoomBase {
        top: Some(d(0.0)),
        bottom: Some(d(0.0)),
        left: Some(d(0.0)),
        right: Some(d(0.0)),
    }
}

fn crop() -> ZoomCrop {
    ZoomCrop {
        top: d(1.0),
        bottom: d(2.0),
        left: d(3.0),
        right: d(4.0),
    }
}

fn cursor_data(samples: &[(u64, i32, i32, Option<u64>)]) -> Vec<u8> {
    let mut file = CursorFile::new();
    let mut data: Vec<u8> = Vec::new();
    let mut now = 1000u128;
    for (pts, x, y, hash) in samples {
        data.extend(file.write(now, *pts, *x, *y, *hash).unwrap());
        now += 16;
    }
    data
}

fn flat_distance(p: CursorEntry, a: CursorEntry, b: CursorEntry) -> Double {
    let middle = (f(a.y) + f(b.y)) / 2.0;
    d((f(p.y) - middle).abs())
}

fn first_sample(
    _p0: CursorEntry,
    p1: CursorEntry,
    _p2: CursorEntry,
    _p3: CursorEntry,
    time: Double,
) -> (Double, Double) {
    (p1.x, time)
}

#[test]
fn a_new_recording_has_its_defaults() {
    let video = video();
    assert_eq!(video.recording_file(), "/tmp/recording_1.mkv");
    assert_eq!(video.duration(), Some(10 * SEC));
    assert_eq!(video.duration_nsec(), 10 * SEC);
    assert_eq!(video.cursor_smoothing(), d(50.0));
    assert!(video.cursor_show());
    assert_eq!(video.framerate(), Some(Fraction { numer: 30, denom: 1 }));
    assert!(video.zoom_effects().is_empty());
    let unknown = Video { video_duration: None, ..video };
    assert_eq!(unknown.duration_nsec(), 0);
}

#[test]
fn removing_an_added_effect_takes_it_back() {
    let mut video = video();
    let shown = video.add_zoom(effect(3 * SEC, 5 * SEC), &base(), &crop());
    assert_eq!(shown.len(), 16);
    assert_eq!(video.zoom_effects().len(), 1);
    assert_eq!(video.zoom_effect(0).unwrap().start_nsec, 3 * SEC);
    assert!(video.zoom_effect(1).is_none());
    let removed = video.remove_zoom(0).unwrap();
    assert_eq!(removed.len(), 16);
    assert!(removed.iter().all(|k| matches!(k, ZoomKeyframe::Remove { .. })));
    assert!(video.zoom_effects().is_empty());
}

#[test]
fn unknown_effects_are_refused() {
    let mut video = video();
    let error = video.remove_zoom(4).unwrap_err();
    assert_eq!(error, VideoError::UnknownZoom(4));
    assert_eq!(error.message(), "cant find zoom with id 4");
    assert_eq!(
        video.update_zoom_range(2, 0, 1).unwrap_err(),
        VideoError::UnknownZoom(2)
    );
    assert_eq!(
        video
            .update_zoom_geometry(0, d(1.0), d(0.0), d(0.0), &base(), &crop())
            .unwrap_err(),
        VideoError::UnknownZoom(0)
    );
    assert!(video.show_zoom_effect(0, &base(), &crop()).is_none());
    assert!(video.zoom_effect_mut(0).is_none());
}

#[test]
fn geometry_changes_keep_the_range() {
    let mut video = video();
    video.add_zoom(effect(3 * SEC, 5 * SEC), &base(), &crop());
    let shown = video
        .update_zoom_geometry(0, d(1.25), d(0.1), d(0.9), &base(), &crop())
        .unwrap();
    assert_eq!(shown.len(), 16);
    let zoom = video.zoom_effect(0).unwrap();
    assert_eq!((zoom.factor, zoom.pos_x, zoom.pos_y), (d(1.25), d(0.1), d(0.9)));
    assert_eq!((zoom.start_nsec, zoom.end_nsec), (3 * SEC, 5 * SEC));
}

#[test]
fn a_changed_range_is_taken_back_first() {
    let mut video = video();
    video.add_zoom(effect(3 * SEC, 5 * SEC), &base(), &crop());
    assert!(video.update_zoom_range(0, 3 * SEC, 5 * SEC).unwrap().is_none());
    video.zoom_effect_mut(0).unwrap().start_nsec = 4 * SEC;
    let unshown = video.update_zoom_range(0, 3 * SEC, 5 * SEC).unwrap().unwrap();
    let times: Vec<u64> = unshown
        .iter()
        .take(4)
        .map(|k| match k {
            ZoomKeyframe::Remove { time, .. } => *time,
            ZoomKeyframe::Put { .. } => panic!("nothing is put"),
        })
        .collect();
    assert_eq!(times, vec![2 * SEC, 3 * SEC, 5 * SEC, 6 * SEC]);
    assert_eq!(video.show_zoom_effect(0, &base(), &crop()).unwrap().len(), 16);
    assert_eq!(video.show_zoom(&effect(0, SEC), &base(), &crop()).len(), 12);
    assert_eq!(video.unshow_zoom(&effect(0, SEC)).len(), 12);
}

#[test]
fn a_missing_cursor_file_switches_the_cursor_off() {
    let mut video = video();
    match video.setup_cursor(None) {
        CursorSetup::Missing(plan) => {
            assert_eq!(plan.video_priority, Some(0));
            assert!(plan.keyframes.is_empty());
        }
        other => panic!("{other:?}"),
    }
    assert!(!video.cursor_show());
    assert!(!video.cursor_enabled);
}

#[test]
fn layers_are_made_for_the_images_in_the_file() {
    let data = cursor_data(&[(0, 1, 2, Some(7)), (10, 3, 4, Some(8)), (20, 5, 6, Some(7))]);
    let mut video = video();
    match video.setup_cursor(Some(&data)) {
        CursorSetup::Layers(layers) => assert_eq!(
            layers,
            vec![
                CursorLayer { priority: 0, hash: 7 },
                CursorLayer { priority: 1, hash: 8 }
            ]
        ),
        other => panic!("{other:?}"),
    }
    assert_eq!(video.cursor_entries.len(), 3);
    assert_eq!(video.cursor_entries[2].x, d(5.0));
    video.cursor_enabled = false;
    assert!(matches!(video.setup_cursor(Some(&data)), CursorSetup::Disabled));
}

#[test]
fn the_visible_image_follows_the_samples() {
    let mut video = video();
    let data = cursor_data(&[
        (0, 0, 0, None),
        (10, 0, 0, Some(7)),
        (20, 0, 0, Some(7)),
        (30, 0, 0, Some(8)),
        (40, 0, 0, Some(99)),
        (50, 0, 0, Some(8)),
        (60, 0, 0, Some(7)),
    ]);
    video.setup_cursor(Some(&data));
    video.add_cursor_layer(7);
    video.add_cursor_layer(8);
    video.add_cursor_layer(7);
    assert_eq!(video.cursor_types, vec![7, 8]);
    assert_eq!(
        video.update_cursor_types(),
        vec![
            CursorKeyframe::Hide { hash: 7, time: 0 },
            CursorKeyframe::Hide { hash: 8, time: 0 },
            CursorKeyframe::Show { hash: 7, time: 10 },
            CursorKeyframe::Hide { hash: 7, time: 30 },
            CursorKeyframe::Show { hash: 8, time: 30 },
            CursorKeyframe::Hide { hash: 8, time: 40 },
            CursorKeyframe::Hide { hash: 8, time: 60 },
            CursorKeyframe::Show { hash: 7, time: 60 },
        ]
    );
}

#[test]
fn hiding_the_cursor_clears_every_image() {
    let mut video = video();
    video.add_cursor_layer(7);
    video.add_cursor_layer(8);
    let plan = video.set_cursor_show(false);
    assert_eq!(plan.video_priority, None);
    assert_eq!(
        plan.keyframes,
        vec![
            CursorKeyframe::Clear { hash: 7 },
            CursorKeyframe::Hide { hash: 7, time: 0 },
            CursorKeyframe::Clear { hash: 8 },
            CursorKeyframe::Hide { hash: 8, time: 0 },
        ]
    );
    assert!(!video.cursor_show());
    assert!(video.cursor_enabled);
    let plan = video.set_cursor_enabled(true);
    assert_eq!(plan.video_priority, Some(100));
    assert_eq!(plan.keyframes.len(), 2);
    assert!(video.cursor_show());
}

#[test]
fn smoothing_chooses_the_samples_of_the_path() {
    let mut video = video();
    let data = cursor_data(&[
        (0, 0, 0, None),
        (10, 0, 0, None),
        (20, 0, 90, None),
        (30, 0, 0, None),
        (40, 0, 0, None),
    ]);
    video.setup_cursor(Some(&data));
    video.update_cursor_smoothing(&flat_distance);
    assert_eq!(video.cursor_used_entries, vec![0, 2, 4]);
    video.set_cursor_smoothing(d(200.0), &flat_distance);
    assert_eq!(video.cursor_used_entries, vec![0, 4]);
    assert_eq!(video.cursor_smoothing(), d(200.0));
}

#[test]
fn the_cursor_is_drawn_in_every_whole_frame() {
    let mut video = Video { video_duration: Some(105), ..video() };
    let data = cursor_data(&[(0, 5, 0, Some(1)), (50, 6, 0, None), (90, 7, 0, None)]);
    video.setup_cursor(Some(&data));
    video.update_cursor_smoothing(&flat_distance);
    assert!(video.redraw_cursor(20, &first_sample).is_empty());
    video.add_cursor_layer(1);
    let frames = video.redraw_cursor(20, &first_sample);
    let times: Vec<u64> = frames.iter().map(|frame| frame.time).collect();
    assert_eq!(times, vec![0, 20, 40, 60, 80]);
    assert!(frames.iter().all(|frame| frame.time + 20 <= 105));
    assert_eq!(frames[1].y, d(20.0));
    assert_eq!(frames[1].x, d(5.0));
    video.cursor_enabled = false;
    assert!(video.redraw_cursor(20, &first_sample).is_empty());
    let endless = Video { video_duration: None, cursor_enabled: true, ..video };
    assert!(endless.redraw_cursor(20, &first_sample).is_empty());
}

#[test]
fn cursor_images_are_scaled() {
    assert_eq!(initial_cursor_size(24, 32), (72, 96));
    assert_eq!(initial_cursor_size(u32::MAX, 0), (3 * u32::MAX as u64, 0));
    assert_eq!(scaled_cursor_size(24, 5), (120, 120));
}

type Curves = BTreeMap<(u64, u64), bool>;

fn fade(curves: &mut Curves, keyframes: &[CursorKeyframe]) {
    for keyframe in keyframes {
        match *keyframe {
            CursorKeyframe::Clear { hash } => curves.retain(|key, _| key.0 != hash),
            CursorKeyframe::Hide { hash, time } => {
                curves.insert((hash, time), false);
            }
            CursorKeyframe::Show { hash, time } => {
                curves.insert((hash, time), true);
            }
        }
    }
}

fn visible_images(curves: &Curves, time: u64) -> Vec<u64> {
    [7u64, 8, 9]
        .into_iter()
        .filter(|hash| {
            let last = curves.range((*hash, 0)..=(*hash, time)).next_back();
            last.is_some_and(|(_, shown)| *shown)
        })
        .collect()
}

#[test]
fn exactly_the_last_image_is_visible() {
    let samples = [
        (5, 0, 0, None),
        (10, 0, 0, Some(7)),
        (20, 0, 0, Some(8)),
        (20, 0, 0, Some(9)),
        (30, 0, 0, None),
        (40, 0, 0, Some(7)),
    ];
    let mut video = video();
    video.setup_cursor(Some(&cursor_data(&samples)));
    for hash in [7, 8, 9] {
        video.add_cursor_layer(hash);
    }
    let mut curves = Curves::new();
    fade(&mut curves, &video.set_cursor_show(true).keyframes);
    for time in 0..60 {
        let last = samples
            .iter()
            .filter(|sample| sample.0 <= time)
            .filter_map(|sample| sample.3)
            .next_back();
        let expected: Vec<u64> = last.into_iter().collect();
        assert_eq!(visible_images(&curves, time), expected);
    }
    fade(&mut curves, &video.set_cursor_show(false).keyframes);
    for time in 0..60 {
        assert!(visible_images(&curves, time).is_empty());
    }
    fade(&mut curves, &video.set_cursor_show(true).keyframes);
    assert_eq!(visible_images(&curves, 25), vec![9]);
}

#[test]
fn more_smoothing_keeps_fewer_samples() {
    let samples: Vec<(u64, i32, i32, Option<u64>)> = (0..40)
        .map(|i| (10 * i, 0, ((i * i * 37) % 101) as i32, None))
        .collect();
    let mut video = video();
    video.setup_cursor(Some(&cursor_data(&samples)));
    video.set_cursor_smoothing(d(5.0), &flat_distance);
    let rough = video.cursor_used_entries.clone();
    video.set_cursor_smoothing(d(30.0), &flat_distance);
    let smooth = video.cursor_used_entries.clone();
    assert!(smooth.iter().all(|i| rough.contains(i)));
    assert_eq!((smooth[0], smooth[smooth.len() - 1]), (0, 39));
    assert!(smooth.windows(2).all(|w| w[0] < w[1]));
    video.set_cursor_smoothing(d(5.0), &flat_distance);
    assert_eq!(video.cursor_used_entries, rough);
}
