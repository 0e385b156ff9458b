use ferricast::double::Double;
use ferricast::render::{
    formats, frame_file, frame_location, gif_encoder, gif_file, is_complete, render_step,
    reported_progress, video_dimension_from_pipeline, Format, GifskiProgressBridge, PipelineSpec,
    RenderError, RenderMessage, RenderSettings, RenderStep, TrackCaps, TrackInfo,
};
use ferricast::screencast::CursorBitmap;

fn d(x: f64) -> Double {
    Double::from_bits(x.to_bits())
}

fn track(is_video: bool, caps: Option<(Option<i32>, Option<i32>)>) -> TrackInfo {
    TrackInfo {
        is_video,
        caps: caps.map(|(width, height)| TrackCaps { width, height }),
    }
}

#[test]
fn there_are_two_formats() {
    assert_eq!(formats(), vec!["MP4", "Gif"]);
    assert_eq!(Format::Mp4.extension(), "mp4");
    assert_eq!(Format::Gif.extension(), "gif");
    assert_eq!(Format::Mp4.pipeline_max_progress(), d(1.0));
    assert_eq!(Format::Gif.pipeline_max_progress(), d(0.5));
}

#[test]
fn settings_choose_a_format_and_a_stretch() {
    let whole = RenderSettings::default();
    assert_eq!(whole.format(), Format::Mp4);
    assert_eq!(whole.initial_name(), "export.mp4");
    assert!(whole.seek().is_none());
    let part = RenderSettings::new(1, d(2.5), None);
    assert_eq!(part.format(), Format::Gif);
    assert_eq!(part.format_position(), 1);
    assert_eq!(part.start_sec(), d(2.5));
    assert_eq!(part.end_sec(), None);
    assert_eq!(part.initial_name(), "export.gif");
    let seek = part.seek().unwrap();
    assert_eq!((seek.start_sec, seek.stop_sec), (d(2.5), None));
    let seek = RenderSettings::new(0, d(0.0), Some(d(4.0))).seek().unwrap();
    assert_eq!((seek.start_sec, seek.stop_sec), (d(0.0), Some(d(4.0))));
    assert!(RenderSettings::new(0, d(-1.0), None).seek().is_none());
    assert!(RenderSettings::new(0, d(f64::NAN), None).seek().is_none());
}

#[test]
fn an_end_at_the_end_is_no_end() {
    let chosen = |end: f64, duration| RenderSettings::chosen(0, d(0.0), d(end), duration).end_sec();
    assert_eq!(chosen(10.0, Some(d(10.0))), None);
    assert_eq!(chosen(9.5, Some(d(10.0))), Some(d(9.5)));
    assert_eq!(chosen(10.0, None), Some(d(10.0)));
}

#[test]
fn offered_settings_survive() {
    for end in [None, Some(d(3.0)), Some(d(12.0))] {
        let settings = RenderSettings::new(1, d(1.0), end);
        let offered = settings.offered_end(d(10.0));
        let chosen = RenderSettings::chosen(1, d(1.0), offered, Some(d(10.0)));
        assert_eq!(chosen.end_sec(), end);
    }
}

#[test]
fn messages_end_the_pipeline() {
    assert!(matches!(
        render_step(Format::Gif, RenderMessage::Eos),
        RenderStep::Finish(Some(progress)) if progress == d(0.5)
    ));
    assert!(matches!(
        render_step(Format::Mp4, RenderMessage::Eos),
        RenderStep::Finish(Some(progress)) if is_complete(progress)
    ));
    assert!(matches!(
        render_step(Format::Mp4, RenderMessage::Error),
        RenderStep::Finish(None)
    ));
    assert!(matches!(
        render_step(Format::Mp4, RenderMessage::Other),
        RenderStep::Proceed
    ));
    assert!(!is_complete(d(0.5)));
}

#[test]
fn progress_is_reported_before_the_end() {
    assert_eq!(reported_progress(Some(3), Some(4)), Some((3, 4)));
    assert_eq!(reported_progress(Some(4), Some(4)), None);
    assert_eq!(reported_progress(None, Some(4)), None);
    assert_eq!(reported_progress(Some(1), None), None);
}

#[test]
fn encoding_counts_its_frames() {
    let mut progress = GifskiProgressBridge::new(3);
    assert!(progress.increase());
    assert!(progress.increase());
    assert_eq!((progress.current, progress.total), (2, 3));
}

#[test]
fn frames_have_files_of_their_own() {
    assert_eq!(frame_file("/tmp/x/x", 7), "/tmp/x/x000007.png");
    assert_eq!(frame_file("f", 1_234_567), "f1234567.png");
    assert_ne!(frame_file("f", 1), frame_file("f", 10));
    assert_eq!(frame_location("/tmp/x/x"), "/tmp/x/x%06d.png");
    assert_eq!(gif_file("/home/a/export.gif"), "/home/a/export.gif");
    assert_eq!(gif_file("/home/a.b/export"), "/home/a.b/export.gif");
    assert_eq!(gif_file("export.v2.mp4"), "export.v2.gif");
}

#[test]
fn the_first_sized_picture_counts() {
    assert_eq!(video_dimension_from_pipeline(&None), (None, None));
    assert_eq!(video_dimension_from_pipeline(&Some(vec![])), (None, None));
    let tracks = vec![
        track(false, Some((Some(1), Some(2)))),
        track(true, None),
        track(true, Some((Some(3), None))),
        track(true, Some((None, Some(3)))),
        track(true, Some((Some(1920), Some(-1)))),
        track(true, Some((Some(7), Some(8)))),
    ];
    assert_eq!(
        video_dimension_from_pipeline(&Some(tracks)),
        (Some(1920), Some(u32::MAX))
    );
}

#[test]
fn pictures_that_are_too_large_are_refused() {
    assert_eq!(gif_encoder(Some(65_537), None).err(), Some(RenderError::PictureTooLarge));
    assert_eq!(gif_encoder(None, Some(65_537)).err(), Some(RenderError::PictureTooLarge));
    assert!(gif_encoder(Some(65_536), Some(65_536)).is_ok());
    assert!(gif_encoder(None, None).is_ok());
}

#[test]
fn the_encoder_writes_a_gif_of_the_given_size() {
    let pixels: Vec<u8> = (0..8 * 8 * 4)
        .map(|i| if i % 4 == 3 { 255 } else { i as u8 })
        .collect();
    let frame = CursorBitmap { width: 8, height: 8, pixels }.to_png().unwrap();
    let (collector, writer) = gif_encoder(Some(4), Some(4)).unwrap();
    collector.add_frame_png_data(0, frame, 0.0).unwrap();
    drop(collector);
    let mut gif: Vec<u8> = Vec::new();
    writer
        .write(&mut gif, &mut gifski::progress::NoProgress {})
        .unwrap();
    assert_eq!(&gif[..6], b"GIF89a");
    assert_eq!(&gif[6..10], &[4, 0, 4, 0]);
}
