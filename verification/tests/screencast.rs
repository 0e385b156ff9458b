use ferricast::cursor::{read_cursor_entries, CursorFile};
use ferricast::screencast::{
    bitmap_bytes, hash_pixels, loop_goes_on, loop_step, makes_pipeline, stops_recording,
    BufferScan, BusMessage, CursorBitmap, LoopStep, MediaFormat, Meta, Received, Recorder,
    RecorderError, StreamState,
};

fn bitmap(seed: u8) -> CursorBitmap {
    CursorBitmap {
        width: 2,
        height: 3,
        pixels: (0..24).map(|i| seed.wrapping_add(i * 7)).collect(),
    }
}

fn cursor_meta(x: i32, y: i32, bitmap: Option<CursorBitmap>) -> Meta {
    Meta::Cursor { x, y, bitmap }
}

fn found(pts: u64, cursor: Option<(i32, i32)>) -> BufferScan {
    BufferScan { pts, cursor, cursor_hash: None }
}

#[test]
fn cursor_images_become_png_files() {
    let file = bitmap(9).to_png().unwrap();
    assert_eq!(&file[..8], b"\x89PNG\r\n\x1a\n");
    let image = image::load_from_memory(&file).unwrap().to_rgba8();
    assert_eq!((image.width(), image.height()), (2, 3));
    assert_eq!(image.into_raw(), bitmap(9).pixels);
}

#[test]
fn pixels_beyond_the_image_are_not_in_the_file() {
    let mut longer = bitmap(9);
    longer.pixels.extend_from_slice(&[1, 2, 3, 4, 5]);
    assert_eq!(longer.to_png(), bitmap(9).to_png());
}

#[test]
fn an_image_with_too_few_pixels_has_no_file() {
    let mut shorter = bitmap(9);
    shorter.pixels.pop();
    assert!(shorter.to_png().is_none());
}

#[test]
fn images_are_told_apart_by_their_pixels() {
    assert_eq!(hash_pixels(&bitmap(1).pixels), hash_pixels(&bitmap(1).pixels));
    assert_ne!(hash_pixels(&bitmap(1).pixels), hash_pixels(&bitmap(2).pixels));
    assert_ne!(hash_pixels(&[0, 0]), hash_pixels(&[0, 0, 0]));
}

#[test]
fn the_bytes_of_an_image_are_counted() {
    assert_eq!(bitmap_bytes(2, 3, 8, 16), Some(24));
    assert_eq!(bitmap_bytes(0, 3, 8, 16), None);
    assert_eq!(bitmap_bytes(2, 0, 8, 16), None);
    assert_eq!(bitmap_bytes(2, 3, 8, 0), None);
    assert_eq!(bitmap_bytes(1, 1, -1, 1), Some(u32::MAX as usize));
}

/// Looks at all pieces of a buffer, and saves their images with the given outcome. Returns what was
/// found, and what was saved.
fn walk(
    recorder: &mut Recorder,
    metas: &[Meta],
    could_save: bool,
) -> (BufferScan, Vec<(u64, Vec<u8>)>) {
    let mut scan = BufferScan::new();
    let mut images: Vec<(u64, Vec<u8>)> = Vec::new();
    for meta in metas {
        let step = recorder.scan(scan, meta);
        scan = step.scan;
        if let Some(image) = step.image {
            recorder.note_saved(image.hash, could_save);
            images.push((image.hash, image.file));
        }
    }
    (scan, images)
}

#[test]
fn images_are_saved_once() {
    let mut recorder = Recorder::new();
    let metas = vec![
        Meta::Header { pts: 50 },
        cursor_meta(1, 2, Some(bitmap(1))),
        Meta::Other,
        cursor_meta(3, 4, Some(bitmap(1))),
        cursor_meta(5, 6, Some(bitmap(2))),
    ];
    let (scan, images) = walk(&mut recorder, &metas, true);
    let (one, two) = (hash_pixels(&bitmap(1).pixels), hash_pixels(&bitmap(2).pixels));
    assert_eq!(scan, BufferScan { pts: 50, cursor: Some((5, 6)), cursor_hash: Some(two) });
    assert_eq!(recorder.cursor_hashes, vec![one, two]);
    assert_eq!(
        images,
        vec![(one, bitmap(1).to_png().unwrap()), (two, bitmap(2).to_png().unwrap())]
    );
    assert!(walk(&mut recorder, &metas, true).1.is_empty());
}

#[test]
fn an_image_that_could_not_be_saved_is_tried_again() {
    let mut recorder = Recorder::new();
    assert!(recorder.image_to_save(&bitmap(1), 7).is_some());
    recorder.note_saved(7, false);
    assert!(recorder.cursor_hashes.is_empty());
    assert_eq!(recorder.image_to_save(&bitmap(1), 7), bitmap(1).to_png());
    recorder.note_saved(7, true);
    recorder.note_saved(7, true);
    assert_eq!(recorder.cursor_hashes, vec![7]);
    assert!(recorder.image_to_save(&bitmap(1), 7).is_none());
    let mut shorter = bitmap(1);
    shorter.pixels.pop();
    assert!(recorder.image_to_save(&shorter, 8).is_none());
}

#[test]
fn the_last_header_and_position_count() {
    let mut recorder = Recorder::new();
    let metas = vec![
        Meta::Header { pts: 1 },
        cursor_meta(1, 2, Some(bitmap(1))),
        cursor_meta(-3, 4, None),
        Meta::Header { pts: -1 },
    ];
    let (scan, _) = walk(&mut recorder, &metas, true);
    assert_eq!(scan.pts, u64::MAX);
    assert_eq!(scan.cursor, Some((-3, 4)));
    assert_eq!(scan.cursor_hash, Some(hash_pixels(&bitmap(1).pixels)));
    assert_eq!(walk(&mut recorder, &[Meta::Other], true).0, found(0, None));
}

#[test]
fn the_hash_of_a_piece_is_taken_over() {
    let recorder = Recorder::new();
    let step = recorder.take_meta(found(4, None), &cursor_meta(1, 2, Some(bitmap(1))), 77);
    assert_eq!(step.scan, BufferScan { pts: 4, cursor: Some((1, 2)), cursor_hash: Some(77) });
    let image = step.image.unwrap();
    assert_eq!((image.hash, Some(image.file)), (77, bitmap(1).to_png()));
    let header = recorder.take_meta(step.scan, &Meta::Header { pts: 9 }, 0);
    assert_eq!(header.scan, BufferScan { pts: 9, ..step.scan });
    assert!(header.image.is_none());
}

#[test]
fn a_buffer_without_a_time_is_refused() {
    let mut recorder = Recorder::new();
    let error = recorder.frame_to_push(found(0, None), Some(vec![1])).unwrap_err();
    assert_eq!(error, RecorderError::MissingPts);
    assert_eq!(error.message(), "missing pts header");
    assert!(recorder.last_frame_data.is_none());
    assert_eq!(recorder.first_buffer_pts, 0);
}

#[test]
fn a_recording_begins_with_its_first_frame() {
    let mut recorder = Recorder::new();
    assert_eq!(recorder.frame_to_push(found(900, None), None), Ok((0, None)));
    assert_eq!(recorder.first_buffer_pts, 0);
    let first = recorder.frame_to_push(found(1000, None), Some(vec![1]));
    assert_eq!(first, Ok((0, Some(vec![1]))));
    assert_eq!((recorder.first_buffer_pts, recorder.first_cursor_pts), (1000, 1000));
    let second = recorder.frame_to_push(found(1040, None), Some(vec![2]));
    assert_eq!(second, Ok((40, Some(vec![2]))));
    assert_eq!(recorder.last_buffer_pts, 40);
    assert_eq!(recorder.frame_to_push(found(1050, None), None), Ok((50, None)));
    assert_eq!(recorder.last_buffer_pts, 40);
    assert_eq!(recorder.frame_to_push(found(7, None), None), Ok((0, None)));
    assert_eq!(recorder.last_frame_data, Some(vec![2]));
    assert_eq!((recorder.first_buffer_pts, recorder.first_cursor_pts), (1000, 1000));
}

#[test]
fn the_cursor_is_followed_after_the_first_frame() {
    let mut recorder = Recorder::new();
    let here = found(1000, Some((3, -4)));
    recorder.pipeline_made();
    assert!(recorder.take_cursor(5000, 0, here).is_none());
    recorder.frame_to_push(here, Some(vec![1])).unwrap();
    assert!(recorder.take_cursor(5000, 0, found(1000, None)).is_none());
    let mut data = recorder.take_cursor(5000, 0, here).unwrap();
    assert!(recorder.take_cursor(5010, 10, here).is_none());
    assert_eq!(recorder.last_cursor_pts, 10);
    let scan = BufferScan { cursor_hash: Some(6), ..here };
    data.extend(recorder.take_cursor(5016, 20, scan).unwrap());
    assert_eq!(recorder.last_cursor_pts, 20);
    let (entries, types) = read_cursor_entries(&data);
    assert_eq!(entries.len(), 2);
    assert_eq!(entries[1].pts.to_u64(), 20);
    assert_eq!(entries[1].cursor_type_hash, Some(6));
    assert_eq!(types, vec![1]);
}

#[test]
fn without_a_pipeline_the_cursor_is_not_followed() {
    let mut recorder = Recorder::new();
    let here = found(1000, Some((3, -4)));
    recorder.frame_to_push(here, Some(vec![1])).unwrap();
    assert!(recorder.take_cursor(5000, 30, here).is_none());
    assert_eq!(recorder.last_cursor_pts, 0);
    recorder.pipeline_made();
    assert_eq!(recorder.cursor_file.as_ref().map(|f: &CursorFile| f.last_write_pts), Some(0));
}

#[test]
fn the_end_of_the_stream_repeats_the_last_frame() {
    let mut recorder = Recorder::new();
    let end = |recorder: &Recorder| {
        recorder
            .state_changed(StreamState::Streaming, StreamState::Paused)
            .map(|(frame, pts)| (frame.cloned(), pts))
    };
    assert_eq!(end(&recorder), Some((None, 0)));
    recorder.pipeline_made();
    let here = found(1000, Some((3, -4)));
    recorder.frame_to_push(here, Some(vec![1, 2])).unwrap();
    recorder.take_cursor(5000, 70, here);
    assert_eq!(end(&recorder), Some((Some(vec![1, 2]), 70)));
    assert!(recorder.state_changed(StreamState::Paused, StreamState::Streaming).is_none());
    assert!(recorder.state_changed(StreamState::Streaming, StreamState::Error).is_none());
    assert!(recorder.state_changed(StreamState::Connecting, StreamState::Paused).is_none());
}

#[test]
fn errors_and_the_end_stop_a_recording() {
    assert!(stops_recording(BusMessage::Error));
    assert!(stops_recording(BusMessage::Eos));
    assert!(!stops_recording(BusMessage::Other));
    assert_eq!(loop_step(Received::Stopped), LoopStep::Quit { warn: false });
    assert_eq!(loop_step(Received::Nothing), LoopStep::Iterate);
    assert_eq!(loop_step(Received::Disconnected), LoopStep::Quit { warn: true });
    assert!(loop_goes_on(0));
    assert!(!loop_goes_on(-1));
}

#[test]
fn raw_video_makes_a_pipeline() {
    let media = |is_video, is_raw| Some(MediaFormat { is_video, is_raw });
    assert!(makes_pipeline(true, true, media(true, true)));
    assert!(!makes_pipeline(false, true, media(true, true)));
    assert!(!makes_pipeline(true, false, media(true, true)));
    assert!(!makes_pipeline(true, true, media(false, true)));
    assert!(!makes_pipeline(true, true, media(true, false)));
    assert!(!makes_pipeline(true, true, None));
}

#[test]
fn frames_and_records_count_from_the_first_frame() {
    let mut recorder = Recorder::new();
    recorder.pipeline_made();
    let mut pushed: Vec<(u64, Vec<u8>)> = Vec::new();
    let mut data: Vec<u8> = Vec::new();
    let buffers = [
        (900, None),
        (1000, Some(vec![1])),
        (1040, Some(vec![2])),
        (1050, None),
    ];
    let mut now_ms = 5000;
    for (pts, frame) in buffers {
        let metas = [Meta::Header { pts }, cursor_meta(1, 2, None)];
        let (scan, _) = walk(&mut recorder, &metas, true);
        let (relative_pts, to_push) = recorder.frame_to_push(scan, frame).unwrap();
        pushed.extend(to_push.map(|frame| (relative_pts, frame)));
        data.extend(recorder.take_cursor(now_ms, relative_pts, scan).unwrap_or_default());
        now_ms += 20;
    }
    assert_eq!(pushed, vec![(0, vec![1]), (40, vec![2])]);
    let (entries, _) = read_cursor_entries(&data);
    let times: Vec<u64> = entries.iter().map(|entry| entry.pts.to_u64()).collect();
    assert_eq!(times, vec![0, 40, 50]);
    assert_eq!(recorder.last_cursor_pts, 50);
}
