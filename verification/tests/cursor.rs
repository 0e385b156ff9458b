use ferricast::cursor::{read_cursor_entries, CursorEntry, CursorFile};
use ferricast::double::Double;

fn d(x: f64) -> Double {
    Double::from_bits(x.to_bits())
}

#[test]
fn a_record_is_twenty_four_little_endian_bytes() {
    let mut file = CursorFile::new();
    let bytes = file.write(16, 0x0102, -2, 3, Some(7)).unwrap();
    let mut expected: Vec<u8> = Vec::new();
    expected.extend_from_slice(&0x0102u64.to_le_bytes());
    expected.extend_from_slice(&(-2i32).to_le_bytes());
    expected.extend_from_slice(&3i32.to_le_bytes());
    expected.extend_from_slice(&7u64.to_le_bytes());
    assert_eq!(bytes, expected);
    assert_eq!(bytes.len(), 24);
}

#[test]
fn a_missing_hash_is_written_as_zero() {
    let mut file = CursorFile::new();
    let bytes = file.write(1000, 1, 2, 3, None).unwrap();
    assert_eq!(&bytes[16..24], &[0u8; 8]);
}

#[test]
fn records_are_at_least_sixteen_milliseconds_apart() {
    let mut file = CursorFile::new();
    assert!(file.write(15, 0, 0, 0, None).is_none());
    assert_eq!(file.last_write_pts, 0);
    assert!(file.write(16, 0, 0, 0, None).is_some());
    assert!(file.write(31, 0, 0, 0, None).is_none());
    assert_eq!(file.last_write_pts, 16);
    assert!(file.write(32, 0, 0, 0, None).is_some());
    assert_eq!(file.last_write_pts, 32);
}

#[test]
fn written_records_are_read_back() {
    let mut file = CursorFile::new();
    let mut data: Vec<u8> = Vec::new();
    let samples = [
        (0u64, 10i32, -20i32, Some(5u64)),
        (40_000_000, -1920, 1080, None),
        (u64::MAX, i32::MIN, i32::MAX, Some(u64::MAX)),
    ];
    let mut now = 100u128;
    for (pts, x, y, hash) in samples {
        data.extend(file.write(now, pts, x, y, hash).unwrap());
        now += 16;
    }
    let (entries, types) = read_cursor_entries(&data);
    assert_eq!(entries.len(), 3);
    for (entry, (pts, x, y, hash)) in entries.iter().zip(samples) {
        assert_eq!(entry.pts, d(pts as f64));
        assert_eq!(entry.x, d(x as f64));
        assert_eq!(entry.y, d(y as f64));
        assert_eq!(entry.cursor_type_hash, hash);
    }
    assert_eq!(types, vec![0, 2]);
}

#[test]
fn a_zero_hash_is_read_as_none() {
    let mut file = CursorFile::new();
    let data = file.write(100, 1, 2, 3, Some(0)).unwrap();
    let (entries, types) = read_cursor_entries(&data);
    assert_eq!(entries[0].cursor_type_hash, None);
    assert!(types.is_empty());
}

#[test]
fn each_image_is_listed_once_where_it_first_appears() {
    let mut file = CursorFile::new();
    let mut data: Vec<u8> = Vec::new();
    let mut now = 100u128;
    for hash in [None, Some(3), Some(4), Some(3), None, Some(9), Some(4)] {
        data.extend(file.write(now, 0, 0, 0, hash).unwrap());
        now += 20;
    }
    let (entries, types) = read_cursor_entries(&data);
    assert_eq!(entries.len(), 7);
    assert_eq!(types, vec![1, 2, 5]);
}

#[test]
fn a_cut_off_record_is_ignored() {
    let mut file = CursorFile::new();
    let mut data = file.write(100, 1, 2, 3, Some(4)).unwrap();
    data.extend_from_slice(&[9u8; 23]);
    let (entries, types) = read_cursor_entries(&data);
    assert_eq!(entries.len(), 1);
    assert_eq!(types, vec![0]);
    let (none, no_types) = read_cursor_entries(&[1, 2, 3]);
    assert!(none.is_empty());
    assert!(no_types.is_empty());
}

#[test]
fn image_paths_hold_the_hash() {
    assert_eq!(
        CursorFile::img_path("/tmp/recording_17.mkv", 18446744073709551615),
        "/tmp/recording_17_18446744073709551615.png"
    );
    assert_eq!(CursorFile::img_path("a.mkv", 0), "a_0.png");
    assert_ne!(CursorFile::img_path("a", 1), CursorFile::img_path("a", 10));
}

#[test]
fn image_paths_drop_the_extension_of_the_recording() {
    let path = |recording| CursorFile::img_path(recording, 5);
    assert_eq!(path("/home/a.b/clip.final.mkv"), "/home/a.b/clip.final_5.png");
    assert_eq!(path("/home/a.b/clip"), "/home/a.b/clip_5.png");
    assert_eq!(path("clip."), "clip_5.png");
    assert_eq!(path("../x//clip..mkv"), "../x//clip._5.png");
}

#[test]
fn entries_convert_their_coordinates() {
    let entry = CursorEntry::new(41_666_666, 7, -8, Some(2));
    assert_eq!(entry.pts, d(41_666_666.0));
    assert_eq!(entry.x, d(7.0));
    assert_eq!(entry.y, d(-8.0));
    assert_eq!(entry.cursor_type_hash, Some(2));
    let other = CursorEntry::from_f64(d(0.5), d(1.5), d(-2.5), None);
    assert_eq!(other.pts, d(0.5));
    assert_eq!(other.x, d(1.5));
    assert_eq!(other.y, d(-2.5));
    assert_eq!(other.cursor_type_hash, None);
}

#[test]
fn the_cursor_file_lies_next_to_the_recording() {
    assert_eq!(CursorFile::path("/tmp/recording_17.mkv"), "/tmp/recording_17.curs");
    assert_eq!(CursorFile::path("/home/a.b/clip"), "/home/a.b/clip.curs");
    assert_eq!(CursorFile::path("clip.final.mkv"), "clip.final.curs");
}
