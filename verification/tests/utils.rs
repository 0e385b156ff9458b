use ferricast::text::{push_decimal, push_padded};
use ferricast::utils::{file_uri, recording_file_name, resolve_portal_path, RecordingNames};

#[test]
fn portal_paths_lose_their_trailing_nuls() {
    let resolved = |bytes: &[u8]| resolve_portal_path(Some(bytes.to_vec()));
    assert_eq!(resolved(b"/home/a/b.mkv\0").as_deref(), Some("/home/a/b.mkv"));
    assert_eq!(resolved(b"/home/a/b.mkv").as_deref(), Some("/home/a/b.mkv"));
    assert_eq!(resolved(b"a\0b\0\0\0").as_deref(), Some("a\0b"));
    assert_eq!(resolved(b"\0\0").as_deref(), Some(""));
    assert_eq!(resolved(b"").as_deref(), Some(""));
    assert_eq!(
        resolved("/tmp/\u{e9}\u{20ac}\u{1f600}\0".as_bytes()).as_deref(),
        Some("/tmp/\u{e9}\u{20ac}\u{1f600}")
    );
}

#[test]
fn portal_paths_that_say_nothing_are_left_alone() {
    assert_eq!(resolve_portal_path(None), None);
    assert_eq!(resolve_portal_path(Some(vec![b'a', 0xff, b'b'])), None);
    assert_eq!(resolve_portal_path(Some(vec![0xed, 0xa0, 0x80])), None);
    assert_eq!(resolve_portal_path(Some(vec![0xc0, 0x80])), None);
}

#[test]
fn files_are_named_after_their_time() {
    assert_eq!(recording_file_name(1_700_000_000, &vec![]), "recording_1700000000.mkv");
    assert_eq!(recording_file_name(0, &vec![]), "recording_0.mkv");
    assert_eq!(file_uri("/tmp/a.mkv"), "file:///tmp/a.mkv");
}

#[test]
fn numbers_are_written_like_the_standard_library_does() {
    for n in [0u64, 7, 9, 10, 99, 100, 123_456, 9_999_999, u64::MAX] {
        let mut plain = String::from("n");
        push_decimal(&mut plain, n);
        assert_eq!(plain, format!("n{n}"));
        let mut padded = String::from("n");
        push_padded(&mut padded, n, 6);
        assert_eq!(padded, format!("n{n:06}"));
    }
}

#[test]
fn recordings_of_one_second_have_names_of_their_own() {
    let mut taken: Vec<String> = vec!["recording_7_2.mkv".to_string(), "other".to_string()];
    for expected in ["recording_7.mkv", "recording_7_1.mkv", "recording_7_3.mkv"] {
        let name = recording_file_name(7, &taken);
        assert_eq!(name, expected);
        assert!(!taken.contains(&name));
        taken.push(name);
    }
    assert_eq!(recording_file_name(8, &taken), "recording_8.mkv");
    assert_eq!(recording_file_name(7, &taken), "recording_7_4.mkv");
}

#[test]
fn no_recording_name_is_given_twice() {
    let mut names = RecordingNames::new();
    let files = vec!["recording_7_1.mkv".to_string()];
    let given: Vec<String> = [7, 7, 8, 7].map(|second| names.give(second, &files)).to_vec();
    assert_eq!(
        given,
        vec!["recording_7.mkv", "recording_7_2.mkv", "recording_8.mkv", "recording_7_3.mkv"]
    );
    assert_eq!(names.names, given);
}
