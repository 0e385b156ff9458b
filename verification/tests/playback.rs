use ferricast::playback::PlaybackState;

#[test]
fn the_button_plays_and_pauses() {
    assert_eq!(
        PlaybackState::Paused.toggle(),
        (PlaybackState::Playing, "media-playback-pause-symbolic")
    );
    assert_eq!(
        PlaybackState::Playing.toggle(),
        (PlaybackState::Paused, "media-playback-start-symbolic")
    );
    assert_eq!(PlaybackState::Other.toggle().0, PlaybackState::Paused);
}

#[test]
fn a_second_click_undoes_the_first() {
    for state in [PlaybackState::Playing, PlaybackState::Paused] {
        assert_eq!(state.toggle().0.toggle().0, state);
    }
}
