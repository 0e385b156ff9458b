//! Playing and pausing in the editor.
use vstd::prelude::*;

verus! {

/// A state of the editor's pipeline.
#[derive(Clone, Copy, Debug, PartialEq, Eq, Structural)]
pub enum PlaybackState {
    Playing,
    Paused,
    /// Any state before or after these.
    Other,
}

impl PlaybackState {
    /// The state that a click on the button leads to.
    pub open spec fn toggled(self) -> PlaybackState {
        match self {
            PlaybackState::Paused => PlaybackState::Playing,
            _ => PlaybackState::Paused,
        }
    }

    /// The icon of the button in this state: what a click would do.
    pub open spec fn icon(self) -> Seq<char> {
        match self {
            PlaybackState::Playing => "media-playback-pause-symbolic"@,
            _ => "media-playback-start-symbolic"@,
        }
    }

    /// The state that a click on the button leads to, and the button's icon once it is reached.
    pub fn toggle(self) -> (res: (PlaybackState, &'static str))
        ensures
            res.0 == self.toggled(),
            res.1@ == self.toggled().icon(),
    {
        match self {
            PlaybackState::Paused => (PlaybackState::Playing, "media-playback-pause-symbolic"),
            _ => (PlaybackState::Paused, "media-playback-start-symbolic"),
        }
    }
}

/// Two clicks on the button lead back to where it was, once playback has begun or is paused.
pub proof fn law_second_click_undoes_first(state: PlaybackState)
    requires
        state != PlaybackState::Other,
    ensures
        state.toggled().toggled() == state,
{
}

/// A click on the button plays what is paused, and pauses everything else. The button then offers
/// to pause exactly where it plays.
pub proof fn law_click_plays_what_is_paused(state: PlaybackState)
    ensures
        state.toggled() == PlaybackState::Playing <==> state == PlaybackState::Paused,
        state.toggled() == PlaybackState::Paused <==> state != PlaybackState::Paused,
        state == PlaybackState::Playing ==> state.icon() == "media-playback-pause-symbolic"@,
        state != PlaybackState::Playing ==> state.icon() == "media-playback-start-symbolic"@,
{
}

} // verus!
