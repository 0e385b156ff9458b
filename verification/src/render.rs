//! Exporting a recording: formats, settings, and the course of an export.
use crate::double::{Double, EXPONENT_STEP};
use crate::rdp::zero;
use crate::text::{law_digits_stand_for_their_number, lemma_middle, padded, push_padded};
use crate::utils::{file_stem, names_file, takes_extension, with_extension};
use vstd::arithmetic::power2::{lemma2_to64, lemma2_to64_rest, lemma_pow2_adds, lemma_pow2_pos, pow2};
use vstd::prelude::*;

verus! {

/// The end of the pipe that takes the frames of a GIF.
#[verifier::external_type_specification]
#[verifier::external_body]
pub struct ExCollector(gifski::Collector);

/// The end of the pipe that writes a GIF.
#[verifier::external_type_specification]
#[verifier::external_body]
pub struct ExWriter(gifski::Writer);

/// What the GIF encoder reports when it fails.
#[verifier::external_type_specification]
#[verifier::external_body]
pub struct ExGifskiError(gifski::Error);

/// How a GIF is encoded.
#[derive(Clone, Copy, Debug, PartialEq, Eq, Structural)]
pub struct GifSettings {
    pub width: Option<u32>,
    pub height: Option<u32>,
    /// From 1 to 100.
    pub quality: u8,
    pub fast: bool,
    /// How often the GIF is repeated: without end where this is `None`.
    pub repeat: Option<u16>,
}

/// The settings that a writer works with.
pub uninterp spec fn writer_settings(writer: gifski::Writer) -> GifSettings;

/// The queue that a collector puts its frames into.
pub uninterp spec fn collector_queue(collector: gifski::Collector) -> int;

/// The queue that a writer takes its frames from.
pub uninterp spec fn writer_queue(writer: gifski::Writer) -> int;

impl GifSettings {
    /// Whether the encoder takes these settings.
    pub open spec fn accepted(self) -> bool {
        &&& 1 <= self.quality <= 100
        &&& self.width matches Some(width) ==> width <= 0x1_0000
        &&& self.height matches Some(height) ==> height <= 0x1_0000
    }
}

/// Makes a GIF encoder with `gifski::new`: it succeeds exactly for a quality from 1 to 100 and a
/// width and a height of at most 65536 pixels; the writer then works with these settings, and takes
/// its frames from the queue that the collector puts them into. With how many threads the writer
/// works is left unsaid.
#[verifier::external_body]
fn new_encoder(settings: GifSettings) -> (res: Result<
    (gifski::Collector, gifski::Writer),
    gifski::Error,
>)
    ensures
        res is Ok <==> settings.accepted(),
        res matches Ok((_, writer)) ==> writer_settings(writer) == settings,
        res matches Ok((collector, writer)) ==> collector_queue(collector) == writer_queue(writer),
{
    gifski::new(
        gifski::Settings {
            width: settings.width,
            height: settings.height,
            quality: settings.quality,
            fast: settings.fast,
            repeat: match settings.repeat {
                Some(times) => gifski::Repeat::Finite(times),
                None => gifski::Repeat::Infinite,
            },
        },
    )
}

/// Why an export failed.
#[derive(Clone, Copy, Debug, PartialEq, Eq, Structural)]
pub enum RenderError {
    /// The GIF encoder takes no picture of this size.
    PictureTooLarge,
}

/// The two ends of an encoder for a GIF of the given size, or of the size of its frames: of the best
/// quality, and repeated without end.
pub fn gif_encoder(width: Option<u32>, height: Option<u32>) -> (res: Result<
    (gifski::Collector, gifski::Writer),
    RenderError,
>)
    ensures
        res is Err <==> {
            ||| width matches Some(width) && width > 0x1_0000
            ||| height matches Some(height) && height > 0x1_0000
        },
        res matches Err(error) ==> error == RenderError::PictureTooLarge,
        res matches Ok((_, writer)) ==> writer_settings(writer) == (GifSettings {
            width,
            height,
            quality: 100,
            fast: false,
            repeat: None,
        }),
        res matches Ok((collector, writer)) ==> collector_queue(collector) == writer_queue(writer),
{
    // takes minutes for a long GIF of high quality
    let settings = GifSettings { width, height, quality: 100, fast: false, repeat: None };
    match new_encoder(settings) {
        Ok(encoder) => Ok(encoder),
        Err(_) => Err(RenderError::PictureTooLarge),
    }
}

/// The bit pattern of one.
pub const ONE_BITS: u64 = 0x3ff0_0000_0000_0000;

/// The bit pattern of one half.
pub const HALF_BITS: u64 = 0x3fe0_0000_0000_0000;

/// One.
pub open spec fn one() -> Double {
    Double { bits: ONE_BITS }
}

/// One half.
pub open spec fn half() -> Double {
    Double { bits: HALF_BITS }
}

/// [`one`] is the number one, and [`half`] is half of it.
pub proof fn lemma_one_and_half()
    ensures
        one().is_integer(1),
        !half().nan(),
        2 * half().value() == one().value(),
{
    lemma2_to64();
    lemma2_to64_rest();
    assert(EXPONENT_STEP == pow2(52));
    lemma_pow2_adds(52, 1022);
    lemma_pow2_adds(52, 1021);
    lemma_pow2_adds(1, 1073);
    assert(one().pattern() == 1023 * EXPONENT_STEP);
    assert(half().pattern() == 1022 * EXPONENT_STEP);
}

/// A kind of file that a recording can be exported to.
#[derive(Clone, Copy, Debug, PartialEq, Eq, Structural)]
pub enum Format {
    Mp4,
    Gif,
}

/// What an export must know of a kind of file.
pub trait PipelineSpec {
    /// The extension of such a file's name.
    spec fn extension_text(&self) -> Seq<char>;

    /// The name under which the kind is offered.
    spec fn name_text(&self) -> Seq<char>;

    /// How much of the whole progress the pipeline makes.
    spec fn max_progress(&self) -> Double;

    fn extension(&self) -> (res: &'static str)
        ensures
            res@ == self.extension_text(),
    ;

    fn name(&self) -> (res: &'static str)
        ensures
            res@ == self.name_text(),
    ;

    fn pipeline_max_progress(&self) -> (res: Double)
        ensures
            res == self.max_progress(),
    ;
}

impl PipelineSpec for Format {
    open spec fn extension_text(&self) -> Seq<char> {
        match self {
            Format::Mp4 => "mp4"@,
            Format::Gif => "gif"@,
        }
    }

    open spec fn name_text(&self) -> Seq<char> {
        match self {
            Format::Mp4 => "MP4"@,
            Format::Gif => "Gif"@,
        }
    }

    /// A GIF is encoded from the pipeline's frames after it has run.
    open spec fn max_progress(&self) -> Double {
        match self {
            Format::Mp4 => one(),
            Format::Gif => half(),
        }
    }

    fn extension(&self) -> (res: &'static str) {
        match self {
            Format::Mp4 => "mp4",
            Format::Gif => "gif",
        }
    }

    fn name(&self) -> (res: &'static str) {
        match self {
            Format::Mp4 => "MP4",
            Format::Gif => "Gif",
        }
    }

    fn pipeline_max_progress(&self) -> (res: Double) {
        match self {
            Format::Mp4 => Double { bits: ONE_BITS },
            Format::Gif => Double { bits: HALF_BITS },
        }
    }
}

/// All formats, in the order in which they are offered.
pub open spec fn all_formats() -> Seq<Format> {
    seq![Format::Mp4, Format::Gif]
}

/// The names of all formats.
pub fn formats() -> (res: Vec<&'static str>)
    ensures
        res@.len() == all_formats().len(),
        forall|i: int| 0 <= i < res@.len() ==> (#[trigger] res@[i])@ == all_formats()[i].name_text(),
{
    let mut names: Vec<&'static str> = Vec::new();
    names.push(Format::Mp4.name());
    names.push(Format::Gif.name());
    names
}

/// What is exported, and to what.
#[derive(Clone, Copy, Debug)]
pub struct RenderSettings {
    pub format_position: u32,
    pub start_sec: Double,
    /// Where the export ends; `None` for the end of the recording.
    pub end_sec: Option<Double>,
}

impl Default for RenderSettings {
    fn default() -> (res: Self)
        ensures
            res.format_position == 0,
            res.start_sec == zero(),
            res.end_sec is None,
    {
        RenderSettings { format_position: 0, start_sec: Double { bits: 0 }, end_sec: None }
    }
}

/// A stretch of a recording that is played: from one time to another one, or to the end.
#[derive(Clone, Copy, Debug)]
pub struct Seek {
    pub start_sec: Double,
    pub stop_sec: Option<Double>,
}

impl RenderSettings {
    pub fn new(format_position: u32, start_sec: Double, end_sec: Option<Double>) -> (res: Self)
        ensures
            res == (RenderSettings { format_position, start_sec, end_sec }),
    {
        RenderSettings { format_position, start_sec, end_sec }
    }

    /// The format at the chosen position.
    pub fn format(&self) -> (res: Format)
        requires
            self.format_position < all_formats().len(),
        ensures
            res == all_formats()[self.format_position as int],
    {
        if self.format_position == 0 {
            Format::Mp4
        } else {
            Format::Gif
        }
    }

    pub fn format_position(&self) -> (res: u32)
        ensures
            res == self.format_position,
    {
        self.format_position
    }

    pub fn start_sec(&self) -> (res: Double)
        ensures
            res == self.start_sec,
    {
        self.start_sec
    }

    pub fn end_sec(&self) -> (res: Option<Double>)
        ensures
            res == self.end_sec,
    {
        self.end_sec
    }

    /// The stretch to seek before the export starts, if it is not the whole recording.
    pub fn seek(&self) -> (res: Option<Seek>)
        ensures
            res == if zero().lt(self.start_sec) || self.end_sec is Some {
                Some(Seek { start_sec: self.start_sec, stop_sec: self.end_sec })
            } else {
                None
            },
    {
        let beginning = Double { bits: 0 };
        if beginning.less_than(self.start_sec) || self.end_sec.is_some() {
            Some(Seek { start_sec: self.start_sec, stop_sec: self.end_sec })
        } else {
            None
        }
    }

    /// The settings for the given format and times: without an end of their own where that is the
    /// recording's end.
    pub open spec fn choice(
        format_position: u32,
        start_sec: Double,
        end_sec: Double,
        duration_sec: Option<Double>,
    ) -> Self {
        let at_the_end = duration_sec matches Some(duration) && duration.eqv(end_sec);
        RenderSettings {
            format_position,
            start_sec,
            end_sec: if at_the_end {
                None
            } else {
                Some(end_sec)
            },
        }
    }

    /// The end of the export of a recording of the given length.
    pub open spec fn offer(self, duration_sec: Double) -> Double {
        match self.end_sec {
            Some(end_sec) => end_sec,
            None => duration_sec,
        }
    }

    /// The settings that the user has chosen for a recording of the given length.
    pub fn chosen(
        format_position: u32,
        start_sec: Double,
        end_sec: Double,
        duration_sec: Option<Double>,
    ) -> (res: Self)
        ensures
            res == Self::choice(format_position, start_sec, end_sec, duration_sec),
    {
        let at_the_end = match duration_sec {
            Some(duration) => duration.equals(end_sec),
            None => false,
        };
        let end_sec = if at_the_end {
            None
        } else {
            Some(end_sec)
        };
        RenderSettings { format_position, start_sec, end_sec }
    }

    /// The end that is offered for a recording of the given length.
    pub fn offered_end(&self, duration_sec: Double) -> (res: Double)
        ensures
            res == self.offer(duration_sec),
    {
        match self.end_sec {
            Some(end_sec) => end_sec,
            None => duration_sec,
        }
    }

    /// The name that is offered for the exported file.
    pub fn initial_name(&self) -> (res: String)
        requires
            self.format_position < all_formats().len(),
        ensures
            res@ == "export."@ + all_formats()[self.format_position as int].extension_text(),
    {
        let mut name = "export.".to_owned();
        name.append(self.format().extension());
        name
    }
}

/// Settings that are offered, and taken over as they are, stay what they were, unless their end is
/// given and is the recording's own.
pub proof fn law_settings_survive_being_offered(settings: RenderSettings, duration: Double)
    requires
        !duration.nan(),
        settings.end_sec matches Some(end_sec) ==> !duration.eqv(end_sec),
    ensures
        RenderSettings::choice(
            settings.format_position,
            settings.start_sec,
            settings.offer(duration),
            Some(duration),
        ) == settings,
{
}

/// A message of the pipeline, as far as an export cares.
#[derive(Clone, Copy, Debug, PartialEq, Eq, Structural)]
pub enum RenderMessage {
    /// The pipeline has played everything.
    Eos,
    /// The pipeline has failed.
    Error,
    Other,
}

/// What follows from a message.
#[derive(Clone, Copy, Debug)]
pub enum RenderStep {
    /// The export goes on.
    Proceed,
    /// The pipeline is done. Where it has played everything, this progress is reported.
    Finish(Option<Double>),
}

/// What follows from a message of the pipeline.
pub fn render_step(format: Format, message: RenderMessage) -> (res: RenderStep)
    ensures
        res == match message {
            RenderMessage::Eos => RenderStep::Finish(Some(format.max_progress())),
            RenderMessage::Error => RenderStep::Finish(None),
            RenderMessage::Other => RenderStep::Proceed,
        },
{
    match message {
        RenderMessage::Eos => RenderStep::Finish(Some(format.pipeline_max_progress())),
        RenderMessage::Error => RenderStep::Finish(None),
        RenderMessage::Other => RenderStep::Proceed,
    }
}

/// The position and the length from which progress is reported, if it is to be.
pub fn reported_progress(position: Option<u64>, duration: Option<u64>) -> (res: Option<(u64, u64)>)
    ensures
        res == match (position, duration) {
            (Some(position), Some(duration)) => if position < duration {
                Some((position, duration))
            } else {
                None
            },
            _ => None,
        },
{
    match (position, duration) {
        (Some(position), Some(duration)) => if position < duration {
            Some((position, duration))
        } else {
            None
        },
        _ => None,
    }
}

/// Whether an export that reports this progress is complete.
pub fn is_complete(progress: Double) -> (res: bool)
    ensures
        res == progress.eqv(one()),
{
    progress.equals(Double { bits: ONE_BITS })
}

/// The pipeline of a video file is the whole of its export, and its last report completes it; a
/// GIF is not complete when its pipeline is done.
pub proof fn law_pipeline_completes_video_only(format: Format)
    ensures
        format.max_progress().eqv(one()) <==> format == Format::Mp4,
{
    lemma_one_and_half();
    lemma_pow2_pos(1074);
}

/// The progress of encoding a GIF, counted in frames.
#[derive(Clone, Copy, Debug, PartialEq, Eq, Structural)]
pub struct GifskiProgressBridge {
    pub total: i32,
    pub current: i32,
}

impl GifskiProgressBridge {
    pub fn new(total: i32) -> (res: GifskiProgressBridge)
        ensures
            res == (GifskiProgressBridge { total, current: 0 }),
    {
        GifskiProgressBridge { total, current: 0 }
    }

    /// Counts one more frame. Returns whether encoding goes on, which it always does.
    pub fn increase(&mut self) -> (res: bool)
        requires
            old(self).current < i32::MAX,
        ensures
            res,
            *final(self) == (GifskiProgressBridge {
                current: (old(self).current + 1) as i32,
                ..*old(self)
            }),
    {
        self.current = self.current + 1;
        true
    }
}

/// The name of the file that holds a frame of a GIF before it is encoded.
pub fn frame_file(tmp_path: &str, i: usize) -> (res: String)
    ensures
        res@ == tmp_path@ + padded(i as nat, 6) + ".png"@,
{
    let mut name = tmp_path.to_owned();
    push_padded(&mut name, i as u64, 6);
    name.append(".png");
    name
}

/// No two frames share a file.
pub proof fn law_frames_have_files_of_their_own(tmp_path: Seq<char>, a: nat, b: nat)
    requires
        tmp_path + padded(a, 6) + ".png"@ == tmp_path + padded(b, 6) + ".png"@,
    ensures
        a == b,
{
    lemma_middle(tmp_path, padded(a, 6), padded(b, 6), ".png"@);
    law_digits_stand_for_their_number(a, 6);
    law_digits_stand_for_their_number(b, 6);
}

/// The pattern by which the pipeline names these files.
pub fn frame_location(tmp_path: &str) -> (res: String)
    ensures
        res@ == tmp_path@ + "%06d.png"@,
{
    let mut name = tmp_path.to_owned();
    name.append("%06d.png");
    name
}

/// The path of a GIF, from the path that was chosen for it: whatever extension that has, it is one
/// for a GIF.
pub fn gif_file(output_path: &str) -> (res: String)
    ensures
        exists|stem: Seq<char>| #[trigger]
            takes_extension(output_path@, ""@, stem) && res@ == stem + ".gif"@,
        forall|folder: Seq<char>, name: Seq<char>| #[trigger]
            names_file(output_path@, folder, name) ==> res@ == folder + file_stem(name) + ".gif"@,
{
    proof {
        reveal_strlit("");
    }
    let mut path = with_extension(output_path, "");
    let ghost stem = path@;
    path.append(".gif");
    assert(takes_extension(output_path@, ""@, stem));
    path
}

/// A track of a recording, as far as its size is concerned.
#[derive(Clone, Copy, Debug, PartialEq, Eq, Structural)]
pub struct TrackInfo {
    pub is_video: bool,
    /// The size that the track is restricted to, where it is restricted.
    pub caps: Option<TrackCaps>,
}

#[derive(Clone, Copy, Debug, PartialEq, Eq, Structural)]
pub struct TrackCaps {
    pub width: Option<i32>,
    pub height: Option<i32>,
}

impl TrackInfo {
    /// Whether this is a picture of a known size.
    pub open spec fn sized(self) -> bool {
        &&& self.is_video
        &&& self.caps matches Some(caps)
        &&& caps.width is Some
        &&& caps.height is Some
    }

    /// The size of such a picture.
    pub open spec fn size(self) -> (Option<u32>, Option<u32>) {
        (
            Some(TrackInfo::pixels(self.caps->0.width->0)),
            Some(TrackInfo::pixels(self.caps->0.height->0)),
        )
    }

    /// The two's complement pattern of a length in pixels.
    pub open spec fn pixels(n: i32) -> u32 {
        (if n < 0 {
            n + 0x1_0000_0000
        } else {
            n as int
        }) as u32
    }
}

fn to_pixels(n: i32) -> (res: u32)
    ensures
        res == TrackInfo::pixels(n),
{
    if n < 0 {
        0xffff_ffff - ((-(n + 1)) as u32)
    } else {
        n as u32
    }
}

/// Whether the track number `i` is the first picture of a known size.
pub open spec fn is_first_sized(tracks: Seq<TrackInfo>, i: int) -> bool {
    &&& 0 <= i < tracks.len()
    &&& tracks[i].sized()
    &&& forall|k: int| 0 <= k < i ==> !(#[trigger] tracks[k]).sized()
}

/// The size of the first picture whose size is known.
pub fn video_dimension_from_pipeline(timeline: &Option<Vec<TrackInfo>>) -> (res: (
    Option<u32>,
    Option<u32>,
))
    ensures
        match timeline {
            Some(tracks) => {
                ||| {
                    &&& res == (None::<u32>, None::<u32>)
                    &&& forall|k: int| 0 <= k < tracks@.len() ==> !(#[trigger] tracks@[k]).sized()
                }
                ||| exists|i: int| #[trigger]
                    is_first_sized(tracks@, i) && res == tracks@[i].size()
            },
            None => res == (None::<u32>, None::<u32>),
        },
{
    let tracks = match timeline {
        Some(tracks) => tracks,
        None => {
            return (None, None);
        },
    };
    let mut i: usize = 0;
    while i < tracks.len()
        invariant
            timeline matches Some(all) && all@ == tracks@,
            i <= tracks@.len(),
            forall|k: int| 0 <= k < i ==> !(#[trigger] tracks@[k]).sized(),
        decreases tracks@.len() - i,
    {
        let track = tracks[i];
        if track.is_video {
            if let Some(caps) = track.caps {
                if let (Some(width), Some(height)) = (caps.width, caps.height) {
                    assert(is_first_sized(tracks@, i as int));
                    return (Some(to_pixels(width)), Some(to_pixels(height)));
                }
            }
        }
        i = i + 1;
    }
    (None, None)
}

/// The pipeline of a GIF makes half of its export's progress.
pub proof fn law_gif_pipeline_is_half_of_the_export()
    ensures
        Format::Mp4.max_progress().is_integer(1),
        2 * Format::Gif.max_progress().value() == Format::Mp4.max_progress().value(),
        !Format::Gif.max_progress().nan(),
{
    lemma_one_and_half();
}

/// The settings that were chosen have the format and the beginning that were, and the end unless it
/// is the recording's own.
pub proof fn law_choice_keeps_what_was_chosen(
    format_position: u32,
    start_sec: Double,
    end_sec: Double,
    duration_sec: Option<Double>,
)
    ensures
        ({
            let chosen = RenderSettings::choice(format_position, start_sec, end_sec, duration_sec);
            &&& chosen.format_position == format_position
            &&& chosen.start_sec == start_sec
            &&& chosen.end_sec is None || chosen.end_sec == Some(end_sec)
            &&& chosen.end_sec is None <==> {
                &&& duration_sec matches Some(duration)
                &&& !duration.nan()
                &&& !end_sec.nan()
                &&& duration.value() == end_sec.value()
            }
        }),
{
}

/// The end that is offered is the one that was given, and the recording's own where none was.
pub proof fn law_offered_end_is_the_given_one(settings: RenderSettings, duration: Double)
    ensures
        settings.end_sec is None ==> settings.offer(duration) == duration,
        settings.end_sec is Some ==> settings.end_sec == Some(settings.offer(duration)),
{
}

/// A length in pixels that is not negative is kept; a negative one is taken modulo two to the power
/// of thirty-two.
pub proof fn law_pixels_keep_lengths(n: i32)
    ensures
        TrackInfo::pixels(n) == n as int % 0x1_0000_0000,
        n >= 0 ==> TrackInfo::pixels(n) == n,
{
}

/// The size of a recording is that of its first picture whose width and height are both known:
/// every track before it is none.
pub proof fn law_first_sized_track_gives_the_size(
    tracks: Seq<TrackInfo>,
    i: int,
    width: i32,
    height: i32,
)
    requires
        0 <= i < tracks.len(),
        tracks[i].is_video,
        tracks[i].caps == Some(TrackCaps { width: Some(width), height: Some(height) }),
        width >= 0,
        height >= 0,
        forall|k: int|
            0 <= k < i ==> {
                ||| !(#[trigger] tracks[k]).is_video
                ||| tracks[k].caps is None
                ||| tracks[k].caps->0.width is None
                ||| tracks[k].caps->0.height is None
            },
    ensures
        is_first_sized(tracks, i),
        forall|k: int| #[trigger] is_first_sized(tracks, k) ==> k == i,
        tracks[i].size() == (Some(width as u32), Some(height as u32)),
{
    assert forall|k: int| #[trigger] is_first_sized(tracks, k) implies k == i by {
        if i < k {
            assert(!tracks[i].sized());
        } else if k < i {
            assert(tracks[k].sized());
        }
    }
}

/// Progress is reported exactly while both the position and the length are known and the position is
/// before the end; both are then reported as they are.
pub proof fn law_progress_is_reported_before_the_end(
    position: Option<u64>,
    duration: Option<u64>,
    reported: Option<(u64, u64)>,
)
    requires
        call_ensures(reported_progress, (position, duration), reported),
    ensures
        reported is Some <==> position is Some && duration is Some && position->0 < duration->0,
        reported matches Some((at, end)) ==> position == Some(at) && duration == Some(end) && at
            < end,
{
}

} // verus!
