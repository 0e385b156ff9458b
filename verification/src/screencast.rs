//! Recording the screen: what becomes of the buffers that the compositor sends.
use crate::cursor::{
    law_record_says_what_was_written, record_due, says, CursorFile, CursorRecord,
    CURSOR_INTERVAL_MS,
};
use crate::timeline::{as_unsigned, to_unsigned};
use crate::video::contains;
use std::collections::hash_map::DefaultHasher;
use std::hash::{Hash, Hasher};
use vstd::prelude::*;
use vstd::std_specs::hash::DefaultHasherAdditionalSpecFns;

verus! {

/// A picture in memory, of four bytes a pixel.
#[verifier::external_body]
pub struct CursorImage {
    image: image::RgbaImage,
}

/// The bytes that a picture was made of. They may be more than its pixels need.
pub uninterp spec fn image_bytes(image: CursorImage) -> Seq<u8>;

/// The width and the height of a picture.
pub uninterp spec fn image_size(image: CursorImage) -> (u32, u32);

/// The PNG file for the given pixels, width and height, if there is one.
pub uninterp spec fn png_encoding(pixels: Seq<u8>, width: u32, height: u32) -> Option<Seq<u8>>;

/// Whether so many bytes are enough for a picture of this size.
pub open spec fn picture_fits(width: u32, height: u32, len: nat) -> bool {
    4 * width <= usize::MAX && 4 * width * height <= len
}

/// Makes a picture with `image::ImageBuffer::from_raw`: it succeeds exactly where there are at
/// least four bytes for each pixel, and the picture then holds these bytes and has this size.
#[verifier::external_body]
fn image_from_raw(width: u32, height: u32, bytes: Vec<u8>) -> (res: Option<CursorImage>)
    ensures
        res is Some <==> picture_fits(width, height, bytes@.len()),
        res matches Some(image) ==> image_bytes(image) == bytes@,
        res matches Some(image) ==> image_size(image) == (width, height),
{
    match image::ImageBuffer::from_raw(width, height, bytes) {
        Some(image) => Some(CursorImage { image }),
        None => None,
    }
}

/// The PNG file for a picture, made with `image::ImageBuffer::write_to`: it depends on the size of
/// the picture and on as many of its bytes as its pixels need.
#[verifier::external_body]
fn png_of(image: &CursorImage) -> (res: Option<Vec<u8>>)
    ensures
        match png_encoding(
            image_bytes(*image).take(4 * image_size(*image).0 * image_size(*image).1),
            image_size(*image).0,
            image_size(*image).1,
        ) {
            Some(file) => res matches Some(res) && res@ == file,
            None => res is None,
        },
{
    let mut file = std::io::Cursor::new(Vec::new());
    match image.image.write_to(&mut file, image::ImageFormat::Png) {
        Ok(()) => Some(file.into_inner()),
        Err(_) => None,
    }
}

/// Whether a hasher that was fed `before` may have been fed `after` once it has taken `bytes`. What
/// is fed for the same bytes differs between machines, so there is more than one such `after`.
pub uninterp spec fn hasher_takes(
    bytes: Seq<u8>,
    before: Seq<Seq<u8>>,
    after: Seq<Seq<u8>>,
) -> bool;

/// Feeds bytes to a hasher, with their implementation of `std::hash::Hash`: the hasher has taken
/// these bytes, on top of what it was fed before. What it makes of them is left open by the
/// documentation, and differs between machines, so it is left unsaid.
#[verifier::external_body]
fn feed_hasher(bytes: &[u8], hasher: &mut DefaultHasher)
    ensures
        hasher_takes(bytes@, old(hasher)@, final(hasher)@),
{
    bytes.hash(hasher)
}

/// Whether `hash` is what a new hasher may give for the pixels.
pub open spec fn is_hash_of(pixels: Seq<u8>, hash: u64) -> bool {
    exists|fed: Seq<Seq<u8>>| #[trigger]
        hasher_takes(pixels, Seq::empty(), fed) && hash == DefaultHasher::spec_finish(fed)
}

/// A number for the given pixels, by which pictures are told apart: what a new hasher gives once it
/// has taken them, and nothing else. Which number that is, and that it is always the same for the
/// same pixels, is left unsaid, as is what a hasher is fed.
pub fn hash_pixels(pixels: &[u8]) -> (res: u64)
    ensures
        is_hash_of(pixels@, res),
{
    let mut hasher = DefaultHasher::new();
    feed_hasher(pixels, &mut hasher);
    hasher.finish()
}

/// A cursor image as it arrives.
#[derive(Debug)]
pub struct CursorBitmap {
    pub width: u32,
    pub height: u32,
    pub pixels: Vec<u8>,
}

impl CursorBitmap {
    /// The PNG file for this image, if there is one.
    pub open spec fn png(self) -> Option<Seq<u8>> {
        if picture_fits(self.width, self.height, self.pixels@.len()) {
            png_encoding(
                self.pixels@.take(4 * self.width * self.height),
                self.width,
                self.height,
            )
        } else {
            None
        }
    }

    /// The PNG file for this image. There is none where the image has too few pixels.
    pub fn to_png(&self) -> (res: Option<Vec<u8>>)
        ensures
            match self.png() {
                Some(file) => res matches Some(res) && res@ == file,
                None => res is None,
            },
    {
        let pixels = self.pixels.clone();
        assert(pixels@ =~= self.pixels@);
        match image_from_raw(self.width, self.height, pixels) {
            Some(image) => png_of(&image),
            None => None,
        }
    }
}

/// How many bytes the pixels of a cursor image take, whose first pixel lies at `offset`. There are
/// none where the image has no size or no pixels.
pub fn bitmap_bytes(width: u32, height: u32, stride: i32, offset: u32) -> (res: Option<usize>)
    requires
        width > 0 && height > 0 && offset != 0 ==> height * (as_unsigned(stride as int)
            % 0x1_0000_0000) <= u32::MAX,
    ensures
        res is Some <==> width > 0 && height > 0 && offset != 0,
        res matches Some(bytes) ==> bytes == height * (as_unsigned(stride as int)
            % 0x1_0000_0000),
        stride >= 0 ==> (res matches Some(bytes) ==> bytes == height * stride),
        stride < 0 ==> (res matches Some(bytes) ==> bytes == height * (stride + 0x1_0000_0000)),
{
    if width > 0 && height > 0 && offset != 0 {
        let stride: u32 = (to_unsigned(stride as i64) % 0x1_0000_0000) as u32;
        Some((height * stride) as usize)
    } else {
        None
    }
}

/// What a buffer carries beside its frame.
#[derive(Debug)]
pub enum Meta {
    /// When the frame was made.
    Header { pts: i64 },
    /// Where the cursor is, and its image where it has changed.
    Cursor { x: i32, y: i32, bitmap: Option<CursorBitmap> },
    Other,
}

/// What was found in a buffer beside its frame.
#[derive(Clone, Copy, Debug, PartialEq, Eq)]
pub struct BufferScan {
    /// Zero where the buffer has no header.
    pub pts: u64,
    pub cursor: Option<(i32, i32)>,
    pub cursor_hash: Option<u64>,
}

/// A cursor image's number, and the PNG file to save for it.
#[derive(Debug)]
pub struct ImageFile {
    pub hash: u64,
    pub file: Vec<u8>,
}

/// What looking at one piece of a buffer comes to.
#[derive(Debug)]
pub struct MetaStep {
    /// What has been found so far.
    pub scan: BufferScan,
    /// The image that is to be saved, if any.
    pub image: Option<ImageFile>,
}

impl Meta {
    pub open spec fn bitmap(self) -> Option<CursorBitmap> {
        match self {
            Meta::Cursor { bitmap, .. } => bitmap,
            _ => None,
        }
    }
}

impl BufferScan {
    /// What is known before any piece was looked at.
    pub fn new() -> (res: Self)
        ensures
            res == (BufferScan { pts: 0, cursor: None, cursor_hash: None }),
    {
        BufferScan { pts: 0, cursor: None, cursor_hash: None }
    }

    /// What is known after one more piece, where `hash` is the number of the image in it.
    pub open spec fn with(self, meta: Meta, hash: u64) -> BufferScan {
        match meta {
            Meta::Header { pts } => BufferScan { pts: as_unsigned(pts as int) as u64, ..self },
            Meta::Cursor { x, y, bitmap } => BufferScan {
                cursor: Some((x, y)),
                cursor_hash: if bitmap is Some {
                    Some(hash)
                } else {
                    self.cursor_hash
                },
                ..self
            },
            Meta::Other => self,
        }
    }
}

/// A step of recording that the compositor's stream goes through.
#[derive(Clone, Copy, Debug, PartialEq, Eq, Structural)]
pub enum StreamState {
    Error,
    Unconnected,
    Connecting,
    Paused,
    Streaming,
}

/// Why a recording is broken off.
#[derive(Clone, Copy, Debug, PartialEq, Eq, Structural)]
pub enum RecorderError {
    /// A buffer did not say when its frame was made.
    MissingPts,
}

impl RecorderError {
    pub fn message(&self) -> (res: &'static str)
        ensures
            *self == RecorderError::MissingPts ==> res@ == "missing pts header"@,
    {
        match self {
            RecorderError::MissingPts => "missing pts header",
        }
    }
}

/// A recording in progress.
#[derive(Debug)]
pub struct Recorder {
    /// The cursor images that have been saved.
    pub cursor_hashes: Vec<u64>,
    /// When the first frame was made; zero before it.
    pub first_buffer_pts: u64,
    /// The beginning of the cursor's time.
    pub first_cursor_pts: u64,
    pub last_cursor_pts: u64,
    pub last_buffer_pts: u64,
    pub last_frame_data: Option<Vec<u8>>,
    /// The file of the cursor's path, once the pipeline has been made.
    pub cursor_file: Option<CursorFile>,
}

impl Recorder {
    /// Whether the frames and the cursor have one beginning, and no image was saved twice.
    pub open spec fn well_formed(self) -> bool {
        &&& self.first_buffer_pts == self.first_cursor_pts
        &&& self.cursor_hashes@.no_duplicates()
    }

    /// The time of a buffer within the recording, which begins with its first frame.
    pub open spec fn relative(self, pts: nat) -> nat {
        if self.first_cursor_pts == 0 || pts < self.first_cursor_pts {
            0
        } else {
            (pts - self.first_cursor_pts) as nat
        }
    }

    pub fn new() -> (res: Self)
        ensures
            res.well_formed(),
            res.cursor_hashes@.len() == 0,
            res.first_buffer_pts == 0,
            res.last_cursor_pts == 0,
            res.last_buffer_pts == 0,
            res.last_frame_data is None,
            res.cursor_file is None,
    {
        Recorder {
            cursor_hashes: Vec::new(),
            first_buffer_pts: 0,
            first_cursor_pts: 0,
            last_cursor_pts: 0,
            last_buffer_pts: 0,
            last_frame_data: None,
            cursor_file: None,
        }
    }

    /// Notes that the pipeline has been made, and begins the file of the cursor's path.
    pub fn pipeline_made(&mut self)
        ensures
            final(self).cursor_file matches Some(file) && file.last_write_pts == 0,
            *final(self) == (Recorder { cursor_file: final(self).cursor_file, ..*old(self) }),
    {
        self.cursor_file = Some(CursorFile::new());
    }

    /// The PNG file that is to be saved for an image with the given number: none where the image has
    /// been saved before, or has no file.
    pub open spec fn to_save(self, bitmap: CursorBitmap, hash: u64) -> Option<Seq<u8>> {
        if self.cursor_hashes@.contains(hash) {
            None
        } else {
            bitmap.png()
        }
    }

    /// The PNG file that is to be saved for an image with the given number. Whether it could be
    /// saved is told by [`Recorder::note_saved`]: an image that could not is asked for again when it
    /// comes again.
    pub fn image_to_save(&self, bitmap: &CursorBitmap, hash: u64) -> (res: Option<Vec<u8>>)
        ensures
            match res {
                Some(file) => self.to_save(*bitmap, hash) == Some(file@),
                None => self.to_save(*bitmap, hash) is None,
            },
            self.cursor_hashes@.contains(hash) ==> res is None,
            !self.cursor_hashes@.contains(hash) ==> match bitmap.png() {
                Some(file) => res matches Some(res) && res@ == file,
                None => res is None,
            },
    {
        if contains(&self.cursor_hashes, hash) {
            return None;
        }
        bitmap.to_png()
    }

    /// Whether this is `before` once it is known whether an image could be saved.
    pub open spec fn notes(self, before: Recorder, hash: u64, saved: bool) -> bool {
        &&& self == (Recorder { cursor_hashes: self.cursor_hashes, ..before })
        &&& self.cursor_hashes@ == if saved && !before.cursor_hashes@.contains(hash) {
            before.cursor_hashes@.push(hash)
        } else {
            before.cursor_hashes@
        }
    }

    /// Notes whether the image with the given number could be saved.
    pub fn note_saved(&mut self, hash: u64, saved: bool)
        ensures
            final(self).notes(*old(self), hash, saved),
            saved ==> final(self).cursor_hashes@.contains(hash),
            !saved ==> final(self).cursor_hashes@ == old(self).cursor_hashes@,
            old(self).well_formed() ==> final(self).well_formed(),
    {
        if saved && !contains(&self.cursor_hashes, hash) {
            self.cursor_hashes.push(hash);
            assert(self.cursor_hashes@.last() == hash);
        }
    }

    /// Looks at one piece that a buffer carries, where `hash` is the number of the image in it.
    pub fn take_meta(&self, scan: BufferScan, meta: &Meta, hash: u64) -> (res: MetaStep)
        ensures
            self.steps(scan, *meta, hash, res),
    {
        match meta {
            Meta::Header { pts } => MetaStep {
                scan: BufferScan { pts: to_unsigned(*pts), ..scan },
                image: None,
            },
            Meta::Cursor { x, y, bitmap } => {
                let mut cursor_hash = scan.cursor_hash;
                let mut image: Option<ImageFile> = None;
                if let Some(bitmap) = bitmap {
                    cursor_hash = Some(hash);
                    image = match self.image_to_save(bitmap, hash) {
                        Some(file) => Some(ImageFile { hash, file }),
                        None => None,
                    };
                }
                MetaStep { scan: BufferScan { cursor: Some((*x, *y)), cursor_hash, ..scan }, image }
            },
            Meta::Other => MetaStep { scan, image: None },
        }
    }

    /// Whether `step` is what looking at one piece comes to, where `hash` is the number of the image
    /// in it.
    pub open spec fn steps(
        self,
        scan: BufferScan,
        meta: Meta,
        hash: u64,
        step: MetaStep,
    ) -> bool {
        &&& step.scan == scan.with(meta, hash)
        &&& match self.file_in(meta, hash) {
            Some(file) => step.image matches Some(image) && image.hash == hash && image.file@
                == file,
            None => step.image is None,
        }
    }

    /// The PNG file that is to be saved for the image in a piece, where `hash` is its number.
    pub open spec fn file_in(self, meta: Meta, hash: u64) -> Option<Seq<u8>> {
        match meta.bitmap() {
            Some(bitmap) => self.to_save(bitmap, hash),
            None => None,
        }
    }

    /// Looks at the next piece that a buffer carries, of which `scan` has been found so far. Where
    /// this brings an image, the image is to be saved, and the outcome noted, before the piece after
    /// it is looked at.
    pub fn scan(&self, scan: BufferScan, meta: &Meta) -> (res: MetaStep)
        ensures
            exists|hash: u64|
                {
                    &&& meta.bitmap() matches Some(bitmap) ==> is_hash_of(bitmap.pixels@, hash)
                    &&& #[trigger] self.steps(scan, *meta, hash, res)
                },
    {
        let hash: u64 = match meta {
            Meta::Cursor { bitmap: Some(bitmap), .. } => hash_pixels(bitmap.pixels.as_slice()),
            _ => 0,
        };
        self.take_meta(scan, meta, hash)
    }

    /// This recorder after a frame, if any, of a buffer of the given time: the first one begins the
    /// recording.
    pub open spec fn with_frame(self, pts: u64, frame: Option<Vec<u8>>) -> Recorder {
        let begins = self.first_buffer_pts == 0;
        if frame is Some {
            Recorder {
                last_frame_data: frame,
                first_buffer_pts: if begins {
                    pts
                } else {
                    self.first_buffer_pts
                },
                first_cursor_pts: if begins {
                    pts
                } else {
                    self.first_cursor_pts
                },
                last_buffer_pts: self.relative(pts as nat) as u64,
                ..self
            }
        } else {
            self
        }
    }

    /// Takes the frame of a buffer, where it has one. Returns the buffer's time within the recording,
    /// and what is to be handed on with that time: the frame, where there is one. The first frame
    /// begins the recording.
    pub fn frame_to_push(&mut self, scan: BufferScan, frame: Option<Vec<u8>>) -> (res: Result<
        (u64, Option<Vec<u8>>),
        RecorderError,
    >)
        ensures
            match res {
                Err(error) => {
                    &&& scan.pts == 0
                    &&& error == RecorderError::MissingPts
                    &&& *final(self) == *old(self)
                },
                Ok((relative_pts, pushed)) => {
                    &&& scan.pts != 0
                    &&& relative_pts == old(self).relative(scan.pts as nat)
                    &&& match frame {
                        Some(data) => pushed matches Some(pushed) && pushed@ == data@,
                        None => pushed is None,
                    }
                    &&& *final(self) == old(self).with_frame(scan.pts, frame)
                    &&& 0 < old(self).first_cursor_pts <= scan.pts ==> relative_pts
                        + old(self).first_cursor_pts == scan.pts
                    &&& old(self).first_cursor_pts == 0 || scan.pts < old(self).first_cursor_pts
                        ==> relative_pts == 0
                    &&& frame is Some ==> final(self).last_frame_data == frame
                },
            },
            old(self).well_formed() ==> final(self).well_formed(),
    {
        if scan.pts == 0 {
            return Err(RecorderError::MissingPts);
        }
        let mut relative_pts: u64 = 0;
        if self.first_cursor_pts > 0 {
            relative_pts = scan.pts.saturating_sub(self.first_cursor_pts);
        }
        let mut pushed: Option<Vec<u8>> = None;
        if let Some(data) = &frame {
            let copy = data.clone();
            assert(copy@ =~= data@);
            pushed = Some(copy);
        }
        if frame.is_some() {
            self.last_frame_data = frame;
            if self.first_buffer_pts == 0 {
                self.first_buffer_pts = scan.pts;
                self.first_cursor_pts = scan.pts;
            }
            self.last_buffer_pts = relative_pts;
        }
        Ok((relative_pts, pushed))
    }

    /// Whether the position of the cursor in a buffer counts: there is one, there is a file for
    /// it, and there has been a frame.
    pub open spec fn follows_cursor(self, scan: BufferScan) -> bool {
        scan.cursor is Some && self.cursor_file is Some && self.first_buffer_pts > 0
    }

    /// Whether that position is written down at `now_ms`.
    pub open spec fn records_cursor(self, now_ms: u128, scan: BufferScan) -> bool {
        self.follows_cursor(scan) && record_due(
            self.cursor_file->0.last_write_pts as int,
            now_ms as int,
        )
    }

    /// This recorder after the position of the cursor in a buffer of the given time, at `now_ms`.
    pub open spec fn with_cursor(
        self,
        now_ms: u128,
        relative_pts: u64,
        scan: BufferScan,
    ) -> Recorder {
        if self.records_cursor(now_ms, scan) {
            Recorder {
                last_cursor_pts: relative_pts,
                cursor_file: Some(CursorFile { last_write_pts: now_ms }),
                ..self
            }
        } else if self.follows_cursor(scan) {
            Recorder { last_cursor_pts: relative_pts, ..self }
        } else {
            self
        }
    }

    /// Takes the position of the cursor in a buffer of the given time, at `now_ms`. Returns the
    /// bytes to append to the file of the cursor's path, if any.
    pub fn take_cursor(&mut self, now_ms: u128, relative_pts: u64, scan: BufferScan) -> (res:
        Option<Vec<u8>>)
        requires
            old(self).follows_cursor(scan) ==> old(self).cursor_file->0.last_write_pts <= now_ms,
        ensures
            *final(self) == old(self).with_cursor(now_ms, relative_pts, scan),
            res is Some <==> old(self).records_cursor(now_ms, scan),
            res matches Some(bytes) ==> bytes@ == cursor_record(relative_pts, scan).encoded(),
            res is Some <==> {
                &&& scan.cursor is Some
                &&& old(self).first_buffer_pts > 0
                &&& old(self).cursor_file matches Some(file) && now_ms - file.last_write_pts
                    >= CURSOR_INTERVAL_MS
            },
            res matches Some(bytes) ==> {
                &&& scan.cursor matches Some((x, y)) && says(
                    bytes@,
                    relative_pts,
                    x,
                    y,
                    scan.cursor_hash,
                )
            },
            old(self).well_formed() ==> final(self).well_formed(),
    {
        if self.first_buffer_pts == 0 {
            return None;
        }
        let (x, y) = match scan.cursor {
            Some(position) => position,
            None => {
                return None;
            },
        };
        match self.cursor_file.take() {
            Some(file) => {
                let mut file = file;
                self.last_cursor_pts = relative_pts;
                let bytes = file.write(now_ms, relative_pts, x, y, scan.cursor_hash);
                self.cursor_file = Some(file);
                bytes
            },
            None => None,
        }
    }

    /// Whether the stream has come to its end with this change of its state.
    pub open spec fn ends(before: StreamState, after: StreamState) -> bool {
        before == StreamState::Streaming && after == StreamState::Paused
    }

    /// What closes the recording when the stream has come to its end: the frame to repeat, where
    /// there is one, and the time at which it is shown for the last time, so that the recording is
    /// as long as the cursor's path. `None` if the stream goes on.
    pub fn state_changed(&self, before: StreamState, after: StreamState) -> (res: Option<
        (Option<&Vec<u8>>, u64),
    >)
        ensures
            res is Some <==> Self::ends(before, after),
            res is Some <==> before == StreamState::Streaming && after == StreamState::Paused,
            res matches Some((frame, pts)) ==> {
                &&& pts == self.last_cursor_pts
                &&& match self.last_frame_data {
                    Some(data) => frame == Some(&data),
                    None => frame is None,
                }
            },
    {
        if before != StreamState::Streaming || after != StreamState::Paused {
            return None;
        }
        Some((self.last_frame_data.as_ref(), self.last_cursor_pts))
    }
}

/// The record of the cursor's position in a buffer.
pub open spec fn cursor_record(relative_pts: u64, scan: BufferScan) -> CursorRecord {
    let position = scan.cursor->0;
    CursorRecord {
        pts: relative_pts,
        x: position.0,
        y: position.1,
        cursor_type_hash: scan.cursor_hash,
    }
}

/// Whether `hashes` holds, for each piece of a buffer with an image, the number of its pixels.
pub open spec fn numbered(metas: Seq<Meta>, hashes: Seq<u64>) -> bool {
    forall|k: int|
        0 <= k < metas.len() ==> ((#[trigger] metas[k]).bitmap() matches Some(bitmap) ==> is_hash_of(
            bitmap.pixels@,
            hashes[k],
        ))
}

/// Whether `after` is `before` once one piece of a buffer was dealt with: where it brought an image,
/// `saved` tells whether that could be saved.
pub open spec fn takes(
    before: Recorder,
    meta: Meta,
    hash: u64,
    saved: bool,
    after: Recorder,
) -> bool {
    if before.file_in(meta, hash) is Some {
        after.notes(before, hash, saved)
    } else {
        after == before
    }
}

/// Whether a recorder goes from `before` through `steps` while all pieces of a buffer are dealt
/// with, one after the other.
pub open spec fn takes_all(
    before: Recorder,
    metas: Seq<Meta>,
    hashes: Seq<u64>,
    saved: Seq<bool>,
    steps: Seq<Recorder>,
) -> bool {
    &&& hashes.len() == metas.len()
    &&& saved.len() == metas.len()
    &&& numbered(metas, hashes)
    &&& steps.len() == metas.len() + 1
    &&& steps[0] == before
    &&& forall|k: int|
        0 <= k < metas.len() ==> #[trigger] takes(
            steps[k],
            metas[k],
            hashes[k],
            saved[k],
            steps[k + 1],
        )
}

/// What is found in a buffer that carries `metas`, where `hashes` are the numbers of the images in
/// them.
pub open spec fn scanned(metas: Seq<Meta>, hashes: Seq<u64>) -> BufferScan
    decreases metas.len(),
{
    if metas.len() == 0 {
        BufferScan { pts: 0, cursor: None, cursor_hash: None }
    } else {
        scanned(metas.drop_last(), hashes.drop_last()).with(metas.last(), hashes.last())
    }
}


/// A message of the pipeline that writes the recording.
#[derive(Clone, Copy, Debug, PartialEq, Eq, Structural)]
pub enum BusMessage {
    Error,
    /// Everything has been written.
    Eos,
    Other,
}

/// Whether recording stops with a message of the pipeline: the pipeline is then shut down, and
/// whoever waits for the recording is told.
pub fn stops_recording(message: BusMessage) -> (res: bool)
    ensures
        res <==> message is Error || message is Eos,
{
    match message {
        BusMessage::Error => true,
        BusMessage::Eos => true,
        BusMessage::Other => false,
    }
}

/// What has come from the pipeline since it was last asked for.
#[derive(Clone, Copy, Debug, PartialEq, Eq, Structural)]
pub enum Received {
    /// The pipeline has stopped.
    Stopped,
    Nothing,
    /// The pipeline is gone.
    Disconnected,
}

/// What the loop that waits for a recording does next.
#[derive(Clone, Copy, Debug, PartialEq, Eq, Structural)]
pub enum LoopStep {
    /// It ends. A recording whose pipeline is gone deserves a warning.
    Quit { warn: bool },
    /// It lets the stream work.
    Iterate,
}

/// What the loop does next.
pub fn loop_step(received: Received) -> (res: LoopStep)
    ensures
        res == match received {
            Received::Stopped => LoopStep::Quit { warn: false },
            Received::Nothing => LoopStep::Iterate,
            Received::Disconnected => LoopStep::Quit { warn: true },
        },
{
    match received {
        Received::Stopped => LoopStep::Quit { warn: false },
        Received::Nothing => LoopStep::Iterate,
        Received::Disconnected => LoopStep::Quit { warn: true },
    }
}

/// Whether the loop goes on after the stream has worked, with this outcome.
pub fn loop_goes_on(outcome: i32) -> (res: bool)
    ensures
        res <==> outcome >= 0,
{
    outcome >= 0
}

/// What a parameter of the stream says of its contents.
#[derive(Clone, Copy, Debug, PartialEq, Eq, Structural)]
pub struct MediaFormat {
    pub is_video: bool,
    pub is_raw: bool,
}

/// Whether a changed parameter of the stream makes a pipeline: it is the format of the stream, it
/// can be read, and it is that of pictures that are not encoded.
pub fn makes_pipeline(param_given: bool, is_format: bool, media: Option<MediaFormat>) -> (res: bool)
    ensures
        res <==> param_given && is_format && (media matches Some(media) && media.is_video
            && media.is_raw),
{
    if !param_given || !is_format {
        return false;
    }
    match media {
        Some(media) => media.is_video && media.is_raw,
        None => false,
    }
}

/// So many bytes are enough for a picture exactly where there are four for each of its pixels, if
/// it has any and they are no more than memory can hold.
pub proof fn law_picture_takes_four_bytes_a_pixel(width: u32, height: u32, len: nat)
    requires
        height > 0,
        len <= usize::MAX,
    ensures
        picture_fits(width, height, len) <==> 4 * width * height <= len,
{
    assert(4 * width <= 4 * width * height) by (nonlinear_arith)
        requires
            height > 0,
    ;
}

/// The file for an image is the one for its pixels: bytes after them do not matter, and there is
/// none where bytes are missing.
pub proof fn law_file_shows_the_pixels(bitmap: CursorBitmap)
    ensures
        bitmap.pixels@.len() < 4 * bitmap.width * bitmap.height ==> bitmap.png() is None,
        bitmap.height > 0 && 4 * bitmap.width * bitmap.height <= bitmap.pixels@.len()
            <= usize::MAX ==> bitmap.png() == png_encoding(
            bitmap.pixels@.subrange(0, 4 * bitmap.width * bitmap.height),
            bitmap.width,
            bitmap.height,
        ),
{
    if bitmap.height > 0 && bitmap.pixels@.len() <= usize::MAX {
        law_picture_takes_four_bytes_a_pixel(bitmap.width, bitmap.height, bitmap.pixels@.len());
    }
}

/// Each piece of a buffer tells one thing and leaves the others: a header when the frame was made,
/// as a pattern; the cursor where it is, and its image where it has one.
pub proof fn law_piece_tells_one_thing(scan: BufferScan, meta: Meta, hash: u64)
    ensures
        meta matches Meta::Header { pts } ==> {
            let after = scan.with(meta, hash);
            &&& after.pts == pts as int % 0x1_0000_0000_0000_0000
            &&& after.cursor == scan.cursor
            &&& after.cursor_hash == scan.cursor_hash
        },
        meta matches Meta::Cursor { x, y, bitmap } ==> {
            let after = scan.with(meta, hash);
            &&& after.pts == scan.pts
            &&& after.cursor == Some((x, y))
            &&& bitmap is Some ==> after.cursor_hash == Some(hash)
            &&& bitmap is None ==> after.cursor_hash == scan.cursor_hash
        },
        meta is Other ==> scan.with(meta, hash) == scan,
{
}

/// The last position in a buffer is the one that counts; without one, there is none.
pub proof fn law_last_position_counts(metas: Seq<Meta>, hashes: Seq<u64>, at: int)
    requires
        hashes.len() == metas.len(),
        -1 <= at < metas.len(),
        at >= 0 ==> metas[at] is Cursor,
        forall|k: int| at < k < metas.len() ==> !(#[trigger] metas[k] is Cursor),
    ensures
        at >= 0 ==> scanned(metas, hashes).cursor == Some((metas[at]->x, metas[at]->y)),
        at < 0 ==> scanned(metas, hashes).cursor is None,
    decreases metas.len(),
{
    if at < metas.len() - 1 {
        assert(!(metas[metas.len() - 1] is Cursor));
        law_last_position_counts(metas.drop_last(), hashes.drop_last(), at);
    }
}

/// The last image in a buffer is the one that counts; without one, there is none.
pub proof fn law_last_image_counts(metas: Seq<Meta>, hashes: Seq<u64>, at: int)
    requires
        hashes.len() == metas.len(),
        -1 <= at < metas.len(),
        at >= 0 ==> metas[at] is Cursor && metas[at]->bitmap is Some,
        forall|k: int|
            at < k < metas.len() ==> !(#[trigger] metas[k] is Cursor && metas[k]->bitmap is Some),
    ensures
        at >= 0 ==> scanned(metas, hashes).cursor_hash == Some(hashes[at]),
        at < 0 ==> scanned(metas, hashes).cursor_hash is None,
    decreases metas.len(),
{
    if at < metas.len() - 1 {
        assert(!(metas[metas.len() - 1] is Cursor && metas[metas.len() - 1]->bitmap is Some));
        law_last_image_counts(metas.drop_last(), hashes.drop_last(), at);
    }
}

/// A buffer without a header has no time.
pub proof fn law_buffer_without_header_has_no_time(metas: Seq<Meta>, hashes: Seq<u64>)
    requires
        hashes.len() == metas.len(),
        forall|k: int| 0 <= k < metas.len() ==> !(#[trigger] metas[k] is Header),
    ensures
        scanned(metas, hashes).pts == 0,
    decreases metas.len(),
{
    if metas.len() > 0 {
        assert(!(metas[metas.len() - 1] is Header));
        law_buffer_without_header_has_no_time(metas.drop_last(), hashes.drop_last());
    }
}

/// The record of the cursor in a buffer, read again, says the time, the position and the image that
/// the buffer told.
pub proof fn law_cursor_record_says_what_the_buffer_told(
    relative_pts: u64,
    scan: BufferScan,
    x: i32,
    y: i32,
)
    requires
        scan.cursor == Some((x, y)),
    ensures
        says(cursor_record(relative_pts, scan).encoded(), relative_pts, x, y, scan.cursor_hash),
{
    law_record_says_what_was_written(cursor_record(relative_pts, scan));
}

/// A buffer's cursor is followed from the first frame on, where there is a file for it: the time of
/// the recording then goes on to that of the buffer, and the time of the last record to the present
/// exactly where the last one is long enough ago. Nothing else changes.
pub proof fn law_cursor_is_followed(
    recorder: Recorder,
    now_ms: u128,
    relative_pts: u64,
    scan: BufferScan,
    file: CursorFile,
)
    requires
        recorder.cursor_file == Some(file),
        recorder.first_buffer_pts > 0,
        scan.cursor is Some,
    ensures
        ({
            let after = recorder.with_cursor(now_ms, relative_pts, scan);
            &&& after.last_cursor_pts == relative_pts
            &&& after.cursor_file matches Some(after_file) && {
                &&& now_ms - file.last_write_pts >= CURSOR_INTERVAL_MS ==> after_file.last_write_pts
                    == now_ms
                &&& now_ms - file.last_write_pts < CURSOR_INTERVAL_MS ==> after_file == file
            }
            &&& recorder.records_cursor(now_ms, scan) <==> now_ms - file.last_write_pts
                >= CURSOR_INTERVAL_MS
            &&& after == (Recorder {
                last_cursor_pts: after.last_cursor_pts,
                cursor_file: after.cursor_file,
                ..recorder
            })
        }),
{
}

/// Without a position, a file or a first frame, the cursor is not followed, and nothing changes.
pub proof fn law_cursor_is_not_followed(
    recorder: Recorder,
    now_ms: u128,
    relative_pts: u64,
    scan: BufferScan,
)
    requires
        recorder.cursor_file is None || recorder.first_buffer_pts == 0 || scan.cursor is None,
    ensures
        !recorder.records_cursor(now_ms, scan),
        recorder.with_cursor(now_ms, relative_pts, scan) == recorder,
{
}

/// A frame is kept to be repeated at the end, with its time within the recording; it begins the
/// recording if no frame came before it, and does not move the beginning otherwise. Nothing else
/// changes, and without a frame nothing does.
pub proof fn law_frame_is_kept(recorder: Recorder, pts: u64, frame: Option<Vec<u8>>)
    requires
        recorder.well_formed(),
    ensures
        ({
            let after = recorder.with_frame(pts, frame);
            let first = recorder.first_buffer_pts;
            &&& frame is None ==> after == recorder
            &&& frame is Some ==> {
                &&& after.last_frame_data == frame
                &&& first == 0 ==> after.first_buffer_pts == pts && after.first_cursor_pts == pts
                    && after.last_buffer_pts == 0
                &&& first > 0 ==> after.first_buffer_pts == first && after.first_cursor_pts == first
                &&& 0 < first <= pts ==> after.last_buffer_pts + first == pts
                &&& pts < first ==> after.last_buffer_pts == 0
                &&& after.cursor_hashes == recorder.cursor_hashes
                &&& after.last_cursor_pts == recorder.last_cursor_pts
                &&& after.cursor_file == recorder.cursor_file
            }
        }),
{
}

/// An image is asked for exactly while its number is not among those that were saved.
pub proof fn law_unsaved_images_are_asked_for(recorder: Recorder, bitmap: CursorBitmap, hash: u64)
    ensures
        recorder.cursor_hashes@.contains(hash) ==> recorder.to_save(bitmap, hash) is None,
        !recorder.cursor_hashes@.contains(hash) ==> recorder.to_save(bitmap, hash) == bitmap.png(),
{
}

/// A piece of a buffer brings an image exactly where it carries one that was not saved before and
/// has a file; that file and the image's number are then what it brings.
pub proof fn law_piece_brings_its_image(
    recorder: Recorder,
    scan: BufferScan,
    meta: Meta,
    hash: u64,
    step: MetaStep,
)
    requires
        recorder.steps(scan, meta, hash, step),
    ensures
        step.scan == scan.with(meta, hash),
        step.image is Some <==> {
            &&& meta matches Meta::Cursor { bitmap, .. }
            &&& bitmap matches Some(bitmap)
            &&& bitmap.png() is Some
            &&& !recorder.cursor_hashes@.contains(hash)
        },
        step.image matches Some(image) ==> {
            &&& image.hash == hash
            &&& meta matches Meta::Cursor { bitmap, .. }
            &&& bitmap matches Some(bitmap)
            &&& bitmap.png() == Some(image.file@)
        },
{
}

/// Once an image could be saved, its number is among those that were; no other number comes or
/// goes, and none where it could not.
pub proof fn law_saved_image_is_noted(
    before: Recorder,
    after: Recorder,
    hash: u64,
    saved: bool,
    other: u64,
)
    requires
        after.notes(before, hash, saved),
    ensures
        after.cursor_hashes@.contains(other) <==> before.cursor_hashes@.contains(other) || (saved
            && other == hash),
        before.cursor_hashes@.no_duplicates() ==> after.cursor_hashes@.no_duplicates(),
{
    let (old_hashes, hashes) = (before.cursor_hashes@, after.cursor_hashes@);
    if saved && !old_hashes.contains(hash) {
        assert(hashes[old_hashes.len() as int] == hash);
        if old_hashes.contains(other) {
            let k = choose|k: int| 0 <= k < old_hashes.len() && old_hashes[k] == other;
            assert(hashes[k] == other);
        }
    }
}

/// A recording begins at zero: before its first frame, and with it, every time within the recording
/// is zero.
pub proof fn law_recording_begins_at_zero(recorder: Recorder, pts: nat)
    requires
        recorder.first_cursor_pts == 0 || pts == recorder.first_cursor_pts,
    ensures
        recorder.relative(pts) == 0,
{
}

/// Times within the recording follow the order of the buffers' times, and their distances after
/// the first frame.
pub proof fn law_times_keep_order_and_distance(recorder: Recorder, a: nat, b: nat)
    requires
        a <= b,
    ensures
        recorder.relative(a) <= recorder.relative(b),
        0 < recorder.first_cursor_pts <= a ==> recorder.relative(b) - recorder.relative(a) == b - a,
{
}

/// Frames whose buffers' times do not go back are handed on with times that do not go back either,
/// the first one included.
pub proof fn law_frames_come_in_order(
    recorder: Recorder,
    a: u64,
    b: u64,
    frame: Option<Vec<u8>>,
)
    requires
        recorder.well_formed(),
        a <= b,
    ensures
        recorder.relative(a as nat) <= recorder.with_frame(a, frame).relative(b as nat),
{
}

/// When and where the cursor is in a buffer does not depend on its images, nor does whether it has
/// one.
pub proof fn law_scan_depends_on_images_by_number_only(
    metas: Seq<Meta>,
    hashes: Seq<u64>,
    others: Seq<u64>,
)
    requires
        hashes.len() == metas.len(),
        others.len() == metas.len(),
    ensures
        scanned(metas, hashes).pts == scanned(metas, others).pts,
        scanned(metas, hashes).cursor == scanned(metas, others).cursor,
        scanned(metas, hashes).cursor_hash is Some <==> scanned(metas, others).cursor_hash is Some,
    decreases metas.len(),
{
    if metas.len() > 0 {
        law_scan_depends_on_images_by_number_only(
            metas.drop_last(),
            hashes.drop_last(),
            others.drop_last(),
        );
    }
}

/// The last header in a buffer is the one that counts.
pub proof fn law_last_header_counts(metas: Seq<Meta>, hashes: Seq<u64>, at: int)
    requires
        hashes.len() == metas.len(),
        0 <= at < metas.len(),
        metas[at] is Header,
        forall|k: int| at < k < metas.len() ==> !(#[trigger] metas[k] is Header),
    ensures
        scanned(metas, hashes).pts == as_unsigned(metas[at]->pts as int),
    decreases metas.len(),
{
    if at < metas.len() - 1 {
        assert(!(metas[metas.len() - 1] is Header));
        law_last_header_counts(metas.drop_last(), hashes.drop_last(), at);
    }
}

/// Images that have been saved stay known, in their order, and nothing else of the recording
/// changes while a buffer is looked at.
pub proof fn law_saved_images_stay_known(
    before: Recorder,
    metas: Seq<Meta>,
    hashes: Seq<u64>,
    saved: Seq<bool>,
    steps: Seq<Recorder>,
    i: int,
    j: int,
)
    requires
        takes_all(before, metas, hashes, saved, steps),
        0 <= i <= j <= metas.len(),
    ensures
        steps[i].cursor_hashes@.is_prefix_of(steps[j].cursor_hashes@),
        steps[j] == (Recorder { cursor_hashes: steps[j].cursor_hashes, ..steps[i] }),
    decreases j - i,
{
    if i < j {
        law_saved_images_stay_known(before, metas, hashes, saved, steps, i, j - 1);
        let k = j - 1;
        assert(takes(steps[k], metas[k], hashes[k], saved[k], steps[k + 1]));
    }
}

/// An image is saved once: where a piece brought it and it could be saved, no later piece with the
/// same image brings it again.
pub proof fn law_image_is_saved_once(
    before: Recorder,
    metas: Seq<Meta>,
    hashes: Seq<u64>,
    saved: Seq<bool>,
    steps: Seq<Recorder>,
    i: int,
    j: int,
)
    requires
        takes_all(before, metas, hashes, saved, steps),
        0 <= i < j < metas.len(),
        steps[i].file_in(metas[i], hashes[i]) is Some,
        saved[i],
        hashes[j] == hashes[i],
    ensures
        steps[j].file_in(metas[j], hashes[j]) is None,
{
    assert(takes(steps[i], metas[i], hashes[i], saved[i], steps[i + 1]));
    law_saved_images_stay_known(before, metas, hashes, saved, steps, i + 1, j);
    let known = steps[i + 1].cursor_hashes@;
    assert(known[known.len() - 1] == hashes[i]);
    assert(steps[j].cursor_hashes@[known.len() - 1] == hashes[i]);
}

/// Whether a recorder has the beginning that `before` has after a frame, if any, of a buffer of the
/// given time.
pub open spec fn begins_like(
    after: Recorder,
    before: Recorder,
    pts: u64,
    frame: Option<Vec<u8>>,
) -> bool {
    let framed = before.with_frame(pts, frame);
    &&& after.first_buffer_pts == framed.first_buffer_pts
    &&& after.first_cursor_pts == framed.first_cursor_pts
}

/// Only frames begin a recording: neither cursor images nor positions of the cursor do.
pub proof fn law_only_frames_begin_a_recording(
    before: Recorder,
    seen: Recorder,
    pts: u64,
    frame: Option<Vec<u8>>,
    now_ms: u128,
    relative_pts: u64,
    scan: BufferScan,
)
    requires
        seen == (Recorder { cursor_hashes: seen.cursor_hashes, ..before }),
    ensures
        begins_like(seen.with_frame(pts, frame), before, pts, frame),
        begins_like(
            seen.with_frame(pts, frame).with_cursor(now_ms, relative_pts, scan),
            before,
            pts,
            frame,
        ),
{
}

/// A recording begins with the first buffer that has a frame, here the one numbered `first`. The
/// frame of each buffer from it on is handed on, and the cursor is written down, with the time
/// that has passed since; before it, there is no frame to hand on, and the cursor is not followed.
/// `steps` are the recorder before each buffer.
pub proof fn law_recording_starts_with_first_frame(
    steps: Seq<Recorder>,
    pts: Seq<u64>,
    frames: Seq<Option<Vec<u8>>>,
    first: int,
    i: int,
    scan: BufferScan,
)
    requires
        steps.len() == pts.len() + 1,
        frames.len() == pts.len(),
        steps[0].well_formed(),
        steps[0].first_buffer_pts == 0,
        forall|k: int|
            0 <= k < pts.len() ==> begins_like(
                #[trigger] steps[k + 1],
                steps[k],
                pts[k],
                frames[k],
            ),
        forall|k: int| 0 <= k < pts.len() ==> 0 < #[trigger] pts[k],
        forall|k: int, l: int| 0 <= k < l < pts.len() ==> pts[k] < pts[l],
        0 <= first < pts.len(),
        frames[first] is Some,
        forall|k: int| 0 <= k < first ==> (#[trigger] frames[k]) is None,
        0 <= i < pts.len(),
    ensures
        i < first ==> {
            &&& frames[i] is None
            &&& !steps[i].with_frame(pts[i], frames[i]).follows_cursor(scan)
        },
        i >= first ==> {
            &&& steps[i].relative(pts[i] as nat) == pts[i] - pts[first]
            &&& steps[i].with_frame(pts[i], frames[i]).first_buffer_pts > 0
        },
{
    lemma_beginning(steps, pts, frames, first, i);
    if i > first {
        assert(pts[first] < pts[i]);
    }
}

proof fn lemma_beginning(
    steps: Seq<Recorder>,
    pts: Seq<u64>,
    frames: Seq<Option<Vec<u8>>>,
    first: int,
    i: int,
)
    requires
        steps.len() == pts.len() + 1,
        frames.len() == pts.len(),
        steps[0].well_formed(),
        steps[0].first_buffer_pts == 0,
        forall|k: int|
            0 <= k < pts.len() ==> begins_like(
                #[trigger] steps[k + 1],
                steps[k],
                pts[k],
                frames[k],
            ),
        forall|k: int| 0 <= k < pts.len() ==> 0 < #[trigger] pts[k],
        0 <= first < pts.len(),
        frames[first] is Some,
        forall|k: int| 0 <= k < first ==> (#[trigger] frames[k]) is None,
        0 <= i <= pts.len(),
    ensures
        steps[i].first_buffer_pts == steps[i].first_cursor_pts,
        steps[i].first_buffer_pts == if i <= first {
            0
        } else {
            pts[first]
        },
    decreases i,
{
    if i > 0 {
        lemma_beginning(steps, pts, frames, first, i - 1);
        assert(begins_like(steps[(i - 1) + 1], steps[i - 1], pts[i - 1], frames[i - 1]));
        assert(0 < pts[first]);
        if i - 1 < first {
            assert(frames[i - 1] is None);
        }
    }
}

} // verus!
