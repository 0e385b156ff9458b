//! The recording that is being edited: its effects, its cursor, and what to change when they do.
use crate::cursor::{
    law_every_image_is_listed, law_no_image_is_listed_twice, read_cursor_entries, record_at, record_count, shows_new_image, CursorEntry};
use crate::double::{lemma_exact, nearest_double, Double};
use crate::rdp::{
    get_position_at_time, law_larger_epsilon_keeps_fewer,
    law_path_is_split_at_farthest_sample, law_simplification_is_unique,
    law_simplification_keeps_ends_and_order, measures, positioned, ramer_douglas_peucker,
    simplified, zero,
};
use crate::text::{decimal, push_decimal};
use crate::zoom::{
    show_keyframes, shown, unshow_keyframes, unshown, ZoomBase, ZoomCrop, ZoomEffect,
    ZoomKeyframe, ZOOM_ANIMATION_NSEC,
};
use vstd::arithmetic::div_mod::lemma_fundamental_div_mod;
use vstd::prelude::*;

verus! {

/// The priority of the picture's layer while the cursor is drawn on top of it.
pub const VIDEO_PRIORITY: u32 = 100;

/// How much the cursor's path is simplified at first, in pixels.
pub const DEFAULT_SMOOTHING: u64 = 50;

/// By how much cursor images are enlarged at first.
pub const DEFAULT_CURSOR_SCALE: u64 = 3;

/// A ratio of two integers.
#[derive(Clone, Copy, Debug, PartialEq, Eq, Structural)]
pub struct Fraction {
    pub numer: i32,
    pub denom: i32,
}

/// A change of the visibility of a cursor image.
#[derive(Clone, Copy, Debug, PartialEq, Eq, Structural)]
pub enum CursorKeyframe {
    /// Forget all keyframes of the image.
    Clear { hash: u64 },
    /// Hide the image from this time on.
    Hide { hash: u64, time: u64 },
    /// Show the image from this time on.
    Show { hash: u64, time: u64 },
}

/// What showing or hiding the cursor takes: a new priority for the picture's layer, if any, and
/// changes of the images' visibility.
#[derive(Debug)]
pub struct CursorPlan {
    pub video_priority: Option<u32>,
    pub keyframes: Vec<CursorKeyframe>,
}

/// A layer to add for a cursor image.
#[derive(Clone, Copy, Debug, PartialEq, Eq, Structural)]
pub struct CursorLayer {
    pub priority: u32,
    pub hash: u64,
}

/// What setting up the cursor comes to.
#[derive(Debug)]
pub enum CursorSetup {
    /// There is no cursor file: the cursor is switched off, which takes this plan.
    Missing(CursorPlan),
    /// The cursor was switched off before.
    Disabled,
    /// These layers are to be added, in this order.
    Layers(Vec<CursorLayer>),
}

/// The position of the cursor in one frame.
#[derive(Clone, Copy, Debug)]
pub struct CursorFrame {
    pub time: u64,
    pub x: Double,
    pub y: Double,
}

/// Why a change of the recording was refused.
#[derive(Clone, Copy, Debug, PartialEq, Eq, Structural)]
pub enum VideoError {
    /// There is no effect with this number.
    UnknownZoom(usize),
}

impl VideoError {
    pub fn message(&self) -> (res: String)
        ensures
            self matches VideoError::UnknownZoom(id) ==> res@ == "cant find zoom with id "@
                + decimal(*id as nat),
    {
        match self {
            VideoError::UnknownZoom(id) => {
                let mut text = "cant find zoom with id ".to_owned();
                push_decimal(&mut text, *id as u64);
                text
            },
        }
    }
}

/// The recording that is being edited.
#[derive(Debug)]
pub struct Video {
    pub recording_file: String,
    pub video_width: u32,
    pub video_height: u32,
    pub video_framerate: Option<Fraction>,
    /// The length in nanoseconds, where it is known.
    pub video_duration: Option<u64>,
    pub zoom_effects: Vec<ZoomEffect>,
    pub cursor_enabled: bool,
    pub cursor_smoothing: Double,
    pub cursor_show: bool,
    /// The cursor images that have a layer.
    pub cursor_types: Vec<u64>,
    /// The samples that the smoothed path keeps.
    pub cursor_used_entries: Vec<usize>,
    pub cursor_entries: Vec<CursorEntry>,
}

/// The changes that one sample of the cursor's path makes to the visibility of the images, and the
/// image that was last shown after it. `types` are the images that have a layer.
pub open spec fn visibility_step(
    types: Seq<u64>,
    shown: Option<u64>,
    entry: CursorEntry,
) -> (Seq<CursorKeyframe>, Option<u64>) {
    let time = entry.pts.truncated() as u64;
    match entry.cursor_type_hash {
        None => (Seq::empty(), shown),
        Some(hash) => if shown == Some(hash) {
            (Seq::empty(), shown)
        } else {
            let hidden = match shown {
                None => Seq::empty(),
                Some(before) => seq![CursorKeyframe::Hide { hash: before, time }],
            };
            if types.contains(hash) {
                (hidden.push(CursorKeyframe::Show { hash, time }), Some(hash))
            } else {
                (hidden, shown)
            }
        },
    }
}

/// The changes that the samples of a path make one after the other, and the image last shown.
pub open spec fn visibility_steps(
    types: Seq<u64>,
    entries: Seq<CursorEntry>,
) -> (Seq<CursorKeyframe>, Option<u64>)
    decreases entries.len(),
{
    if entries.len() == 0 {
        (Seq::empty(), None)
    } else {
        let (keyframes, shown) = visibility_steps(types, entries.drop_last());
        let (more, last) = visibility_step(types, shown, entries.last());
        (keyframes + more, last)
    }
}

/// Every image hidden from the beginning on.
pub open spec fn all_hidden(types: Seq<u64>) -> Seq<CursorKeyframe> {
    Seq::new(types.len(), |i: int| CursorKeyframe::Hide { hash: types[i], time: 0 })
}

/// Every image hidden throughout.
pub open spec fn all_cleared(types: Seq<u64>) -> Seq<CursorKeyframe> {
    Seq::new(
        2 * types.len(),
        |i: int|
            if i % 2 == 0 {
                CursorKeyframe::Clear { hash: types[i / 2] }
            } else {
                CursorKeyframe::Hide { hash: types[i / 2], time: 0 }
            },
    )
}

impl CursorPlan {
    /// Whether this plan shows or hides the cursor of the given recording.
    pub open spec fn applies(
        self,
        show: bool,
        types: Seq<u64>,
        entries: Seq<CursorEntry>,
    ) -> bool {
        if show {
            &&& self.video_priority == Some(VIDEO_PRIORITY)
            &&& self.keyframes@ == all_hidden(types) + visibility_steps(types, entries).0
        } else {
            &&& self.video_priority == if types.len() == 0 {
                Some(0u32)
            } else {
                None
            }
            &&& self.keyframes@ == all_cleared(types)
        }
    }
}

impl Video {
    /// Whether the smoothed path is made of samples that there are.
    pub open spec fn well_formed(self) -> bool {
        forall|k: int|
            0 <= k < self.cursor_used_entries@.len() ==> #[trigger] self.cursor_used_entries@[k]
                < self.cursor_entries@.len()
    }

    /// The length of the recording, zero where it is not known.
    pub open spec fn length(self) -> nat {
        match self.video_duration {
            Some(duration) => duration as nat,
            None => 0,
        }
    }

    /// A recording with nothing applied to it yet.
    pub fn new(
        recording_file: String,
        video_width: u32,
        video_height: u32,
        video_framerate: Fraction,
        video_duration: Option<u64>,
    ) -> (res: Self)
        ensures
            res.recording_file == recording_file,
            res.video_width == video_width,
            res.video_height == video_height,
            res.video_framerate == Some(video_framerate),
            res.video_duration == video_duration,
            res.zoom_effects@.len() == 0,
            res.cursor_enabled,
            res.cursor_smoothing.is_integer(DEFAULT_SMOOTHING as int),
            res.cursor_show,
            res.cursor_types@.len() == 0,
            res.cursor_used_entries@.len() == 0,
            res.cursor_entries@.len() == 0,
            res.well_formed(),
    {
        proof {
            lemma_exact(DEFAULT_SMOOTHING as nat);
        }
        Video {
            recording_file,
            video_width,
            video_height,
            video_framerate: Some(video_framerate),
            video_duration,
            zoom_effects: Vec::new(),
            cursor_enabled: true,
            cursor_smoothing: Double::from_u64(DEFAULT_SMOOTHING),
            cursor_show: true,
            cursor_types: Vec::new(),
            cursor_used_entries: Vec::new(),
            cursor_entries: Vec::new(),
        }
    }

    pub fn recording_file(&self) -> (res: String)
        ensures
            res@ == self.recording_file@,
    {
        self.recording_file.clone()
    }

    pub fn duration(&self) -> (res: Option<u64>)
        ensures
            res == self.video_duration,
    {
        self.video_duration
    }

    pub fn duration_nsec(&self) -> (res: u64)
        ensures
            res == self.length(),
            self.video_duration matches Some(duration) ==> res == duration,
            self.video_duration is None ==> res == 0,
    {
        match self.video_duration {
            Some(duration) => duration,
            None => 0,
        }
    }

    pub fn cursor_smoothing(&self) -> (res: Double)
        ensures
            res == self.cursor_smoothing,
    {
        self.cursor_smoothing
    }

    pub fn cursor_show(&self) -> (res: bool)
        ensures
            res == self.cursor_show,
    {
        self.cursor_show
    }

    pub fn framerate(&self) -> (res: Option<Fraction>)
        ensures
            res == self.video_framerate,
    {
        self.video_framerate
    }

    pub fn zoom_effects(&self) -> (res: Vec<ZoomEffect>)
        ensures
            res@ == self.zoom_effects@,
    {
        let res = self.zoom_effects.clone();
        assert(res@ =~= self.zoom_effects@);
        res
    }

    pub fn zoom_effect(&self, effect_index: usize) -> (res: Option<&ZoomEffect>)
        ensures
            res == if effect_index < self.zoom_effects@.len() {
                Some(&self.zoom_effects@[effect_index as int])
            } else {
                None
            },
    {
        if effect_index < self.zoom_effects.len() {
            Some(&self.zoom_effects[effect_index])
        } else {
            None
        }
    }

    pub fn zoom_effect_mut(&mut self, effect_index: usize) -> (res: Option<&mut ZoomEffect>)
        ensures
            res is Some <==> effect_index < old(self).zoom_effects@.len(),
            res is None ==> *final(self) == *old(self),
            res matches Some(effect) ==> {
                &&& *effect == old(self).zoom_effects@[effect_index as int]
                &&& final(self).zoom_effects@ == old(self).zoom_effects@.update(
                    effect_index as int,
                    *final(effect),
                )
                &&& *final(self) == (Video {
                    zoom_effects: final(self).zoom_effects,
                    ..*old(self)
                })
            },
    {
        if effect_index < self.zoom_effects.len() {
            Some(&mut self.zoom_effects[effect_index])
        } else {
            None
        }
    }

    /// The keyframes that show `zoom` in this recording.
    pub fn show_zoom(
        &self,
        zoom: &ZoomEffect,
        base: &ZoomBase,
        target: &ZoomCrop,
    ) -> (res: Vec<ZoomKeyframe>)
        requires
            zoom.has_room(),
        ensures
            res@ == shown(*zoom, self.length(), *base, *target),
    {
        show_keyframes(zoom, self.duration_nsec(), base, target)
    }

    /// The keyframes that take `zoom` back in this recording.
    pub fn unshow_zoom(&self, zoom: &ZoomEffect) -> (res: Vec<ZoomKeyframe>)
        requires
            zoom.has_room(),
        ensures
            res@ == unshown(*zoom, self.length()),
    {
        unshow_keyframes(zoom, self.duration_nsec())
    }

    /// Adds an effect. Returns the keyframes that show it.
    pub fn add_zoom(
        &mut self,
        zoom: ZoomEffect,
        base: &ZoomBase,
        target: &ZoomCrop,
    ) -> (res: Vec<ZoomKeyframe>)
        requires
            zoom.has_room(),
        ensures
            res@ == shown(zoom, old(self).length(), *base, *target),
            final(self).zoom_effects@ == old(self).zoom_effects@.push(zoom),
            *final(self) == (Video { zoom_effects: final(self).zoom_effects, ..*old(self) }),
    {
        let keyframes = show_keyframes(&zoom, self.duration_nsec(), base, target);
        self.zoom_effects.push(zoom);
        keyframes
    }

    /// Changes what an effect enlarges, and by how much. Returns the keyframes that show it.
    pub fn update_zoom_geometry(
        &mut self,
        zoom_id: usize,
        factor: Double,
        pos_x: Double,
        pos_y: Double,
        base: &ZoomBase,
        target: &ZoomCrop,
    ) -> (res: Result<Vec<ZoomKeyframe>, VideoError>)
        requires
            zoom_id < old(self).zoom_effects@.len() ==> old(
                self,
            ).zoom_effects@[zoom_id as int].has_room(),
        ensures
            match res {
                Err(error) => {
                    &&& error == VideoError::UnknownZoom(zoom_id)
                    &&& zoom_id >= old(self).zoom_effects@.len()
                    &&& *final(self) == *old(self)
                },
                Ok(keyframes) => {
                    let zoom = ZoomEffect {
                        factor,
                        pos_x,
                        pos_y,
                        ..old(self).zoom_effects@[zoom_id as int]
                    };
                    &&& zoom_id < old(self).zoom_effects@.len()
                    &&& keyframes@ == shown(zoom, old(self).length(), *base, *target)
                    &&& final(self).zoom_effects@ == old(self).zoom_effects@.update(
                        zoom_id as int,
                        zoom,
                    )
                    &&& *final(self) == (Video {
                        zoom_effects: final(self).zoom_effects,
                        ..*old(self)
                    })
                },
            },
    {
        let duration: u64 = self.duration_nsec();
        let zoom = match self.zoom_effect_mut(zoom_id) {
            Some(zoom) => zoom,
            None => {
                return Err(VideoError::UnknownZoom(zoom_id));
            },
        };
        zoom.factor = factor;
        zoom.pos_x = pos_x;
        zoom.pos_y = pos_y;
        Ok(show_keyframes(zoom, duration, base, target))
    }

    /// Takes an effect back whose range was different before. Returns the keyframes that do so,
    /// or nothing where the range is the same. The effect is then shown by
    /// [`Video::show_zoom_effect`].
    pub fn update_zoom_range(
        &self,
        zoom_id: usize,
        previous_start_nsec: u64,
        previous_end_nsec: u64,
    ) -> (res: Result<Option<Vec<ZoomKeyframe>>, VideoError>)
        requires
            zoom_id < self.zoom_effects@.len() && !(self.zoom_effects@[zoom_id as int].start_nsec
                == previous_start_nsec && self.zoom_effects@[zoom_id as int].end_nsec
                == previous_end_nsec) ==> previous_end_nsec + ZOOM_ANIMATION_NSEC <= u64::MAX,
        ensures
            match res {
                Err(error) => {
                    &&& error == VideoError::UnknownZoom(zoom_id)
                    &&& zoom_id >= self.zoom_effects@.len()
                },
                Ok(keyframes) => {
                    let zoom = self.zoom_effects@[zoom_id as int];
                    let previous = ZoomEffect {
                        start_nsec: previous_start_nsec,
                        end_nsec: previous_end_nsec,
                        ..zoom
                    };
                    &&& zoom_id < self.zoom_effects@.len()
                    &&& keyframes is None <==> zoom.start_nsec == previous_start_nsec
                        && zoom.end_nsec == previous_end_nsec
                    &&& keyframes matches Some(keyframes) ==> keyframes@ == unshown(
                        previous,
                        self.length(),
                    )
                },
            },
    {
        let zoom = match self.zoom_effect(zoom_id) {
            Some(zoom) => zoom,
            None => {
                return Err(VideoError::UnknownZoom(zoom_id));
            },
        };
        if zoom.start_nsec == previous_start_nsec && zoom.end_nsec == previous_end_nsec {
            return Ok(None);
        }
        // recreate the previous zoom to unshow it

        let mut previous = *zoom;
        previous.start_nsec = previous_start_nsec;
        previous.end_nsec = previous_end_nsec;
        Ok(Some(self.unshow_zoom(&previous)))
    }

    /// The keyframes that show an effect, if there is one with this number.
    pub fn show_zoom_effect(
        &self,
        zoom_id: usize,
        base: &ZoomBase,
        target: &ZoomCrop,
    ) -> (res: Option<Vec<ZoomKeyframe>>)
        requires
            zoom_id < self.zoom_effects@.len() ==> self.zoom_effects@[zoom_id as int].has_room(),
        ensures
            res is Some <==> zoom_id < self.zoom_effects@.len(),
            res matches Some(keyframes) ==> keyframes@ == shown(
                self.zoom_effects@[zoom_id as int],
                self.length(),
                *base,
                *target,
            ),
    {
        match self.zoom_effect(zoom_id) {
            Some(zoom) => Some(self.show_zoom(zoom, base, target)),
            None => None,
        }
    }

    /// Removes an effect. Returns the keyframes that take it back.
    pub fn remove_zoom(&mut self, zoom_id: usize) -> (res: Result<Vec<ZoomKeyframe>, VideoError>)
        requires
            zoom_id < old(self).zoom_effects@.len() ==> old(
                self,
            ).zoom_effects@[zoom_id as int].has_room(),
        ensures
            match res {
                Err(error) => {
                    &&& error == VideoError::UnknownZoom(zoom_id)
                    &&& zoom_id >= old(self).zoom_effects@.len()
                    &&& *final(self) == *old(self)
                },
                Ok(keyframes) => {
                    &&& zoom_id < old(self).zoom_effects@.len()
                    &&& keyframes@ == unshown(
                        old(self).zoom_effects@[zoom_id as int],
                        old(self).length(),
                    )
                    &&& final(self).zoom_effects@ == old(self).zoom_effects@.remove(zoom_id as int)
                    &&& *final(self) == (Video {
                        zoom_effects: final(self).zoom_effects,
                        ..*old(self)
                    })
                },
            },
    {
        let keyframes = match self.zoom_effect(zoom_id) {
            Some(zoom) => self.unshow_zoom(zoom),
            None => {
                return Err(VideoError::UnknownZoom(zoom_id));
            },
        };
        self.zoom_effects.remove(zoom_id);
        Ok(keyframes)
    }

    /// The changes that show at each time the cursor image of that time.
    pub fn update_cursor_types(&self) -> (res: Vec<CursorKeyframe>)
        ensures
            res@ == all_hidden(self.cursor_types@) + visibility_steps(
                self.cursor_types@,
                self.cursor_entries@,
            ).0,
    {
        let mut keyframes: Vec<CursorKeyframe> = Vec::new();
        let mut i: usize = 0;
        while i < self.cursor_types.len()
            invariant
                i <= self.cursor_types@.len(),
                keyframes@ == all_hidden(self.cursor_types@.take(i as int)),
            decreases self.cursor_types@.len() - i,
        {
            keyframes.push(CursorKeyframe::Hide { hash: self.cursor_types[i], time: 0 });
            i = i + 1;
            assert(keyframes@ =~= all_hidden(self.cursor_types@.take(i as int)));
        }
        assert(self.cursor_types@.take(i as int) =~= self.cursor_types@);

        let mut prev_hash: Option<u64> = None;
        let mut k: usize = 0;
        assert(self.cursor_entries@.take(0) =~= Seq::empty());
        assert(keyframes@ =~= all_hidden(self.cursor_types@) + visibility_steps(
            self.cursor_types@,
            self.cursor_entries@.take(0),
        ).0);
        while k < self.cursor_entries.len()
            invariant
                k <= self.cursor_entries@.len(),
                keyframes@ == all_hidden(self.cursor_types@) + visibility_steps(
                    self.cursor_types@,
                    self.cursor_entries@.take(k as int),
                ).0,
                prev_hash == visibility_steps(
                    self.cursor_types@,
                    self.cursor_entries@.take(k as int),
                ).1,
            decreases self.cursor_entries@.len() - k,
        {
            let cursor = self.cursor_entries[k];
            let ghost before = keyframes@;
            let ghost step = visibility_step(self.cursor_types@, prev_hash, cursor);
            proof {
                let entries = self.cursor_entries@.take(k + 1);
                assert(entries.drop_last() =~= self.cursor_entries@.take(k as int));
                assert(entries.last() == cursor);
            }
            if let Some(hash) = cursor.cursor_type_hash {
                if !is_hash(prev_hash, hash) {
                    let time: u64 = cursor.pts.to_u64();
                    if let Some(prev) = prev_hash {
                        keyframes.push(CursorKeyframe::Hide { hash: prev, time });
                    }
                    if contains(&self.cursor_types, hash) {
                        keyframes.push(CursorKeyframe::Show { hash, time });
                        prev_hash = Some(hash);
                    }
                }
            }
            assert(keyframes@ =~= before + step.0);
            assert(before + step.0 =~= all_hidden(self.cursor_types@) + visibility_steps(
                self.cursor_types@,
                self.cursor_entries@.take(k + 1),
            ).0);
            k = k + 1;
        }
        assert(self.cursor_entries@.take(k as int) =~= self.cursor_entries@);
        keyframes
    }

    /// Shows or hides the cursor. Returns what that takes.
    pub fn set_cursor_show(&mut self, value: bool) -> (res: CursorPlan)
        ensures
            res.applies(value, old(self).cursor_types@, old(self).cursor_entries@),
            value ==> res.video_priority == Some(VIDEO_PRIORITY),
            !value && old(self).cursor_types@.len() == 0 ==> res.video_priority == Some(0u32),
            !value && old(self).cursor_types@.len() > 0 ==> res.video_priority is None,
            *final(self) == (Video { cursor_show: value, ..*old(self) }),
    {
        self.cursor_show = value;
        if value {
            return CursorPlan {
                video_priority: Some(VIDEO_PRIORITY),
                keyframes: self.update_cursor_types(),
            };
        }
        let mut keyframes: Vec<CursorKeyframe> = Vec::new();
        let mut i: usize = 0;
        while i < self.cursor_types.len()
            invariant
                i <= self.cursor_types@.len(),
                keyframes@ == all_cleared(self.cursor_types@.take(i as int)),
            decreases self.cursor_types@.len() - i,
        {
            keyframes.push(CursorKeyframe::Clear { hash: self.cursor_types[i] });
            keyframes.push(CursorKeyframe::Hide { hash: self.cursor_types[i], time: 0 });
            i = i + 1;
            assert(keyframes@ =~= all_cleared(self.cursor_types@.take(i as int)));
        }
        assert(self.cursor_types@.take(i as int) =~= self.cursor_types@);
        let video_priority = if self.cursor_types.len() == 0 {
            Some(0u32)
        } else {
            None
        };
        CursorPlan { video_priority, keyframes }
    }

    /// Switches the cursor on or off. Returns what that takes.
    pub fn set_cursor_enabled(&mut self, enabled: bool) -> (res: CursorPlan)
        ensures
            res.applies(enabled, old(self).cursor_types@, old(self).cursor_entries@),
            *final(self) == (Video {
                cursor_show: enabled,
                cursor_enabled: enabled,
                ..*old(self)
            }),
    {
        let plan = self.set_cursor_show(enabled);
        self.cursor_enabled = enabled;
        plan
    }

    /// Takes over the samples of the cursor file, whose contents are given where there is one.
    pub fn setup_cursor(&mut self, data: Option<&[u8]>) -> (res: CursorSetup)
        ensures
            match data {
                None => {
                    &&& res matches CursorSetup::Missing(plan)
                    &&& plan.applies(false, old(self).cursor_types@, old(self).cursor_entries@)
                    &&& *final(self) == (Video {
                        cursor_show: false,
                        cursor_enabled: false,
                        ..*old(self)
                    })
                },
                Some(data) => {
                    &&& final(self).cursor_entries@.len() == record_count(data@)
                    &&& forall|i: int|
                        0 <= i < record_count(data@) ==> (
                        #[trigger] final(self).cursor_entries@[i]).samples(record_at(data@, i))
                    &&& *final(self) == (Video {
                        cursor_entries: final(self).cursor_entries,
                        ..*old(self)
                    })
                    &&& if old(self).cursor_enabled {
                        res matches CursorSetup::Layers(layers) && exists|first: Seq<usize>|
                            #[trigger] are_first_shown(data@, first) && layers@ == layers_for(
                                data@,
                                first,
                            )
                    } else {
                        res is Disabled
                    }
                },
            },
    {
        let data = match data {
            Some(data) => data,
            None => {
                return CursorSetup::Missing(self.set_cursor_enabled(false));
            },
        };
        let (cursor_entries, cursor_type_entries) = read_cursor_entries(data);
        self.cursor_entries = cursor_entries;
        self.setup_cursor_entries(&cursor_type_entries, Ghost(data@))
    }

    /// The layers for the cursor images, which the given samples show for the first time.
    fn setup_cursor_entries(
        &self,
        cursor_type_entries: &Vec<usize>,
        Ghost(data): Ghost<Seq<u8>>,
    ) -> (res: CursorSetup)
        requires
            self.cursor_entries@.len() == record_count(data),
            forall|i: int|
                0 <= i < record_count(data) ==> (#[trigger] self.cursor_entries@[i]).samples(
                    record_at(data, i),
                ),
            are_first_shown(data, cursor_type_entries@),
        ensures
            if self.cursor_enabled {
                res matches CursorSetup::Layers(layers) && layers@ == layers_for(
                    data,
                    cursor_type_entries@,
                )
            } else {
                res is Disabled
            },
    {
        if !self.cursor_enabled {
            return CursorSetup::Disabled;
        }
        let mut layers: Vec<CursorLayer> = Vec::new();
        let mut i: usize = 0;
        while i < cursor_type_entries.len()
            invariant
                i <= cursor_type_entries@.len(),
                self.cursor_entries@.len() == record_count(data),
                forall|i: int|
                    0 <= i < record_count(data) ==> (#[trigger] self.cursor_entries@[i]).samples(
                        record_at(data, i),
                    ),
                are_first_shown(data, cursor_type_entries@),
                layers@ == layers_for(data, cursor_type_entries@.take(i as int)),
            decreases cursor_type_entries@.len() - i,
        {
            let at: usize = cursor_type_entries[i];
            assert(cursor_type_entries@.contains(at));
            assert(self.cursor_entries@[at as int].samples(record_at(data, at as int)));
            if let Some(hash) = self.cursor_entries[at].cursor_type_hash {
                let priority: u32 = (i as u64 % 0x1_0000_0000) as u32;
                layers.push(CursorLayer { priority, hash });
            }
            i = i + 1;
            assert(layers@ =~= layers_for(data, cursor_type_entries@.take(i as int)));
        }
        assert(cursor_type_entries@.take(i as int) =~= cursor_type_entries@);
        CursorSetup::Layers(layers)
    }

    /// Notes that a cursor image has a layer now.
    pub fn add_cursor_layer(&mut self, hash: u64)
        ensures
            final(self).cursor_types@ == if old(self).cursor_types@.contains(hash) {
                old(self).cursor_types@
            } else {
                old(self).cursor_types@.push(hash)
            },
            *final(self) == (Video { cursor_types: final(self).cursor_types, ..*old(self) }),
    {
        if !contains(&self.cursor_types, hash) {
            self.cursor_types.push(hash);
        }
    }

    /// Whether the smoothed path is the simplification of the whole path by `distance`.
    pub open spec fn smoothed<F: Fn(CursorEntry, CursorEntry, CursorEntry) -> Double>(
        self,
        distance: F,
    ) -> bool {
        let last = self.cursor_entries@.len() - 1;
        if last < 2 {
            self.cursor_used_entries@ == Seq::new((last + 1) as nat, |i: int| i as usize)
        } else {
            simplified(
                distance,
                self.cursor_entries@,
                0,
                last,
                self.cursor_smoothing,
                self.cursor_used_entries@,
            )
        }
    }

    /// Chooses the samples that the smoothed path keeps.
    pub fn update_cursor_smoothing<F: Fn(CursorEntry, CursorEntry, CursorEntry) -> Double>(
        &mut self,
        distance: &F,
    )
        requires
            old(self).cursor_entries@.len() > 0,
            old(self).cursor_entries@.len() >= 3 ==> {
                &&& !old(self).cursor_smoothing.lt(zero())
                &&& forall|p: CursorEntry, a: CursorEntry, b: CursorEntry|
                    distance.requires((p, a, b))
            },
        ensures
            final(self).smoothed(*distance),
            final(self).well_formed(),
            final(self).cursor_used_entries@.len() > 0,
            *final(self) == (Video {
                cursor_used_entries: final(self).cursor_used_entries,
                ..*old(self)
            }),
    {
        let last: usize = self.cursor_entries.len() - 1;
        let used = ramer_douglas_peucker(
            self.cursor_entries.as_slice(),
            0,
            last,
            self.cursor_smoothing,
            distance,
        );
        proof {
            if last >= 2 {
                law_simplification_keeps_ends_and_order(
                    *distance,
                    self.cursor_entries@,
                    0,
                    last,
                    self.cursor_smoothing,
                    used@,
                );
                assert forall|k: int| 0 <= k < used@.len() implies #[trigger] used@[k]
                    < self.cursor_entries@.len() by {
                    assert(used@[k] <= used@[used@.len() - 1]);
                }
            } else {
                assert(used@ =~= Seq::new((last + 1) as nat, |i: int| i as usize));
            }
        }
        self.cursor_used_entries = used;
    }

    /// Changes how much the cursor's path is smoothed.
    pub fn set_cursor_smoothing<F: Fn(CursorEntry, CursorEntry, CursorEntry) -> Double>(
        &mut self,
        value: Double,
        distance: &F,
    )
        requires
            old(self).cursor_entries@.len() > 0,
            old(self).cursor_entries@.len() >= 3 ==> {
                &&& !value.lt(zero())
                &&& forall|p: CursorEntry, a: CursorEntry, b: CursorEntry|
                    distance.requires((p, a, b))
            },
        ensures
            final(self).smoothed(*distance),
            final(self).well_formed(),
            final(self).cursor_used_entries@.len() > 0,
            *final(self) == (Video {
                cursor_smoothing: value,
                cursor_used_entries: final(self).cursor_used_entries,
                ..*old(self)
            }),
    {
        self.cursor_smoothing = value;
        self.update_cursor_smoothing(distance);
    }

    /// How many frames the cursor is drawn in.
    pub open spec fn cursor_frame_count(self, frame_duration_ns: nat) -> nat {
        if self.cursor_enabled && self.cursor_types@.len() > 0 {
            match self.video_duration {
                Some(duration) => duration as nat / frame_duration_ns,
                None => 0,
            }
        } else {
            0
        }
    }

    /// The positions of the cursor, frame by frame, on the smoothed path.
    pub fn redraw_cursor<
        F: Fn(CursorEntry, CursorEntry, CursorEntry, CursorEntry, Double) -> (Double, Double),
    >(&self, frame_duration_ns: u64, interpolate: &F) -> (res: Vec<CursorFrame>)
        requires
            self.well_formed(),
            self.cursor_enabled && self.cursor_types@.len() > 0 && self.video_duration is Some ==> {
                &&& frame_duration_ns > 0
                &&& self.cursor_frame_count(frame_duration_ns as nat) > 0 ==> {
                    &&& self.cursor_used_entries@.len() > 0
                    &&& forall|
                        p0: CursorEntry,
                        p1: CursorEntry,
                        p2: CursorEntry,
                        p3: CursorEntry,
                        t: Double,
                    |
                        interpolate.requires((p0, p1, p2, p3, t))
                }
            },
        ensures
            res@.len() == self.cursor_frame_count(frame_duration_ns as nat),
            forall|i: int|
                0 <= i < res@.len() ==> (#[trigger] res@[i]).time == i * frame_duration_ns,
            forall|i: int|
                0 <= i < res@.len() ==> self.is_cursor_frame(
                    *interpolate,
                    frame_duration_ns as nat,
                    i,
                    #[trigger] res@[i],
                ),
    {
        let mut frames: Vec<CursorFrame> = Vec::new();
        if !self.cursor_enabled || self.cursor_types.len() == 0 {
            return frames;
        }
        let duration: u64 = match self.video_duration {
            Some(duration) => duration,
            None => {
                return frames;
            },
        };
        let count: u64 = duration / frame_duration_ns;
        let mut i: u64 = 0;
        let mut current_pts: u64 = 0;
        proof {
            lemma_fundamental_div_mod(duration as int, frame_duration_ns as int);
            assert(count * frame_duration_ns <= duration) by (nonlinear_arith)
                requires
                    duration == frame_duration_ns * count + duration as int
                        % frame_duration_ns as int,
                    duration as int % frame_duration_ns as int >= 0,
            ;
        }
        while i < count
            invariant
                self.well_formed(),
                i <= count,
                count > 0 ==> self.cursor_used_entries@.len() > 0,
                count > 0 ==> forall|
                    p0: CursorEntry,
                    p1: CursorEntry,
                    p2: CursorEntry,
                    p3: CursorEntry,
                    t: Double,
                |
                    interpolate.requires((p0, p1, p2, p3, t)),
                current_pts == i * frame_duration_ns,
                count * frame_duration_ns <= duration <= u64::MAX,
                frames@.len() == i,
                forall|k: int|
                    0 <= k < frames@.len() ==> self.is_cursor_frame(
                        *interpolate,
                        frame_duration_ns as nat,
                        k,
                        #[trigger] frames@[k],
                    ),
            decreases count - i,
        {
            let time = Double::from_u64(current_pts);
            let position = get_position_at_time(
                self.cursor_entries.as_slice(),
                self.cursor_used_entries.as_slice(),
                time,
                interpolate,
            );
            let frame = CursorFrame { time: current_pts, x: position.0, y: position.1 };
            assert((frame.x, frame.y) == position);
            assert(self.is_cursor_frame(*interpolate, frame_duration_ns as nat, i as int, frame));
            frames.push(frame);
            i = i + 1;
            proof {
                assert(i * frame_duration_ns <= count * frame_duration_ns) by (nonlinear_arith)
                    requires
                        i <= count,
                ;
                assert(i * frame_duration_ns == (i - 1) * frame_duration_ns + frame_duration_ns)
                    by (nonlinear_arith);
            }
            current_pts = current_pts + frame_duration_ns;
        }
        frames
    }

    /// Whether `frame` is the frame number `i`.
    pub open spec fn is_cursor_frame<
        F: Fn(CursorEntry, CursorEntry, CursorEntry, CursorEntry, Double) -> (Double, Double),
    >(self, interpolate: F, frame_duration_ns: nat, i: int, frame: CursorFrame) -> bool {
        &&& frame.time == i * frame_duration_ns
        &&& exists|time: Double|
            {
                &&& time.is_integer(nearest_double(frame.time as nat) as int)
                &&& !time.is_negative()
                &&& #[trigger] positioned(
                    interpolate,
                    self.cursor_entries@,
                    self.cursor_used_entries@,
                    time,
                    (frame.x, frame.y),
                )
            }
    }
}

/// Whether `first` are the samples of a cursor file that show a cursor image for the first time,
/// in their order.
pub open spec fn are_first_shown(data: Seq<u8>, first: Seq<usize>) -> bool {
    &&& forall|a: int, b: int| 0 <= a < b < first.len() ==> first[a] < first[b]
    &&& forall|i: usize| #[trigger] first.contains(i) <==> shows_new_image(data, i as int)
}

/// The layers for the images that the samples `first` show, with rising priorities, as far as the
/// type of a priority goes.
pub open spec fn layers_for(data: Seq<u8>, first: Seq<usize>) -> Seq<CursorLayer> {
    Seq::new(
        first.len(),
        |k: int|
            CursorLayer {
                priority: (k % 0x1_0000_0000) as u32,
                hash: record_at(data, first[k] as int).cursor_type_hash->0,
            },
    )
}

/// The keyframes of the images' visibility: whether an image is shown from a time on.
pub type OpacityCurves = Map<(u64, u64), bool>;

/// The curves after some changes.
pub open spec fn faded(curves: OpacityCurves, keyframes: Seq<CursorKeyframe>) -> OpacityCurves
    decreases keyframes.len(),
{
    if keyframes.len() == 0 {
        curves
    } else {
        let before = faded(curves, keyframes.drop_last());
        match keyframes.last() {
            CursorKeyframe::Clear { hash } => before.remove_keys(
                before.dom().filter(|key: (u64, u64)| key.0 == hash),
            ),
            CursorKeyframe::Hide { hash, time } => before.insert((hash, time), false),
            CursorKeyframe::Show { hash, time } => before.insert((hash, time), true),
        }
    }
}

/// Whether an image is visible at a time: the last keyframe up to then shows it.
pub open spec fn visible_at(curves: OpacityCurves, hash: u64, time: u64) -> bool {
    exists|since: u64| #[trigger] shows_since(curves, hash, time, since)
}

/// Whether an image is visible at a time because of its keyframe at `since`.
pub open spec fn shows_since(curves: OpacityCurves, hash: u64, time: u64, since: u64) -> bool {
    &&& since <= time
    &&& curves.contains_key((hash, since))
    &&& curves[(hash, since)]
    &&& forall|later: u64| since < later <= time ==> !#[trigger] curves.contains_key((hash, later))
}

/// When a sample was taken.
pub open spec fn sample_time(entry: CursorEntry) -> u64 {
    entry.pts.truncated() as u64
}

/// Whether the samples are in the order of their times.
pub open spec fn in_order(entries: Seq<CursorEntry>) -> bool {
    forall|i: int, j: int|
        0 <= i < j < entries.len() ==> sample_time(#[trigger] entries[i]) <= sample_time(
            #[trigger] entries[j],
        )
}

/// The image that the samples show last.
pub open spec fn last_image(entries: Seq<CursorEntry>) -> Option<u64>
    decreases entries.len(),
{
    if entries.len() == 0 {
        None
    } else {
        match entries.last().cursor_type_hash {
            Some(hash) => Some(hash),
            None => last_image(entries.drop_last()),
        }
    }
}

/// Whether the curves have no keyframe but at the beginning: so before the cursor is shown for the
/// first time, and whenever it is hidden.
pub open spec fn flat_curves(curves: OpacityCurves) -> bool {
    forall|key: (u64, u64)| #[trigger] curves.contains_key(key) ==> key.1 == 0
}

/// The curves once the cursor is shown.
pub open spec fn shown_curves(
    curves: OpacityCurves,
    types: Seq<u64>,
    entries: Seq<CursorEntry>,
) -> OpacityCurves {
    faded(curves, all_hidden(types) + visibility_steps(types, entries).0)
}

proof fn lemma_faded_in_turn(
    curves: OpacityCurves,
    first: Seq<CursorKeyframe>,
    second: Seq<CursorKeyframe>,
)
    ensures
        faded(curves, first + second) == faded(faded(curves, first), second),
    decreases second.len(),
{
    if second.len() == 0 {
        assert(first + second =~= first);
    } else {
        lemma_faded_in_turn(curves, first, second.drop_last());
        assert((first + second).drop_last() =~= first + second.drop_last());
    }
}

/// What is visible at a time depends on the keyframes up to it alone.
proof fn lemma_same_keyframes(a: OpacityCurves, b: OpacityCurves, hash: u64, time: u64)
    requires
        forall|at: u64|
            at <= time ==> (#[trigger] a.contains_key((hash, at)) <==> b.contains_key((hash, at))),
        forall|at: u64|
            at <= time && #[trigger] a.contains_key((hash, at)) ==> a[(hash, at)] == b[(hash, at)],
    ensures
        visible_at(a, hash, time) == visible_at(b, hash, time),
{
    if visible_at(a, hash, time) {
        let since = choose|since: u64| #[trigger] shows_since(a, hash, time, since);
        assert forall|later: u64| since < later <= time implies !#[trigger] b.contains_key(
            (hash, later),
        ) by {
            assert(!a.contains_key((hash, later)));
        }
        assert(a.contains_key((hash, since)));
        assert(shows_since(b, hash, time, since));
    }
    if visible_at(b, hash, time) {
        let since = choose|since: u64| #[trigger] shows_since(b, hash, time, since);
        assert forall|later: u64| since < later <= time implies !#[trigger] a.contains_key(
            (hash, later),
        ) by {
            assert(!b.contains_key((hash, later)));
        }
        assert(a.contains_key((hash, since)));
        assert(shows_since(a, hash, time, since));
    }
}

/// Hiding every image from the beginning on changes nothing but the keyframes there.
proof fn lemma_all_hidden(curves: OpacityCurves, types: Seq<u64>, hash: u64)
    requires
        flat_curves(curves),
    ensures
        flat_curves(faded(curves, all_hidden(types))),
        types.contains(hash) ==> faded(curves, all_hidden(types)).contains_key((hash, 0))
            && !faded(curves, all_hidden(types))[(hash, 0)],
    decreases types.len(),
{
    if types.len() > 0 {
        let fewer = types.drop_last();
        lemma_all_hidden(curves, fewer, hash);
        assert(all_hidden(types).drop_last() =~= all_hidden(fewer));
        if types.contains(hash) && hash != types.last() {
            let i = choose|i: int| 0 <= i < types.len() && types[i] == hash;
            assert(fewer[i] == hash);
        }
    }
}

/// What one sample does to the curves.
proof fn lemma_one_sample(curves: OpacityCurves, types: Seq<u64>, entries: Seq<CursorEntry>)
    requires
        entries.len() > 0,
    ensures
        shown_curves(curves, types, entries) == faded(
            shown_curves(curves, types, entries.drop_last()),
            visibility_step(
                types,
                visibility_steps(types, entries.drop_last()).1,
                entries.last(),
            ).0,
        ),
{
    let before = visibility_steps(types, entries.drop_last());
    let more = visibility_step(types, before.1, entries.last()).0;
    lemma_faded_in_turn(curves, all_hidden(types) + before.0, more);
    assert(all_hidden(types) + visibility_steps(types, entries).0 =~= (all_hidden(types)
        + before.0) + more);
}

/// The keyframes of a sample lie at its time, and there are at most two of them.
proof fn lemma_faded_step(
    curves: OpacityCurves,
    types: Seq<u64>,
    shown: Option<u64>,
    entry: CursorEntry,
)
    ensures
        ({
            let (more, last) = visibility_step(types, shown, entry);
            let time = sample_time(entry);
            let changes = entry.cursor_type_hash matches Some(hash) && shown != Some(hash);
            let hidden = match shown {
                Some(before) => curves.insert((before, time), false),
                None => curves,
            };
            faded(curves, more) == if !changes {
                curves
            } else if types.contains(entry.cursor_type_hash->0) {
                hidden.insert((entry.cursor_type_hash->0, time), true)
            } else {
                hidden
            }
        }),
{
    let (more, last) = visibility_step(types, shown, entry);
    reveal_with_fuel(faded, 3);
    if more.len() == 2 {
        assert(more.drop_last().drop_last() =~= Seq::empty());
        assert(more.drop_last().last() == more[0]);
    } else if more.len() == 1 {
        assert(more.drop_last() =~= Seq::empty());
    }
}

/// After samples that were taken up to `bound`, no keyframe is later.
proof fn lemma_keyframes_are_not_later(
    curves: OpacityCurves,
    types: Seq<u64>,
    entries: Seq<CursorEntry>,
    bound: u64,
)
    requires
        flat_curves(curves),
        forall|i: int| 0 <= i < entries.len() ==> sample_time(#[trigger] entries[i]) <= bound,
    ensures
        forall|key: (u64, u64)| #[trigger]
            shown_curves(curves, types, entries).contains_key(key) ==> key.1 <= bound,
    decreases entries.len(),
{
    if entries.len() == 0 {
        lemma_all_hidden(curves, types, 0);
        assert(all_hidden(types) + visibility_steps(types, entries).0 =~= all_hidden(types));
    } else {
        let earlier = entries.drop_last();
        assert forall|i: int| 0 <= i < earlier.len() implies sample_time(#[trigger] earlier[i])
            <= bound by {
            assert(earlier[i] == entries[i]);
        }
        lemma_keyframes_are_not_later(curves, types, earlier, bound);
        lemma_one_sample(curves, types, entries);
        lemma_faded_step(
            shown_curves(curves, types, earlier),
            types,
            visibility_steps(types, earlier).1,
            entries.last(),
        );
        assert(sample_time(entries[entries.len() - 1]) <= bound);
    }
}

/// After some samples, at any time that is not before them, the image that was last shown is the
/// only one that may be visible, and is visible if all images have a layer.
proof fn lemma_visible_after_samples(
    curves: OpacityCurves,
    types: Seq<u64>,
    entries: Seq<CursorEntry>,
    hash: u64,
    time: u64,
)
    requires
        flat_curves(curves),
        in_order(entries),
        types.contains(hash),
        forall|i: int| 0 <= i < entries.len() ==> sample_time(#[trigger] entries[i]) <= time,
    ensures
        visible_at(shown_curves(curves, types, entries), hash, time) ==> visibility_steps(
            types,
            entries,
        ).1 == Some(hash),
        all_layered(types, entries) ==> {
            &&& visibility_steps(types, entries).1 == last_image(entries)
            &&& visible_at(shown_curves(curves, types, entries), hash, time) <==> last_image(
                entries,
            ) == Some(hash)
        },
    decreases entries.len(),
{
    let after = shown_curves(curves, types, entries);
    if entries.len() == 0 {
        lemma_all_hidden(curves, types, hash);
        assert(all_hidden(types) + visibility_steps(types, entries).0 =~= all_hidden(types));
        assert(!visible_at(after, hash, time));
    } else {
        let earlier = entries.drop_last();
        let entry = entries.last();
        let before = shown_curves(curves, types, earlier);
        let shown = visibility_steps(types, earlier).1;
        let now = sample_time(entry);
        assert forall|i: int| 0 <= i < earlier.len() implies sample_time(#[trigger] earlier[i])
            <= now by {
            assert(earlier[i] == entries[i] && entry == entries[entries.len() - 1]);
        }
        assert(now <= time) by {
            assert(sample_time(entries[entries.len() - 1]) <= time);
        }
        assert(in_order(earlier)) by {
            assert forall|i: int, j: int| 0 <= i < j < earlier.len() implies sample_time(
                #[trigger] earlier[i],
            ) <= sample_time(#[trigger] earlier[j]) by {
                assert(earlier[i] == entries[i] && earlier[j] == entries[j]);
            }
        }
        if all_layered(types, entries) {
            assert forall|i: int| 0 <= i < earlier.len() implies (
            #[trigger] earlier[i]).cursor_type_hash is None || types.contains(
                earlier[i].cursor_type_hash->0,
            ) by {
                assert(earlier[i] == entries[i]);
            }
            assert(entry == entries[entries.len() - 1]);
        }
        lemma_visible_after_samples(curves, types, earlier, hash, time);
        lemma_keyframes_are_not_later(curves, types, earlier, now);
        lemma_one_sample(curves, types, entries);
        lemma_faded_step(before, types, shown, entry);
        let changes = entry.cursor_type_hash matches Some(new) && shown != Some(new);
        if changes {
            let new = entry.cursor_type_hash->0;
            if hash == new && types.contains(new) {
                assert(shows_since(after, hash, time, now));
            } else if shown == Some(hash) {
                assert(after.contains_key((hash, now)) && !after[(hash, now)]);
                assert forall|since: u64| !#[trigger] shows_since(after, hash, time, since) by {
                    if since < now {
                        assert(after.contains_key((hash, now)));
                    }
                }
            } else {
                lemma_same_keyframes(before, after, hash, time);
            }
        }
    }
}

/// Whether every image that the samples show has a layer.
pub open spec fn all_layered(types: Seq<u64>, entries: Seq<CursorEntry>) -> bool {
    forall|i: int|
        0 <= i < entries.len() ==> (#[trigger] entries[i]).cursor_type_hash is None
            || types.contains(entries[i].cursor_type_hash->0)
}

/// Samples that were taken after a time do not change what is visible at it.
proof fn lemma_later_samples(
    curves: OpacityCurves,
    types: Seq<u64>,
    entries: Seq<CursorEntry>,
    count: int,
    hash: u64,
    time: u64,
)
    requires
        0 <= count <= entries.len(),
        forall|i: int| count <= i < entries.len() ==> time < sample_time(#[trigger] entries[i]),
    ensures
        visible_at(shown_curves(curves, types, entries), hash, time) == visible_at(
            shown_curves(curves, types, entries.take(count)),
            hash,
            time,
        ),
    decreases entries.len() - count,
{
    if count == entries.len() {
        assert(entries.take(count) =~= entries);
    } else {
        let earlier = entries.drop_last();
        let before = shown_curves(curves, types, earlier);
        let after = shown_curves(curves, types, entries);
        assert(earlier.take(count) =~= entries.take(count));
        assert forall|i: int| count <= i < earlier.len() implies time < sample_time(
            #[trigger] earlier[i],
        ) by {
            assert(earlier[i] == entries[i]);
        }
        lemma_later_samples(curves, types, earlier, count, hash, time);
        lemma_one_sample(curves, types, entries);
        lemma_faded_step(before, types, visibility_steps(types, earlier).1, entries.last());
        assert(time < sample_time(entries[entries.len() - 1]));
        lemma_same_keyframes(before, after, hash, time);
    }
}

/// The first `count` samples are those up to a time, and decide what is visible at it.
proof fn lemma_visible_at_time(
    curves: OpacityCurves,
    types: Seq<u64>,
    entries: Seq<CursorEntry>,
    count: int,
    hash: u64,
    time: u64,
)
    requires
        flat_curves(curves),
        in_order(entries),
        types.contains(hash),
        0 <= count <= entries.len(),
        forall|i: int| 0 <= i < count ==> sample_time(#[trigger] entries[i]) <= time,
        forall|i: int| count <= i < entries.len() ==> time < sample_time(#[trigger] entries[i]),
    ensures
        visible_at(shown_curves(curves, types, entries), hash, time) ==> visibility_steps(
            types,
            entries.take(count),
        ).1 == Some(hash),
        all_layered(types, entries.take(count)) ==> (visible_at(
            shown_curves(curves, types, entries),
            hash,
            time,
        ) <==> last_image(entries.take(count)) == Some(hash)),
{
    let earlier = entries.take(count);
    assert forall|i: int| 0 <= i < earlier.len() implies sample_time(#[trigger] earlier[i])
        <= time by {
        assert(earlier[i] == entries[i]);
    }
    assert(in_order(earlier)) by {
        assert forall|i: int, j: int| 0 <= i < j < earlier.len() implies sample_time(
            #[trigger] earlier[i],
        ) <= sample_time(#[trigger] earlier[j]) by {
            assert(earlier[i] == entries[i] && earlier[j] == entries[j]);
        }
    }
    lemma_later_samples(curves, types, entries, count, hash, time);
    lemma_visible_after_samples(curves, types, earlier, hash, time);
}

/// At any time while the cursor is shown, no image is visible but the one that was last shown by
/// then. So there are never two at a time. The first `count` samples are those up to that time.
pub proof fn law_no_other_image_is_visible(
    curves: OpacityCurves,
    types: Seq<u64>,
    entries: Seq<CursorEntry>,
    count: int,
    hash: u64,
    time: u64,
)
    requires
        flat_curves(curves),
        in_order(entries),
        types.contains(hash),
        0 <= count <= entries.len(),
        forall|i: int| 0 <= i < count ==> sample_time(#[trigger] entries[i]) <= time,
        forall|i: int| count <= i < entries.len() ==> time < sample_time(#[trigger] entries[i]),
        visible_at(shown_curves(curves, types, entries), hash, time),
    ensures
        visibility_steps(types, entries.take(count)).1 == Some(hash),
{
    lemma_visible_at_time(curves, types, entries, count, hash, time);
}

/// At any time while the cursor is shown, exactly the image that the samples up to then show last
/// is visible, where all their images have a layer. The first `count` samples are those up to that
/// time.
pub proof fn law_last_image_is_visible(
    curves: OpacityCurves,
    types: Seq<u64>,
    entries: Seq<CursorEntry>,
    count: int,
    hash: u64,
    time: u64,
)
    requires
        flat_curves(curves),
        in_order(entries),
        types.contains(hash),
        0 <= count <= entries.len(),
        forall|i: int| 0 <= i < count ==> sample_time(#[trigger] entries[i]) <= time,
        forall|i: int| count <= i < entries.len() ==> time < sample_time(#[trigger] entries[i]),
        all_layered(types, entries.take(count)),
    ensures
        visible_at(shown_curves(curves, types, entries), hash, time) <==> last_image(
            entries.take(count),
        ) == Some(hash),
{
    lemma_visible_at_time(curves, types, entries, count, hash, time);
}

/// Hiding the cursor leaves each of its images with one keyframe, which hides it from the beginning
/// on. So none is visible at any time, whatever was shown before.
pub proof fn law_hidden_cursor_has_no_visible_image(
    curves: OpacityCurves,
    types: Seq<u64>,
    hash: u64,
    time: u64,
)
    requires
        types.contains(hash),
    ensures
        !visible_at(faded(curves, all_cleared(types)), hash, time),
        forall|at: u64| #[trigger]
            faded(curves, all_cleared(types)).contains_key((hash, at)) <==> at == 0,
    decreases types.len(),
{
    let all = all_cleared(types);
    let fewer = types.drop_last();
    let n = all.len();
    let after = faded(curves, all);
    reveal_with_fuel(faded, 3);
    assert(all.drop_last().drop_last() =~= all_cleared(fewer));
    assert(all[n - 1] == (CursorKeyframe::Hide { hash: types.last(), time: 0 }));
    assert(all[n - 2] == (CursorKeyframe::Clear { hash: types.last() }));
    assert(all.drop_last().last() == all[n - 2]);
    if hash != types.last() {
        assert(fewer.contains(hash)) by {
            let i = choose|i: int| 0 <= i < types.len() && types[i] == hash;
            assert(fewer[i] == hash);
        }
        law_hidden_cursor_has_no_visible_image(curves, fewer, hash, time);
        lemma_same_keyframes(faded(curves, all_cleared(fewer)), after, hash, time);
    }
}

/// Removing the effect that was added last leaves the effects as they were before.
pub proof fn law_remove_undoes_add(effects: Seq<ZoomEffect>, zoom: ZoomEffect)
    ensures
        effects.push(zoom).remove(effects.len() as int) == effects,
{
    assert(effects.push(zoom).remove(effects.len() as int) =~= effects);
}

/// The smoothed path runs from the first to the last sample, forwards and without repetition.
pub proof fn law_smoothed_path_keeps_ends_and_order<
    F: Fn(CursorEntry, CursorEntry, CursorEntry) -> Double,
>(video: Video, distance: F)
    requires
        0 < video.cursor_entries@.len() <= usize::MAX,
        video.smoothed(distance),
    ensures
        ({
            let used = video.cursor_used_entries@;
            &&& used.len() > 0
            &&& used[0] == 0
            &&& used.last() == video.cursor_entries@.len() - 1
            &&& forall|a: int, b: int| 0 <= a < b < used.len() ==> used[a] < used[b]
        }),
{
    let last = video.cursor_entries@.len() - 1;
    if last >= 2 {
        law_simplification_keeps_ends_and_order(
            distance,
            video.cursor_entries@,
            0,
            last as usize,
            video.cursor_smoothing,
            video.cursor_used_entries@,
        );
    }
}

/// More smoothing only drops samples from the path, and the same smoothing gives the same path
/// again, for a distance that gives one result for one input.
pub proof fn law_more_smoothing_keeps_fewer_samples<
    F: Fn(CursorEntry, CursorEntry, CursorEntry) -> Double,
>(less: Video, more: Video, distance: F)
    requires
        0 < less.cursor_entries@.len() <= usize::MAX,
        less.cursor_entries@ == more.cursor_entries@,
        less.cursor_smoothing.le(more.cursor_smoothing),
        measures(distance),
        less.smoothed(distance),
        more.smoothed(distance),
    ensures
        forall|i: usize|
            more.cursor_used_entries@.contains(i) ==> #[trigger] less.cursor_used_entries@.contains(
                i,
            ),
        more.cursor_used_entries@.len() <= less.cursor_used_entries@.len(),
        less.cursor_smoothing == more.cursor_smoothing ==> less.cursor_used_entries@
            == more.cursor_used_entries@,
{
    let last = less.cursor_entries@.len() - 1;
    if last >= 2 {
        law_larger_epsilon_keeps_fewer(
            distance,
            less.cursor_entries@,
            0,
            last as usize,
            less.cursor_smoothing,
            more.cursor_smoothing,
            less.cursor_used_entries@,
            more.cursor_used_entries@,
        );
        if less.cursor_smoothing == more.cursor_smoothing {
            law_simplification_is_unique(
                distance,
                less.cursor_entries@,
                0,
                last as usize,
                less.cursor_smoothing,
                less.cursor_used_entries@,
                more.cursor_used_entries@,
            );
        }
    }
}

/// Every frame in which the cursor is drawn begins and ends within the recording.
pub proof fn law_cursor_frames_lie_within_recording(video: Video, frame_duration_ns: u64, i: int)
    requires
        frame_duration_ns > 0,
        0 <= i < video.cursor_frame_count(frame_duration_ns as nat),
    ensures
        0 <= i * frame_duration_ns,
        (i + 1) * frame_duration_ns <= video.length(),
{
    let count = video.cursor_frame_count(frame_duration_ns as nat) as int;
    let length = video.length() as int;
    lemma_fundamental_div_mod(length, frame_duration_ns as int);
    assert(0 <= i * frame_duration_ns && (i + 1) * frame_duration_ns <= length)
        by (nonlinear_arith)
        requires
            0 <= i < count,
            frame_duration_ns > 0,
            length == frame_duration_ns * count + length % (frame_duration_ns as int),
            length % (frame_duration_ns as int) >= 0,
    ;
}

/// As many frames are drawn as fit into the recording, while the cursor is switched on and has
/// images; none otherwise, nor where the length is not known.
pub proof fn law_cursor_frames_fill_the_recording(
    video: Video,
    frame_duration_ns: u64,
    duration: u64,
)
    requires
        frame_duration_ns > 0,
    ensures
        ({
            let count = video.cursor_frame_count(frame_duration_ns as nat);
            &&& !video.cursor_enabled || video.cursor_types@.len() == 0 || video.video_duration is None
                ==> count == 0
            &&& video.cursor_enabled && video.cursor_types@.len() > 0 && video.video_duration
                == Some(duration) ==> count * frame_duration_ns <= duration < (count + 1)
                * frame_duration_ns
        }),
{
    lemma_fundamental_div_mod(duration as int, frame_duration_ns as int);
    let whole = duration as int / frame_duration_ns as int;
    assert(whole * frame_duration_ns <= duration && duration < (whole + 1) * frame_duration_ns)
        by (nonlinear_arith)
        requires
            frame_duration_ns > 0,
            duration == frame_duration_ns * whole + duration as int % frame_duration_ns as int,
            0 <= duration as int % (frame_duration_ns as int) < frame_duration_ns,
    ;
}

/// A frame in which the cursor is drawn comes one frame's length after the one before it, the first
/// one at the beginning.
pub proof fn law_cursor_frames_come_evenly<
    F: Fn(CursorEntry, CursorEntry, CursorEntry, CursorEntry, Double) -> (Double, Double),
>(
    video: Video,
    interpolate: F,
    frame_duration_ns: nat,
    i: int,
    frame: CursorFrame,
    next: CursorFrame,
)
    requires
        video.is_cursor_frame(interpolate, frame_duration_ns, i, frame),
        video.is_cursor_frame(interpolate, frame_duration_ns, i + 1, next),
    ensures
        next.time - frame.time == frame_duration_ns,
        i == 0 ==> frame.time == 0,
{
    assert((i + 1) * frame_duration_ns == i * frame_duration_ns + frame_duration_ns)
        by (nonlinear_arith);
    assert(0 * frame_duration_ns == 0);
}

/// A path of fewer than three samples is kept whole.
pub proof fn law_short_path_is_kept_whole<F: Fn(CursorEntry, CursorEntry, CursorEntry) -> Double>(
    video: Video,
    distance: F,
    i: int,
)
    requires
        0 < video.cursor_entries@.len() < 3,
        video.smoothed(distance),
        0 <= i < video.cursor_entries@.len(),
    ensures
        video.cursor_used_entries@.len() == video.cursor_entries@.len(),
        video.cursor_used_entries@[i] == i,
{
}

/// The smoothed path keeps a sample of greatest distance from the line between the ends, where
/// that is more than the smoothing, and nothing but the ends where none is that far. `distances`
/// holds the distances of the samples between the ends, but for the last one.
pub proof fn law_smoothed_path_keeps_the_farthest_sample<
    F: Fn(CursorEntry, CursorEntry, CursorEntry) -> Double,
>(video: Video, distance: F, distances: Seq<Double>)
    requires
        3 <= video.cursor_entries@.len() <= usize::MAX,
        measures(distance),
        !video.cursor_smoothing.lt(zero()),
        video.smoothed(distance),
        forall|i: int|
            0 < i < video.cursor_entries@.len() - 2 ==> distance.ensures(
                (
                    video.cursor_entries@[i],
                    video.cursor_entries@.first(),
                    video.cursor_entries@.last(),
                ),
                #[trigger] distances[i],
            ),
    ensures
        ({
            let last = video.cursor_entries@.len() - 1;
            let used = video.cursor_used_entries@;
            &&& (forall|i: int|
                0 < i < last - 1 ==> !video.cursor_smoothing.lt(#[trigger] distances[i])) ==> used
                == seq![0usize, last as usize]
            &&& (exists|i: int|
                0 < i < last - 1 && video.cursor_smoothing.lt(#[trigger] distances[i])) ==> exists|
                s: usize,
            |
                {
                    &&& 0 < s < last - 1
                    &&& #[trigger] used.contains(s)
                    &&& video.cursor_smoothing.lt(distances[s as int])
                    &&& forall|k: int|
                        0 < k < last - 1 ==> (#[trigger] distances[k]).nan() || distances[k].le(
                            distances[s as int],
                        )
                }
        }),
{
    let last = video.cursor_entries@.len() - 1;
    law_path_is_split_at_farthest_sample(
        distance,
        video.cursor_entries@,
        0,
        last as usize,
        video.cursor_smoothing,
        video.cursor_used_entries@,
        distances,
    );
}

/// Showing the cursor puts its layers above the picture; hiding it takes the picture back to the
/// front only where no image has a layer.
pub proof fn law_shown_cursor_is_above_the_picture(
    plan: CursorPlan,
    show: bool,
    types: Seq<u64>,
    entries: Seq<CursorEntry>,
)
    requires
        plan.applies(show, types, entries),
    ensures
        show ==> plan.video_priority == Some(VIDEO_PRIORITY),
        !show && types.len() == 0 ==> plan.video_priority == Some(0u32),
        !show && types.len() > 0 ==> plan.video_priority is None,
{
}

/// Before anything is shown, each image is hidden once, from the beginning on, in turn; to hide the
/// cursor, what was shown of each image is forgotten first.
pub proof fn law_every_image_is_hidden_in_turn(types: Seq<u64>, i: int)
    requires
        0 <= i < types.len(),
    ensures
        all_hidden(types).len() == types.len(),
        all_hidden(types)[i] == (CursorKeyframe::Hide { hash: types[i], time: 0 }),
        all_cleared(types).len() == 2 * types.len(),
        all_cleared(types)[2 * i] == (CursorKeyframe::Clear { hash: types[i] }),
        all_cleared(types)[2 * i + 1] == (CursorKeyframe::Hide { hash: types[i], time: 0 }),
{
}

/// A sample changes what is visible only where it shows another image than the last one that was
/// shown. At its time the last image is then hidden, and its own is shown where it has a layer.
pub proof fn law_sample_changes_to_its_image(
    types: Seq<u64>,
    shown: Option<u64>,
    entry: CursorEntry,
    change: CursorKeyframe,
)
    ensures
        ({
            let (changes, last) = visibility_step(types, shown, entry);
            let time = sample_time(entry);
            let image = entry.cursor_type_hash;
            let another = image is Some && image != shown;
            let layered = image is Some && types.contains(image->0);
            &&& changes.contains(change) <==> another && match change {
                CursorKeyframe::Hide { hash, time: at } => at == time && shown == Some(hash),
                CursorKeyframe::Show { hash, time: at } => at == time && image == Some(hash)
                    && layered,
                CursorKeyframe::Clear { .. } => false,
            }
            &&& changes.len() <= 2
            &&& another && layered ==> changes.last() is Show
            &&& last == if another && layered {
                image
            } else {
                shown
            }
        }),
{
    let (changes, last) = visibility_step(types, shown, entry);
    if changes.len() > 0 {
        assert(changes.contains(changes[0]));
        assert(changes.contains(changes[changes.len() - 1]));
    }
}

/// The samples of a path make their changes one after the other, each after what the samples before
/// it have shown; without samples there are none.
pub proof fn law_samples_change_in_turn(
    types: Seq<u64>,
    entries: Seq<CursorEntry>,
    entry: CursorEntry,
)
    ensures
        ({
            let (changes, shown) = visibility_steps(types, entries);
            let (more, last) = visibility_step(types, shown, entry);
            &&& visibility_steps(types, entries.push(entry)).0 == changes + more
            &&& visibility_steps(types, entries.push(entry)).1 == last
            &&& entries.len() == 0 ==> changes.len() == 0 && shown is None
        }),
{
    assert(entries.push(entry).drop_last() =~= entries);
}

/// The layers of the cursor images have the priorities from zero on, in the order in which the
/// images are shown for the first time.
pub proof fn law_layers_rise_in_order(data: Seq<u8>, first: Seq<usize>, k: int)
    requires
        are_first_shown(data, first),
        0 <= k < first.len() <= 0x1_0000_0000,
    ensures
        layers_for(data, first).len() == first.len(),
        layers_for(data, first)[k].priority == k,
        record_at(data, first[k] as int).cursor_type_hash == Some(layers_for(data, first)[k].hash),
{
    assert(first.contains(first[k]));
    assert(shows_new_image(data, first[k] as int));
}

/// Each cursor image of a recording has a layer of its own: one that shows it, and no second one.
pub proof fn law_each_image_has_one_layer(data: Seq<u8>, first: Seq<usize>, i: int, hash: u64)
    requires
        are_first_shown(data, first),
        record_count(data) <= usize::MAX,
        0 <= i < record_count(data),
        record_at(data, i).cursor_type_hash == Some(hash),
    ensures
        exists|k: int|
            0 <= k < first.len() && (#[trigger] layers_for(data, first)[k]).hash == hash,
        forall|k: int, l: int|
            0 <= k < first.len() && 0 <= l < first.len() && (#[trigger] layers_for(
                data,
                first,
            )[k]).hash == (#[trigger] layers_for(data, first)[l]).hash ==> k == l,
{
    law_every_image_is_listed(data, i);
    let j = choose|j: int|
        {
            &&& 0 <= j <= i
            &&& #[trigger] shows_new_image(data, j)
            &&& record_at(data, j).cursor_type_hash == record_at(data, i).cursor_type_hash
        };
    assert(first.contains(j as usize));
    let k = choose|k: int| 0 <= k < first.len() && first[k] == j;
    assert(layers_for(data, first)[k].hash == hash);
    assert forall|k: int, l: int|
        0 <= k < first.len() && 0 <= l < first.len() && (#[trigger] layers_for(
            data,
            first,
        )[k]).hash == (#[trigger] layers_for(data, first)[l]).hash implies k == l by {
        assert(first.contains(first[k]) && first.contains(first[l]));
        law_no_image_is_listed_twice(data, first[k] as int, first[l] as int);
        if k < l {
            assert(first[k] < first[l]);
        } else if l < k {
            assert(first[l] < first[k]);
        }
    }
}

/// The size in which a cursor image is shown at first.
pub fn initial_cursor_size(width: u32, height: u32) -> (res: (u64, u64))
    ensures
        res.0 == width * DEFAULT_CURSOR_SCALE,
        res.1 == height * DEFAULT_CURSOR_SCALE,
{
    (width as u64 * DEFAULT_CURSOR_SCALE, height as u64 * DEFAULT_CURSOR_SCALE)
}

/// The size in which a cursor image is shown, enlarged by `size`: as high as it is wide.
pub fn scaled_cursor_size(width: u32, size: u32) -> (res: (u32, u32))
    requires
        width * size <= u32::MAX,
    ensures
        res.0 == width * size,
        res.1 == width * size,
{
    (width * size, width * size)
}

/// A cursor image keeps its shape when it is first shown: both sides grow by the same factor.
pub proof fn law_initial_cursor_keeps_its_shape(width: u32, height: u32, size: (u64, u64))
    requires
        call_ensures(initial_cursor_size, (width, height), size),
    ensures
        size.0 * height == size.1 * width,
        size.0 == DEFAULT_CURSOR_SCALE * width,
        size.1 == DEFAULT_CURSOR_SCALE * height,
{
    assert((width * DEFAULT_CURSOR_SCALE) * height == (height * DEFAULT_CURSOR_SCALE) * width)
        by (nonlinear_arith);
}

/// A cursor image is enlarged to a square, whose sides grow with the size in proportion.
pub proof fn law_scaled_cursor_is_square(
    width: u32,
    size: u32,
    larger: u32,
    res: (u32, u32),
    larger_res: (u32, u32),
)
    requires
        size <= larger,
        width * larger <= u32::MAX,
        width * size <= u32::MAX,
        call_ensures(scaled_cursor_size, (width, size), res),
        call_ensures(scaled_cursor_size, (width, larger), larger_res),
    ensures
        res.0 == res.1,
        larger_res.0 - res.0 == width * (larger - size),
        size == 1 ==> res.0 == width,
{
    assert(width * larger - width * size == width * (larger - size)) by (nonlinear_arith);
}

fn is_hash(known: Option<u64>, hash: u64) -> (res: bool)
    ensures
        res == (known == Some(hash)),
{
    match known {
        Some(known) => known == hash,
        None => false,
    }
}

pub(crate) fn contains(hashes: &Vec<u64>, hash: u64) -> (res: bool)
    ensures
        res == hashes@.contains(hash),
{
    let mut i: usize = 0;
    while i < hashes.len()
        invariant
            i <= hashes@.len(),
            forall|k: int| 0 <= k < i ==> hashes@[k] != hash,
        decreases hashes@.len() - i,
    {
        if hashes[i] == hash {
            return true;
        }
        i = i + 1;
    }
    false
}

} // verus!
