//! Zoom effects: when they run, where they lie on the timeline, and the keyframes that show them.
use crate::double::Double;
use crate::rdp::zero;
use vstd::prelude::*;

verus! {

/// How long zooming in or out takes.
pub const ZOOM_ANIMATION_NSEC: u64 = 1_000_000_000;

/// How long a new effect lasts.
pub const NEW_ZOOM_NSEC: u64 = 2_000_000_000;

/// A part of the recording that is shown enlarged.
#[derive(Clone, Copy, Debug)]
pub struct ZoomEffect {
    pub factor: Double,
    pub start_nsec: u64,
    pub end_nsec: u64,
    pub pos_x: Double,
    pub pos_y: Double,
}

/// The part of an effect on the timeline by which it is resized.
#[derive(Clone, Copy, Debug, PartialEq, Eq, Structural)]
pub enum ResizeHandle {
    Left,
    Right,
    Neither,
}

/// Where an effect lies on the timeline, in pixels: its two edges, its width, and the inner ends
/// of the handles at its edges.
#[derive(Clone, Copy, Debug)]
pub struct TimelineBounds {
    pub left: Double,
    pub left_handle_end: Double,
    pub right_handle_start: Double,
    pub right: Double,
    pub width: Double,
}

impl TimelineBounds {
    pub open spec fn spans(self, target_x: Double) -> bool {
        self.left.le(target_x) && target_x.le(self.right)
    }

    /// The handle at `target_x`; where the two overlap, the left one.
    pub open spec fn handle(self, target_x: Double) -> ResizeHandle {
        if self.left.le(target_x) && target_x.le(self.left_handle_end) {
            ResizeHandle::Left
        } else if self.right_handle_start.le(target_x) && target_x.le(self.right) {
            ResizeHandle::Right
        } else {
            ResizeHandle::Neither
        }
    }

    pub fn contains(&self, target_x: Double) -> (res: bool)
        ensures
            res == self.spans(target_x),
    {
        self.left.at_most(target_x) && target_x.at_most(self.right)
    }

    pub fn resize_handle_at(&self, target_x: Double) -> (res: ResizeHandle)
        ensures
            res == self.handle(target_x),
    {
        if self.left.at_most(target_x) && target_x.at_most(self.left_handle_end) {
            ResizeHandle::Left
        } else if self.right_handle_start.at_most(target_x) && target_x.at_most(self.right) {
            ResizeHandle::Right
        } else {
            ResizeHandle::Neither
        }
    }
}

impl ZoomEffect {
    /// When zooming in begins: one animation before the start, but not before the recording.
    pub open spec fn start_anim(self) -> nat {
        if self.start_nsec <= ZOOM_ANIMATION_NSEC {
            0
        } else {
            (self.start_nsec - ZOOM_ANIMATION_NSEC) as nat
        }
    }

    /// When zooming out is over: one animation after the end, but not after the recording.
    pub open spec fn end_anim(self, video_duration_nsec: nat) -> nat {
        if self.end_nsec + ZOOM_ANIMATION_NSEC > video_duration_nsec {
            video_duration_nsec
        } else {
            (self.end_nsec + ZOOM_ANIMATION_NSEC) as nat
        }
    }

    /// Whether the end leaves room for the animation after it in the type of a time.
    pub open spec fn has_room(self) -> bool {
        self.end_nsec + ZOOM_ANIMATION_NSEC <= u64::MAX
    }

    /// A new effect that begins at `current_pos`.
    pub fn at_position(current_pos: u64, factor: Double, pos_x: Double, pos_y: Double) -> (res:
        ZoomEffect)
        requires
            current_pos + NEW_ZOOM_NSEC <= u64::MAX,
        ensures
            res == (ZoomEffect {
                factor,
                start_nsec: current_pos,
                end_nsec: (current_pos + NEW_ZOOM_NSEC) as u64,
                pos_x,
                pos_y,
            }),
    {
        ZoomEffect {
            factor,
            start_nsec: current_pos,
            end_nsec: current_pos + NEW_ZOOM_NSEC,
            pos_x,
            pos_y,
        }
    }

    pub fn start_anim_nsec(&self) -> (res: u64)
        ensures
            res == self.start_anim(),
            self.start_nsec >= ZOOM_ANIMATION_NSEC ==> res + ZOOM_ANIMATION_NSEC
                == self.start_nsec,
            self.start_nsec < ZOOM_ANIMATION_NSEC ==> res == 0,
    {
        if self.start_nsec <= ZOOM_ANIMATION_NSEC {
            return 0;
        }
        self.start_nsec - ZOOM_ANIMATION_NSEC
    }

    pub fn end_anim_nsec(&self, video_duration_nsec: u64) -> (res: u64)
        requires
            self.has_room(),
        ensures
            res == self.end_anim(video_duration_nsec as nat),
            self.end_nsec + ZOOM_ANIMATION_NSEC <= video_duration_nsec ==> res == self.end_nsec
                + ZOOM_ANIMATION_NSEC,
            self.end_nsec + ZOOM_ANIMATION_NSEC > video_duration_nsec ==> res
                == video_duration_nsec,
    {
        if self.end_nsec + ZOOM_ANIMATION_NSEC > video_duration_nsec {
            return video_duration_nsec;
        }
        self.end_nsec + ZOOM_ANIMATION_NSEC
    }

    /// The times of the four keyframes: zooming in, start, end, zoomed out.
    pub fn clocktimes(&self, video_duration: u64) -> (res: (u64, u64, u64, u64))
        requires
            self.has_room(),
        ensures
            res == (
                self.start_anim() as u64,
                self.start_nsec,
                self.end_nsec,
                self.end_anim(video_duration as nat) as u64,
            ),
    {
        (
            self.start_anim_nsec(),
            self.start_nsec,
            self.end_nsec,
            self.end_anim_nsec(video_duration),
        )
    }

    /// Whether `bounds` are what `place` gives for this effect at a scale. An effect is placed by
    /// its first moment and its length, both with the animations.
    pub open spec fn placed<F: Fn(u64, u64, Double) -> TimelineBounds>(
        self,
        place: F,
        time_scale: Double,
        timeline_duration_ns: nat,
        bounds: TimelineBounds,
    ) -> bool {
        place.ensures(
            (
                self.start_anim() as u64,
                (self.end_anim(timeline_duration_ns) - self.start_anim()) as u64,
                time_scale,
            ),
            bounds,
        )
    }

    /// Whether `bounds` are where this effect lies on a timeline of the given width.
    pub open spec fn lies_at<S: Fn(Double, u64) -> Double, F: Fn(u64, u64, Double) -> TimelineBounds>(
        self,
        timeline_width: Double,
        timeline_duration_ns: u64,
        divide: S,
        place: F,
        bounds: TimelineBounds,
    ) -> bool {
        exists|scale: Double| #[trigger]
            is_time_scale(divide, timeline_width, timeline_duration_ns, scale) && self.placed(
                place,
                scale,
                timeline_duration_ns as nat,
                bounds,
            )
    }

    /// Whether the effect has begun to zoom in before the recording ends.
    pub open spec fn begins_within(self, timeline_duration_ns: nat) -> bool {
        self.start_anim() <= self.end_anim(timeline_duration_ns)
    }

    /// Where this effect lies on a timeline of the given scale.
    pub fn timeline_bounds_at_scale<F: Fn(u64, u64, Double) -> TimelineBounds>(
        &self,
        time_scale: Double,
        timeline_duration_nsec: u64,
        place: &F,
    ) -> (res: TimelineBounds)
        requires
            self.has_room(),
            self.begins_within(timeline_duration_nsec as nat),
            forall|start: u64, length: u64| place.requires((start, length, time_scale)),
        ensures
            self.placed(*place, time_scale, timeline_duration_nsec as nat, res),
    {
        let start: u64 = self.start_anim_nsec();
        let length: u64 = self.end_anim_nsec(timeline_duration_nsec) - start;
        place(start, length, time_scale)
    }

    /// Where this effect lies on a timeline of the given width.
    pub fn timeline_bounds<S: Fn(Double, u64) -> Double, F: Fn(u64, u64, Double) -> TimelineBounds>(
        &self,
        timeline_width: Double,
        timeline_duration_ns: u64,
        divide: &S,
        place: &F,
    ) -> (res: TimelineBounds)
        requires
            self.has_room(),
            self.begins_within(timeline_duration_ns as nat),
            forall|width: Double, duration: u64| divide.requires((width, duration)),
            forall|start: u64, length: u64, scale: Double| place.requires((start, length, scale)),
        ensures
            self.lies_at(timeline_width, timeline_duration_ns, *divide, *place, res),
    {
        let scale = time_scale(timeline_width, timeline_duration_ns, divide);
        self.timeline_bounds_at_scale(scale, timeline_duration_ns, place)
    }

    pub fn timeline_contains<
        S: Fn(Double, u64) -> Double,
        F: Fn(u64, u64, Double) -> TimelineBounds,
    >(
        &self,
        target_x: Double,
        timeline_width: Double,
        timeline_duration_ns: u64,
        divide: &S,
        place: &F,
    ) -> (res: bool)
        requires
            self.has_room(),
            self.begins_within(timeline_duration_ns as nat),
            forall|width: Double, duration: u64| divide.requires((width, duration)),
            forall|start: u64, length: u64, scale: Double| place.requires((start, length, scale)),
        ensures
            exists|bounds: TimelineBounds| #[trigger]
                self.lies_at(timeline_width, timeline_duration_ns, *divide, *place, bounds) && res
                    == bounds.spans(target_x),
    {
        let bounds = self.timeline_bounds(timeline_width, timeline_duration_ns, divide, place);
        bounds.contains(target_x)
    }

    pub fn timeline_resize_handle_at<
        S: Fn(Double, u64) -> Double,
        F: Fn(u64, u64, Double) -> TimelineBounds,
    >(
        &self,
        target_x: Double,
        timeline_width: Double,
        timeline_duration_ns: u64,
        divide: &S,
        place: &F,
    ) -> (res: ResizeHandle)
        requires
            self.has_room(),
            self.begins_within(timeline_duration_ns as nat),
            forall|width: Double, duration: u64| divide.requires((width, duration)),
            forall|start: u64, length: u64, scale: Double| place.requires((start, length, scale)),
        ensures
            exists|bounds: TimelineBounds| #[trigger]
                self.lies_at(timeline_width, timeline_duration_ns, *divide, *place, bounds) && res
                    == bounds.handle(target_x),
    {
        let bounds = self.timeline_bounds(timeline_width, timeline_duration_ns, divide, place);
        bounds.resize_handle_at(target_x)
    }
}

/// Whether a timeline of the given width and length has this scale, in pixels a nanosecond: the
/// quotient of the two, which `divide` computes, or zero without a length.
pub open spec fn is_time_scale<S: Fn(Double, u64) -> Double>(
    divide: S,
    timeline_width: Double,
    timeline_duration_ns: u64,
    scale: Double,
) -> bool {
    if timeline_duration_ns > 0 {
        divide.ensures((timeline_width, timeline_duration_ns), scale)
    } else {
        scale == zero()
    }
}

/// The scale of a timeline.
pub fn time_scale<S: Fn(Double, u64) -> Double>(
    timeline_width: Double,
    timeline_duration_ns: u64,
    divide: &S,
) -> (res: Double)
    requires
        timeline_duration_ns > 0 ==> divide.requires((timeline_width, timeline_duration_ns)),
    ensures
        is_time_scale(*divide, timeline_width, timeline_duration_ns, res),
{
    if timeline_duration_ns > 0 {
        divide(timeline_width, timeline_duration_ns)
    } else {
        Double { bits: 0 }
    }
}

/// A property of the picture that zooming animates: how much of a side is cropped.
#[derive(Clone, Copy, Debug, PartialEq, Eq, Structural)]
pub enum ZoomProperty {
    Top,
    Bottom,
    Left,
    Right,
}

impl ZoomProperty {
    pub open spec fn named(self) -> Seq<char> {
        match self {
            ZoomProperty::Top => "top"@,
            ZoomProperty::Bottom => "bottom"@,
            ZoomProperty::Left => "left"@,
            ZoomProperty::Right => "right"@,
        }
    }

    pub fn name(self) -> (res: &'static str)
        ensures
            res@ == self.named(),
    {
        match self {
            ZoomProperty::Top => "top",
            ZoomProperty::Bottom => "bottom",
            ZoomProperty::Left => "left",
            ZoomProperty::Right => "right",
        }
    }
}

/// One value for each property.
#[derive(Clone, Copy, Debug)]
pub struct ZoomCrop {
    pub top: Double,
    pub bottom: Double,
    pub left: Double,
    pub right: Double,
}

impl ZoomCrop {
    pub open spec fn of(self, property: ZoomProperty) -> Double {
        match property {
            ZoomProperty::Top => self.top,
            ZoomProperty::Bottom => self.bottom,
            ZoomProperty::Left => self.left,
            ZoomProperty::Right => self.right,
        }
    }
}

/// The value of each property at the beginning of the recording, where it is known.
#[derive(Clone, Copy, Debug)]
pub struct ZoomBase {
    pub top: Option<Double>,
    pub bottom: Option<Double>,
    pub left: Option<Double>,
    pub right: Option<Double>,
}

impl ZoomBase {
    pub open spec fn of(self, property: ZoomProperty) -> Option<Double> {
        match property {
            ZoomProperty::Top => self.top,
            ZoomProperty::Bottom => self.bottom,
            ZoomProperty::Left => self.left,
            ZoomProperty::Right => self.right,
        }
    }
}

/// A change of the curve of a property.
#[derive(Clone, Copy, Debug, PartialEq, Eq, Structural)]
pub enum ZoomKeyframe {
    Put { property: ZoomProperty, time: u64, value: Double },
    Remove { property: ZoomProperty, time: u64 },
}

/// The keyframes that show an effect in one property: from the base value to the target one and
/// back. Where the base value is not known, the property is left alone, and a keyframe at the very
/// beginning is left as it is.
pub open spec fn shown_in(
    zoom: ZoomEffect,
    video_duration: nat,
    property: ZoomProperty,
    base: Option<Double>,
    target: Double,
) -> Seq<ZoomKeyframe> {
    match base {
        None => Seq::empty(),
        Some(base) => {
            let zooming_in = if zoom.start_anim() == 0 {
                Seq::empty()
            } else {
                seq![
                    ZoomKeyframe::Put { property, time: zoom.start_anim() as u64, value: base },
                ]
            };
            zooming_in + seq![
                ZoomKeyframe::Put { property, time: zoom.start_nsec, value: target },
                ZoomKeyframe::Put { property, time: zoom.end_nsec, value: target },
                ZoomKeyframe::Put {
                    property,
                    time: zoom.end_anim(video_duration) as u64,
                    value: base,
                },
            ]
        },
    }
}

/// The keyframes that show an effect.
pub open spec fn shown(
    zoom: ZoomEffect,
    video_duration: nat,
    base: ZoomBase,
    target: ZoomCrop,
) -> Seq<ZoomKeyframe> {
    shown_in(zoom, video_duration, ZoomProperty::Top, base.top, target.top) + shown_in(
        zoom,
        video_duration,
        ZoomProperty::Bottom,
        base.bottom,
        target.bottom,
    ) + shown_in(zoom, video_duration, ZoomProperty::Left, base.left, target.left) + shown_in(
        zoom,
        video_duration,
        ZoomProperty::Right,
        base.right,
        target.right,
    )
}

/// The keyframes that take an effect back in one property.
pub open spec fn unshown_in(
    zoom: ZoomEffect,
    video_duration: nat,
    property: ZoomProperty,
) -> Seq<ZoomKeyframe> {
    let zooming_in = if zoom.start_anim() == 0 {
        Seq::empty()
    } else {
        seq![ZoomKeyframe::Remove { property, time: zoom.start_anim() as u64 }]
    };
    zooming_in + seq![
        ZoomKeyframe::Remove { property, time: zoom.start_nsec },
        ZoomKeyframe::Remove { property, time: zoom.end_nsec },
        ZoomKeyframe::Remove { property, time: zoom.end_anim(video_duration) as u64 },
    ]
}

/// The keyframes that take an effect back.
pub open spec fn unshown(zoom: ZoomEffect, video_duration: nat) -> Seq<ZoomKeyframe> {
    unshown_in(zoom, video_duration, ZoomProperty::Top) + unshown_in(
        zoom,
        video_duration,
        ZoomProperty::Bottom,
    ) + unshown_in(zoom, video_duration, ZoomProperty::Left) + unshown_in(
        zoom,
        video_duration,
        ZoomProperty::Right,
    )
}

fn push_shown(
    keyframes: &mut Vec<ZoomKeyframe>,
    zoom: &ZoomEffect,
    video_duration: u64,
    property: ZoomProperty,
    base: Option<Double>,
    target: Double,
)
    requires
        zoom.has_room(),
    ensures
        final(keyframes)@ == old(keyframes)@ + shown_in(
            *zoom,
            video_duration as nat,
            property,
            base,
            target,
        ),
{
    if let Some(base_value) = base {
        let (start_anim_ns, start_ns, end_ns, end_anim_ns) = zoom.clocktimes(video_duration);
        if start_anim_ns != 0 {
            keyframes.push(ZoomKeyframe::Put { property, time: start_anim_ns, value: base_value });
        }
        keyframes.push(ZoomKeyframe::Put { property, time: start_ns, value: target });
        keyframes.push(ZoomKeyframe::Put { property, time: end_ns, value: target });
        keyframes.push(ZoomKeyframe::Put { property, time: end_anim_ns, value: base_value });
    }
    assert(keyframes@ =~= old(keyframes)@ + shown_in(
        *zoom,
        video_duration as nat,
        property,
        base,
        target,
    ));
}

fn push_unshown(
    keyframes: &mut Vec<ZoomKeyframe>,
    zoom: &ZoomEffect,
    video_duration: u64,
    property: ZoomProperty,
)
    requires
        zoom.has_room(),
    ensures
        final(keyframes)@ == old(keyframes)@ + unshown_in(*zoom, video_duration as nat, property),
{
    let (start_anim_ns, start_ns, end_ns, end_anim_ns) = zoom.clocktimes(video_duration);
    if start_anim_ns != 0 {
        keyframes.push(ZoomKeyframe::Remove { property, time: start_anim_ns });
    }
    keyframes.push(ZoomKeyframe::Remove { property, time: start_ns });
    keyframes.push(ZoomKeyframe::Remove { property, time: end_ns });
    keyframes.push(ZoomKeyframe::Remove { property, time: end_anim_ns });
    assert(keyframes@ =~= old(keyframes)@ + unshown_in(*zoom, video_duration as nat, property));
}

/// The keyframes that show `zoom` in a recording of this length, where the properties begin with
/// `base` and the zoomed picture has `target`.
pub fn show_keyframes(
    zoom: &ZoomEffect,
    video_duration: u64,
    base: &ZoomBase,
    target: &ZoomCrop,
) -> (res: Vec<ZoomKeyframe>)
    requires
        zoom.has_room(),
    ensures
        res@ == shown(*zoom, video_duration as nat, *base, *target),
{
    let mut res: Vec<ZoomKeyframe> = Vec::new();
    push_shown(&mut res, zoom, video_duration, ZoomProperty::Top, base.top, target.top);
    push_shown(&mut res, zoom, video_duration, ZoomProperty::Bottom, base.bottom, target.bottom);
    push_shown(&mut res, zoom, video_duration, ZoomProperty::Left, base.left, target.left);
    push_shown(&mut res, zoom, video_duration, ZoomProperty::Right, base.right, target.right);
    assert(res@ =~= shown(*zoom, video_duration as nat, *base, *target));
    res
}

/// The keyframes that take `zoom` back in a recording of this length.
pub fn unshow_keyframes(zoom: &ZoomEffect, video_duration: u64) -> (res: Vec<ZoomKeyframe>)
    requires
        zoom.has_room(),
    ensures
        res@ == unshown(*zoom, video_duration as nat),
{
    let mut res: Vec<ZoomKeyframe> = Vec::new();
    push_unshown(&mut res, zoom, video_duration, ZoomProperty::Top);
    push_unshown(&mut res, zoom, video_duration, ZoomProperty::Bottom);
    push_unshown(&mut res, zoom, video_duration, ZoomProperty::Left);
    push_unshown(&mut res, zoom, video_duration, ZoomProperty::Right);
    assert(res@ =~= unshown(*zoom, video_duration as nat));
    res
}

/// The last moment that a keyframe can have: the largest time that is one.
pub const LAST_MOMENT: u64 = 0xffff_ffff_ffff_fffe;

/// The keyframes of a property that stays at zero until `end`.
pub open spec fn flat(property: ZoomProperty, end: u64) -> Seq<ZoomKeyframe> {
    seq![
        ZoomKeyframe::Put { property, time: 0, value: Double { bits: 0 } },
        ZoomKeyframe::Put { property, time: end, value: Double { bits: 0 } },
    ]
}

fn push_flat(keyframes: &mut Vec<ZoomKeyframe>, property: ZoomProperty, end: u64)
    ensures
        final(keyframes)@ == old(keyframes)@ + flat(property, end),
{
    keyframes.push(ZoomKeyframe::Put { property, time: 0, value: Double { bits: 0 } });
    keyframes.push(ZoomKeyframe::Put { property, time: end, value: Double { bits: 0 } });
    assert(keyframes@ =~= old(keyframes)@ + flat(property, end));
}

/// The keyframes before any effect: nothing is cropped, up to the end of the recording or, where
/// that is not known, up to the last moment.
pub fn setup_zoom(video_duration: Option<u64>) -> (res: Vec<ZoomKeyframe>)
    ensures
        ({
            let end = match video_duration {
                Some(duration) => duration,
                None => LAST_MOMENT,
            };
            res@ == flat(ZoomProperty::Top, end) + flat(ZoomProperty::Bottom, end) + flat(
                ZoomProperty::Left,
                end,
            ) + flat(ZoomProperty::Right, end)
        }),
{
    let end: u64 = match video_duration {
        Some(duration) => duration,
        None => LAST_MOMENT,
    };
    let mut res: Vec<ZoomKeyframe> = Vec::new();
    push_flat(&mut res, ZoomProperty::Top, end);
    push_flat(&mut res, ZoomProperty::Bottom, end);
    push_flat(&mut res, ZoomProperty::Left, end);
    push_flat(&mut res, ZoomProperty::Right, end);
    res
}

/// The curves of the properties: the value at each keyframe.
pub type ZoomCurves = Map<(ZoomProperty, u64), Double>;

/// The curves after some changes.
pub open spec fn replayed(curves: ZoomCurves, keyframes: Seq<ZoomKeyframe>) -> ZoomCurves
    decreases keyframes.len(),
{
    if keyframes.len() == 0 {
        curves
    } else {
        let before = replayed(curves, keyframes.drop_last());
        match keyframes.last() {
            ZoomKeyframe::Put { property, time, value } => before.insert((property, time), value),
            ZoomKeyframe::Remove { property, time } => before.remove((property, time)),
        }
    }
}

/// Whether `time` is one of the moments at which `zoom` has a keyframe.
pub open spec fn has_keyframe_at(zoom: ZoomEffect, video_duration: nat, time: u64) -> bool {
    ||| zoom.start_anim() != 0 && time == zoom.start_anim()
    ||| time == zoom.start_nsec
    ||| time == zoom.end_nsec
    ||| time == zoom.end_anim(video_duration)
}

proof fn lemma_replayed_in_turn(
    curves: ZoomCurves,
    first: Seq<ZoomKeyframe>,
    second: Seq<ZoomKeyframe>,
)
    ensures
        replayed(curves, first + second) == replayed(replayed(curves, first), second),
    decreases second.len(),
{
    if second.len() == 0 {
        assert(first + second =~= first);
    } else {
        lemma_replayed_in_turn(curves, first, second.drop_last());
        assert((first + second).drop_last() =~= first + second.drop_last());
    }
}

proof fn lemma_replayed_one(curves: ZoomCurves, keyframe: ZoomKeyframe)
    ensures
        replayed(curves, seq![keyframe]) == (match keyframe {
            ZoomKeyframe::Put { property, time, value } => curves.insert((property, time), value),
            ZoomKeyframe::Remove { property, time } => curves.remove((property, time)),
        }),
{
    let one = seq![keyframe];
    assert(one.drop_last() =~= Seq::empty());
    assert(replayed(curves, one.drop_last()) == curves);
}

/// The curves after an effect is shown in one property.
spec fn curves_shown_in(
    curves: ZoomCurves,
    zoom: ZoomEffect,
    video_duration: nat,
    property: ZoomProperty,
    base: Option<Double>,
    target: Double,
) -> ZoomCurves {
    match base {
        None => curves,
        Some(base) => {
            let zooming_in = if zoom.start_anim() == 0 {
                curves
            } else {
                curves.insert((property, zoom.start_anim() as u64), base)
            };
            zooming_in.insert((property, zoom.start_nsec), target).insert(
                (property, zoom.end_nsec),
                target,
            ).insert((property, zoom.end_anim(video_duration) as u64), base)
        },
    }
}

proof fn lemma_replayed_shown_in(
    curves: ZoomCurves,
    zoom: ZoomEffect,
    video_duration: nat,
    property: ZoomProperty,
    base: Option<Double>,
    target: Double,
)
    ensures
        replayed(curves, shown_in(zoom, video_duration, property, base, target)) == curves_shown_in(
            curves,
            zoom,
            video_duration,
            property,
            base,
            target,
        ),
{
    if let Some(value) = base {
        let all = shown_in(zoom, video_duration, property, base, target);
        let begin = ZoomKeyframe::Put { property, time: zoom.start_anim() as u64, value };
        let k1 = ZoomKeyframe::Put { property, time: zoom.start_nsec, value: target };
        let k2 = ZoomKeyframe::Put { property, time: zoom.end_nsec, value: target };
        let k3 = ZoomKeyframe::Put {
            property,
            time: zoom.end_anim(video_duration) as u64,
            value,
        };
        let zooming_in = if zoom.start_anim() == 0 {
            Seq::empty()
        } else {
            seq![begin]
        };
        lemma_replayed_one(curves, begin);
        let c0 = replayed(curves, zooming_in);
        lemma_replayed_four(curves, zooming_in, k1, k2, k3);
        assert(all =~= zooming_in + seq![k1] + seq![k2] + seq![k3]);
        lemma_replayed_one(c0, k1);
        let c1 = c0.insert((property, zoom.start_nsec), target);
        lemma_replayed_one(c1, k2);
        let c2 = c1.insert((property, zoom.end_nsec), target);
        lemma_replayed_one(c2, k3);
    }
}

proof fn lemma_replayed_four(
    curves: ZoomCurves,
    head: Seq<ZoomKeyframe>,
    k1: ZoomKeyframe,
    k2: ZoomKeyframe,
    k3: ZoomKeyframe,
)
    ensures
        replayed(curves, head + seq![k1] + seq![k2] + seq![k3]) == replayed(
            replayed(replayed(replayed(curves, head), seq![k1]), seq![k2]),
            seq![k3],
        ),
{
    lemma_replayed_in_turn(curves, head, seq![k1]);
    lemma_replayed_in_turn(curves, head + seq![k1], seq![k2]);
    lemma_replayed_in_turn(curves, head + seq![k1] + seq![k2], seq![k3]);
}

proof fn lemma_replayed_unshown_in(
    curves: ZoomCurves,
    zoom: ZoomEffect,
    video_duration: nat,
    property: ZoomProperty,
)
    requires
        zoom.end_anim(video_duration) <= u64::MAX,
    ensures
        ({
            let after = replayed(curves, unshown_in(zoom, video_duration, property));
            forall|p: ZoomProperty, time: u64|
                {
                    let removed = p == property && has_keyframe_at(zoom, video_duration, time);
                    &&& #[trigger] after.contains_key((p, time)) <==> curves.contains_key(
                        (p, time),
                    ) && !removed
                    &&& after.contains_key((p, time)) ==> after[(p, time)] == curves[(p, time)]
                }
        }),
{
    let all = unshown_in(zoom, video_duration, property);
    let begin = ZoomKeyframe::Remove { property, time: zoom.start_anim() as u64 };
    let k1 = ZoomKeyframe::Remove { property, time: zoom.start_nsec };
    let k2 = ZoomKeyframe::Remove { property, time: zoom.end_nsec };
    let k3 = ZoomKeyframe::Remove { property, time: zoom.end_anim(video_duration) as u64 };
    let zooming_in = if zoom.start_anim() == 0 {
        Seq::empty()
    } else {
        seq![begin]
    };
    lemma_replayed_one(curves, begin);
    let c0 = replayed(curves, zooming_in);
    lemma_replayed_four(curves, zooming_in, k1, k2, k3);
    assert(all =~= zooming_in + seq![k1] + seq![k2] + seq![k3]);
    lemma_replayed_one(c0, k1);
    let c1 = c0.remove((property, zoom.start_nsec));
    lemma_replayed_one(c1, k2);
    let c2 = c1.remove((property, zoom.end_nsec));
    lemma_replayed_one(c2, k3);
}

proof fn lemma_replayed_shown(
    curves: ZoomCurves,
    zoom: ZoomEffect,
    video_duration: nat,
    base: ZoomBase,
    target: ZoomCrop,
)
    ensures
        ({
            let top = curves_shown_in(
                curves,
                zoom,
                video_duration,
                ZoomProperty::Top,
                base.top,
                target.top,
            );
            let bottom = curves_shown_in(
                top,
                zoom,
                video_duration,
                ZoomProperty::Bottom,
                base.bottom,
                target.bottom,
            );
            let left = curves_shown_in(
                bottom,
                zoom,
                video_duration,
                ZoomProperty::Left,
                base.left,
                target.left,
            );
            replayed(curves, shown(zoom, video_duration, base, target)) == curves_shown_in(
                left,
                zoom,
                video_duration,
                ZoomProperty::Right,
                base.right,
                target.right,
            )
        }),
{
    let k1 = shown_in(zoom, video_duration, ZoomProperty::Top, base.top, target.top);
    let k2 = shown_in(zoom, video_duration, ZoomProperty::Bottom, base.bottom, target.bottom);
    let k3 = shown_in(zoom, video_duration, ZoomProperty::Left, base.left, target.left);
    let k4 = shown_in(zoom, video_duration, ZoomProperty::Right, base.right, target.right);
    lemma_replayed_in_turn(curves, k1 + k2 + k3, k4);
    lemma_replayed_in_turn(curves, k1 + k2, k3);
    lemma_replayed_in_turn(curves, k1, k2);
    lemma_replayed_shown_in(
        curves,
        zoom,
        video_duration,
        ZoomProperty::Top,
        base.top,
        target.top,
    );
    let top = replayed(curves, k1);
    lemma_replayed_shown_in(
        top,
        zoom,
        video_duration,
        ZoomProperty::Bottom,
        base.bottom,
        target.bottom,
    );
    let bottom = replayed(top, k2);
    lemma_replayed_shown_in(
        bottom,
        zoom,
        video_duration,
        ZoomProperty::Left,
        base.left,
        target.left,
    );
    let left = replayed(bottom, k3);
    lemma_replayed_shown_in(
        left,
        zoom,
        video_duration,
        ZoomProperty::Right,
        base.right,
        target.right,
    );
}

/// Taking an effect back removes its keyframes from every property and changes no other.
pub proof fn law_unshow_removes_only_its_keyframes(
    curves: ZoomCurves,
    zoom: ZoomEffect,
    video_duration: u64,
)
    ensures
        ({
            let after = replayed(curves, unshown(zoom, video_duration as nat));
            forall|property: ZoomProperty, time: u64|
                {
                    &&& #[trigger] after.contains_key((property, time)) <==> curves.contains_key(
                        (property, time),
                    ) && !has_keyframe_at(zoom, video_duration as nat, time)
                    &&& after.contains_key((property, time)) ==> after[(property, time)]
                        == curves[(property, time)]
                }
        }),
{
    let duration = video_duration as nat;
    let k1 = unshown_in(zoom, duration, ZoomProperty::Top);
    let k2 = unshown_in(zoom, duration, ZoomProperty::Bottom);
    let k3 = unshown_in(zoom, duration, ZoomProperty::Left);
    let k4 = unshown_in(zoom, duration, ZoomProperty::Right);
    lemma_replayed_in_turn(curves, k1 + k2 + k3, k4);
    lemma_replayed_in_turn(curves, k1 + k2, k3);
    lemma_replayed_in_turn(curves, k1, k2);
    let top = replayed(curves, k1);
    let bottom = replayed(top, k2);
    let left = replayed(bottom, k3);
    let right = replayed(left, k4);
    lemma_replayed_unshown_in(curves, zoom, duration, ZoomProperty::Top);
    lemma_replayed_unshown_in(top, zoom, duration, ZoomProperty::Bottom);
    lemma_replayed_unshown_in(bottom, zoom, duration, ZoomProperty::Left);
    lemma_replayed_unshown_in(left, zoom, duration, ZoomProperty::Right);
    assert forall|property: ZoomProperty, time: u64|
        {
            &&& #[trigger] right.contains_key((property, time)) <==> curves.contains_key(
                (property, time),
            ) && !has_keyframe_at(zoom, duration, time)
            &&& right.contains_key((property, time)) ==> right[(property, time)]
                == curves[(property, time)]
        } by {
        let key = (property, time);
        assert(left.contains_key(key) || !left.contains_key(key));
        assert(bottom.contains_key(key) || !bottom.contains_key(key));
        assert(top.contains_key(key) || !top.contains_key(key));
    }
}

/// Taking back an effect that was just shown leaves the curves as they were before, where they had
/// no keyframe of their own at its moments.
pub proof fn law_unshow_undoes_show(
    curves: ZoomCurves,
    zoom: ZoomEffect,
    video_duration: u64,
    base: ZoomBase,
    target: ZoomCrop,
)
    requires
        forall|property: ZoomProperty, time: u64|
            has_keyframe_at(zoom, video_duration as nat, time) ==> !#[trigger] curves.contains_key(
                (property, time),
            ),
    ensures
        replayed(
            replayed(curves, shown(zoom, video_duration as nat, base, target)),
            unshown(zoom, video_duration as nat),
        ) == curves,
{
    let middle = replayed(curves, shown(zoom, video_duration as nat, base, target));
    let after = replayed(middle, unshown(zoom, video_duration as nat));
    lemma_replayed_shown(curves, zoom, video_duration as nat, base, target);
    law_unshow_removes_only_its_keyframes(middle, zoom, video_duration);
    assert forall|key: (ZoomProperty, u64)| #[trigger] after.contains_key(key)
        <==> curves.contains_key(key) by {
        let (property, time) = key;
        assert(key == (property, time));
    }
    assert forall|key: (ZoomProperty, u64)| #[trigger] curves.contains_key(key) implies after[key]
        == curves[key] by {
        let (property, time) = key;
        assert(after.contains_key((property, time)));
        assert(after[key] == middle[key]);
        assert(!has_keyframe_at(zoom, video_duration as nat, time));
    }
    assert(after =~= curves);
}

/// A shown effect has the target value at its start and at its end, and the base value before it
/// zooms in and after it has zoomed out; the rest of the curves stays as it was.
pub proof fn law_shown_effect_reaches_its_target(
    curves: ZoomCurves,
    zoom: ZoomEffect,
    video_duration: u64,
    base: ZoomBase,
    target: ZoomCrop,
    property: ZoomProperty,
    time: u64,
)
    requires
        base.of(property) is Some,
        zoom.start_nsec <= zoom.end_nsec < video_duration,
    ensures
        ({
            let after = replayed(curves, shown(zoom, video_duration as nat, base, target));
            &&& after.contains_key((property, zoom.start_nsec))
            &&& after[(property, zoom.start_nsec)] == target.of(property)
            &&& after.contains_key((property, zoom.end_nsec))
            &&& after[(property, zoom.end_nsec)] == target.of(property)
            &&& after.contains_key((property, zoom.end_anim(video_duration as nat) as u64))
            &&& after[(property, zoom.end_anim(video_duration as nat) as u64)] == base.of(
                property,
            )->0
            &&& zoom.start_anim() != 0 ==> {
                &&& after.contains_key((property, zoom.start_anim() as u64))
                &&& after[(property, zoom.start_anim() as u64)] == base.of(property)->0
            }
            &&& !has_keyframe_at(zoom, video_duration as nat, time) ==> {
                &&& after.contains_key((property, time)) <==> curves.contains_key((property, time))
                &&& after[(property, time)] == curves[(property, time)]
            }
        }),
{
    lemma_replayed_shown(curves, zoom, video_duration as nat, base, target);
}

/// The moments of an effect are in order, for an effect that lies within the recording.
pub proof fn law_moments_are_in_order(zoom: ZoomEffect, video_duration: u64)
    requires
        zoom.start_nsec <= zoom.end_nsec <= video_duration,
    ensures
        zoom.start_anim() <= zoom.start_nsec,
        zoom.end_nsec <= zoom.end_anim(video_duration as nat) <= video_duration,
        zoom.begins_within(video_duration as nat),
{
}

/// An effect contains its handles, where they do not reach over its edges: a place with a handle is
/// a place where the effect is hit.
pub proof fn law_handles_lie_within_their_effect(bounds: TimelineBounds, target_x: Double)
    requires
        bounds.left_handle_end.le(bounds.right),
        bounds.left.le(bounds.right_handle_start),
        bounds.handle(target_x) != ResizeHandle::Neither,
    ensures
        bounds.spans(target_x),
{
}

/// Zooming in begins exactly one animation before the start, or with the recording where there is
/// less time; zooming out is over exactly one animation after the end, or with the recording where
/// there is less time.
pub proof fn law_animations_have_one_length(zoom: ZoomEffect, video_duration: nat)
    ensures
        zoom.start_nsec >= ZOOM_ANIMATION_NSEC ==> zoom.start_anim() + ZOOM_ANIMATION_NSEC
            == zoom.start_nsec,
        zoom.start_nsec < ZOOM_ANIMATION_NSEC ==> zoom.start_anim() == 0,
        zoom.end_nsec + ZOOM_ANIMATION_NSEC <= video_duration ==> zoom.end_anim(video_duration)
            == zoom.end_nsec + ZOOM_ANIMATION_NSEC,
        zoom.end_nsec + ZOOM_ANIMATION_NSEC > video_duration ==> zoom.end_anim(video_duration)
            == video_duration,
{
}

/// The curves once an effect is shown, keyframe by keyframe: the base value one animation before the
/// start, if that is after the beginning, the target at the start and at the end, and the base value
/// again one animation after the end, or at the end of the recording. Of keyframes at one time the
/// later one counts. A property without a base value stays as it was, and so does any other time.
pub proof fn law_shown_curve(
    curves: ZoomCurves,
    zoom: ZoomEffect,
    video_duration: u64,
    base: ZoomBase,
    target: ZoomCrop,
    property: ZoomProperty,
    time: u64,
)
    ensures
        ({
            let after = replayed(curves, shown(zoom, video_duration as nat, base, target));
            let key = (property, time);
            let over: int = if zoom.end_nsec + ZOOM_ANIMATION_NSEC <= video_duration {
                zoom.end_nsec + ZOOM_ANIMATION_NSEC
            } else {
                video_duration as int
            };
            let expected: Option<Double> = if base.of(property) is None {
                None
            } else if time == over {
                base.of(property)
            } else if time == zoom.start_nsec || time == zoom.end_nsec {
                Some(target.of(property))
            } else if time > 0 && time + ZOOM_ANIMATION_NSEC == zoom.start_nsec {
                base.of(property)
            } else {
                None
            };
            match expected {
                Some(value) => after.contains_key(key) && after[key] == value,
                None => {
                    &&& after.contains_key(key) <==> curves.contains_key(key)
                    &&& after.contains_key(key) ==> after[key] == curves[key]
                },
            }
        }),
{
    lemma_replayed_shown(curves, zoom, video_duration as nat, base, target);
}

/// The curves once an effect is taken back: the keyframes one animation before its start, at its
/// start, at its end, and one animation after its end or at the end of the recording are gone, and
/// all others are as they were.
pub proof fn law_unshown_curve(
    curves: ZoomCurves,
    zoom: ZoomEffect,
    video_duration: u64,
    property: ZoomProperty,
    time: u64,
)
    ensures
        ({
            let after = replayed(curves, unshown(zoom, video_duration as nat));
            let key = (property, time);
            let over: int = if zoom.end_nsec + ZOOM_ANIMATION_NSEC <= video_duration {
                zoom.end_nsec + ZOOM_ANIMATION_NSEC
            } else {
                video_duration as int
            };
            let gone = time == over || time == zoom.start_nsec || time == zoom.end_nsec || (time > 0
                && time + ZOOM_ANIMATION_NSEC == zoom.start_nsec);
            &&& after.contains_key(key) <==> curves.contains_key(key) && !gone
            &&& after.contains_key(key) ==> after[key] == curves[key]
        }),
{
    law_unshow_removes_only_its_keyframes(curves, zoom, video_duration);
    let after = replayed(curves, unshown(zoom, video_duration as nat));
    assert(after.contains_key((property, time)) || !after.contains_key((property, time)));
}

/// Showing an effect only puts keyframes, and taking it back only removes some.
pub proof fn law_keyframes_put_or_remove(
    zoom: ZoomEffect,
    video_duration: nat,
    base: ZoomBase,
    target: ZoomCrop,
    i: int,
)
    ensures
        0 <= i < shown(zoom, video_duration, base, target).len() ==> shown(
            zoom,
            video_duration,
            base,
            target,
        )[i] is Put,
        0 <= i < unshown(zoom, video_duration).len() ==> unshown(zoom, video_duration)[i] is Remove,
{
}

/// Before any effect, every property is zero at the beginning and at the end, and has no keyframe
/// between.
pub proof fn law_curves_begin_flat(end: u64, property: ZoomProperty, time: u64)
    ensures
        ({
            let curves = replayed(
                Map::empty(),
                flat(ZoomProperty::Top, end) + flat(ZoomProperty::Bottom, end) + flat(
                    ZoomProperty::Left,
                    end,
                ) + flat(ZoomProperty::Right, end),
            );
            &&& curves.contains_key((property, time)) <==> time == 0 || time == end
            &&& curves.contains_key((property, time)) ==> !curves[(property, time)].nan()
                && curves[(property, time)].value() == 0
        }),
{
    let none: ZoomCurves = Map::empty();
    let (t, b) = (flat(ZoomProperty::Top, end), flat(ZoomProperty::Bottom, end));
    let (l, r) = (flat(ZoomProperty::Left, end), flat(ZoomProperty::Right, end));
    lemma_replayed_in_turn(none, t + b + l, r);
    lemma_replayed_in_turn(none, t + b, l);
    lemma_replayed_in_turn(none, t, b);
    lemma_replayed_flat(none, ZoomProperty::Top, end);
    lemma_replayed_flat(replayed(none, t), ZoomProperty::Bottom, end);
    lemma_replayed_flat(replayed(replayed(none, t), b), ZoomProperty::Left, end);
    lemma_replayed_flat(
        replayed(replayed(replayed(none, t), b), l),
        ZoomProperty::Right,
        end,
    );
}

proof fn lemma_replayed_flat(curves: ZoomCurves, property: ZoomProperty, end: u64)
    ensures
        replayed(curves, flat(property, end)) == curves.insert((property, 0), zero()).insert(
            (property, end),
            zero(),
        ),
{
    let keyframes = flat(property, end);
    reveal_with_fuel(replayed, 3);
    assert(keyframes.drop_last().drop_last() =~= Seq::empty());
    assert(keyframes.drop_last().last() == keyframes[0]);
}

/// An effect is placed by the stretch from one animation before its start to one animation after its
/// end, cut off where the recording begins and ends.
pub proof fn law_effect_is_placed_with_its_animations<
    F: Fn(u64, u64, Double) -> TimelineBounds,
>(zoom: ZoomEffect, place: F, scale: Double, video_duration: u64, bounds: TimelineBounds)
    requires
        zoom.begins_within(video_duration as nat),
        zoom.placed(place, scale, video_duration as nat, bounds),
    ensures
        exists|start: u64, length: u64|
            {
                &&& #[trigger] place.ensures((start, length, scale), bounds)
                &&& start == if zoom.start_nsec >= ZOOM_ANIMATION_NSEC {
                    zoom.start_nsec - ZOOM_ANIMATION_NSEC
                } else {
                    0
                }
                &&& start + length == if zoom.end_nsec + ZOOM_ANIMATION_NSEC <= video_duration {
                    zoom.end_nsec + ZOOM_ANIMATION_NSEC
                } else {
                    video_duration as int
                }
            },
{
    let start = zoom.start_anim() as u64;
    let length = (zoom.end_anim(video_duration as nat) - zoom.start_anim()) as u64;
    assert(place.ensures((start, length, scale), bounds));
}

/// An effect lies on a timeline by the quotient of the timeline's width and length, or at scale zero
/// without a length.
pub proof fn law_effect_lies_at_scale<
    S: Fn(Double, u64) -> Double,
    F: Fn(u64, u64, Double) -> TimelineBounds,
>(
    zoom: ZoomEffect,
    width: Double,
    video_duration: u64,
    divide: S,
    place: F,
    bounds: TimelineBounds,
)
    requires
        zoom.lies_at(width, video_duration, divide, place, bounds),
    ensures
        exists|scale: Double|
            {
                &&& #[trigger] zoom.placed(place, scale, video_duration as nat, bounds)
                &&& video_duration > 0 ==> divide.ensures((width, video_duration), scale)
                &&& video_duration == 0 ==> !scale.nan() && scale.value() == 0
            },
{
    let scale = choose|scale: Double| #[trigger]
        is_time_scale(divide, width, video_duration, scale) && zoom.placed(
            place,
            scale,
            video_duration as nat,
            bounds,
        );
    assert(zoom.placed(place, scale, video_duration as nat, bounds));
}

/// A place hits an effect exactly where it lies between the effect's edges, and a handle exactly
/// where it lies between that handle's ends, the left one first. What is not a number hits nothing.
pub proof fn law_hits_follow_the_edges(bounds: TimelineBounds, x: Double)
    requires
        !bounds.left.nan(),
        !bounds.left_handle_end.nan(),
        !bounds.right_handle_start.nan(),
        !bounds.right.nan(),
    ensures
        bounds.spans(x) <==> !x.nan() && bounds.left.value() <= x.value() <= bounds.right.value(),
        bounds.handle(x) == ResizeHandle::Left <==> !x.nan() && bounds.left.value() <= x.value()
            <= bounds.left_handle_end.value(),
        bounds.handle(x) == ResizeHandle::Right <==> !x.nan() && bounds.right_handle_start.value()
            <= x.value() <= bounds.right.value() && !(bounds.left.value() <= x.value()
            <= bounds.left_handle_end.value()),
{
}

/// Each property has a value and a name of its own: what is cropped of one side never goes to
/// another one.
pub proof fn law_each_side_is_its_own(base: ZoomBase, target: ZoomCrop)
    ensures
        base.of(ZoomProperty::Top) == base.top,
        base.of(ZoomProperty::Bottom) == base.bottom,
        base.of(ZoomProperty::Left) == base.left,
        base.of(ZoomProperty::Right) == base.right,
        target.of(ZoomProperty::Top) == target.top,
        target.of(ZoomProperty::Bottom) == target.bottom,
        target.of(ZoomProperty::Left) == target.left,
        target.of(ZoomProperty::Right) == target.right,
        ZoomProperty::Top.named() == "top"@,
        ZoomProperty::Bottom.named() == "bottom"@,
        ZoomProperty::Left.named() == "left"@,
        ZoomProperty::Right.named() == "right"@,
{
}

/// New effects begin where they are put and all have one length.
pub proof fn law_new_effects_have_one_length(
    a: u64,
    b: u64,
    factor: Double,
    pos_x: Double,
    pos_y: Double,
    first: ZoomEffect,
    second: ZoomEffect,
)
    requires
        a + NEW_ZOOM_NSEC <= u64::MAX,
        b + NEW_ZOOM_NSEC <= u64::MAX,
        call_ensures(ZoomEffect::at_position, (a, factor, pos_x, pos_y), first),
        call_ensures(ZoomEffect::at_position, (b, factor, pos_x, pos_y), second),
    ensures
        first.start_nsec == a,
        second.start_nsec == b,
        first.end_nsec - first.start_nsec == second.end_nsec - second.start_nsec,
        first.end_nsec == a + NEW_ZOOM_NSEC,
        first.factor == factor && first.pos_x == pos_x && first.pos_y == pos_y,
{
}

/// The moments of an effect are one animation before its start, its start, its end, and one
/// animation after its end, cut off where the recording begins and ends.
pub proof fn law_moments_surround_the_effect(
    zoom: ZoomEffect,
    video_duration: u64,
    moments: (u64, u64, u64, u64),
)
    requires
        zoom.has_room(),
        call_ensures(ZoomEffect::clocktimes, (&zoom, video_duration), moments),
    ensures
        zoom.start_nsec >= ZOOM_ANIMATION_NSEC ==> moments.0 + ZOOM_ANIMATION_NSEC == moments.1,
        zoom.start_nsec < ZOOM_ANIMATION_NSEC ==> moments.0 == 0,
        moments.1 == zoom.start_nsec,
        moments.2 == zoom.end_nsec,
        zoom.end_nsec + ZOOM_ANIMATION_NSEC <= video_duration ==> moments.2 + ZOOM_ANIMATION_NSEC
            == moments.3,
        zoom.end_nsec + ZOOM_ANIMATION_NSEC > video_duration ==> moments.3 == video_duration,
{
}

/// Setting up puts the curves to zero at the beginning and at the end of the recording, and at no
/// other time.
pub proof fn law_setup_begins_flat(
    video_duration: u64,
    keyframes: Vec<ZoomKeyframe>,
    property: ZoomProperty,
    time: u64,
)
    requires
        call_ensures(setup_zoom, (Some(video_duration),), keyframes),
    ensures
        ({
            let curves = replayed(Map::empty(), keyframes@);
            &&& curves.contains_key((property, time)) <==> time == 0 || time == video_duration
            &&& curves.contains_key((property, time)) ==> !curves[(property, time)].nan()
                && curves[(property, time)].value() == 0
        }),
{
    law_curves_begin_flat(video_duration, property, time);
}

} // verus!
