//! The timeline below the picture: what is drawn on it, and what the pointer does to it.
use crate::double::{lemma_exact, Double};
use crate::rdp::zero;
use crate::video::{Video, VideoError};
use crate::zoom::{
    unshown, ResizeHandle, TimelineBounds, ZoomEffect, ZoomKeyframe, ZOOM_ANIMATION_NSEC,
};
use vstd::arithmetic::power2::pow2;
use vstd::prelude::*;

verus! {

/// The width in pixels above which an effect carries a label.
pub const LABEL_MIN_WIDTH: u64 = 25;

/// An effect that is being resized, and the range that it had before.
#[derive(Clone, Copy, Debug, PartialEq, Eq, Structural)]
pub struct DragState {
    pub effect_id: usize,
    pub handle: ResizeHandle,
    pub original_start_nsec: u64,
    pub original_end_nsec: u64,
}

/// Where the effects lie on a timeline of the given scale.
pub fn timeline_layout<F: Fn(u64, u64, Double) -> TimelineBounds>(
    effects: &Vec<ZoomEffect>,
    time_scale: Double,
    duration: u64,
    place: &F,
) -> (res: Vec<TimelineBounds>)
    requires
        forall|i: int|
            0 <= i < effects@.len() ==> (#[trigger] effects@[i]).has_room()
                && effects@[i].begins_within(duration as nat),
        forall|start: u64, length: u64| place.requires((start, length, time_scale)),
    ensures
        res@.len() == effects@.len(),
        forall|i: int|
            0 <= i < res@.len() ==> effects@[i].placed(
                *place,
                time_scale,
                duration as nat,
                #[trigger] res@[i],
            ),
{
    let mut layout: Vec<TimelineBounds> = Vec::new();
    let mut i: usize = 0;
    while i < effects.len()
        invariant
            i <= effects@.len(),
            forall|i: int|
                0 <= i < effects@.len() ==> (#[trigger] effects@[i]).has_room()
                    && effects@[i].begins_within(duration as nat),
            forall|start: u64, length: u64| place.requires((start, length, time_scale)),
            layout@.len() == i,
            forall|k: int|
                0 <= k < i ==> effects@[k].placed(
                    *place,
                    time_scale,
                    duration as nat,
                    #[trigger] layout@[k],
                ),
        decreases effects@.len() - i,
    {
        layout.push(effects[i].timeline_bounds_at_scale(time_scale, duration, place));
        i = i + 1;
    }
    layout
}

/// The first effect at `click_x`.
pub fn find_effect_at(layout: &Vec<TimelineBounds>, click_x: Double) -> (res: Option<usize>)
    ensures
        match res {
            Some(id) => {
                &&& id < layout@.len()
                &&& layout@[id as int].spans(click_x)
                &&& forall|k: int| 0 <= k < id ==> !(#[trigger] layout@[k]).spans(click_x)
            },
            None => forall|k: int|
                0 <= k < layout@.len() ==> !(#[trigger] layout@[k]).spans(click_x),
        },
{
    let mut i: usize = 0;
    while i < layout.len()
        invariant
            i <= layout@.len(),
            forall|k: int| 0 <= k < i ==> !(#[trigger] layout@[k]).spans(click_x),
        decreases layout@.len() - i,
    {
        if layout[i].contains(click_x) {
            return Some(i);
        }
        i = i + 1;
    }
    None
}

/// The first effect with a handle at `target_x`, and that handle.
pub fn find_resize_handle_at(
    effects: &Vec<ZoomEffect>,
    layout: &Vec<TimelineBounds>,
    target_x: Double,
) -> (res: Option<(usize, ZoomEffect, ResizeHandle)>)
    requires
        effects@.len() == layout@.len(),
    ensures
        match res {
            Some((id, effect, handle)) => {
                &&& id < layout@.len()
                &&& effect == effects@[id as int]
                &&& handle == layout@[id as int].handle(target_x)
                &&& handle != ResizeHandle::Neither
                &&& forall|k: int|
                    0 <= k < id ==> (#[trigger] layout@[k]).handle(target_x)
                        == ResizeHandle::Neither
            },
            None => forall|k: int|
                0 <= k < layout@.len() ==> (#[trigger] layout@[k]).handle(target_x)
                    == ResizeHandle::Neither,
        },
{
    let mut id: usize = 0;
    while id < layout.len()
        invariant
            id <= layout@.len() == effects@.len(),
            forall|k: int|
                0 <= k < id ==> (#[trigger] layout@[k]).handle(target_x) == ResizeHandle::Neither,
        decreases layout@.len() - id,
    {
        let handle = layout[id].resize_handle_at(target_x);
        if handle != ResizeHandle::Neither {
            return Some((id, effects[id], handle));
        }
        id = id + 1;
    }
    None
}

/// Whether a click on the timeline at `x` moves the playhead there: it does where it hits no
/// handle.
pub fn click_moves_playhead(
    effects: &Vec<ZoomEffect>,
    layout: &Vec<TimelineBounds>,
    x: Double,
) -> (res: bool)
    requires
        effects@.len() == layout@.len(),
    ensures
        res == forall|k: int|
            0 <= k < layout@.len() ==> (#[trigger] layout@[k]).handle(x) == ResizeHandle::Neither,
{
    find_resize_handle_at(effects, layout, x).is_none()
}

/// What becomes of the pointer's shape while it moves over the timeline.
#[derive(Clone, Copy, Debug, PartialEq, Eq, Structural)]
pub enum PointerShape {
    /// It stays as it is.
    Keep,
    /// It shows that an edge can be moved.
    Resize,
    /// It is the usual one.
    Usual,
}

/// The shape of the pointer at `x`. It does not change while a handle is held.
pub fn hover_cursor(
    drag: &Option<DragState>,
    effects: &Vec<ZoomEffect>,
    layout: &Vec<TimelineBounds>,
    x: Double,
) -> (res: PointerShape)
    requires
        effects@.len() == layout@.len(),
    ensures
        res == if *drag is Some {
            PointerShape::Keep
        } else if exists|k: int|
            0 <= k < layout@.len() && (#[trigger] layout@[k]).handle(x) != ResizeHandle::Neither {
            PointerShape::Resize
        } else {
            PointerShape::Usual
        },
{
    if drag.is_some() {
        return PointerShape::Keep;
    }
    if find_resize_handle_at(effects, layout, x).is_some() {
        PointerShape::Resize
    } else {
        PointerShape::Usual
    }
}

/// An effect as it is drawn.
#[derive(Clone, Copy, Debug)]
pub struct DrawnEffect {
    pub effect: ZoomEffect,
    pub bounds: TimelineBounds,
    /// Whether there is room for a label.
    pub labelled: bool,
}

/// What is drawn on the timeline: the effects, and the playhead where it is visible.
#[derive(Debug)]
pub struct TimelineDrawing {
    pub effects: Vec<DrawnEffect>,
    pub playhead: Option<u64>,
}

/// Whether an effect of this width carries a label.
pub open spec fn is_wide(width: Double) -> bool {
    !width.nan() && width.value() > LABEL_MIN_WIDTH * pow2(1074)
}

/// What is drawn while the recording plays at `current_pos`. The playhead is not drawn at the very
/// beginning.
pub fn snapshot(
    effects: &Vec<ZoomEffect>,
    layout: &Vec<TimelineBounds>,
    current_pos: u64,
    duration: u64,
) -> (res: TimelineDrawing)
    requires
        effects@.len() == layout@.len(),
    ensures
        res.playhead == if 0 < current_pos <= duration {
            Some(current_pos)
        } else {
            None
        },
        res.effects@.len() == effects@.len(),
        forall|i: int|
            0 <= i < effects@.len() ==> {
                &&& (#[trigger] res.effects@[i]).effect == effects@[i]
                &&& res.effects@[i].bounds == layout@[i]
                &&& res.effects@[i].labelled == is_wide(layout@[i].width)
                &&& res.effects@[i].labelled <==> !layout@[i].width.nan()
                    && layout@[i].width.value() > LABEL_MIN_WIDTH * pow2(1074)
            },
{
    let limit = Double::from_u64(LABEL_MIN_WIDTH);
    let mut drawn: Vec<DrawnEffect> = Vec::new();
    let mut i: usize = 0;
    proof {
        lemma_exact(LABEL_MIN_WIDTH as nat);
    }
    while i < effects.len()
        invariant
            i <= effects@.len() == layout@.len(),
            limit.is_integer(LABEL_MIN_WIDTH as int),
            drawn@.len() == i,
            forall|k: int|
                0 <= k < i ==> {
                    &&& (#[trigger] drawn@[k]).effect == effects@[k]
                    &&& drawn@[k].bounds == layout@[k]
                    &&& drawn@[k].labelled == is_wide(layout@[k].width)
                },
        decreases effects@.len() - i,
    {
        let bounds = layout[i];
        let labelled = limit.less_than(bounds.width);
        drawn.push(DrawnEffect { effect: effects[i], bounds, labelled });
        i = i + 1;
    }
    let playhead = if current_pos > 0 && current_pos <= duration {
        Some(current_pos)
    } else {
        None
    };
    TimelineDrawing { effects: drawn, playhead }
}

/// Grabs the handle that was found where the drag began.
pub fn drag_begin(
    drag: &mut Option<DragState>,
    found: Option<(usize, ZoomEffect, ResizeHandle)>,
)
    ensures
        match found {
            Some((effect_id, effect, handle)) => *final(drag) == Some(
                DragState {
                    effect_id,
                    handle,
                    original_start_nsec: effect.start_nsec,
                    original_end_nsec: effect.end_nsec,
                },
            ),
            None => *final(drag) == *old(drag),
        },
{
    if let Some((effect_id, effect, handle)) = found {
        *drag = Some(
            DragState {
                effect_id,
                handle,
                original_start_nsec: effect.start_nsec,
                original_end_nsec: effect.end_nsec,
            },
        );
    }
}

/// The number whose two's complement pattern is `n`.
pub open spec fn as_signed(n: u64) -> int {
    if n > i64::MAX {
        n - 0x1_0000_0000_0000_0000
    } else {
        n as int
    }
}

/// The two's complement pattern of `n`.
pub open spec fn as_unsigned(n: int) -> int {
    if n < 0 {
        n + 0x1_0000_0000_0000_0000
    } else {
        n
    }
}

fn to_signed(n: u64) -> (res: i64)
    ensures
        res == as_signed(n),
{
    if n > 0x7fff_ffff_ffff_ffff {
        -((0xffff_ffff_ffff_ffff - n) as i64) - 1
    } else {
        n as i64
    }
}

pub(crate) fn to_unsigned(n: i64) -> (res: u64)
    ensures
        res == as_unsigned(n as int),
{
    if n < 0 {
        0xffff_ffff_ffff_ffff - ((-(n + 1)) as u64)
    } else {
        n as u64
    }
}

impl DragState {
    /// Whether a moment that is moved by `delta_nsec` is one, in the type of a difference.
    pub open spec fn in_range(original: u64, delta_nsec: i64) -> bool {
        i64::MIN <= as_signed(original) + delta_nsec <= i64::MAX
    }

    /// Where the dragged edge comes to lie.
    pub open spec fn moved(original: u64, delta_nsec: i64) -> int {
        as_unsigned(as_signed(original) + delta_nsec)
    }

    /// Whether the right edge is dragged beyond the beginning of the recording.
    pub open spec fn beyond_beginning(self, delta_nsec: i64) -> bool {
        -delta_nsec > as_signed(self.original_end_nsec)
    }

    /// Whether this drag can be followed for `effect`: no time leaves its type, and the recording
    /// is longer than an animation where the effect is to end before one.
    pub open spec fn can_follow(
        self,
        effect: ZoomEffect,
        delta_nsec: i64,
        video_duration: nat,
    ) -> bool {
        match self.handle {
            ResizeHandle::Left => Self::in_range(self.original_start_nsec, delta_nsec),
            ResizeHandle::Right => {
                &&& delta_nsec > i64::MIN
                &&& !self.beyond_beginning(delta_nsec) ==> {
                    &&& Self::in_range(self.original_end_nsec, delta_nsec)
                    &&& Self::moved(self.original_end_nsec, delta_nsec) > effect.start_nsec
                        ==> video_duration >= ZOOM_ANIMATION_NSEC
                }
            },
            ResizeHandle::Neither => true,
        }
    }

    /// The effect after its edge was dragged by `delta_nsec`. The left edge stays before the right
    /// one and leaves room for the animation before it; the right edge stays after the left one
    /// and leaves room for the animation after it.
    pub open spec fn dragged(
        self,
        effect: ZoomEffect,
        delta_nsec: i64,
        video_duration: nat,
    ) -> ZoomEffect {
        match self.handle {
            ResizeHandle::Left => {
                let new_start = Self::moved(self.original_start_nsec, delta_nsec);
                ZoomEffect {
                    start_nsec: if new_start >= effect.end_nsec {
                        effect.end_nsec
                    } else if new_start > ZOOM_ANIMATION_NSEC {
                        new_start as u64
                    } else {
                        ZOOM_ANIMATION_NSEC
                    },
                    ..effect
                }
            },
            ResizeHandle::Right => {
                let new_end = Self::moved(self.original_end_nsec, delta_nsec);
                let latest = video_duration - ZOOM_ANIMATION_NSEC;
                ZoomEffect {
                    end_nsec: if self.beyond_beginning(delta_nsec) || new_end <= effect.start_nsec {
                        effect.start_nsec
                    } else if new_end < latest {
                        new_end as u64
                    } else {
                        latest as u64
                    },
                    ..effect
                }
            },
            ResizeHandle::Neither => effect,
        }
    }

    fn follow(&self, effect: &mut ZoomEffect, delta_nsec: i64, video_duration: u64)
        requires
            self.can_follow(*old(effect), delta_nsec, video_duration as nat),
        ensures
            *final(effect) == self.dragged(*old(effect), delta_nsec, video_duration as nat),
    {
        match self.handle {
            ResizeHandle::Left => {
                let new_start: u64 = to_unsigned(to_signed(self.original_start_nsec) + delta_nsec);
                if new_start < effect.end_nsec && new_start > ZOOM_ANIMATION_NSEC {
                    effect.start_nsec = new_start;
                } else if new_start < effect.end_nsec {
                    effect.start_nsec = ZOOM_ANIMATION_NSEC;
                } else {
                    effect.start_nsec = effect.end_nsec;
                }
            },
            ResizeHandle::Right => {
                if -delta_nsec > to_signed(self.original_end_nsec) {
                    effect.end_nsec = effect.start_nsec;
                    return ;
                }
                let new_end: u64 = to_unsigned(to_signed(self.original_end_nsec) + delta_nsec);
                if new_end > effect.start_nsec && new_end < video_duration - ZOOM_ANIMATION_NSEC {
                    effect.end_nsec = new_end;
                } else if new_end > effect.start_nsec {
                    effect.end_nsec = video_duration - ZOOM_ANIMATION_NSEC;
                } else {
                    effect.end_nsec = effect.start_nsec;
                }
            },
            ResizeHandle::Neither => {},
        }
    }
}

/// Moves the edge that is being dragged, `delta_nsec` away from where it was. Nothing moves on a
/// timeline without width or of a recording without length.
pub fn drag_update(
    drag: &Option<DragState>,
    video: &mut Video,
    timeline_width: Double,
    delta_nsec: i64,
)
    requires
        drag matches Some(state) ==> !timeline_width.le(zero()) && old(video).length() != 0
            && state.effect_id < old(video).zoom_effects@.len() ==> state.can_follow(
            old(video).zoom_effects@[state.effect_id as int],
            delta_nsec,
            old(video).length(),
        ),
    ensures
        *final(video) == (Video { zoom_effects: final(video).zoom_effects, ..*old(video) }),
        final(video).zoom_effects@ == match *drag {
            Some(state) => if !timeline_width.le(zero()) && old(video).length() != 0
                && state.effect_id < old(video).zoom_effects@.len() {
                old(video).zoom_effects@.update(
                    state.effect_id as int,
                    state.dragged(
                        old(video).zoom_effects@[state.effect_id as int],
                        delta_nsec,
                        old(video).length(),
                    ),
                )
            } else {
                old(video).zoom_effects@
            },
            None => old(video).zoom_effects@,
        },
{
    let state = match drag {
        Some(state) => *state,
        None => {
            return ;
        },
    };
    let duration: u64 = video.duration_nsec();
    if timeline_width.at_most(Double { bits: 0 }) || duration == 0 {
        return ;
    }
    let effect = match video.zoom_effect_mut(state.effect_id) {
        Some(effect) => effect,
        None => {
            return ;
        },
    };
    state.follow(effect, delta_nsec, duration);
}

/// Lets go of the handle. Returns what came of the changed range: see
/// [`Video::update_zoom_range`]; nothing where no handle was held.
pub fn drag_end(drag: &mut Option<DragState>, video: &Video) -> (res: Option<
    Result<Option<Vec<ZoomKeyframe>>, VideoError>,
>)
    requires
        *old(drag) matches Some(state) ==> state.effect_id < video.zoom_effects@.len() && !(
        video.zoom_effects@[state.effect_id as int].start_nsec == state.original_start_nsec
            && video.zoom_effects@[state.effect_id as int].end_nsec == state.original_end_nsec)
            ==> state.original_end_nsec + ZOOM_ANIMATION_NSEC <= u64::MAX,
    ensures
        *final(drag) == None::<DragState>,
        match *old(drag) {
            None => res is None,
            Some(state) => match res {
                None => false,
                Some(Err(error)) => {
                    &&& error == VideoError::UnknownZoom(state.effect_id)
                    &&& state.effect_id >= video.zoom_effects@.len()
                },
                Some(Ok(keyframes)) => {
                    let effect = video.zoom_effects@[state.effect_id as int];
                    &&& state.effect_id < video.zoom_effects@.len()
                    &&& keyframes is None <==> effect.start_nsec == state.original_start_nsec
                        && effect.end_nsec == state.original_end_nsec
                    &&& keyframes matches Some(keyframes) ==> keyframes@ == unshown(
                        ZoomEffect {
                            start_nsec: state.original_start_nsec,
                            end_nsec: state.original_end_nsec,
                            ..effect
                        },
                        video.length(),
                    )
                },
            },
        },
{
    match drag.take() {
        Some(state) => Some(
            video.update_zoom_range(
                state.effect_id,
                state.original_start_nsec,
                state.original_end_nsec,
            ),
        ),
        None => None,
    }
}

/// A signed number and its pattern are the same up to a multiple of two to the power of sixty-four,
/// and each gives back the other.
pub proof fn law_patterns_stand_for_their_numbers(n: i64, pattern: u64)
    ensures
        as_unsigned(n as int) == n as int % 0x1_0000_0000_0000_0000,
        as_unsigned(n as int) == pattern <==> as_signed(pattern) == n,
        n >= 0 ==> as_unsigned(n as int) == n,
        pattern <= i64::MAX ==> as_signed(pattern) == pattern,
{
}

/// A drag can be followed wherever the times fit into their type and the recording is no shorter
/// than an animation.
pub proof fn law_ordinary_drag_can_be_followed(
    state: DragState,
    effect: ZoomEffect,
    delta_nsec: i64,
    video_duration: nat,
)
    requires
        state.original_start_nsec <= i64::MAX,
        state.original_end_nsec <= i64::MAX,
        delta_nsec > i64::MIN,
        state.original_start_nsec + delta_nsec <= i64::MAX,
        state.original_end_nsec + delta_nsec <= i64::MAX,
        video_duration >= ZOOM_ANIMATION_NSEC,
    ensures
        state.can_follow(effect, delta_nsec, video_duration),
{
}

/// The left edge lies exactly as far from where it was grabbed as the pointer has moved, where this
/// leaves room for the animation before it and lies before the right edge. Nearer to the beginning
/// it lies where that room ends; at or after the right edge it lies on the right edge.
pub proof fn law_left_edge_follows_the_pointer(
    state: DragState,
    effect: ZoomEffect,
    delta_nsec: i64,
    video_duration: nat,
)
    requires
        state.handle == ResizeHandle::Left,
        state.can_follow(effect, delta_nsec, video_duration),
        0 <= state.original_start_nsec + delta_nsec <= u64::MAX,
    ensures
        ({
            let target = state.original_start_nsec + delta_nsec;
            let after = state.dragged(effect, delta_nsec, video_duration);
            &&& ZOOM_ANIMATION_NSEC < target < effect.end_nsec ==> after.start_nsec == target
            &&& target <= ZOOM_ANIMATION_NSEC && target < effect.end_nsec ==> after.start_nsec
                == ZOOM_ANIMATION_NSEC
            &&& target >= effect.end_nsec ==> after.start_nsec == effect.end_nsec
            &&& after.end_nsec == effect.end_nsec
        }),
{
}

/// A left edge that is dragged beyond the beginning of the recording lies on the right edge, where
/// the effect ends within the range of signed times: its time is taken for one after all of them.
pub proof fn law_left_edge_wraps_at_the_beginning(
    state: DragState,
    effect: ZoomEffect,
    delta_nsec: i64,
    video_duration: nat,
)
    requires
        state.handle == ResizeHandle::Left,
        state.can_follow(effect, delta_nsec, video_duration),
        state.original_start_nsec + delta_nsec < 0,
        effect.end_nsec <= i64::MAX,
    ensures
        state.dragged(effect, delta_nsec, video_duration).start_nsec == effect.end_nsec,
{
}

/// The right edge lies exactly as far from where it was grabbed as the pointer has moved, where
/// this lies after the left edge and leaves room for the animation after it. Further on it lies
/// where that room begins; at or before the left edge it lies on the left edge.
pub proof fn law_right_edge_follows_the_pointer(
    state: DragState,
    effect: ZoomEffect,
    delta_nsec: i64,
    video_duration: nat,
)
    requires
        state.handle == ResizeHandle::Right,
        state.can_follow(effect, delta_nsec, video_duration),
        state.original_end_nsec <= i64::MAX,
        video_duration <= u64::MAX,
    ensures
        ({
            let target = state.original_end_nsec + delta_nsec;
            let after = state.dragged(effect, delta_nsec, video_duration);
            &&& effect.start_nsec < target < video_duration - ZOOM_ANIMATION_NSEC
                ==> after.end_nsec == target
            &&& effect.start_nsec < target && target >= video_duration - ZOOM_ANIMATION_NSEC
                ==> after.end_nsec == video_duration - ZOOM_ANIMATION_NSEC
            &&& target <= effect.start_nsec ==> after.end_nsec == effect.start_nsec
            &&& after.start_nsec == effect.start_nsec
        }),
{
}

/// Dragging further moves an edge by as much as the pointer moves, while it stays within its
/// bounds.
pub proof fn law_edge_moves_by_as_much_as_the_pointer(
    state: DragState,
    effect: ZoomEffect,
    a: i64,
    b: i64,
    video_duration: nat,
)
    requires
        state.can_follow(effect, a, video_duration),
        state.can_follow(effect, b, video_duration),
        video_duration <= u64::MAX,
        state.original_start_nsec <= i64::MAX,
        state.original_end_nsec <= i64::MAX,
        state.handle == ResizeHandle::Left ==> ZOOM_ANIMATION_NSEC < state.original_start_nsec + a
            < effect.end_nsec && ZOOM_ANIMATION_NSEC < state.original_start_nsec + b
            < effect.end_nsec,
        state.handle == ResizeHandle::Right ==> effect.start_nsec < state.original_end_nsec + a
            < video_duration - ZOOM_ANIMATION_NSEC && effect.start_nsec < state.original_end_nsec
            + b < video_duration - ZOOM_ANIMATION_NSEC,
        state.handle != ResizeHandle::Neither,
    ensures
        ({
            let first = state.dragged(effect, a, video_duration);
            let second = state.dragged(effect, b, video_duration);
            (second.start_nsec - first.start_nsec) + (second.end_nsec - first.end_nsec) == b - a
        }),
{
}

/// An effect carries a label exactly where its width is a number above twenty-five pixels, however
/// little above.
pub proof fn law_wide_effects_carry_labels(width: Double)
    ensures
        is_wide(width) <==> !width.nan() && width.value() > LABEL_MIN_WIDTH * pow2(1074),
{
}

/// However an edge is dragged, an effect that begins after the room for its first animation keeps
/// its beginning before its end, and one that ends before the room for its last animation keeps
/// its end after its beginning.
pub proof fn law_dragged_effect_keeps_its_order(
    state: DragState,
    effect: ZoomEffect,
    delta_nsec: i64,
    video_duration: nat,
)
    requires
        state.can_follow(effect, delta_nsec, video_duration),
        effect.start_nsec <= effect.end_nsec,
        state.handle == ResizeHandle::Left ==> effect.end_nsec >= ZOOM_ANIMATION_NSEC,
        state.handle == ResizeHandle::Right ==> effect.start_nsec + ZOOM_ANIMATION_NSEC
            <= video_duration <= u64::MAX,
    ensures
        ({
            let after = state.dragged(effect, delta_nsec, video_duration);
            &&& after.start_nsec <= after.end_nsec
            &&& effect.end_nsec + ZOOM_ANIMATION_NSEC <= video_duration ==> after.end_nsec
                + ZOOM_ANIMATION_NSEC <= video_duration
            &&& effect.start_nsec >= ZOOM_ANIMATION_NSEC ==> after.start_nsec
                >= ZOOM_ANIMATION_NSEC
        }),
{
}

/// Dragging an edge changes nothing of an effect but that edge.
pub proof fn law_drag_moves_one_edge(
    state: DragState,
    effect: ZoomEffect,
    delta_nsec: i64,
    video_duration: nat,
)
    ensures
        ({
            let after = state.dragged(effect, delta_nsec, video_duration);
            &&& state.handle != ResizeHandle::Left ==> after.start_nsec == effect.start_nsec
            &&& state.handle != ResizeHandle::Right ==> after.end_nsec == effect.end_nsec
            &&& after == ZoomEffect {
                start_nsec: after.start_nsec,
                end_nsec: after.end_nsec,
                ..effect
            }
        }),
{
}

/// Where an edge comes to lie does not depend on the way that the pointer took.
pub proof fn law_drag_forgets_the_way(
    state: DragState,
    effect: ZoomEffect,
    first_delta_nsec: i64,
    delta_nsec: i64,
    video_duration: nat,
)
    ensures
        state.dragged(
            state.dragged(effect, first_delta_nsec, video_duration),
            delta_nsec,
            video_duration,
        ) == state.dragged(effect, delta_nsec, video_duration),
{
}

/// An edge that is dragged and brought back lies where it was, if both edges left room for the
/// animations.
pub proof fn law_drag_back_restores(
    state: DragState,
    effect: ZoomEffect,
    delta_nsec: i64,
    video_duration: nat,
)
    requires
        effect.start_nsec == state.original_start_nsec,
        effect.end_nsec == state.original_end_nsec,
        ZOOM_ANIMATION_NSEC <= effect.start_nsec <= effect.end_nsec,
        effect.end_nsec + ZOOM_ANIMATION_NSEC <= video_duration <= u64::MAX,
        effect.end_nsec <= i64::MAX,
    ensures
        state.dragged(state.dragged(effect, delta_nsec, video_duration), 0, video_duration)
            == effect,
{
    law_drag_forgets_the_way(state, effect, delta_nsec, 0, video_duration);
}

} // verus!
