//! Simplification of the cursor's path, and the look-up of the path at a time.
//!
//! The Ramer-Douglas-Peucker scheme is generic in the distance of a sample from a segment, and the
//! look-up in the interpolation between samples: both are float computations of the caller.
use crate::cursor::CursorEntry;
use crate::double::Double;
use vstd::prelude::*;

verus! {

/// Positive zero.
pub open spec fn zero() -> Double {
    Double { bits: 0 }
}

/// Whether `distances` are what `distance` gives for the samples between `from` and `to`, without
/// the last one of them.
pub open spec fn scanned<F: Fn(CursorEntry, CursorEntry, CursorEntry) -> Double>(
    distance: F,
    points: Seq<CursorEntry>,
    from: int,
    to: int,
    distances: Seq<Double>,
) -> bool {
    &&& distances.len() == if from + 2 < to {
        to - from - 2
    } else {
        0
    }
    &&& forall|k: int|
        0 <= k < distances.len() ==> distance.ensures(
            (points[from + 1 + k], points[from], points[to]),
            #[trigger] distances[k],
        )
}

/// The greatest distance, at least zero, and where it comes first; nowhere if none is above zero.
pub open spec fn farthest(distances: Seq<Double>) -> (Option<int>, Double)
    decreases distances.len(),
{
    if distances.len() == 0 {
        (None, zero())
    } else {
        let (index, greatest) = farthest(distances.drop_last());
        if greatest.lt(distances.last()) {
            (Some(distances.len() - 1), distances.last())
        } else {
            (index, greatest)
        }
    }
}

/// Whether `kept` is the simplification of the path from `from` to `to`, for some distances that
/// `distance` may give.
pub open spec fn simplified<F: Fn(CursorEntry, CursorEntry, CursorEntry) -> Double>(
    distance: F,
    points: Seq<CursorEntry>,
    from: int,
    to: int,
    epsilon: Double,
    kept: Seq<usize>,
) -> bool
    decreases to - from, 1int,
{
    exists|distances: Seq<Double>| #[trigger]
        scanned(distance, points, from, to, distances) && follows(
            distance,
            points,
            from,
            to,
            epsilon,
            kept,
            distances,
        )
}

/// Whether `kept` is the simplification for these distances: the two ends alone where none of them
/// is above `epsilon`, and otherwise the simplifications of the two halves around the farthest
/// sample.
pub open spec fn follows<F: Fn(CursorEntry, CursorEntry, CursorEntry) -> Double>(
    distance: F,
    points: Seq<CursorEntry>,
    from: int,
    to: int,
    epsilon: Double,
    kept: Seq<usize>,
    distances: Seq<Double>,
) -> bool
    decreases to - from, 0int,
{
    if !epsilon.lt(farthest(distances).1) {
        kept == seq![from as usize, to as usize]
    } else {
        match farthest(distances).0 {
            None => false,
            Some(offset) => {
                let split = from + 1 + offset;
                from < split < to && exists|left: Seq<usize>, right: Seq<usize>| #[trigger]
                    joined(kept, left, right) && simplified(
                        distance,
                        points,
                        from,
                        split,
                        epsilon,
                        left,
                    ) && simplified(distance, points, split, to, epsilon, right)
            },
        }
    }
}

/// Whether `kept` is `left` followed by `right`, with the sample that they share taken once.
pub open spec fn joined(kept: Seq<usize>, left: Seq<usize>, right: Seq<usize>) -> bool {
    kept == left.drop_last() + right
}

proof fn lemma_farthest(distances: Seq<Double>)
    ensures
        !farthest(distances).1.nan(),
        zero().le(farthest(distances).1),
        farthest(distances).0 matches Some(offset) ==> 0 <= offset < distances.len(),
        zero().lt(farthest(distances).1) ==> farthest(distances).0 is Some,
        forall|k: int|
            0 <= k < distances.len() ==> !farthest(distances).1.lt(#[trigger] distances[k]),
        farthest(distances).0 matches Some(offset) ==> {
            &&& distances[offset] == farthest(distances).1
            &&& forall|k: int|
                0 <= k < offset ==> (#[trigger] distances[k]).nan() || distances[k].lt(
                    distances[offset],
                )
        },
    decreases distances.len(),
{
    if distances.len() > 0 {
        let before = distances.drop_last();
        lemma_farthest(before);
        if farthest(before).1.lt(distances.last()) {
            assert forall|k: int| 0 <= k < distances.len() - 1 implies (
            #[trigger] distances[k]).nan() || distances[k].lt(distances.last()) by {
                assert(before[k] == distances[k]);
                assert(!farthest(before).1.lt(before[k]));
            }
        } else if let Some(offset) = farthest(before).0 {
            assert(before[offset] == distances[offset]);
            assert forall|k: int| 0 <= k < offset implies (#[trigger] distances[k]).nan()
                || distances[k].lt(distances[offset]) by {
                assert(before[k] == distances[k]);
            }
        }
        assert forall|k: int| 0 <= k < distances.len() implies !farthest(distances).1.lt(
            #[trigger] distances[k],
        ) by {
            if k < before.len() {
                assert(before[k] == distances[k]);
            }
        }
    }
}

/// The positions of the samples that the simplified path keeps.
pub fn ramer_douglas_peucker<F: Fn(CursorEntry, CursorEntry, CursorEntry) -> Double>(
    points: &[CursorEntry],
    from: usize,
    to: usize,
    epsilon: Double,
    distance: &F,
) -> (res: Vec<usize>)
    requires
        points@.len() >= 3 ==> {
            &&& from < usize::MAX
            &&& 1 <= to
            &&& from + 2 < to ==> to < points@.len()
            &&& !epsilon.lt(zero())
            &&& forall|p: CursorEntry, a: CursorEntry, b: CursorEntry|
                distance.requires((p, a, b))
        },
    ensures
        points@.len() < 3 ==> res@ == Seq::new(
            if from <= to {
                (to - from + 1) as nat
            } else {
                0
            },
            |i: int| (from + i) as usize,
        ),
        points@.len() >= 3 ==> simplified(
            *distance,
            points@,
            from as int,
            to as int,
            epsilon,
            res@,
        ),
    decreases if from < to {
        to - from
    } else {
        0
    },
{
    if points.len() < 3 {
        return range_inclusive(from, to);
    }
    let mut dmax = Double { bits: 0 };
    let mut index: usize = from;
    let mut i: usize = from + 1;
    let ghost mut distances: Seq<Double> = Seq::empty();
    while i < to - 1
        invariant
            from < usize::MAX,
            1 <= to,
            from + 2 < to ==> to < points@.len(),
            forall|p: CursorEntry, a: CursorEntry, b: CursorEntry| distance.requires((p, a, b)),
            from + 1 <= i,
            i <= to - 1 || i == from + 1,
            distances.len() == i - from - 1,
            forall|k: int|
                0 <= k < distances.len() ==> distance.ensures(
                    (points@[from + 1 + k], points@[from as int], points@[to as int]),
                    #[trigger] distances[k],
                ),
            farthest(distances).1 == dmax,
            farthest(distances).0 matches Some(offset) ==> index == from + 1 + offset,
        decreases to - i,
    {
        let d = distance(points[i], points[from], points[to]);
        let ghost before = distances;
        proof {
            distances = distances.push(d);
            assert(distances.drop_last() =~= before);
        }
        if dmax.less_than(d) {
            index = i;
            dmax = d;
        }
        i = i + 1;
    }
    proof {
        lemma_farthest(distances);
        reveal_with_fuel(simplified, 3);
        reveal_with_fuel(follows, 3);
        assert(scanned(*distance, points@, from as int, to as int, distances));
    }
    if epsilon.less_than(dmax) {
        let mut left = ramer_douglas_peucker(points, from, index, epsilon, distance);
        let mut right = ramer_douglas_peucker(points, index, to, epsilon, distance);
        let ghost (whole_left, whole_right) = (left@, right@);
        proof {
            law_simplification_keeps_ends_and_order(
                *distance,
                points@,
                from,
                index,
                epsilon,
                whole_left,
            );
        }
        left.pop();
        left.append(&mut right);
        proof {
            assert(left@ =~= whole_left.drop_last() + whole_right);
            assert(joined(left@, whole_left, whole_right));
        }
        left
    } else {
        let mut ends: Vec<usize> = Vec::new();
        ends.push(from);
        ends.push(to);
        proof {
            assert(ends@ =~= seq![from, to]);
        }
        ends
    }
}

/// The distances that a simplification comes from, and its halves where it has any.
proof fn lemma_parts<F: Fn(CursorEntry, CursorEntry, CursorEntry) -> Double>(
    distance: F,
    points: Seq<CursorEntry>,
    from: usize,
    to: usize,
    epsilon: Double,
    kept: Seq<usize>,
) -> (res: (Seq<Double>, Seq<usize>, Seq<usize>))
    requires
        simplified(distance, points, from as int, to as int, epsilon, kept),
    ensures
        scanned(distance, points, from as int, to as int, res.0),
        if epsilon.lt(farthest(res.0).1) {
            let split = from + 1 + farthest(res.0).0->0;
            &&& farthest(res.0).0 is Some
            &&& from < split < to
            &&& joined(kept, res.1, res.2)
            &&& simplified(distance, points, from as int, split, epsilon, res.1)
            &&& simplified(distance, points, split, to as int, epsilon, res.2)
        } else {
            kept == seq![from, to]
        },
{
    reveal_with_fuel(simplified, 3);
    reveal_with_fuel(follows, 3);
    let distances = choose|distances: Seq<Double>|
        {
            &&& #[trigger] scanned(distance, points, from as int, to as int, distances)
            &&& follows(distance, points, from as int, to as int, epsilon, kept, distances)
        };
    let split = from + 1 + farthest(distances).0->0;
    let (left, right) = choose|left: Seq<usize>, right: Seq<usize>| #[trigger]
        joined(kept, left, right) && simplified(
            distance,
            points,
            from as int,
            split,
            epsilon,
            left,
        ) && simplified(distance, points, split, to as int, epsilon, right);
    (distances, left, right)
}

/// A simplified path runs from the first to the last sample that it was made from, forwards in
/// time and without repetition.
pub proof fn law_simplification_keeps_ends_and_order<
    F: Fn(CursorEntry, CursorEntry, CursorEntry) -> Double,
>(
    distance: F,
    points: Seq<CursorEntry>,
    from: usize,
    to: usize,
    epsilon: Double,
    kept: Seq<usize>,
)
    requires
        from < to,
        simplified(distance, points, from as int, to as int, epsilon, kept),
    ensures
        kept.len() >= 2,
        kept[0] == from,
        kept.last() == to,
        forall|a: int, b: int| 0 <= a < b < kept.len() ==> kept[a] < kept[b],
    decreases to - from,
{
    let (distances, left, right) = lemma_parts(distance, points, from, to, epsilon, kept);
    if epsilon.lt(farthest(distances).1) {
        let split = (from + 1 + farthest(distances).0->0) as usize;
        law_simplification_keeps_ends_and_order(distance, points, from, split, epsilon, left);
        law_simplification_keeps_ends_and_order(distance, points, split, to, epsilon, right);
        assert forall|a: int, b: int| 0 <= a < b < kept.len() implies kept[a] < kept[b] by {
            let middle = left.len() - 1;
            if a < middle {
                assert(kept[a] == left[a] && left[a] < left[middle]);
                if b >= middle {
                    assert(kept[b] == right[b - middle] && right[0] <= right[b - middle]);
                }
            }
        }
    }
}

/// Whether no sample between `from` and `to` but the last one is farther than `epsilon` from their
/// segment, for some distances that `distance` may give.
pub open spec fn within<F: Fn(CursorEntry, CursorEntry, CursorEntry) -> Double>(
    distance: F,
    points: Seq<CursorEntry>,
    from: int,
    to: int,
    epsilon: Double,
) -> bool {
    exists|distances: Seq<Double>|
        {
            &&& #[trigger] scanned(distance, points, from, to, distances)
            &&& forall|k: int| 0 <= k < distances.len() ==> !epsilon.lt(#[trigger] distances[k])
        }
}

/// Between two neighbours on a simplified path, no sample that was left out, but for the one just
/// before the second neighbour, is farther than `epsilon` from the segment that replaces it.
pub proof fn law_simplification_stays_within_epsilon<
    F: Fn(CursorEntry, CursorEntry, CursorEntry) -> Double,
>(
    distance: F,
    points: Seq<CursorEntry>,
    from: usize,
    to: usize,
    epsilon: Double,
    kept: Seq<usize>,
    k: int,
)
    requires
        from < to,
        simplified(distance, points, from as int, to as int, epsilon, kept),
        0 <= k < kept.len() - 1,
    ensures
        within(distance, points, kept[k] as int, kept[k + 1] as int, epsilon),
    decreases to - from,
{
    let (distances, left, right) = lemma_parts(distance, points, from, to, epsilon, kept);
    lemma_farthest(distances);
    if epsilon.lt(farthest(distances).1) {
        let split = (from + 1 + farthest(distances).0->0) as usize;
        law_simplification_keeps_ends_and_order(distance, points, from, split, epsilon, left);
        law_simplification_keeps_ends_and_order(distance, points, split, to, epsilon, right);
        if k < left.len() - 1 {
            law_simplification_stays_within_epsilon(
                distance,
                points,
                from,
                split,
                epsilon,
                left,
                k,
            );
        } else {
            law_simplification_stays_within_epsilon(
                distance,
                points,
                split,
                to,
                epsilon,
                right,
                k - (left.len() - 1),
            );
        }
    } else {
        assert(scanned(distance, points, from as int, to as int, distances));
    }
}

/// Whether `distance` gives one result for one input.
pub open spec fn measures<F: Fn(CursorEntry, CursorEntry, CursorEntry) -> Double>(
    distance: F,
) -> bool {
    forall|p: CursorEntry, a: CursorEntry, b: CursorEntry, one: Double, other: Double|
        #[trigger] distance.ensures((p, a, b), one) && #[trigger] distance.ensures(
            (p, a, b),
            other,
        ) ==> one == other
}

/// A larger `epsilon` only drops samples: it never brings one back.
pub proof fn law_larger_epsilon_keeps_fewer<
    F: Fn(CursorEntry, CursorEntry, CursorEntry) -> Double,
>(
    distance: F,
    points: Seq<CursorEntry>,
    from: usize,
    to: usize,
    epsilon: Double,
    larger: Double,
    kept: Seq<usize>,
    fewer: Seq<usize>,
)
    requires
        from < to,
        measures(distance),
        epsilon.le(larger),
        simplified(distance, points, from as int, to as int, epsilon, kept),
        simplified(distance, points, from as int, to as int, larger, fewer),
    ensures
        forall|i: usize| fewer.contains(i) ==> #[trigger] kept.contains(i),
        fewer.len() <= kept.len(),
    decreases to - from,
{
    let (distances, left, right) = lemma_parts(distance, points, from, to, epsilon, kept);
    let (others, fewer_left, fewer_right) = lemma_parts(distance, points, from, to, larger, fewer);
    assert(distances =~= others);
    law_simplification_keeps_ends_and_order(distance, points, from, to, epsilon, kept);
    if larger.lt(farthest(distances).1) {
        let split = (from + 1 + farthest(distances).0->0) as usize;
        law_larger_epsilon_keeps_fewer(
            distance,
            points,
            from,
            split,
            epsilon,
            larger,
            left,
            fewer_left,
        );
        law_larger_epsilon_keeps_fewer(
            distance,
            points,
            split,
            to,
            epsilon,
            larger,
            right,
            fewer_right,
        );
        law_simplification_keeps_ends_and_order(distance, points, from, split, epsilon, left);
        law_simplification_keeps_ends_and_order(distance, points, split, to, epsilon, right);
        law_simplification_keeps_ends_and_order(distance, points, from, split, larger, fewer_left);
        law_simplification_keeps_ends_and_order(distance, points, split, to, larger, fewer_right);
        lemma_joined_contains(kept, left, right);
        lemma_joined_contains(fewer, fewer_left, fewer_right);
    } else {
        assert forall|i: usize| fewer.contains(i) implies #[trigger] kept.contains(i) by {
            assert(kept[0] == from && kept[kept.len() - 1] == to);
        }
    }
}

/// What two halves that share a sample hold, the whole holds.
proof fn lemma_joined_contains(kept: Seq<usize>, left: Seq<usize>, right: Seq<usize>)
    requires
        joined(kept, left, right),
        left.len() > 0,
        right.len() > 0,
        left.last() == right[0],
    ensures
        forall|i: usize| #[trigger]
            kept.contains(i) <==> left.contains(i) || right.contains(i),
{
    let middle = left.len() - 1;
    assert forall|i: usize| #[trigger]
        kept.contains(i) <==> left.contains(i) || right.contains(i) by {
        if left.contains(i) {
            let k = choose|k: int| 0 <= k < left.len() && left[k] == i;
            assert(kept[k] == i);
        }
        if right.contains(i) {
            let k = choose|k: int| 0 <= k < right.len() && right[k] == i;
            assert(kept[middle + k] == i);
        }
        if kept.contains(i) {
            let k = choose|k: int| 0 <= k < kept.len() && kept[k] == i;
            if k < middle {
                assert(left[k] == i);
            } else {
                assert(right[k - middle] == i);
            }
        }
    }
}

/// A path has one simplification for each `epsilon`.
pub proof fn law_simplification_is_unique<F: Fn(CursorEntry, CursorEntry, CursorEntry) -> Double>(
    distance: F,
    points: Seq<CursorEntry>,
    from: usize,
    to: usize,
    epsilon: Double,
    kept: Seq<usize>,
    other: Seq<usize>,
)
    requires
        from < to,
        measures(distance),
        simplified(distance, points, from as int, to as int, epsilon, kept),
        simplified(distance, points, from as int, to as int, epsilon, other),
    ensures
        kept == other,
    decreases to - from,
{
    let (distances, left, right) = lemma_parts(distance, points, from, to, epsilon, kept);
    let (others, other_left, other_right) = lemma_parts(distance, points, from, to, epsilon, other);
    assert(distances =~= others);
    if epsilon.lt(farthest(distances).1) {
        let split = (from + 1 + farthest(distances).0->0) as usize;
        law_simplification_is_unique(distance, points, from, split, epsilon, left, other_left);
        law_simplification_is_unique(distance, points, split, to, epsilon, right, other_right);
    }
}

/// A path is split at its farthest sample. Let `distances` hold, for each sample between the ends but
/// the last one, its distance from the segment between the ends. If none of them is greater than
/// `epsilon`, only the ends are kept. Otherwise a sample is kept than which none is farther, and
/// none before it is as far, and which is itself farther than `epsilon`; and what is kept are the
/// simplifications of the two halves around it.
pub proof fn law_path_is_split_at_farthest_sample<
    F: Fn(CursorEntry, CursorEntry, CursorEntry) -> Double,
>(
    distance: F,
    points: Seq<CursorEntry>,
    from: usize,
    to: usize,
    epsilon: Double,
    kept: Seq<usize>,
    distances: Seq<Double>,
)
    requires
        from < to,
        measures(distance),
        !epsilon.lt(zero()),
        simplified(distance, points, from as int, to as int, epsilon, kept),
        forall|i: int|
            from < i < to - 1 ==> distance.ensures(
                (points[i], points[from as int], points[to as int]),
                #[trigger] distances[i],
            ),
    ensures
        (forall|i: int| from < i < to - 1 ==> !epsilon.lt(#[trigger] distances[i])) ==> kept
            == seq![from, to],
        (exists|i: int| from < i < to - 1 && epsilon.lt(#[trigger] distances[i])) ==> exists|
            s: usize,
            left: Seq<usize>,
            right: Seq<usize>,
        |
            {
                &&& from < s < to - 1
                &&& kept.contains(s)
                &&& epsilon.lt(distances[s as int])
                &&& forall|k: int|
                    from < k < to - 1 ==> (#[trigger] distances[k]).nan() || distances[k].le(
                        distances[s as int],
                    )
                &&& forall|k: int|
                    from < k < s ==> (#[trigger] distances[k]).nan() || distances[k].lt(
                        distances[s as int],
                    )
                &&& #[trigger] simplified(distance, points, from as int, s as int, epsilon, left)
                &&& #[trigger] simplified(distance, points, s as int, to as int, epsilon, right)
                &&& kept == left.drop_last() + right
            },
{
    let (scan, left, right) = lemma_parts(distance, points, from, to, epsilon, kept);
    lemma_farthest(scan);
    assert forall|k: int| 0 <= k < scan.len() implies #[trigger] scan[k] == distances[from + 1
        + k] by {
        assert(distance.ensures(
            (points[from + 1 + k], points[from as int], points[to as int]),
            distances[from + 1 + k],
        ));
    }
    if epsilon.lt(farthest(scan).1) {
        let offset = farthest(scan).0->0;
        let s = (from + 1 + offset) as usize;
        assert(scan[offset] == distances[s as int]);
        assert(from < s < to - 1);
        law_simplification_keeps_ends_and_order(distance, points, from, s, epsilon, left);
        law_simplification_keeps_ends_and_order(distance, points, s, to, epsilon, right);
        lemma_joined_contains(kept, left, right);
        assert(right.contains(s)) by {
            assert(right[0] == s);
        }
        assert forall|k: int| from < k < to - 1 implies (#[trigger] distances[k]).nan()
            || distances[k].le(distances[s as int]) by {
            assert(scan[k - from - 1] == distances[k]);
        }
        assert forall|k: int| from < k < s implies (#[trigger] distances[k]).nan()
            || distances[k].lt(distances[s as int]) by {
            assert(scan[k - from - 1] == distances[k]);
        }
        assert(simplified(distance, points, from as int, s as int, epsilon, left));
        assert(simplified(distance, points, s as int, to as int, epsilon, right));
    } else {
        assert forall|i: int| from < i < to - 1 implies !epsilon.lt(#[trigger] distances[i]) by {
            assert(scan[i - from - 1] == distances[i]);
        }
    }
}

/// A path with no more than one sample between its ends keeps its ends alone.
pub proof fn law_path_without_inner_samples_keeps_its_ends<
    F: Fn(CursorEntry, CursorEntry, CursorEntry) -> Double,
>(
    distance: F,
    points: Seq<CursorEntry>,
    from: usize,
    to: usize,
    epsilon: Double,
    kept: Seq<usize>,
)
    requires
        to <= from + 2,
        !epsilon.lt(zero()),
        simplified(distance, points, from as int, to as int, epsilon, kept),
    ensures
        kept == seq![from, to],
{
    let distances = choose|distances: Seq<Double>| #[trigger]
        scanned(distance, points, from as int, to as int, distances) && follows(
            distance,
            points,
            from as int,
            to as int,
            epsilon,
            kept,
            distances,
        );
    assert(distances.len() == 0);
}

/// Whether sample `s` is far from the segment between samples `a` and `b`: farther than `epsilon`,
/// and no sample between them but the last is farther.
pub open spec fn stands_out<F: Fn(CursorEntry, CursorEntry, CursorEntry) -> Double>(
    distance: F,
    points: Seq<CursorEntry>,
    a: usize,
    s: usize,
    b: usize,
    epsilon: Double,
) -> bool {
    &&& a < s < b - 1
    &&& exists|far: Double|
        {
            &&& #[trigger] distance.ensures(
                (points[s as int], points[a as int], points[b as int]),
                far,
            )
            &&& epsilon.lt(far)
            &&& forall|k: int, other: Double|
                a < k < b - 1 && #[trigger] distance.ensures(
                    (points[k], points[a as int], points[b as int]),
                    other,
                ) ==> !far.lt(other)
        }
}

/// A sample that is kept between the ends stands out from the segment between two samples that are
/// kept as well.
pub proof fn law_kept_samples_stand_out<F: Fn(CursorEntry, CursorEntry, CursorEntry) -> Double>(
    distance: F,
    points: Seq<CursorEntry>,
    from: usize,
    to: usize,
    epsilon: Double,
    kept: Seq<usize>,
    s: usize,
)
    requires
        from < to,
        measures(distance),
        !epsilon.lt(zero()),
        simplified(distance, points, from as int, to as int, epsilon, kept),
        kept.contains(s),
        s != from,
        s != to,
    ensures
        exists|a: usize, b: usize|
            {
                &&& kept.contains(a)
                &&& kept.contains(b)
                &&& #[trigger] stands_out(distance, points, a, s, b, epsilon)
            },
    decreases to - from,
{
    let (scan, left, right) = lemma_parts(distance, points, from, to, epsilon, kept);
    lemma_farthest(scan);
    law_simplification_keeps_ends_and_order(distance, points, from, to, epsilon, kept);
    if epsilon.lt(farthest(scan).1) {
        let offset = farthest(scan).0->0;
        let split = (from + 1 + offset) as usize;
        law_simplification_keeps_ends_and_order(distance, points, from, split, epsilon, left);
        law_simplification_keeps_ends_and_order(distance, points, split, to, epsilon, right);
        lemma_joined_contains(kept, left, right);
        if s == split {
            let far = farthest(scan).1;
            assert(distance.ensures(
                (points[split as int], points[from as int], points[to as int]),
                far,
            )) by {
                assert(scan[offset] == far);
            }
            assert forall|k: int, other: Double|
                from < k < to - 1 && #[trigger] distance.ensures(
                    (points[k], points[from as int], points[to as int]),
                    other,
                ) implies !far.lt(other) by {
                let at = k - from - 1;
                assert(distance.ensures(
                    (points[from + 1 + at], points[from as int], points[to as int]),
                    scan[at],
                ));
                assert(!far.lt(scan[at]));
            }
            assert(stands_out(distance, points, from, s, to, epsilon));
            assert(kept[0] == from && kept[kept.len() - 1] == to);
        } else if left.contains(s) {
            law_kept_samples_stand_out(distance, points, from, split, epsilon, left, s);
            let (a, b) = choose|a: usize, b: usize|
                {
                    &&& left.contains(a)
                    &&& left.contains(b)
                    &&& #[trigger] stands_out(distance, points, a, s, b, epsilon)
                };
            assert(kept.contains(a) && kept.contains(b));
        } else {
            law_kept_samples_stand_out(distance, points, split, to, epsilon, right, s);
            let (a, b) = choose|a: usize, b: usize|
                {
                    &&& right.contains(a)
                    &&& right.contains(b)
                    &&& #[trigger] stands_out(distance, points, a, s, b, epsilon)
                };
            assert(kept.contains(a) && kept.contains(b));
        }
    } else {
        let k = choose|k: int| 0 <= k < kept.len() && kept[k] == s;
        assert(k == 0 || k == 1);
    }
}

/// Between two neighbours on a simplified path, each sample that was left out, but for the one just
/// before the second neighbour, is no farther than `epsilon` from the segment between them.
pub proof fn law_dropped_samples_are_near<F: Fn(CursorEntry, CursorEntry, CursorEntry) -> Double>(
    distance: F,
    points: Seq<CursorEntry>,
    from: usize,
    to: usize,
    epsilon: Double,
    kept: Seq<usize>,
    k: int,
    i: int,
    near: Double,
)
    requires
        from < to,
        measures(distance),
        simplified(distance, points, from as int, to as int, epsilon, kept),
        0 <= k < kept.len() - 1,
        kept[k] < i < kept[k + 1] - 1,
        distance.ensures(
            (points[i], points[kept[k] as int], points[kept[k + 1] as int]),
            near,
        ),
    ensures
        !epsilon.lt(near),
{
    law_simplification_stays_within_epsilon(distance, points, from, to, epsilon, kept, k);
    let (a, b) = (kept[k] as int, kept[k + 1] as int);
    let scan = choose|scan: Seq<Double>|
        {
            &&& #[trigger] scanned(distance, points, a, b, scan)
            &&& forall|k: int| 0 <= k < scan.len() ==> !epsilon.lt(#[trigger] scan[k])
        };
    let at = i - a - 1;
    assert(distance.ensures((points[a + 1 + at], points[a], points[b]), scan[at]));
    assert(!epsilon.lt(scan[at]));
}

/// Whether the segment from the used sample `k` to the next one covers the time `current_time`.
pub open spec fn covers(
    points: Seq<CursorEntry>,
    used_points: Seq<usize>,
    k: int,
    current_time: Double,
) -> bool {
    &&& 0 <= k < used_points.len() - 1
    &&& points[used_points[k] as int].pts.le(current_time)
    &&& current_time.lt(points[used_points[k + 1] as int].pts)
}

/// The first segment that covers `current_time`, and the first of all where none does.
pub open spec fn is_segment_at(
    points: Seq<CursorEntry>,
    used_points: Seq<usize>,
    current_time: Double,
    segment: int,
) -> bool {
    ||| covers(points, used_points, segment, current_time) && forall|k: int|
        0 <= k < segment ==> !#[trigger] covers(points, used_points, k, current_time)
    ||| segment == 0 && forall|k: int| !#[trigger] covers(points, used_points, k, current_time)
}

/// find the index of the segment corresponding to the current time
pub fn get_cursor_index_at_time(
    points: &[CursorEntry],
    used_points: &[usize],
    current_time: Double,
) -> (res: usize)
    requires
        forall|k: int| 0 <= k < used_points@.len() ==> #[trigger] used_points@[k] < points@.len(),
    ensures
        is_segment_at(points@, used_points@, current_time, res as int),
{
    let count: usize = used_points.len();
    if count == 0 {
        return 0;
    }
    let mut k: usize = 0;
    while k < count - 1
        invariant
            k < count == used_points@.len(),
            forall|k: int|
                0 <= k < used_points@.len() ==> #[trigger] used_points@[k] < points@.len(),
            forall|j: int| 0 <= j < k ==> !#[trigger] covers(
                points@,
                used_points@,
                j,
                current_time,
            ),
        decreases count - k,
    {
        if points[used_points[k]].pts.at_most(current_time) && current_time.less_than(
            points[used_points[k + 1]].pts,
        ) {
            return k;
        }
        k = k + 1;
    }
    0
}

/// The used sample `k`, or the nearest one where there is none with that number.
pub open spec fn control_point(
    points: Seq<CursorEntry>,
    used_points: Seq<usize>,
    k: int,
) -> CursorEntry {
    let nearest = if k < 0 {
        0
    } else if k >= used_points.len() {
        used_points.len() - 1
    } else {
        k
    };
    points[used_points[nearest] as int]
}

/// The control points for a time on a segment: its ends, and the samples before and after them.
pub open spec fn control_points(
    points: Seq<CursorEntry>,
    used_points: Seq<usize>,
    segment: int,
    current_time: Double,
) -> (CursorEntry, CursorEntry, CursorEntry, CursorEntry, Double) {
    (
        control_point(points, used_points, segment - 1),
        control_point(points, used_points, segment),
        control_point(points, used_points, segment + 1),
        control_point(points, used_points, segment + 2),
        current_time,
    )
}

/// Whether `position` is what `interpolate` gives for the segment that covers `current_time`, with
/// the samples before and after it.
pub open spec fn positioned<
    F: Fn(CursorEntry, CursorEntry, CursorEntry, CursorEntry, Double) -> (Double, Double),
>(
    interpolate: F,
    points: Seq<CursorEntry>,
    used_points: Seq<usize>,
    current_time: Double,
    position: (Double, Double),
) -> bool {
    exists|segment: int|
        {
            &&& #[trigger] is_segment_at(points, used_points, current_time, segment)
            &&& interpolate.ensures(
                control_points(points, used_points, segment, current_time),
                position,
            )
        }
}

/// The position at `current_time`: what `interpolate` gives for the segment that covers it, with
/// the samples before and after.
pub fn get_position_at_time<
    F: Fn(CursorEntry, CursorEntry, CursorEntry, CursorEntry, Double) -> (Double, Double),
>(
    points: &[CursorEntry],
    used_points: &[usize],
    current_time: Double,
    interpolate: &F,
) -> (res: (Double, Double))
    requires
        used_points@.len() > 0,
        forall|k: int| 0 <= k < used_points@.len() ==> #[trigger] used_points@[k] < points@.len(),
        forall|p0: CursorEntry, p1: CursorEntry, p2: CursorEntry, p3: CursorEntry|
            interpolate.requires((p0, p1, p2, p3, current_time)),
    ensures
        positioned(*interpolate, points@, used_points@, current_time, res),
{
    let idx: usize = get_cursor_index_at_time(points, used_points, current_time);
    let last: usize = used_points.len() - 1;

    let p0 = points[used_points[
        if idx == 0 {
            0
        } else {
            idx - 1
        }
    ]];
    let p1 = points[used_points[idx]];
    let p2 = points[used_points[
        if idx < last {
            idx + 1
        } else {
            last
        }
    ]];
    let p3 = points[used_points[
        if last > 1 && idx < last - 1 {
            idx + 2
        } else {
            last
        }
    ]];
    assert(is_segment_at(points@, used_points@, current_time, idx as int));
    interpolate(p0, p1, p2, p3, current_time)
}

/// Whether two samples are at one place at one time. They may show different images.
pub open spec fn same_place(a: CursorEntry, b: CursorEntry) -> bool {
    a.pts == b.pts && a.x == b.x && a.y == b.y
}

/// Whether `interpolate` gives one result for control points at the same places.
pub open spec fn interpolates<
    F: Fn(CursorEntry, CursorEntry, CursorEntry, CursorEntry, Double) -> (Double, Double),
>(interpolate: F) -> bool {
    forall|
        p: (CursorEntry, CursorEntry, CursorEntry, CursorEntry, Double),
        q: (CursorEntry, CursorEntry, CursorEntry, CursorEntry, Double),
        one: (Double, Double),
        other: (Double, Double),
    |
        #[trigger] interpolate.ensures(p, one) && #[trigger] interpolate.ensures(q, other)
            && same_place(p.0, q.0) && same_place(p.1, q.1) && same_place(p.2, q.2) && same_place(
            p.3,
            q.3,
        ) && p.4 == q.4 ==> one == other
}

/// Samples that are not used have no influence on the position, nor have the images that any
/// samples show.
pub proof fn law_position_depends_on_used_samples_only<
    F: Fn(CursorEntry, CursorEntry, CursorEntry, CursorEntry, Double) -> (Double, Double),
>(
    interpolate: F,
    points: Seq<CursorEntry>,
    others: Seq<CursorEntry>,
    used_points: Seq<usize>,
    current_time: Double,
    position: (Double, Double),
    other_position: (Double, Double),
)
    requires
        interpolates(interpolate),
        used_points.len() > 0,
        forall|k: int|
            0 <= k < used_points.len() ==> same_place(
                points[#[trigger] used_points[k] as int],
                others[used_points[k] as int],
            ),
        positioned(interpolate, points, used_points, current_time, position),
        positioned(interpolate, others, used_points, current_time, other_position),
    ensures
        position == other_position,
{
    assert forall|k: int| #[trigger] covers(points, used_points, k, current_time) == covers(
        others,
        used_points,
        k,
        current_time,
    ) by {
        if 0 <= k < used_points.len() - 1 {
            assert(same_place(points[used_points[k] as int], others[used_points[k] as int]));
            assert(same_place(points[used_points[k + 1] as int], others[used_points[k + 1] as int]));
        }
    }
    let a = choose|segment: int|
        {
            &&& #[trigger] is_segment_at(points, used_points, current_time, segment)
            &&& interpolate.ensures(
                control_points(points, used_points, segment, current_time),
                position,
            )
        };
    let b = choose|segment: int|
        {
            &&& #[trigger] is_segment_at(others, used_points, current_time, segment)
            &&& interpolate.ensures(
                control_points(others, used_points, segment, current_time),
                other_position,
            )
        };
    assert(a == b) by {
        assert(covers(points, used_points, a, current_time) == covers(
            others,
            used_points,
            a,
            current_time,
        ));
        assert(covers(points, used_points, b, current_time) == covers(
            others,
            used_points,
            b,
            current_time,
        ));
    }
}

/// The segment at a time is the first one that begins at or before the time and ends after it, here
/// the one from the used sample `k` if that one does; and the first of all where there is none.
pub proof fn law_segment_holds_its_time(
    points: Seq<CursorEntry>,
    used_points: Seq<usize>,
    time: Double,
    segment: int,
    k: int,
)
    requires
        is_segment_at(points, used_points, time, segment),
        0 <= k < used_points.len() - 1,
    ensures
        ({
            let begins = |s: int| points[used_points[s] as int].pts;
            let holds = |s: int| begins(s).le(time) && time.lt(begins(s + 1));
            &&& 0 <= segment < used_points.len() - 1
            &&& holds(segment) || segment == 0
            &&& holds(k) ==> holds(segment) && segment <= k
        }),
{
    let found = covers(points, used_points, k, time);
    let covered = covers(points, used_points, segment, time);
    assert(covered || segment == 0);
    assert(found ==> covered && segment <= k);
}

/// The position at a time is interpolated from the two ends of its segment, and from the used samples
/// next to them, or the ends themselves at the ends of the path.
pub proof fn law_position_comes_from_its_segment<
    F: Fn(CursorEntry, CursorEntry, CursorEntry, CursorEntry, Double) -> (Double, Double),
>(
    interpolate: F,
    points: Seq<CursorEntry>,
    used_points: Seq<usize>,
    time: Double,
    position: (Double, Double),
)
    requires
        used_points.len() > 0,
        positioned(interpolate, points, used_points, time, position),
    ensures
        exists|segment: int|
            {
                let last = used_points.len() - 1;
                let before = if segment == 0 {
                    0
                } else {
                    segment - 1
                };
                let next = if segment + 1 <= last {
                    segment + 1
                } else {
                    last
                };
                let after = if segment + 2 <= last {
                    segment + 2
                } else {
                    last
                };
                &&& #[trigger] is_segment_at(points, used_points, time, segment)
                &&& 0 <= segment <= last
                &&& interpolate.ensures(
                    (
                        points[used_points[before] as int],
                        points[used_points[segment] as int],
                        points[used_points[next] as int],
                        points[used_points[after] as int],
                        time,
                    ),
                    position,
                )
            },
{
    let segment = choose|segment: int|
        {
            &&& #[trigger] is_segment_at(points, used_points, time, segment)
            &&& interpolate.ensures(
                control_points(points, used_points, segment, time),
                position,
            )
        };
    assert(is_segment_at(points, used_points, time, segment));
}

/// The least distance that a sample can have is zero.
pub proof fn law_zero_is_zero()
    ensures
        !zero().nan(),
        zero().value() == 0,
{
}

fn range_inclusive(from: usize, to: usize) -> (res: Vec<usize>)
    ensures
        res@ == Seq::new(
            if from <= to {
                (to - from + 1) as nat
            } else {
                0
            },
            |i: int| (from + i) as usize,
        ),
{
    let mut res: Vec<usize> = Vec::new();
    if from <= to {
        let mut next: usize = from;
        while next < to
            invariant
                from <= next <= to,
                res@ == Seq::new((next - from) as nat, |i: int| (from + i) as usize),
            decreases to - next,
        {
            res.push(next);
            next = next + 1;
        }
        res.push(to);
    }
    res
}

} // verus!
