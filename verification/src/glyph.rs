//! Control points taken from a font glyph's outline.
//!
//! An outline is a list of points in font units (y grows upwards) together
//! with the index of the last point of each contour. The points are walked
//! contour by contour and moved so that the leftmost point has offset 0 in x
//! and the topmost point has offset 0 in y, with y now growing downwards.
use vstd::prelude::*;

verus! {

/// A point of a glyph outline, in font units.
#[derive(Clone, Copy, Debug, PartialEq, Eq, Structural)]
pub struct OutlinePoint {
    pub x: i64,
    pub y: i64,
}

/// The least x of the points.
pub open spec fn min_x(ps: Seq<OutlinePoint>) -> int
    decreases ps.len(),
{
    if ps.len() <= 1 {
        ps[0].x as int
    } else {
        let m = min_x(ps.drop_last());
        if ps.last().x < m {
            ps.last().x as int
        } else {
            m
        }
    }
}

/// The greatest y of the points.
pub open spec fn max_y(ps: Seq<OutlinePoint>) -> int
    decreases ps.len(),
{
    if ps.len() <= 1 {
        ps[0].y as int
    } else {
        let m = max_y(ps.drop_last());
        if ps.last().y > m {
            ps.last().y as int
        } else {
            m
        }
    }
}

/// The extremes are taken by some point and bound every point.
pub proof fn lemma_bounds_extreme(ps: Seq<OutlinePoint>)
    requires
        ps.len() > 0,
    ensures
        forall|i: int| 0 <= i < ps.len() ==> min_x(ps) <= (#[trigger] ps[i]).x && ps[i].y <= max_y(
            ps,
        ),
        exists|i: int| 0 <= i < ps.len() && (#[trigger] ps[i]).x == min_x(ps),
        exists|i: int| 0 <= i < ps.len() && (#[trigger] ps[i]).y == max_y(ps),
    decreases ps.len(),
{
    if ps.len() > 1 {
        let init = ps.drop_last();
        lemma_bounds_extreme(init);
        assert forall|i: int| 0 <= i < ps.len() implies min_x(ps) <= (#[trigger] ps[i]).x
            && ps[i].y <= max_y(ps) by {
            if i < ps.len() - 1 {
                assert(ps[i] == init[i]);
            }
        }
        let a = choose|i: int| 0 <= i < init.len() && (#[trigger] init[i]).x == min_x(init);
        let b = choose|i: int| 0 <= i < init.len() && (#[trigger] init[i]).y == max_y(init);
        assert(ps[a] == init[a]);
        assert(ps[b] == init[b]);
        if ps.last().x < min_x(init) {
            assert(ps[ps.len() - 1].x == min_x(ps));
        } else {
            assert(ps[a].x == min_x(ps));
        }
        if ps.last().y > max_y(init) {
            assert(ps[ps.len() - 1].y == max_y(ps));
        } else {
            assert(ps[b].y == max_y(ps));
        }
    } else {
        assert(ps[0].x == min_x(ps));
        assert(ps[0].y == max_y(ps));
    }
}

/// The least x and the greatest y over the points of an outline.
pub fn outline_bounds(points: &Vec<OutlinePoint>) -> (res: (i64, i64))
    requires
        points.len() > 0,
    ensures
        res.0 == min_x(points@),
        res.1 == max_y(points@),
{
    let mut x_min = points[0].x;
    let mut y_max = points[0].y;
    let mut i: usize = 0;
    while i < points.len()
        invariant
            0 <= i <= points.len(),
            points.len() > 0,
            x_min == min_x(points@.take(if i == 0 { 1 } else { i as int })),
            y_max == max_y(points@.take(if i == 0 { 1 } else { i as int })),
        decreases points.len() - i,
    {
        let x = points[i].x;
        let y = points[i].y;
        if x_min > x {
            x_min = x;
        }
        if y_max < y {
            y_max = y;
        }
        proof {
            if i > 0 {
                assert(points@.take(i + 1).drop_last() =~= points@.take(i as int));
            } else {
                assert(points@.take(1).len() == 1);
            }
        }
        i = i + 1;
    }
    assert(points@.take(points.len() as int) =~= points@);
    (x_min, y_max)
}

/// One past the last point reached when the contours are walked in order:
/// each contour end that lies beyond the points walked so far extends the
/// walk up to and including it.
pub open spec fn walk_end(contours: Seq<i16>) -> int
    decreases contours.len(),
{
    if contours.len() == 0 {
        0
    } else {
        let e = walk_end(contours.drop_last());
        if contours.last() + 1 > e {
            contours.last() + 1
        } else {
            e
        }
    }
}

/// Every contour end names a point of the outline.
pub open spec fn contours_in_range(contours: Seq<i16>, n_points: int) -> bool {
    forall|i: int| 0 <= i < contours.len() ==> 0 <= #[trigger] contours[i] < n_points
}

/// The walk ends within the outline.
pub proof fn lemma_walk_end_bounded(contours: Seq<i16>, n_points: int)
    requires
        n_points >= 0,
        contours_in_range(contours, n_points),
    ensures
        0 <= walk_end(contours) <= n_points,
        contours.len() > 0 ==> walk_end(contours) > 0,
    decreases contours.len(),
{
    if contours.len() > 0 {
        let init = contours.drop_last();
        assert forall|i: int| 0 <= i < init.len() implies 0 <= #[trigger] init[i] < n_points by {
            assert(init[i] == contours[i]);
        }
        lemma_walk_end_bounded(init, n_points);
        assert(0 <= contours[contours.len() - 1] < n_points);
        assert(contours[contours.len() - 1] == contours.last());
    }
}

/// When no contour end is negative, the walk reaches the end of every
/// contour and stops right after the greatest one: with no contours it is empty; otherwise every contour end lies
/// before `walk_end`, and some contour ends right before it.
pub proof fn lemma_walk_reaches_every_contour(contours: Seq<i16>)
    requires
        forall|i: int| 0 <= i < contours.len() ==> 0 <= #[trigger] contours[i],
    ensures
        contours.len() == 0 ==> walk_end(contours) == 0,
        forall|i: int| 0 <= i < contours.len() ==> #[trigger] contours[i] < walk_end(contours),
        contours.len() > 0 ==> exists|i: int|
            0 <= i < contours.len() && #[trigger] contours[i] + 1 == walk_end(contours),
    decreases contours.len(),
{
    if contours.len() > 0 {
        let init = contours.drop_last();
        assert forall|i: int| 0 <= i < init.len() implies 0 <= #[trigger] init[i] by {
            assert(init[i] == contours[i]);
        }
        lemma_walk_reaches_every_contour(init);
        let n = contours.len() - 1;
        assert(0 <= contours[n]);
        assert(contours[n] == contours.last());
        assert forall|i: int| 0 <= i < contours.len() implies #[trigger] contours[i] < walk_end(
            contours,
        ) by {
            if i < n {
                assert(contours[i] == init[i]);
            }
        }
        if contours.last() + 1 > walk_end(init) {
            assert(contours[n] + 1 == walk_end(contours));
        } else {
            let k = choose|k: int| 0 <= k < init.len() && #[trigger] init[k] + 1 == walk_end(init);
            assert(contours[k] == init[k]);
            assert(contours[k] + 1 == walk_end(contours));
        }
    }
}

/// The indices of the points visited when the contours are walked in order,
/// starting at point 0: `0, 1, ..., walk_end(contours) - 1`.
pub fn contour_point_order(contours: &Vec<i16>, n_points: usize) -> (res: Vec<usize>)
    requires
        contours_in_range(contours@, n_points as int),
    ensures
        res.len() == walk_end(contours@),
        forall|k: int| 0 <= k < res.len() ==> #[trigger] res@[k] == k,
        forall|k: int| 0 <= k < res.len() ==> #[trigger] res@[k] < n_points,
        forall|i: int| 0 <= i < contours.len() ==> #[trigger] contours@[i] < res.len(),
        contours.len() > 0 ==> exists|i: int|
            0 <= i < contours.len() && #[trigger] contours@[i] + 1 == res.len(),
        contours.len() == 0 ==> res.len() == 0,
{
    proof {
        lemma_walk_reaches_every_contour(contours@);
    }
    let mut res: Vec<usize> = Vec::new();
    let mut pid: usize = 0;
    let mut i: usize = 0;
    proof {
        lemma_walk_end_bounded(contours@, n_points as int);
    }
    while i < contours.len()
        invariant
            0 <= i <= contours.len(),
            contours_in_range(contours@, n_points as int),
            pid == walk_end(contours@.take(i as int)),
            pid <= n_points,
            res.len() == pid,
            forall|k: int| 0 <= k < res.len() ==> #[trigger] res@[k] == k,
        decreases contours.len() - i,
    {
        let end = contours[i];
        assert(0 <= end < n_points);
        let end_index = end as usize;
        let ghost pid_start = pid;
        while pid <= end_index
            invariant
                res.len() == pid,
                pid_start <= pid,
                pid == pid_start || pid <= end_index + 1,
                end_index < n_points,
                forall|k: int| 0 <= k < res.len() ==> #[trigger] res@[k] == k,
            decreases end_index + 1 - pid,
        {
            res.push(pid);
            pid = pid + 1;
        }
        assert(contours@.take(i + 1).drop_last() =~= contours@.take(i as int));
        i = i + 1;
    }
    assert(contours@.take(contours.len() as int) =~= contours@);
    res
}

/// The offset of a point from the top-left corner of the outline's bounds,
/// with y growing downwards.
pub open spec fn offset_of(ps: Seq<OutlinePoint>, p: OutlinePoint) -> (int, int) {
    (p.x - min_x(ps), max_y(ps) - p.y)
}

/// Every offset fits in an `i64`.
pub open spec fn offsets_fit(ps: Seq<OutlinePoint>) -> bool {
    forall|i: int|
        0 <= i < ps.len() ==> #[trigger] ps[i].x - min_x(ps) <= i64::MAX && max_y(ps) - ps[i].y
            <= i64::MAX
}

/// Whether every contour end names a point of an outline of `n_points` points.
pub fn contours_fit(contours: &Vec<i16>, n_points: usize) -> (ok: bool)
    ensures
        ok == contours_in_range(contours@, n_points as int),
{
    let mut i: usize = 0;
    while i < contours.len()
        invariant
            i <= contours.len(),
            forall|k: int| 0 <= k < i ==> 0 <= #[trigger] contours@[k] < n_points,
        decreases contours.len() - i,
    {
        if contours[i] < 0 || contours[i] as usize >= n_points {
            return false;
        }
        i = i + 1;
    }
    true
}

/// Whether every offset of the outline's points fits in an `i64`.
pub fn offsets_fit_in_i64(points: &Vec<OutlinePoint>) -> (ok: bool)
    requires
        points.len() > 0,
    ensures
        ok == offsets_fit(points@),
{
    let (x_min, y_max) = outline_bounds(points);
    let mut i: usize = 0;
    while i < points.len()
        invariant
            i <= points.len(),
            x_min == min_x(points@),
            y_max == max_y(points@),
            forall|k: int|
                0 <= k < i ==> #[trigger] points@[k].x - min_x(points@) <= i64::MAX && max_y(
                    points@,
                ) - points@[k].y <= i64::MAX,
        decreases points.len() - i,
    {
        let p = points[i];
        if (p.x as i128) - (x_min as i128) > i64::MAX as i128 || (y_max as i128) - (p.y as i128)
            > i64::MAX as i128 {
            return false;
        }
        i = i + 1;
    }
    true
}

/// The control points of a glyph: the outline's points in the order of the
/// contour walk, each as its offset from the top-left corner of the bounds.
pub fn glyph_offsets(points: &Vec<OutlinePoint>, contours: &Vec<i16>) -> (res: Vec<(i64, i64)>)
    requires
        points.len() > 0,
        contours_in_range(contours@, points.len() as int),
        offsets_fit(points@),
    ensures
        res.len() == walk_end(contours@),
        forall|i: int| 0 <= i < contours.len() ==> #[trigger] contours@[i] < res.len(),
        contours.len() > 0 ==> exists|i: int|
            0 <= i < contours.len() && #[trigger] contours@[i] + 1 == res.len(),
        forall|k: int|
            0 <= k < res.len() ==> ((#[trigger] res@[k]).0 as int, res@[k].1 as int) == offset_of(
                points@,
                points@[k],
            ),
{
    let (x_min, y_max) = outline_bounds(points);
    let order = contour_point_order(contours, points.len());
    proof {
        lemma_bounds_extreme(points@);
    }
    let mut res: Vec<(i64, i64)> = Vec::new();
    let mut k: usize = 0;
    while k < order.len()
        invariant
            0 <= k <= order.len(),
            order.len() == walk_end(contours@),
            forall|j: int| 0 <= j < order.len() ==> #[trigger] order@[j] == j,
            forall|j: int| 0 <= j < order.len() ==> #[trigger] order@[j] < points.len(),
            x_min == min_x(points@),
            y_max == max_y(points@),
            offsets_fit(points@),
            forall|i: int|
                0 <= i < points.len() ==> min_x(points@) <= (#[trigger] points@[i]).x
                    && points@[i].y <= max_y(points@),
            res.len() == k,
            forall|j: int|
                0 <= j < res.len() ==> ((#[trigger] res@[j]).0 as int, res@[j].1 as int) == offset_of(
                    points@,
                    points@[j],
                ),
        decreases order.len() - k,
    {
        let idx = order[k];
        assert(idx < points.len());
        let p = points[idx];
        assert(p.x - x_min <= i64::MAX);
        let dx = p.x - x_min;
        let dy = y_max - p.y;
        res.push((dx, dy));
        k = k + 1;
    }
    res
}

/// Moving to offsets keeps horizontal distances and flips vertical ones:
/// between any two points the x offsets differ as their x do, and the y
/// offsets differ as their y do, with the sign reversed.
pub proof fn lemma_offsets_keep_distances(ps: Seq<OutlinePoint>, i: int, j: int)
    requires
        0 <= i < ps.len(),
        0 <= j < ps.len(),
    ensures
        offset_of(ps, ps[i]).0 - offset_of(ps, ps[j]).0 == ps[i].x - ps[j].x,
        offset_of(ps, ps[i]).1 - offset_of(ps, ps[j]).1 == ps[j].y - ps[i].y,
{
}

/// The offsets are never negative, and the leftmost and topmost points have
/// offset 0 in x and in y.
pub proof fn lemma_offsets_start_at_zero(ps: Seq<OutlinePoint>)
    requires
        ps.len() > 0,
    ensures
        forall|i: int|
            0 <= i < ps.len() ==> offset_of(ps, #[trigger] ps[i]).0 >= 0 && offset_of(ps, ps[i]).1
                >= 0,
        exists|i: int| 0 <= i < ps.len() && offset_of(ps, #[trigger] ps[i]).0 == 0,
        exists|i: int| 0 <= i < ps.len() && offset_of(ps, #[trigger] ps[i]).1 == 0,
{
    lemma_bounds_extreme(ps);
    let a = choose|i: int| 0 <= i < ps.len() && (#[trigger] ps[i]).x == min_x(ps);
    let b = choose|i: int| 0 <= i < ps.len() && (#[trigger] ps[i]).y == max_y(ps);
    assert(offset_of(ps, ps[a]).0 == 0);
    assert(offset_of(ps, ps[b]).1 == 0);
}

} // verus!
