use vstd::prelude::*;

verus! {

/// An axis-aligned rectangle in atlas pixel space, origin at the top left.
#[derive(Clone, Copy, Debug, PartialEq, Eq, Structural)]
pub struct Rect {
    pub x: i64,
    pub y: i64,
    pub width: i64,
    pub height: i64,
}

/// The two rectangles share no area (rectangles are half-open on the right
/// and bottom edges, so touching edges do not overlap).
pub open spec fn disjoint(a: Rect, b: Rect) -> bool {
    ||| a.x + a.width <= b.x
    ||| b.x + b.width <= a.x
    ||| a.y + a.height <= b.y
    ||| b.y + b.height <= a.y
}

/// The rectangle lies inside `[0, w) x [0, h)`.
pub open spec fn within(r: Rect, w: int, h: int) -> bool {
    &&& 0 <= r.x
    &&& 0 <= r.y
    &&& 0 <= r.width
    &&& 0 <= r.height
    &&& r.x + r.width <= w
    &&& r.y + r.height <= h
}

/// No two distinct rectangles of the sequence overlap.
pub open spec fn pairwise_disjoint(rs: Seq<Rect>) -> bool {
    forall|i: int, j: int| 0 <= i < rs.len() && 0 <= j < rs.len() && i != j ==> disjoint(
        #[trigger] rs[i],
        #[trigger] rs[j],
    )
}

pub open spec fn max_int(a: int, b: int) -> int {
    if a >= b {
        a
    } else {
        b
    }
}

/// The largest right edge `x + width` over the rectangles, 0 for none.
pub open spec fn right_extent(rs: Seq<Rect>) -> int
    decreases rs.len(),
{
    if rs.len() == 0 {
        0
    } else {
        max_int(right_extent(rs.drop_last()), rs.last().x + rs.last().width)
    }
}

/// The largest bottom edge `y + height` over the rectangles, 0 for none.
pub open spec fn bottom_extent(rs: Seq<Rect>) -> int
    decreases rs.len(),
{
    if rs.len() == 0 {
        0
    } else {
        max_int(bottom_extent(rs.drop_last()), rs.last().y + rs.last().height)
    }
}

/// Every rectangle ends at or before the right and bottom extents.
pub proof fn lemma_extents_cover(rs: Seq<Rect>)
    ensures
        forall|i: int|
            0 <= i < rs.len() ==> #[trigger] rs[i].x + rs[i].width <= right_extent(rs) && rs[i].y
                + rs[i].height <= bottom_extent(rs),
        rs.len() == 0 ==> right_extent(rs) == 0 && bottom_extent(rs) == 0,
    decreases rs.len(),
{
    if rs.len() > 0 {
        lemma_extents_cover(rs.drop_last());
        assert forall|i: int| 0 <= i < rs.len() implies #[trigger] rs[i].x + rs[i].width
            <= right_extent(rs) && rs[i].y + rs[i].height <= bottom_extent(rs) by {
            if i < rs.len() - 1 {
                assert(rs[i] == rs.drop_last()[i]);
            }
        }
    }
}

/// When every rectangle lies within `[0, w) x [0, h)` and `w`, `h` are not
/// negative, so do the extents.
pub proof fn lemma_extents_bounded(rs: Seq<Rect>, w: int, h: int)
    requires
        0 <= w,
        0 <= h,
        forall|i: int| 0 <= i < rs.len() ==> within(#[trigger] rs[i], w, h),
    ensures
        0 <= right_extent(rs) <= w,
        0 <= bottom_extent(rs) <= h,
    decreases rs.len(),
{
    if rs.len() > 0 {
        let init = rs.drop_last();
        assert forall|i: int| 0 <= i < init.len() implies within(#[trigger] init[i], w, h) by {
            assert(init[i] == rs[i]);
        }
        lemma_extents_bounded(init, w, h);
        assert(within(rs[rs.len() - 1], w, h));
    }
}

/// Checks `disjoint` on concrete rectangles.
pub fn rects_disjoint(a: &Rect, b: &Rect) -> (r: bool)
    requires
        i32::MIN <= a.x <= i32::MAX,
        i32::MIN <= a.y <= i32::MAX,
        i32::MIN <= a.width <= i32::MAX,
        i32::MIN <= a.height <= i32::MAX,
        i32::MIN <= b.x <= i32::MAX,
        i32::MIN <= b.y <= i32::MAX,
        i32::MIN <= b.width <= i32::MAX,
        i32::MIN <= b.height <= i32::MAX,
    ensures
        r == disjoint(*a, *b),
{
    a.x + a.width <= b.x || b.x + b.width <= a.x || a.y + a.height <= b.y || b.y + b.height <= a.y
}

} // verus!
