use vstd::prelude::*;
use crate::geometry::{
    Rect, disjoint, within, pairwise_disjoint, right_extent, bottom_extent, rects_disjoint,
    lemma_extents_cover, lemma_extents_bounded,
};
use binpack2d::guillotine::{GuillotineBin, RectHeuristic, SplitHeuristic};
use binpack2d::Dimension;

verus! {

/// Largest pixel size the packer takes (its coordinates are `i32`).
pub const MAX_SIDE: u32 = 0x7fff_ffff;

/// One rectangle to place, in pixels.
#[derive(Clone, Copy, Debug, PartialEq, Eq, Structural)]
pub struct PackItem {
    pub width: u32,
    pub height: u32,
}

/// Why a packing attempt produced no layout.
#[derive(Clone, Copy, Debug, PartialEq, Eq, Structural)]
pub enum PackError {
    /// At least one item could not be placed within the canvas bound.
    DoesNotFit,
    /// The packer reported a placement that breaks the layout rules, or one
    /// that turns its item.
    PackerFault,
}

/// The placements of one successful packing, with the canvas shrunk to
/// their bounding box. `placements[i]` belongs to the `i`-th item.
#[derive(Debug)]
pub struct Layout {
    pub width: i64,
    pub height: i64,
    pub placements: Vec<Rect>,
}

/// The item fits into a `w` by `h` canvas, upright or turned.
pub open spec fn fits_canvas(it: PackItem, w: int, h: int) -> bool {
    ||| (it.width <= w && it.height <= h)
    ||| (it.height <= w && it.width <= h)
}

/// The placement has the item's size, upright (the transform chain has no
/// rotation, so a turned slot could not hold the image).
pub open spec fn placed_as(p: Rect, it: PackItem) -> bool {
    p.width == it.width && p.height == it.height
}

pub open spec fn i32_rect(r: Rect) -> bool {
    &&& i32::MIN <= r.x <= i32::MAX
    &&& i32::MIN <= r.y <= i32::MAX
    &&& i32::MIN <= r.width <= i32::MAX
    &&& i32::MIN <= r.height <= i32::MAX
}

pub open spec fn items_in_range(items: Seq<PackItem>) -> bool {
    forall|i: int|
        0 <= i < items.len() ==> #[trigger] items[i].width <= MAX_SIDE && items[i].height
            <= MAX_SIDE
}

/// `ps` places every item of `items`, one placement per item in the same
/// order, inside the `w` by `h` canvas, with no two placements overlapping.
pub open spec fn valid_layout(w: int, h: int, items: Seq<PackItem>, ps: Seq<Rect>) -> bool {
    &&& ps.len() == items.len()
    &&& forall|i: int| 0 <= i < ps.len() ==> placed_as(#[trigger] ps[i], items[i])
    &&& forall|i: int| 0 <= i < ps.len() ==> within(#[trigger] ps[i], w, h)
    &&& pairwise_disjoint(ps)
}

pub open spec fn all_found(found: Seq<Option<Rect>>) -> bool {
    forall|i: int| 0 <= i < found.len() ==> (#[trigger] found[i]) is Some
}

pub open spec fn unwrap_all(found: Seq<Option<Rect>>) -> Seq<Rect> {
    found.map_values(|o: Option<Rect>| o->Some_0)
}

impl Layout {
    /// A layout of `items` whose canvas is the bounding box of the placements.
    pub open spec fn is_layout_of(&self, w: int, h: int, items: Seq<PackItem>) -> bool {
        &&& valid_layout(w, h, items, self.placements@)
        &&& self.width == right_extent(self.placements@)
        &&& self.height == bottom_extent(self.placements@)
    }
}

/// What binpack2d's guillotine packer does with items of the given sizes
/// (the `i`-th under id `i`) in a fresh bin of the given canvas size: the
/// placements `(id, x, y, width, height)` in the order it made them, and
/// how many items it rejected.
pub uninterp spec fn guillotine_insert(w: int, h: int, sizes: Seq<(int, int)>) -> (Seq<(int, int, int, int, int)>, nat);

/// The pixel sizes of the items, as plain pairs.
pub open spec fn sizes_of(items: Seq<PackItem>) -> Seq<(int, int)> {
    items.map_values(|it: PackItem| (it.width as int, it.height as int))
}

pub open spec fn placed_view(v: Seq<(isize, i32, i32, i32, i32)>) -> Seq<(int, int, int, int, int)> {
    v.map_values(
        |t: (isize, i32, i32, i32, i32)| (t.0 as int, t.1 as int, t.2 as int, t.3 as int, t.4 as int),
    )
}

/// A side of a bin: binpack2d raises a side under 1 to 1.
pub open spec fn bin_side(v: int) -> int {
    if v >= 1 {
        v
    } else {
        1
    }
}

/// The size fits into a `w` by `h` canvas, upright or turned.
pub open spec fn fits_size(s: (int, int), w: int, h: int) -> bool {
    ||| (s.0 <= w && s.1 <= h)
    ||| (s.1 <= w && s.0 <= h)
}

/// Relies on binpack2d's `GuillotineBin::new` and its inherent `insert_list`
/// (no merging of free rectangles, best short side fit, split along the
/// shorter leftover axis): a fresh bin places the items it can, each item
/// either placed once or rejected, and an item that fits the bin in neither
/// orientation is never placed.
#[verifier::external_body]
fn guillotine_insert_items(w: i32, h: i32, items: &Vec<PackItem>) -> (r: (
    Vec<(isize, i32, i32, i32, i32)>,
    usize,
))
    requires
        items_in_range(items@),
    ensures
        (placed_view(r.0@), r.1 as nat) == guillotine_insert(w as int, h as int, sizes_of(items@)),
        r.0@.len() + r.1 == items@.len(),
        (exists|i: int|
            0 <= i < items@.len() && !fits_size(
                #[trigger] sizes_of(items@)[i],
                bin_side(w as int),
                bin_side(h as int),
            )) ==> r.1 > 0,
{
    let dims: Vec<Dimension> = items
        .iter()
        .enumerate()
        .map(|(i, it)| Dimension::with_id(i as isize, it.width as i32, it.height as i32, 0))
        .collect();
    let mut bin = GuillotineBin::new(w, h);
    let choice = RectHeuristic::BestShortSideFit;
    let (inserted, rejected) = bin.insert_list(&dims, false, choice, SplitHeuristic::ShorterLeftoverAxis);
    (inserted.iter().map(|p| (p.id(), p.x(), p.y(), p.width(), p.height())).collect(), rejected.len())
}

/// The rectangle of a placement tuple `(id, x, y, width, height)`.
pub open spec fn rect_of(t: (int, int, int, int, int)) -> Rect {
    Rect { x: t.1 as i64, y: t.2 as i64, width: t.3 as i64, height: t.4 as i64 }
}

/// The first placement made under id `k`, if any.
pub open spec fn slot_of(placed: Seq<(int, int, int, int, int)>, k: int) -> Option<Rect>
    decreases placed.len(),
{
    if placed.len() == 0 {
        None
    } else if placed[0].0 == k {
        Some(rect_of(placed[0]))
    } else {
        slot_of(placed.drop_first(), k)
    }
}

/// For each item, the placement that the guillotine packer made for it.
pub open spec fn named_found(w: int, h: int, items: Seq<PackItem>) -> Seq<Option<Rect>> {
    Seq::new(items.len(), |k: int| slot_of(guillotine_insert(w, h, sizes_of(items)).0, k))
}

/// How many items the guillotine packer rejects.
pub open spec fn named_rejected(w: int, h: int, items: Seq<PackItem>) -> nat {
    guillotine_insert(w, h, sizes_of(items)).1
}

/// The placement made under id `k`, looked up in what the packer returned.
fn find_slot(placed: &Vec<(isize, i32, i32, i32, i32)>, k: usize) -> (r: Option<Rect>)
    ensures
        r == slot_of(placed_view(placed@), k as int),
        r matches Some(p) ==> i32_rect(p),
{
    let ghost pv = placed_view(placed@);
    let mut j: usize = 0;
    assert(pv.subrange(0, pv.len() as int) =~= pv);
    while j < placed.len()
        invariant
            j <= placed@.len(),
            pv == placed_view(placed@),
            slot_of(pv, k as int) == slot_of(pv.subrange(j as int, pv.len() as int), k as int),
        decreases placed@.len() - j,
    {
        let t = placed[j];
        let ghost rest = pv.subrange(j as int, pv.len() as int);
        assert(rest[0] == pv[j as int]);
        if t.0 as i128 == k as i128 {
            return Some(Rect { x: t.1 as i64, y: t.2 as i64, width: t.3 as i64, height: t.4 as i64 });
        }
        assert(rest.drop_first() =~= pv.subrange(j + 1, pv.len() as int));
        j = j + 1;
    }
    assert(pv.subrange(j as int, pv.len() as int).len() == 0);
    None
}

/// Accepts what a packer reported for `items` as a layout of the `w` by `h`
/// canvas exactly when it is one: every item was found, each placement has
/// its item's size and lies in the canvas, and no two overlap. The layout's
/// canvas is the bounding box of the placements.
pub fn check_layout(w: i32, h: i32, items: &Vec<PackItem>, found: &Vec<Option<Rect>>) -> (r: Result<
    Layout,
    PackError,
>)
    requires
        forall|i: int| 0 <= i < found.len() ==> (#[trigger] found[i] matches Some(p) ==> i32_rect(p)),
    ensures
        r is Ok <==> (all_found(found@) && valid_layout(w as int, h as int, items@, unwrap_all(found@))),
        r matches Ok(l) ==> l.placements@ == unwrap_all(found@) && l.is_layout_of(w as int, h as int, items@),
        r matches Err(e) ==> e == PackError::PackerFault,
{
    let n = found.len();
    if n != items.len() {
        return Err(PackError::PackerFault);
    }
    let ghost all = unwrap_all(found@);
    let mut placements: Vec<Rect> = Vec::new();
    let mut right: i64 = 0;
    let mut bottom: i64 = 0;
    let mut i: usize = 0;
    while i < n
        invariant
            n == found.len(),
            n == items.len(),
            i <= n,
            all == unwrap_all(found@),
            forall|k: int| 0 <= k < found.len() ==> (#[trigger] found[k] matches Some(p) ==> i32_rect(p)),
            placements@.len() == i,
            forall|k: int| 0 <= k < i ==> (#[trigger] found[k]) is Some,
            forall|k: int| 0 <= k < i ==> #[trigger] placements@[k] == all[k],
            forall|k: int| 0 <= k < i ==> placed_as(#[trigger] placements@[k], items@[k]),
            forall|k: int| 0 <= k < i ==> within(#[trigger] placements@[k], w as int, h as int),
            right == right_extent(placements@),
            bottom == bottom_extent(placements@),
            0 <= right <= i32::MAX,
            0 <= bottom <= i32::MAX,
        decreases n - i,
    {
        let p = match found[i] {
            Some(p) => p,
            None => {
                return Err(PackError::PackerFault);
            },
        };
        let it = items[i];
        let sized = p.width == it.width as i64 && p.height == it.height as i64;
        let inside = 0 <= p.x && 0 <= p.y && 0 <= p.width && 0 <= p.height && p.x + p.width
            <= w as i64 && p.y + p.height <= h as i64;
        if !sized || !inside {
            assert(all[i as int] == p);
            return Err(PackError::PackerFault);
        }
        let ghost before = placements@;
        placements.push(p);
        assert(placements@.drop_last() == before);
        if p.x + p.width > right {
            right = p.x + p.width;
        }
        if p.y + p.height > bottom {
            bottom = p.y + p.height;
        }
        i = i + 1;
    }
    assert(placements@ == all);
    let mut a: usize = 0;
    while a < n
        invariant
            n == placements@.len(),
            placements@ == unwrap_all(found@),
            a <= n,
            forall|k: int| 0 <= k < n ==> i32_rect(#[trigger] placements@[k]),
            forall|x: int, y: int|
                0 <= x < a && x < y < n ==> disjoint(#[trigger] placements@[x], #[trigger] placements@[y]),
        decreases n - a,
    {
        let mut b: usize = a + 1;
        while b < n
            invariant
                n == placements@.len(),
                placements@ == unwrap_all(found@),
                a < n,
                a + 1 <= b <= n,
                forall|k: int| 0 <= k < n ==> i32_rect(#[trigger] placements@[k]),
                forall|x: int, y: int|
                    0 <= x < a && x < y < n ==> disjoint(#[trigger] placements@[x], #[trigger] placements@[y]),
                forall|y: int| a < y < b ==> disjoint(placements@[a as int], #[trigger] placements@[y]),
            decreases n - b,
        {
            if !rects_disjoint(&placements[a], &placements[b]) {
                return Err(PackError::PackerFault);
            }
            b = b + 1;
        }
        a = a + 1;
    }
    assert(pairwise_disjoint(placements@)) by {
        assert forall|x: int, y: int|
            0 <= x < placements@.len() && 0 <= y < placements@.len() && x != y implies disjoint(
            #[trigger] placements@[x],
            #[trigger] placements@[y],
        ) by {
            if y < x {
                assert(disjoint(placements@[y], placements@[x]));
            }
        }
    }
    Ok(Layout { width: right, height: bottom, placements })
}


/// Packs `items`, in their order, into a `w` by `h` canvas with binpack2d's
/// guillotine packer, and shrinks the canvas to the bounding box of the
/// placements.
///
/// All or nothing: when the packer rejects any item the result is
/// `DoesNotFit` and no placement is handed out. Otherwise the packer's
/// placements are the layout, provided they form one (`check_layout`).
/// Equal inputs give equal layouts.
pub fn pack(w: i32, h: i32, items: &Vec<PackItem>) -> (r: Result<Layout, PackError>)
    requires
        items_in_range(items@),
    ensures
        (r matches Err(PackError::DoesNotFit)) <==> named_rejected(w as int, h as int, items@) > 0,
        r is Ok <==> (named_rejected(w as int, h as int, items@) == 0 && all_found(
            named_found(w as int, h as int, items@),
        ) && valid_layout(
            w as int,
            h as int,
            items@,
            unwrap_all(named_found(w as int, h as int, items@)),
        )),
        r matches Ok(l) ==> l.placements@ == unwrap_all(named_found(w as int, h as int, items@))
            && l.is_layout_of(w as int, h as int, items@),
        r matches Ok(l) ==> forall|i: int|
            0 <= i < l.placements@.len() ==> within(
                #[trigger] l.placements@[i],
                l.width as int,
                l.height as int,
            ),
        r matches Ok(l) ==> forall|i: int, j: int|
            0 <= i < l.placements@.len() && 0 <= j < l.placements@.len() && i != j ==> disjoint(
                #[trigger] l.placements@[i],
                #[trigger] l.placements@[j],
            ),
        r matches Ok(l) ==> 0 <= l.width && 0 <= l.height,
        r matches Ok(l) ==> items.len() > 0 ==> l.width <= w && l.height <= h,
        items.len() == 0 ==> r is Ok,
        1 <= w && 1 <= h && (exists|i: int|
            0 <= i < items.len() && !fits_canvas(#[trigger] items@[i], w as int, h as int))
            ==> (r matches Err(PackError::DoesNotFit)),
{
    let n = items.len();
    let (placed, rejected) = guillotine_insert_items(w, h, items);
    proof {
        if 1 <= w && 1 <= h && (exists|i: int|
            0 <= i < items.len() && !fits_canvas(#[trigger] items@[i], w as int, h as int)) {
            let i = choose|i: int|
                0 <= i < items.len() && !fits_canvas(#[trigger] items@[i], w as int, h as int);
            assert(!fits_size(sizes_of(items@)[i], bin_side(w as int), bin_side(h as int)));
        }
    }
    if rejected > 0 {
        return Err(PackError::DoesNotFit);
    }
    let ghost named = named_found(w as int, h as int, items@);
    let mut found: Vec<Option<Rect>> = Vec::new();
    let mut i: usize = 0;
    while i < n
        invariant
            i <= n,
            n == items.len(),
            found.len() == i,
            named == named_found(w as int, h as int, items@),
            placed_view(placed@) == guillotine_insert(w as int, h as int, sizes_of(items@)).0,
            forall|k: int| 0 <= k < i ==> #[trigger] found@[k] == named[k],
            forall|k: int| 0 <= k < found.len() ==> (#[trigger] found[k] matches Some(p) ==> i32_rect(p)),
        decreases n - i,
    {
        found.push(find_slot(&placed, i));
        i = i + 1;
    }
    assert(found@ =~= named);
    let layout = check_layout(w, h, items, &found);
    proof {
        if layout is Ok {
            let ps = layout->Ok_0.placements@;
            lemma_extents_cover(ps);
            if ps.len() > 0 {
                assert(within(ps[0], w as int, h as int));
                lemma_extents_bounded(ps, w as int, h as int);
            }
        }
    }
    layout
}

} // verus!
