use vstd::prelude::*;
use crate::geometry::{Rect, within, disjoint, pairwise_disjoint, right_extent, bottom_extent};
use crate::packer::{
    PackItem, PackError, MAX_SIDE, pack, placed_as, valid_layout, all_found, unwrap_all, named_found,
    named_rejected,
};
use crate::sizing::{Length, scaled_floor, scaled_pixels};
use crate::transform::{Stage, chain_of, compose_chain};

verus! {

/// Why a pass produced no atlas.
#[derive(Debug)]
pub enum SpriteError {
    /// A second image was offered under a name already taken.
    DuplicateName(String),
    /// Not every image fits into the canvas bound.
    DoesNotFit,
    /// The packer reported a placement that breaks the layout rules.
    PackerFault,
}

/// A named image awaiting placement: its declared size in its own units and
/// its content, which the library carries without looking into it.
#[derive(Debug)]
pub struct Entity<C> {
    pub name: String,
    pub width: Length,
    pub height: Length,
    pub content: C,
}

/// No name occurs twice.
pub open spec fn distinct(names: Seq<Seq<char>>) -> bool {
    forall|i: int, j: int|
        0 <= i < names.len() && 0 <= j < names.len() && i != j ==> #[trigger] names[i]
            != #[trigger] names[j]
}

pub open spec fn names_of<C>(es: Seq<Entity<C>>) -> Seq<Seq<char>> {
    es.map_values(|e: Entity<C>| e.name@)
}

/// The placement has exactly the given pixel size.
pub open spec fn sized_as(p: Rect, w: int, h: int) -> bool {
    p.width == w && p.height == h
}

/// A pixel size that fits into a `cw` by `ch` canvas, upright or turned.
pub open spec fn fits_in(w: int, h: int, cw: int, ch: int) -> bool {
    ||| (w <= cw && h <= ch)
    ||| (h <= cw && w <= ch)
}

/// The images of one pass, gathered before packing: the pass's scale and
/// canvas bound, and the images in the order they were added.
#[derive(Debug)]
pub struct Combined<C> {
    pub width: i32,
    pub height: i32,
    pub scale: u32,
    pub entities: Vec<Entity<C>>,
}

impl<C> Combined<C> {
    pub open spec fn names(&self) -> Seq<Seq<char>> {
        names_of(self.entities@)
    }

    /// Names are unique and every size is a proper fraction.
    pub open spec fn wf(&self) -> bool {
        &&& distinct(self.names())
        &&& forall|i: int|
            0 <= i < self.entities@.len() ==> (#[trigger] self.entities@[i]).width.wf()
                && self.entities@[i].height.wf()
    }

    /// Pixel width of the `i`-th image at this pass's scale.
    pub open spec fn pixel_width(&self, i: int) -> int {
        scaled_floor(self.scale as int, self.entities@[i].width)
    }

    /// Pixel height of the `i`-th image at this pass's scale.
    pub open spec fn pixel_height(&self, i: int) -> int {
        scaled_floor(self.scale as int, self.entities@[i].height)
    }

    /// Both pixel sides of the `i`-th image are within what the packer takes.
    pub open spec fn in_packer_range(&self, i: int) -> bool {
        self.pixel_width(i) <= MAX_SIDE && self.pixel_height(i) <= MAX_SIDE
    }

    /// An empty pass at `scale` whose canvas may be at most `width` by `height`.
    pub fn new(scale: u32, width: i32, height: i32) -> (r: Self)
        ensures
            r.wf(),
            r.entities@.len() == 0,
            r.scale == scale && r.width == width && r.height == height,
    {
        Combined { width, height, scale, entities: Vec::new() }
    }

    /// Whether an image of that name was already added.
    pub fn contains_name(&self, name: &String) -> (r: bool)
        ensures
            r == self.names().contains(name@),
    {
        let mut i: usize = 0;
        while i < self.entities.len()
            invariant
                i <= self.entities@.len(),
                forall|k: int| 0 <= k < i ==> self.names()[k] != name@,
            decreases self.entities@.len() - i,
        {
            if self.entities[i].name == *name {
                assert(self.names()[i as int] == name@);
                return true;
            }
            i = i + 1;
        }
        false
    }

    /// Adds an image under `name`. A name that is already taken is refused,
    /// and the pass is left as it was.
    pub fn push_node(&mut self, name: String, content: C, width: Length, height: Length) -> (r:
        Result<(), SpriteError>)
        requires
            old(self).wf(),
            width.wf(),
            height.wf(),
        ensures
            final(self).wf(),
            r is Err <==> old(self).names().contains(name@),
            r matches Err(e) ==> (e matches SpriteError::DuplicateName(n) && n@ == name@),
            r is Err ==> *final(self) == *old(self),
            r is Ok ==> final(self).entities@ == old(self).entities@.push(
                (Entity { name, width, height, content }),
            ),
            r is Ok ==> final(self).names() == old(self).names().push(name@),
            final(self).scale == old(self).scale,
            final(self).width == old(self).width,
            final(self).height == old(self).height,
    {
        if self.contains_name(&name) {
            return Err(SpriteError::DuplicateName(name));
        }
        let ghost before = self.entities@;
        let ghost entity = Entity { name, width, height, content };
        self.entities.push(Entity { name, width, height, content });
        proof {
            let ns = self.names();
            assert(ns == names_of(before).push(name@));
            assert forall|i: int, j: int|
                0 <= i < ns.len() && 0 <= j < ns.len() && i != j implies #[trigger] ns[i]
                != #[trigger] ns[j] by {
                if i < before.len() && j < before.len() {
                    assert(ns[i] == names_of(before)[i]);
                    assert(ns[j] == names_of(before)[j]);
                } else if i < before.len() {
                    assert(ns[i] == names_of(before)[i]);
                } else if j < before.len() {
                    assert(ns[j] == names_of(before)[j]);
                }
            }
            assert forall|i: int| 0 <= i < self.entities@.len() implies (
            #[trigger] self.entities@[i]).width.wf() && self.entities@[i].height.wf() by {
                if i < before.len() {
                    assert(self.entities@[i] == before[i]);
                }
            }
        }
        Ok(())
    }

    /// The items handed to the packer: each image's pixel size at this
    /// pass's scale, `floor(scale * size)`, in order of addition. `None`
    /// where some image is too large for any canvas.
    pub fn pack_items(&self) -> (r: Option<Vec<PackItem>>)
        requires
            self.wf(),
        ensures
            r is Some <==> forall|i: int|
                0 <= i < self.entities@.len() ==> #[trigger] self.in_packer_range(i),
            r matches Some(items) ==> items@.len() == self.entities@.len() && forall|i: int|
                0 <= i < items@.len() ==> #[trigger] items@[i].width == self.pixel_width(i)
                    && items@[i].height == self.pixel_height(i),
    {
        let mut items: Vec<PackItem> = Vec::new();
        let mut i: usize = 0;
        while i < self.entities.len()
            invariant
                self.wf(),
                i <= self.entities@.len(),
                items@.len() == i,
                forall|k: int|
                    0 <= k < i ==> #[trigger] items@[k].width == self.pixel_width(k)
                        && items@[k].height == self.pixel_height(k),
                forall|k: int| 0 <= k < i ==> #[trigger] self.in_packer_range(k),
            decreases self.entities@.len() - i,
        {
            let e = &self.entities[i];
            assert(e.width.wf() && e.height.wf());
            let w = match scaled_pixels(self.scale, e.width) {
                Some(w) => w,
                None => {
                    assert(!self.in_packer_range(i as int));
                    return None;
                },
            };
            let h = match scaled_pixels(self.scale, e.height) {
                Some(h) => h,
                None => {
                    assert(!self.in_packer_range(i as int));
                    return None;
                },
            };
            items.push(PackItem { width: w, height: h });
            i = i + 1;
        }
        Some(items)
    }

    /// The pixel sizes of the images as the items handed to the packer.
    pub open spec fn pixel_items(&self) -> Seq<PackItem> {
        Seq::new(
            self.entities@.len(),
            |i: int| PackItem { width: self.pixel_width(i) as u32, height: self.pixel_height(i) as u32 },
        )
    }

    /// Every image's pixel size is within what the packer takes.
    pub open spec fn all_in_packer_range(&self) -> bool {
        forall|i: int| 0 <= i < self.entities@.len() ==> #[trigger] self.in_packer_range(i)
    }

    /// The placements the guillotine packer makes for this pass's images.
    pub open spec fn packer_found(&self) -> Seq<Option<Rect>> {
        named_found(self.width as int, self.height as int, self.pixel_items())
    }

    /// How many of this pass's images the guillotine packer rejects.
    pub open spec fn packer_rejected(&self) -> nat {
        named_rejected(self.width as int, self.height as int, self.pixel_items())
    }

    /// Packs the pass: every image's pixel size goes to the packer in order
    /// of addition, and on success each image gets its placement, at exactly
    /// its pixel size, in a canvas shrunk to the bounding box of all
    /// placements.
    ///
    /// All or nothing: where any image does not fit the canvas bound, the
    /// result is `DoesNotFit` and no placement is handed out. Equal passes
    /// give equal packings.
    pub fn into_packed(self) -> (r: Result<Packed<C>, SpriteError>)
        requires
            self.wf(),
        ensures
            (r matches Err(SpriteError::DoesNotFit)) <==> (!self.all_in_packer_range()
                || self.packer_rejected() > 0),
            r is Ok <==> (self.all_in_packer_range() && self.packer_rejected() == 0 && all_found(
                self.packer_found(),
            ) && valid_layout(
                self.width as int,
                self.height as int,
                self.pixel_items(),
                unwrap_all(self.packer_found()),
            )),
            r matches Ok(p) ==> p.wf() && p.is_packing_of(self) && p.placements@ == unwrap_all(
                self.packer_found(),
            ),
            self.entities@.len() == 0 ==> r is Ok,
            1 <= self.width && 1 <= self.height && (exists|i: int|
                0 <= i < self.entities@.len() && !fits_in(
                    #[trigger] self.pixel_width(i),
                    self.pixel_height(i),
                    self.width as int,
                    self.height as int,
                )) ==> (r matches Err(SpriteError::DoesNotFit)),
            r matches Err(e) ==> (e is DoesNotFit || e is PackerFault),
    {
        let items = match self.pack_items() {
            Some(items) => items,
            None => {
                return Err(SpriteError::DoesNotFit);
            },
        };
        proof {
            assert forall|i: int| 0 <= i < items@.len() implies #[trigger] items@[i].width <= MAX_SIDE
                && items@[i].height <= MAX_SIDE by {
                assert(self.in_packer_range(i));
            }
            assert forall|i: int| 0 <= i < items@.len() implies #[trigger] items@[i]
                == self.pixel_items()[i] by {
                assert(self.in_packer_range(i));
                assert(items@[i].width == self.pixel_width(i));
                assert(self.pixel_items()[i].width == self.pixel_width(i) as u32);
                assert(self.pixel_items()[i].width == items@[i].width);
                assert(self.pixel_items()[i].height == items@[i].height);
            }
            assert(items@ =~= self.pixel_items());
            if 1 <= self.width && 1 <= self.height && exists|i: int|
                0 <= i < self.entities@.len() && !fits_in(
                    #[trigger] self.pixel_width(i),
                    self.pixel_height(i),
                    self.width as int,
                    self.height as int,
                ) {
                let i = choose|i: int|
                    0 <= i < self.entities@.len() && !fits_in(
                        #[trigger] self.pixel_width(i),
                        self.pixel_height(i),
                        self.width as int,
                        self.height as int,
                    );
                assert(!crate::packer::fits_canvas(items@[i], self.width as int, self.height as int));
            }
        }
        let layout = match pack(self.width, self.height, &items) {
            Ok(l) => l,
            Err(PackError::DoesNotFit) => {
                return Err(SpriteError::DoesNotFit);
            },
            Err(PackError::PackerFault) => {
                return Err(SpriteError::PackerFault);
            },
        };
        proof {
            assert forall|i: int| 0 <= i < layout.placements@.len() implies sized_as(
                #[trigger] layout.placements@[i],
                self.pixel_width(i),
                self.pixel_height(i),
            ) by {
                assert(placed_as(layout.placements@[i], items@[i]));
            }
            assert(names_of(self.entities@) == self.names());
        }
        let ghost taken = self;
        let Combined { width: _, height: _, scale, entities } = self;
        let p = Packed {
            width: layout.width,
            height: layout.height,
            scale,
            entities,
            placements: layout.placements,
        };
        assert(p.entities@ == taken.entities@);
        Ok(p)
    }
}

/// Two passes with the same scale, canvas bound and image sizes, in the same
/// order, are packed alike: same placements and same canvas, whatever the
/// images hold.
pub proof fn lemma_packing_deterministic<C>(c1: Combined<C>, c2: Combined<C>, p1: Packed<C>, p2: Packed<C>)
    requires
        c1.wf(),
        c2.wf(),
        c1.scale == c2.scale,
        c1.width == c2.width,
        c1.height == c2.height,
        c1.entities@.len() == c2.entities@.len(),
        forall|i: int|
            0 <= i < c1.entities@.len() ==> (#[trigger] c1.entities@[i]).width == c2.entities@[i].width
                && c1.entities@[i].height == c2.entities@[i].height,
        p1.wf() && p1.placements@ == unwrap_all(c1.packer_found()),
        p2.wf() && p2.placements@ == unwrap_all(c2.packer_found()),
    ensures
        p1.placements@ == p2.placements@,
        p1.width == p2.width,
        p1.height == p2.height,
{
    assert forall|i: int| 0 <= i < c1.entities@.len() implies #[trigger] c1.pixel_items()[i]
        == c2.pixel_items()[i] by {
        assert(c1.entities@[i].width == c2.entities@[i].width);
    }
    assert(c1.pixel_items() =~= c2.pixel_items());
}

/// Once an image was added under a name, the name is taken: adding a second
/// image under it is refused, whatever that image is, before any packing.
pub proof fn lemma_name_taken_after_push<C>(before: Combined<C>, after: Combined<C>, name: Seq<char>)
    requires
        before.wf(),
        after.names() == before.names().push(name),
    ensures
        after.names().contains(name),
{
    assert(after.names()[before.names().len() as int] == name);
}

/// One image's record in the manifest: where it landed and its size, in
/// pixels, with a pixel ratio that is always 1.
#[derive(Clone, Copy, Debug, PartialEq, Eq, Structural)]
pub struct ManifestEntry {
    pub x: i64,
    pub y: i64,
    pub width: i64,
    pub height: i64,
    pub pixel_ratio: i64,
}

/// The manifest entry of an image placed at `p`.
pub open spec fn entry_for(p: Rect) -> ManifestEntry {
    ManifestEntry { x: p.x, y: p.y, width: p.width, height: p.height, pixel_ratio: 1 }
}

/// A manifest entry under the image's name.
#[derive(Debug)]
pub struct ManifestRecord {
    pub name: String,
    pub entry: ManifestEntry,
}

/// The packed images of one pass: the shrunk canvas size, the scale, and
/// each image with its placement (`placements[i]` belongs to `entities[i]`).
#[derive(Debug)]
pub struct Packed<C> {
    pub width: i64,
    pub height: i64,
    pub scale: u32,
    pub entities: Vec<Entity<C>>,
    pub placements: Vec<Rect>,
}

impl<C> Packed<C> {
    pub open spec fn names(&self) -> Seq<Seq<char>> {
        names_of(self.entities@)
    }

    /// One placement per image, names unique, placements inside the canvas
    /// and free of overlap, and the canvas the bounding box of the
    /// placements.
    pub open spec fn wf(&self) -> bool {
        &&& self.placements@.len() == self.entities@.len()
        &&& distinct(self.names())
        &&& forall|i: int|
            0 <= i < self.placements@.len() ==> within(
                #[trigger] self.placements@[i],
                self.width as int,
                self.height as int,
            )
        &&& pairwise_disjoint(self.placements@)
        &&& self.width == right_extent(self.placements@)
        &&& self.height == bottom_extent(self.placements@)
    }

    /// The packing holds the images of `c`, in their order, each placed at
    /// its pixel size inside the canvas bound of `c`.
    pub open spec fn is_packing_of(&self, c: Combined<C>) -> bool {
        &&& self.entities@ == c.entities@
        &&& self.scale == c.scale
        &&& self.placements@.len() == c.entities@.len()
        &&& forall|i: int|
            0 <= i < self.placements@.len() ==> sized_as(
                #[trigger] self.placements@[i],
                c.pixel_width(i),
                c.pixel_height(i),
            )
        &&& forall|i: int|
            0 <= i < self.placements@.len() ==> within(
                #[trigger] self.placements@[i],
                c.width as int,
                c.height as int,
            )
    }

    /// `m` is the manifest of this packing: one record per image, in order,
    /// under the image's name, with its placement and a pixel ratio of 1.
    pub open spec fn manifest_is(&self, m: Seq<ManifestRecord>) -> bool {
        &&& m.len() == self.entities@.len()
        &&& forall|i: int|
            0 <= i < m.len() ==> (#[trigger] m[i]).name@ == self.entities@[i].name@ && m[i].entry
                == entry_for(self.placements@[i])
    }

    /// The manifest of this packing.
    pub fn manifest(&self) -> (r: Vec<ManifestRecord>)
        requires
            self.wf(),
        ensures
            self.manifest_is(r@),
    {
        let mut r: Vec<ManifestRecord> = Vec::new();
        let mut i: usize = 0;
        while i < self.entities.len()
            invariant
                self.wf(),
                i <= self.entities@.len(),
                r@.len() == i,
                forall|k: int|
                    0 <= k < i ==> (#[trigger] r@[k]).name@ == self.entities@[k].name@ && r@[k].entry
                        == entry_for(self.placements@[k]),
            decreases self.entities@.len() - i,
        {
            let p = self.placements[i];
            let entry = ManifestEntry { x: p.x, y: p.y, width: p.width, height: p.height, pixel_ratio: 1 };
            r.push(ManifestRecord { name: self.entities[i].name.clone(), entry });
            i = i + 1;
        }
        r
    }

    /// The transform chain of the `i`-th image, innermost stage first.
    pub fn chain(&self, i: usize) -> (r: Vec<Stage>)
        requires
            i < self.placements@.len(),
        ensures
            r@ == chain_of(self.scale, self.placements@[i as int]),
    {
        compose_chain(self.scale, &self.placements[i])
    }
}

/// Every name of the pass appears exactly once in the manifest of its
/// packing, the manifest holds no other name, and every pixel ratio in it
/// is 1.
pub proof fn lemma_manifest_names_once<C>(c: Combined<C>, p: Packed<C>, m: Seq<ManifestRecord>)
    requires
        c.wf(),
        p.is_packing_of(c),
        p.manifest_is(m),
    ensures
        forall|n: Seq<char>|
            c.names().contains(n) ==> exists|i: int|
                0 <= i < m.len() && (#[trigger] m[i]).name@ == n && forall|j: int|
                    0 <= j < m.len() && (#[trigger] m[j]).name@ == n ==> j == i,
        forall|i: int| 0 <= i < m.len() ==> c.names().contains(#[trigger] m[i].name@),
        forall|i: int| 0 <= i < m.len() ==> (#[trigger] m[i]).entry.pixel_ratio == 1,
{
    let ns = c.names();
    assert forall|n: Seq<char>| ns.contains(n) implies exists|i: int|
        0 <= i < m.len() && (#[trigger] m[i]).name@ == n && forall|j: int|
            0 <= j < m.len() && (#[trigger] m[j]).name@ == n ==> j == i by {
        let i = choose|i: int| 0 <= i < ns.len() && ns[i] == n;
        assert(m[i].name@ == ns[i]);
        assert forall|j: int| 0 <= j < m.len() && (#[trigger] m[j]).name@ == n implies j == i by {
            assert(m[j].name@ == ns[j]);
        }
    }
    assert forall|i: int| 0 <= i < m.len() implies ns.contains(#[trigger] m[i].name@) by {
        assert(m[i].name@ == ns[i]);
    }
}

} // verus!
