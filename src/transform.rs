use vstd::prelude::*;
use crate::geometry::Rect;

verus! {

/// One stage of the transform chain that carries an image from its own
/// coordinate space into atlas pixel space.
#[derive(Clone, Copy, Debug, PartialEq, Eq, Structural)]
pub enum Stage {
    /// Maps the image's view box onto its declared size, honouring its
    /// aspect-ratio policy.
    FitViewBox,
    /// Uniform scale by the pass's scale factor.
    Scale(u32),
    /// Moves the scaled image to its slot in the atlas.
    Translate(i64, i64),
}

/// The chain for an image placed at `p` in a pass at `scale`, innermost
/// stage first: view box, then scale, then translation.
pub open spec fn chain_of(scale: u32, p: Rect) -> Seq<Stage> {
    seq![Stage::FitViewBox, Stage::Scale(scale), Stage::Translate(p.x, p.y)]
}

/// Builds the transform chain of an image placed at `p`, innermost first.
pub fn compose_chain(scale: u32, p: &Rect) -> (r: Vec<Stage>)
    ensures
        r@ == chain_of(scale, *p),
{
    let mut r: Vec<Stage> = Vec::new();
    r.push(Stage::FitViewBox);
    r.push(Stage::Scale(scale));
    r.push(Stage::Translate(p.x, p.y));
    assert(r@ == chain_of(scale, *p));
    r
}

} // verus!
