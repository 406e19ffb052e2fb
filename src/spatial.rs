use vstd::prelude::*;
use vstd::multiset::Multiset;
use rstar::primitives::Rectangle as TreeBox;
use rstar::{RTree, AABB};
use crate::placement::bounds_views;
use crate::rect::{bounds_view, RectView, Rectangle};

verus! {

/// An `rstar::RTree` of `rstar::primitives::Rectangle` boxes with integer
/// corners, kept opaque: what it holds is `tree_boxes`.
#[verifier::external_body]
pub struct ObstacleTree {
    tree: RTree<TreeBox<[i64; 2]>>,
}

/// The boxes held by a tree, each as `(lower_x, lower_y, upper_x, upper_y)`.
pub uninterp spec fn tree_boxes(t: ObstacleTree) -> Multiset<(i64, i64, i64, i64)>;

pub open spec fn ordered_box(b: (i64, i64, i64, i64)) -> bool {
    b.0 <= b.2 && b.1 <= b.3
}

/// Relies on `rstar::RTree::bulk_load` (with `rstar::primitives::Rectangle::from_corners`):
/// the tree holds exactly the given boxes, each stored with its corners as given
/// when they are already in order.
#[verifier::external_body]
fn bulk_load_boxes(boxes: Vec<(i64, i64, i64, i64)>) -> (t: ObstacleTree)
    requires
        forall|k: int| 0 <= k < boxes@.len() ==> ordered_box(#[trigger] boxes@[k]),
    ensures
        tree_boxes(t) == boxes@.to_multiset(),
{
    let boxes = boxes.into_iter().map(|b| TreeBox::from_corners([b.0, b.1], [b.2, b.3])).collect();
    ObstacleTree { tree: RTree::bulk_load(boxes) }
}

/// Some box held by the tree has a closed envelope that meets `q`.
pub open spec fn tree_touches(t: ObstacleTree, q: RectView) -> bool {
    exists|b: (i64, i64, i64, i64)| #[trigger] tree_boxes(t).contains(b) && bounds_view(b).envelopes_touch(q)
}

/// Relies on `rstar::RTree::locate_in_envelope_intersecting`: it yields every
/// stored box whose closed envelope meets the closed query box, so the first
/// `next` is `Some` exactly when such a box exists.
#[verifier::external_body]
fn any_box_touching(t: &ObstacleTree, q: (i64, i64, i64, i64)) -> (r: bool)
    requires
        ordered_box(q),
    ensures
        r == tree_touches(*t, bounds_view(q)),
{
    t.tree.locate_in_envelope_intersecting(&AABB::from_corners([q.0, q.1], [q.2, q.3])).next().is_some()
}

/// A read-only index over a fixed set of obstacles, built in one bulk load.
pub struct SpatialIndex {
    tree: ObstacleTree,
}

/// The envelopes of the obstacles, as ordered boxes.
pub open spec fn envelope_boxes(obstacles: Seq<RectView>) -> Seq<(i64, i64, i64, i64)> {
    obstacles.map_values(|o: RectView| (
        o.envelope().min_x as i64,
        o.envelope().min_y as i64,
        o.envelope().max_x as i64,
        o.envelope().max_y as i64,
    ))
}

impl SpatialIndex {
    /// The envelopes of the indexed obstacles.
    pub closed spec fn boxes(&self) -> Multiset<(i64, i64, i64, i64)> {
        tree_boxes(self.tree)
    }

    /// Some indexed obstacle's envelope meets the closed box `test`.
    pub open spec fn touches(&self, test: RectView) -> bool {
        exists|b: (i64, i64, i64, i64)| #[trigger] self.boxes().contains(b) && bounds_view(b).envelopes_touch(test)
    }

    /// Bulk-loads the obstacles `(min_x, min_y, max_x, max_y)`.
    pub fn new(bounds_list: Vec<(i64, i64, i64, i64)>) -> (r: SpatialIndex)
        ensures
            r.boxes() == envelope_boxes(bounds_views(bounds_list@)).to_multiset(),
    {
        let ghost views = bounds_views(bounds_list@);
        let mut boxes: Vec<(i64, i64, i64, i64)> = Vec::new();
        let mut k: usize = 0;
        while k < bounds_list.len()
            invariant
                k <= bounds_list@.len(),
                views == bounds_views(bounds_list@),
                boxes@.len() == k,
                forall|i: int| 0 <= i < k ==> #[trigger] boxes@[i] == envelope_boxes(views)[i],
                forall|i: int| 0 <= i < k ==> ordered_box(#[trigger] boxes@[i]),
            decreases bounds_list@.len() - k,
        {
            let e = Rectangle::from_bounds(bounds_list[k]).envelope();
            boxes.push((e.min_x, e.min_y, e.max_x, e.max_y));
            k += 1;
        }
        assert(boxes@ =~= envelope_boxes(views));
        SpatialIndex { tree: bulk_load_boxes(boxes) }
    }

    /// True iff some indexed obstacle's envelope meets `test_bounds`, edges
    /// and corners included.
    pub fn query_collisions(&self, test_bounds: (i64, i64, i64, i64)) -> (r: bool)
        ensures
            r == self.touches(bounds_view(test_bounds)),
    {
        let e = Rectangle::from_bounds(test_bounds).envelope();
        let q = (e.min_x, e.min_y, e.max_x, e.max_y);
        let r = any_box_touching(&self.tree, q);
        assert(bounds_view(q).envelope() == bounds_view(test_bounds).envelope());
        proof {
            if r {
                let b = choose|b: (i64, i64, i64, i64)|
                    #[trigger] tree_boxes(self.tree).contains(b) && bounds_view(b).envelopes_touch(bounds_view(q));
                assert(self.boxes().contains(b) && bounds_view(b).envelopes_touch(bounds_view(test_bounds)));
            } else {
                assert forall|b: (i64, i64, i64, i64)| #[trigger] self.boxes().contains(b)
                    implies !bounds_view(b).envelopes_touch(bounds_view(test_bounds)) by {
                    assert(!(tree_boxes(self.tree).contains(b) && bounds_view(b).envelopes_touch(bounds_view(q))));
                }
            }
        }
        r
    }
}

/// A query's answer is determined by the index's boxes and the query box
/// alone, and a query leaves the index unchanged: asking the same index the
/// same question twice gives the same answer.
pub proof fn lemma_query_repeatable(index: SpatialIndex, test: RectView, first: bool, second: bool)
    requires
        first == index.touches(test),
        second == index.touches(test),
    ensures
        first == second,
{
}

} // verus!
