//! The frame around a selected element: padded, rounded outward, held to the document.

use crate::double;
use crate::double::Double;
use crate::double_laws;
use vstd::prelude::*;

verus! {

/// Where an element stands in its document, in CSS pixels.
#[derive(Clone, Copy, Debug)]
pub struct ElementBounds {
    pub x: Double,
    pub y: Double,
    pub width: Double,
    pub height: Double,
    pub doc_width: Double,
    pub doc_height: Double,
}

/// The part of a document that a capture shows, in CSS pixels.
#[derive(Clone, Copy, Debug, PartialEq, Eq, Structural)]
pub struct ClipRect {
    pub x: Double,
    pub y: Double,
    pub width: Double,
    pub height: Double,
}

/// Why an element cannot be framed.
#[derive(Clone, Copy, Debug, PartialEq, Eq, Structural)]
pub enum ClipError {
    InvalidBounds,
    OutsideDocument,
}

/// The edge before an element: `padding` before its start, rounded down, inside the document.
pub open spec fn near_edge(start: Double, padding: Double, limit: Double) -> Double {
    start.minus(padding).floored().clamped(double::whole(0), limit)
}

/// The edge behind an element: `padding` behind its end, rounded up, inside the document.
pub open spec fn far_edge(start: Double, extent: Double, padding: Double, limit: Double) -> Double {
    start.plus(extent).plus(padding).ceiled().clamped(double::whole(0), limit)
}

impl ElementBounds {
    pub open spec fn left(self, padding: u32) -> Double {
        near_edge(self.x, double::whole(padding as nat), self.doc_width)
    }

    pub open spec fn top(self, padding: u32) -> Double {
        near_edge(self.y, double::whole(padding as nat), self.doc_height)
    }

    pub open spec fn right(self, padding: u32) -> Double {
        far_edge(self.x, self.width, double::whole(padding as nat), self.doc_width)
    }

    pub open spec fn bottom(self, padding: u32) -> Double {
        far_edge(self.y, self.height, double::whole(padding as nat), self.doc_height)
    }

    /// Whether the document has a size: neither extent is negative or not a number.
    pub open spec fn has_document(self) -> bool {
        double::whole(0).at_most(self.doc_width) && double::whole(0).at_most(self.doc_height)
    }

    /// Whether the document has a size.
    pub fn document_has_size(&self) -> (r: bool)
        ensures
            r == self.has_document(),
    {
        let zero = Double::from_u64(0);
        zero.less_or_equal(self.doc_width) && zero.less_or_equal(self.doc_height)
    }
}

/// The frame around an element, or why it has none.
pub open spec fn framed(bounds: ElementBounds, padding: u32) -> Result<ClipRect, ClipError> {
    let left = bounds.left(padding);
    let top = bounds.top(padding);
    let right = bounds.right(padding);
    let bottom = bounds.bottom(padding);
    if !(left.finite() && top.finite() && right.finite() && bottom.finite()) {
        Err(ClipError::InvalidBounds)
    } else if right.at_most(left) || bottom.at_most(top) {
        Err(ClipError::OutsideDocument)
    } else {
        Ok(ClipRect { x: left, y: top, width: right.minus(left), height: bottom.minus(top) })
    }
}

/// The frame around an element, with `padding` on every side.
pub fn round_clip(bounds: &ElementBounds, padding: u32) -> (r: Result<ClipRect, ClipError>)
    requires
        bounds.has_document(),
    ensures
        r == framed(*bounds, padding),
{
    let zero = Double::from_u64(0);
    let padding = Double::from_u64(padding as u64);
    let left = bounds.x.subtract(padding).floor().clamp(zero, bounds.doc_width);
    let top = bounds.y.subtract(padding).floor().clamp(zero, bounds.doc_height);
    let right = bounds.x.add(bounds.width).add(padding).ceil().clamp(zero, bounds.doc_width);
    let bottom = bounds.y.add(bounds.height).add(padding).ceil().clamp(zero, bounds.doc_height);
    if !(left.is_finite() && top.is_finite() && right.is_finite() && bottom.is_finite()) {
        return Err(ClipError::InvalidBounds);
    }
    if right.less_or_equal(left) || bottom.less_or_equal(top) {
        return Err(ClipError::OutsideDocument);
    }
    Ok(
        ClipRect {
            x: left,
            y: top,
            width: right.subtract(left),
            height: bottom.subtract(top),
        },
    )
}

impl ClipError {
    /// What an element without a frame tells the user.
    pub open spec fn text(self) -> Seq<char> {
        match self {
            ClipError::InvalidBounds => "selected element returned invalid bounds"@,
            ClipError::OutsideDocument => "selected element is outside the document bounds"@,
        }
    }

    pub fn message(self) -> (r: &'static str)
        ensures
            r@ == self.text(),
    {
        match self {
            ClipError::InvalidBounds => "selected element returned invalid bounds",
            ClipError::OutsideDocument => "selected element is outside the document bounds",
        }
    }
}

/// A frame lies inside its document and is not empty.
pub proof fn law_frame_lies_in_the_document(bounds: ElementBounds, padding: u32)
    requires
        bounds.has_document(),
        framed(bounds, padding) is Ok,
    ensures
        double::whole(0).at_most(bounds.left(padding)),
        bounds.left(padding).below(bounds.right(padding)),
        bounds.right(padding).at_most(bounds.doc_width),
        double::whole(0).at_most(bounds.top(padding)),
        bounds.top(padding).below(bounds.bottom(padding)),
        bounds.bottom(padding).at_most(bounds.doc_height),
{
}

/// A frame is rounded outward: no part of the padded element that lies in the document is cut off.
pub proof fn law_frame_covers_the_padded_element(
    start: Double,
    extent: Double,
    padding: Double,
    limit: Double,
)
    requires
        double::whole(0).at_most(limit),
        !start.minus(padding).nan(),
        !start.plus(extent).plus(padding).nan(),
    ensures
        near_edge(start, padding, limit).at_most(
            start.minus(padding).clamped(double::whole(0), limit),
        ),
        start.plus(extent).plus(padding).clamped(double::whole(0), limit).at_most(
            far_edge(start, extent, padding, limit),
        ),
{
    let before = start.minus(padding);
    let behind = start.plus(extent).plus(padding);
    double_laws::law_floor_is_not_above(before);
    double_laws::law_ceiling_is_not_below(behind);
    double_laws::law_clamp_keeps_order(before.floored(), before, double::whole(0), limit);
    double_laws::law_clamp_keeps_order(behind, behind.ceiled(), double::whole(0), limit);
}

/// More padding never moves an edge inward.
pub proof fn law_padding_only_widens(
    start: Double,
    extent: Double,
    less: u32,
    more: u32,
    limit: Double,
)
    requires
        !start.nan(),
        !start.plus(extent).nan(),
        double::whole(0).at_most(limit),
        less <= more,
    ensures
        near_edge(start, double::whole(more as nat), limit).at_most(
            near_edge(start, double::whole(less as nat), limit),
        ),
        far_edge(start, extent, double::whole(less as nat), limit).at_most(
            far_edge(start, extent, double::whole(more as nat), limit),
        ),
{
    let p = double::whole(less as nat);
    let q = double::whole(more as nat);
    let zero = double::whole(0);
    double_laws::law_whole_keeps_order(less as nat, more as nat);
    double_laws::law_difference_turns_order(start, p, q);
    double_laws::law_floor_keeps_order(start.minus(q), start.minus(p));
    double_laws::law_clamp_keeps_order(
        start.minus(q).floored(),
        start.minus(p).floored(),
        zero,
        limit,
    );
    let end = start.plus(extent);
    double_laws::law_sum_keeps_order(end, p, q);
    double_laws::law_ceiling_keeps_order(end.plus(p), end.plus(q));
    double_laws::law_clamp_keeps_order(end.plus(p).ceiled(), end.plus(q).ceiled(), zero, limit);
}

/// A whole edge that does not cut off what lies behind it lies before the near edge of the frame.
proof fn lemma_near_edge_is_tight(start: Double, padding: Double, limit: Double, edge: Double)
    requires
        double::whole(0).at_most(limit),
        double_laws::is_whole(limit),
        double_laws::is_whole(edge),
        edge.at_most(start.minus(padding).clamped(double::whole(0), limit)),
        !start.minus(padding).nan(),
    ensures
        edge.at_most(near_edge(start, padding, limit)),
{
    let before = start.minus(padding);
    double_laws::lemma_floor_of_whole(edge);
    double_laws::lemma_floor_of_whole(limit);
    double_laws::law_floor_is_not_above(before);
    if double::whole(0).at_most(before) {
        double_laws::lemma_whole_is_whole(0);
        double_laws::lemma_floor_of_whole(double::whole(0));
        double_laws::law_floor_keeps_order(double::whole(0), before);
        if before.at_most(limit) {
            double_laws::law_floor_keeps_order(edge, before);
        } else {
            double_laws::law_floor_keeps_order(limit, before);
        }
    }
}

/// A whole edge that does not cut off what lies before it lies behind the far edge of the frame.
proof fn lemma_far_edge_is_tight(
    start: Double,
    extent: Double,
    padding: Double,
    limit: Double,
    edge: Double,
)
    requires
        double::whole(0).at_most(limit),
        double_laws::is_whole(limit),
        double_laws::is_whole(edge),
        start.plus(extent).plus(padding).clamped(double::whole(0), limit).at_most(edge),
        !start.plus(extent).plus(padding).nan(),
    ensures
        far_edge(start, extent, padding, limit).at_most(edge),
{
    let behind = start.plus(extent).plus(padding);
    double_laws::lemma_whole_is_whole(0);
    double_laws::lemma_ceiling_of_whole(edge);
    double_laws::lemma_ceiling_of_whole(limit);
    double_laws::lemma_ceiling_of_whole(double::whole(0));
    double_laws::law_ceiling_is_not_below(behind);
    if behind.at_most(limit) {
        double_laws::law_ceiling_keeps_order(behind, limit);
        if double::whole(0).at_most(behind) {
            double_laws::law_ceiling_keeps_order(behind, edge);
        } else {
            double_laws::law_ceiling_keeps_order(behind, double::whole(0));
        }
    }
}

/// Whether a box covers the part of a padded element that lies in its document.
pub open spec fn covers_element(
    bounds: ElementBounds,
    padding: u32,
    left: Double,
    top: Double,
    right: Double,
    bottom: Double,
) -> bool {
    let zero = double::whole(0);
    let p = double::whole(padding as nat);
    &&& left.at_most(bounds.x.minus(p).clamped(zero, bounds.doc_width))
    &&& top.at_most(bounds.y.minus(p).clamped(zero, bounds.doc_height))
    &&& bounds.x.plus(bounds.width).plus(p).clamped(zero, bounds.doc_width).at_most(right)
    &&& bounds.y.plus(bounds.height).plus(p).clamped(zero, bounds.doc_height).at_most(bottom)
}

/// A frame is tight: in a document of whole extents, every box with whole edges that covers the
/// padded element's part of the document contains the frame.
pub proof fn law_frame_is_tight(
    bounds: ElementBounds,
    padding: u32,
    left: Double,
    top: Double,
    right: Double,
    bottom: Double,
)
    requires
        bounds.has_document(),
        double_laws::is_whole(bounds.doc_width),
        double_laws::is_whole(bounds.doc_height),
        double_laws::is_whole(left),
        double_laws::is_whole(top),
        double_laws::is_whole(right),
        double_laws::is_whole(bottom),
        covers_element(bounds, padding, left, top, right, bottom),
    ensures
        left.at_most(bounds.left(padding)),
        top.at_most(bounds.top(padding)),
        bounds.right(padding).at_most(right),
        bounds.bottom(padding).at_most(bottom),
{
    let p = double::whole(padding as nat);
    lemma_near_edge_is_tight(bounds.x, p, bounds.doc_width, left);
    lemma_near_edge_is_tight(bounds.y, p, bounds.doc_height, top);
    lemma_far_edge_is_tight(bounds.x, bounds.width, p, bounds.doc_width, right);
    lemma_far_edge_is_tight(bounds.y, bounds.height, p, bounds.doc_height, bottom);
}

/// In a document of whole extents, both edges of a frame lie on whole pixels.
pub proof fn law_frame_edges_are_whole(start: Double, extent: Double, padding: u32, limit: Double)
    requires
        double::whole(0).at_most(limit),
        double_laws::is_whole(limit),
        near_edge(start, double::whole(padding as nat), limit).finite(),
        far_edge(start, extent, double::whole(padding as nat), limit).finite(),
    ensures
        double_laws::is_whole(near_edge(start, double::whole(padding as nat), limit)),
        double_laws::is_whole(far_edge(start, extent, double::whole(padding as nat), limit)),
{
    let p = double::whole(padding as nat);
    let before = start.minus(p);
    let behind = start.plus(extent).plus(p);
    double_laws::law_whole_keeps_order(0, 0);
    double_laws::lemma_whole_is_whole(0);
    if before.finite() {
        double_laws::law_floor_is_whole(before);
    }
    if behind.finite() {
        double_laws::law_ceiling_is_whole(behind);
    }
}

/// In a document of whole extents below 2^32, the size that a capture reports is the exact size of
/// its frame.
pub proof fn law_reported_size_is_exact(bounds: ElementBounds, padding: u32)
    requires
        bounds.has_document(),
        double_laws::is_whole(bounds.doc_width),
        double_laws::is_whole(bounds.doc_height),
        bounds.doc_width.at_most(double::whole(0xFFFF_FFFF)),
        bounds.doc_height.at_most(double::whole(0xFFFF_FFFF)),
        framed(bounds, padding) is Ok,
    ensures
        ({
            let clip = framed(bounds, padding)->Ok_0;
            &&& clip.width.truncated() * double::one() == bounds.right(padding).value()
                - bounds.left(padding).value()
            &&& clip.height.truncated() * double::one() == bounds.bottom(padding).value()
                - bounds.top(padding).value()
        }),
{
    law_frame_edges_are_whole(bounds.x, bounds.width, padding, bounds.doc_width);
    law_frame_edges_are_whole(bounds.y, bounds.height, padding, bounds.doc_height);
    double_laws::law_small_differences_are_exact(bounds.right(padding), bounds.left(padding));
    double_laws::law_small_differences_are_exact(bounds.bottom(padding), bounds.top(padding));
}

/// An element shows in its document where its padded box has an extent there, and is then framed.
pub proof fn law_visible_elements_are_framed(bounds: ElementBounds, padding: u32)
    requires
        bounds.has_document(),
        bounds.doc_width.finite(),
        bounds.doc_height.finite(),
        ({
            let zero = double::whole(0);
            let p = double::whole(padding as nat);
            &&& !bounds.x.minus(p).nan() && !bounds.x.plus(bounds.width).plus(p).nan()
            &&& !bounds.y.minus(p).nan() && !bounds.y.plus(bounds.height).plus(p).nan()
            &&& bounds.x.minus(p).clamped(zero, bounds.doc_width).below(
                bounds.x.plus(bounds.width).plus(p).clamped(zero, bounds.doc_width),
            )
            &&& bounds.y.minus(p).clamped(zero, bounds.doc_height).below(
                bounds.y.plus(bounds.height).plus(p).clamped(zero, bounds.doc_height),
            )
        }),
    ensures
        framed(bounds, padding) is Ok,
{
    let p = double::whole(padding as nat);
    law_frame_covers_the_padded_element(bounds.x, bounds.width, p, bounds.doc_width);
    law_frame_covers_the_padded_element(bounds.y, bounds.height, p, bounds.doc_height);
    double_laws::law_whole_keeps_order(0, 0);
    let zero = double::whole(0);
    double_laws::law_floor_is_not_above(bounds.x.minus(p));
    double_laws::law_floor_is_not_above(bounds.y.minus(p));
    double_laws::law_ceiling_is_not_below(bounds.x.plus(bounds.width).plus(p));
    double_laws::law_ceiling_is_not_below(bounds.y.plus(bounds.height).plus(p));
}

/// An element of which nothing lies in a document of whole extents is refused as being outside it.
pub proof fn law_elements_outside_are_refused(bounds: ElementBounds, padding: u32)
    requires
        bounds.has_document(),
        double_laws::is_whole(bounds.doc_width),
        double_laws::is_whole(bounds.doc_height),
        ({
            let zero = double::whole(0);
            let p = double::whole(padding as nat);
            &&& !bounds.x.minus(p).nan() && !bounds.x.plus(bounds.width).plus(p).nan()
            &&& !bounds.y.minus(p).nan() && !bounds.y.plus(bounds.height).plus(p).nan()
            &&& {
                ||| bounds.doc_width.at_most(bounds.x.minus(p))
                ||| bounds.doc_height.at_most(bounds.y.minus(p))
                ||| bounds.x.plus(bounds.width).plus(p).at_most(zero)
                ||| bounds.y.plus(bounds.height).plus(p).at_most(zero)
            }
        }),
    ensures
        framed(bounds, padding) == Err::<ClipRect, ClipError>(ClipError::OutsideDocument),
{
    let zero = double::whole(0);
    let p = double::whole(padding as nat);
    double_laws::law_whole_keeps_order(0, 0);
    double_laws::lemma_whole_is_whole(0);
    double_laws::lemma_floor_of_whole(bounds.doc_width);
    double_laws::lemma_floor_of_whole(bounds.doc_height);
    double_laws::lemma_ceiling_of_whole(zero);
    double_laws::law_floor_is_not_above(bounds.x.minus(p));
    double_laws::law_floor_is_not_above(bounds.y.minus(p));
    double_laws::law_ceiling_is_not_below(bounds.x.plus(bounds.width).plus(p));
    double_laws::law_ceiling_is_not_below(bounds.y.plus(bounds.height).plus(p));
    if bounds.doc_width.at_most(bounds.x.minus(p)) {
        double_laws::law_floor_keeps_order(bounds.doc_width, bounds.x.minus(p));
    }
    if bounds.doc_height.at_most(bounds.y.minus(p)) {
        double_laws::law_floor_keeps_order(bounds.doc_height, bounds.y.minus(p));
    }
    if bounds.x.plus(bounds.width).plus(p).at_most(zero) {
        double_laws::law_ceiling_keeps_order(bounds.x.plus(bounds.width).plus(p), zero);
    }
    if bounds.y.plus(bounds.height).plus(p).at_most(zero) {
        double_laws::law_ceiling_keeps_order(bounds.y.plus(bounds.height).plus(p), zero);
    }
}

/// An element whose place or extent is no number is refused as having invalid bounds.
pub proof fn law_unmeasured_elements_are_refused(bounds: ElementBounds, padding: u32)
    requires
        bounds.has_document(),
        bounds.x.nan() || bounds.y.nan() || bounds.width.nan() || bounds.height.nan(),
    ensures
        framed(bounds, padding) == Err::<ClipRect, ClipError>(ClipError::InvalidBounds),
{
}

/// A clip begins at the near edges of its element and reaches as far as the far edges.
pub proof fn law_a_clip_runs_from_edge_to_edge(bounds: ElementBounds, padding: u32)
    requires
        framed(bounds, padding) is Ok,
    ensures
        ({
            let clip = framed(bounds, padding)->Ok_0;
            &&& clip.x == bounds.left(padding) && clip.y == bounds.top(padding)
            &&& clip.width == bounds.right(padding).minus(clip.x)
            &&& clip.height == bounds.bottom(padding).minus(clip.y)
        }),
{
}

/// A document has a size where both its extents are numbers that are not negative; the negative
/// zero counts as zero.
pub proof fn law_a_document_has_a_size(bounds: ElementBounds)
    ensures
        bounds.has_document() <==> {
            &&& !bounds.doc_width.nan() && !bounds.doc_height.nan()
            &&& !bounds.doc_width.negative() || bounds.doc_width.magnitude() == 0
            &&& !bounds.doc_height.negative() || bounds.doc_height.magnitude() == 0
        },
{
    double_laws::law_whole_keeps_order(0, 0);
    double_laws::lemma_whole_is_whole(0);
    if double::whole(0).magnitude() > 0 {
        double_laws::lemma_units_increase(0, double::whole(0).magnitude());
    }
}

/// An edge that rounding leaves in the document stays there; one that it leaves outside is set to
/// the end of the document that is nearer to it.
pub proof fn law_edges_are_held_to_the_document(
    start: Double,
    extent: Double,
    padding: Double,
    limit: Double,
)
    requires
        double::whole(0).at_most(limit),
    ensures
        ({
            let zero = double::whole(0);
            let near = start.minus(padding).floored();
            let far = start.plus(extent).plus(padding).ceiled();
            &&& zero.at_most(near) && near.at_most(limit) ==> near_edge(start, padding, limit) == near
            &&& near.below(zero) ==> near_edge(start, padding, limit) == zero
            &&& limit.below(near) ==> near_edge(start, padding, limit) == limit
            &&& zero.at_most(far) && far.at_most(limit) ==> far_edge(start, extent, padding, limit)
                == far
            &&& far.below(zero) ==> far_edge(start, extent, padding, limit) == zero
            &&& limit.below(far) ==> far_edge(start, extent, padding, limit) == limit
        }),
{
}

} // verus!
