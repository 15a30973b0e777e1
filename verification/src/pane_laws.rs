//! Where panes lie: a split halves the place of its pane, and a neighbor is what lies there.

use crate::pane::{is_neighbor, place_of, Axis, Direction, Node, PaneId, Real, Rect};
use vstd::prelude::*;

verus! {

/// The places of the panes of a layout that fills `r`: the halves of a horizontal split lie
/// side by side, the first one left, those of a vertical split are stacked, the first one on
/// top. `cut` says where a ratio cuts the way from one edge to the other.
pub open spec fn laid(n: Node, r: Rect, cut: spec_fn(Real, i32, i32) -> i32) -> Seq<(PaneId, Rect)>
    decreases n,
{
    match n {
        Node::Leaf(id) => seq![(id, r)],
        Node::Split { axis: Axis::Horizontal, ratio, a, b } => {
            let at = cut(ratio, r.left, r.right);
            laid(*a, Rect { right: at, ..r }, cut) + laid(*b, Rect { left: at, ..r }, cut)
        },
        Node::Split { axis: Axis::Vertical, ratio, a, b } => {
            let at = cut(ratio, r.top, r.bottom);
            laid(*a, Rect { bottom: at, ..r }, cut) + laid(*b, Rect { top: at, ..r }, cut)
        },
    }
}

/// `new` lies directly on the `side` of `old`, as long as it is, and both fill `whole`.
pub open spec fn beside(whole: Rect, old_part: Rect, new_part: Rect, side: Direction) -> bool {
    match side {
        Direction::Left => {
            &&& new_part.right == old_part.left
            &&& new_part.left == whole.left && old_part.right == whole.right
            &&& new_part.top == whole.top && new_part.bottom == whole.bottom
            &&& old_part.top == whole.top && old_part.bottom == whole.bottom
        },
        Direction::Right => {
            &&& old_part.right == new_part.left
            &&& old_part.left == whole.left && new_part.right == whole.right
            &&& new_part.top == whole.top && new_part.bottom == whole.bottom
            &&& old_part.top == whole.top && old_part.bottom == whole.bottom
        },
        Direction::Up => {
            &&& new_part.bottom == old_part.top
            &&& new_part.top == whole.top && old_part.bottom == whole.bottom
            &&& new_part.left == whole.left && new_part.right == whole.right
            &&& old_part.left == whole.left && old_part.right == whole.right
        },
        Direction::Down => {
            &&& old_part.bottom == new_part.top
            &&& old_part.top == whole.top && new_part.bottom == whole.bottom
            &&& new_part.left == whole.left && new_part.right == whole.right
            &&& old_part.left == whole.left && old_part.right == whole.right
        },
    }
}

/// Where the halves of a split pane come in the layout.
pub open spec fn shared(
    before: Seq<(PaneId, Rect)>,
    after: Seq<(PaneId, Rect)>,
    target: PaneId,
    new: PaneId,
    side: Direction,
    i: int,
) -> bool {
    &&& 0 <= i < before.len()
    &&& before[i].0 == target
    &&& after.len() == before.len() + 1
    &&& forall|j: int| 0 <= j < i ==> #[trigger] after[j] == before[j]
    &&& forall|j: int| i < j < before.len() ==> after[j + 1] == #[trigger] before[j]
    &&& if side is Left || side is Up {
        &&& after[i].0 == new && after[i + 1].0 == target
        &&& beside(before[i].1, after[i + 1].1, after[i].1, side)
    } else {
        &&& after[i].0 == target && after[i + 1].0 == new
        &&& beside(before[i].1, after[i].1, after[i + 1].1, side)
    }
}

proof fn lemma_shared_first(
    before: Seq<(PaneId, Rect)>,
    after: Seq<(PaneId, Rect)>,
    rest: Seq<(PaneId, Rect)>,
    target: PaneId,
    new: PaneId,
    side: Direction,
    i: int,
)
    requires
        shared(before, after, target, new, side, i),
    ensures
        shared(before + rest, after + rest, target, new, side, i),
{
    assert forall|j: int| i < j < (before + rest).len() implies (after + rest)[j + 1]
        == #[trigger] (before + rest)[j] by {
        if j < before.len() {
            assert(before[j] == (before + rest)[j]);
        }
    }
}

proof fn lemma_shared_second(
    before: Seq<(PaneId, Rect)>,
    after: Seq<(PaneId, Rect)>,
    head: Seq<(PaneId, Rect)>,
    target: PaneId,
    new: PaneId,
    side: Direction,
    i: int,
)
    requires
        shared(before, after, target, new, side, i),
    ensures
        shared(head + before, head + after, target, new, side, head.len() + i),
{
    let k = head.len() + i;
    assert forall|j: int| 0 <= j < k implies #[trigger] (head + after)[j] == (head
        + before)[j] by {
        if j >= head.len() {
            assert(after[j - head.len()] == before[j - head.len()]);
        }
    }
    assert forall|j: int| k < j < (head + before).len() implies (head + after)[j + 1]
        == #[trigger] (head + before)[j] by {
        assert(before[j - head.len()] == (head + before)[j]);
    }
}

/// The new pane of a split lies on the side that was asked for, directly beside the pane
/// that was split; the two share its place, and every other pane keeps its own.
pub proof fn law_split_lies_on_the_side(
    n: Node,
    target: PaneId,
    new: PaneId,
    side: Direction,
    r: Rect,
    cut: spec_fn(Real, i32, i32) -> i32,
)
    requires
        n.has(target),
    ensures
        exists|i: int|
            shared(
                laid(n, r, cut),
                laid(n.with_split(target, new, side), r, cut),
                target,
                new,
                side,
                i,
            ),
    decreases n,
{
    let before = laid(n, r, cut);
    let after = laid(n.with_split(target, new, side), r, cut);
    match n {
        Node::Leaf(id) => {
            reveal_with_fuel(laid, 3);
            assert(shared(before, after, target, new, side, 0));
        },
        Node::Split { axis, ratio, a, b } => {
            let at = if axis == Axis::Horizontal {
                cut(ratio, r.left, r.right)
            } else {
                cut(ratio, r.top, r.bottom)
            };
            let (ra, rb) = if axis == Axis::Horizontal {
                (Rect { right: at, ..r }, Rect { left: at, ..r })
            } else {
                (Rect { bottom: at, ..r }, Rect { top: at, ..r })
            };
            let (la, lb) = (laid(*a, ra, cut), laid(*b, rb, cut));
            if a.has(target) {
                law_split_lies_on_the_side(*a, target, new, side, ra, cut);
                let na = laid(a.with_split(target, new, side), ra, cut);
                let i = choose|i: int| shared(la, na, target, new, side, i);
                lemma_shared_first(la, na, lb, target, new, side, i);
                assert(shared(before, after, target, new, side, i));
            } else {
                law_split_lies_on_the_side(*b, target, new, side, rb, cut);
                let nb = laid(b.with_split(target, new, side), rb, cut);
                let i = choose|i: int| shared(lb, nb, target, new, side, i);
                lemma_shared_second(lb, nb, la, target, new, side, i);
                assert(shared(before, after, target, new, side, la.len() + i));
            }
        },
    }
}

/// A pane is halved left and right when a neighbor is wanted left or right of it, and top
/// and bottom otherwise; the line is in the middle.
pub proof fn law_split_in_halves(target: PaneId, new: PaneId, side: Direction)
    ensures
        ({
            let n = Node::Leaf(target).with_split(target, new, side);
            n matches Node::Split { axis, ratio, .. } && (axis == Axis::Horizontal) == (side is Left
                || side is Right) && ratio.bits == 0x3f00_0000
        }),
{
}

/// The panes are listed as they lie: what is left or above comes first.
pub proof fn law_listed_as_laid(n: Node, r: Rect, cut: spec_fn(Real, i32, i32) -> i32)
    ensures
        laid(n, r, cut).len() == n.order().len(),
        forall|i: int|
            0 <= i < n.order().len() ==> (#[trigger] laid(n, r, cut)[i]).0 == n.order()[i],
    decreases n,
{
    match n {
        Node::Leaf(_) => {},
        Node::Split { axis: Axis::Horizontal, ratio, a, b } => {
            let at = cut(ratio, r.left, r.right);
            law_listed_as_laid(*a, Rect { right: at, ..r }, cut);
            law_listed_as_laid(*b, Rect { left: at, ..r }, cut);
        },
        Node::Split { axis: Axis::Vertical, ratio, a, b } => {
            let at = cut(ratio, r.top, r.bottom);
            law_listed_as_laid(*a, Rect { bottom: at, ..r }, cut);
            law_listed_as_laid(*b, Rect { top: at, ..r }, cut);
        },
    }
}

/// A ratio is kept between a tenth and nine tenths: one in between stays as it is, a
/// smaller one becomes the tenth, a larger one the nine tenths.
pub proof fn law_ratio_kept_in_bounds(r: Real)
    ensures
        0x3dcc_cccd <= r.bits <= 0x3f66_6666 ==> r.clamped() == r,
        r.bits < 0x3dcc_cccd || 0x8000_0000 <= r.bits <= 0xff80_0000 ==> r.clamped().bits
            == 0x3dcc_cccd,
        0x3f66_6666 < r.bits <= 0x7f80_0000 ==> r.clamped().bits == 0x3f66_6666,
{
}

/// `to` lies in the direction `dir` of `from`, or reaches over its edge by less than the
/// width of a line, and the two face each other.
pub open spec fn faces(from: Rect, to: Rect, dir: Direction) -> bool {
    match dir {
        Direction::Left => to.right < from.left + 0x800 && to.top < from.bottom && from.top
            < to.bottom && from.top < from.bottom && to.top < to.bottom,
        Direction::Right => to.left > from.right - 0x800 && to.top < from.bottom && from.top
            < to.bottom && from.top < from.bottom && to.top < to.bottom,
        Direction::Up => to.bottom < from.top + 0x800 && to.left < from.right && from.left
            < to.right && from.left < from.right && to.left < to.right,
        Direction::Down => to.top > from.bottom - 0x800 && to.left < from.right && from.left
            < to.right && from.left < from.right && to.left < to.right,
    }
}

/// How far `to` is away from `from` in the direction `dir`.
pub open spec fn distance(from: Rect, to: Rect, dir: Direction) -> int {
    match dir {
        Direction::Left => from.left - to.right,
        Direction::Right => to.left - from.right,
        Direction::Up => from.top - to.bottom,
        Direction::Down => to.top - from.bottom,
    }
}

proof fn lemma_place(rects: Seq<(PaneId, Rect)>, at: int)
    requires
        0 <= at < rects.len(),
        forall|i: int| 0 <= i < at ==> (#[trigger] rects[i]).0 != rects[at].0,
    ensures
        place_of(rects, rects[at].0) == at,
    decreases at,
{
    if at > 0 {
        assert(rects[0].0 != rects[at].0);
        let rest = rects.drop_first();
        assert(rest[at - 1] == rects[at]);
        assert forall|i: int| 0 <= i < at - 1 implies (#[trigger] rest[i]).0 != rest[at - 1].0 by {
            assert(rest[i] == rects[i + 1]);
        }
        lemma_place(rest, at - 1);
    }
}

/// The neighbor of a pane in a direction is another pane that lies there, and none lies
/// there that is nearer; there is none only where nothing lies in that direction.
pub proof fn law_neighbor_lies_there(
    rects: Seq<(PaneId, Rect)>,
    at: int,
    dir: Direction,
    r: Option<PaneId>,
)
    requires
        0 <= at < rects.len(),
        forall|i: int| 0 <= i < at ==> (#[trigger] rects[i]).0 != rects[at].0,
        is_neighbor(rects, rects[at].0, dir, r),
    ensures
        r matches Some(id) ==> id != rects[at].0 && exists|i: int|
            #![trigger rects[i]]
            0 <= i < rects.len() && rects[i].0 == id && faces(rects[at].1, rects[i].1, dir)
                && forall|j: int|
                #![trigger rects[j]]
                0 <= j < rects.len() && rects[j].0 != rects[at].0 && faces(
                    rects[at].1,
                    rects[j].1,
                    dir,
                ) ==> distance(rects[at].1, rects[i].1, dir) <= distance(
                    rects[at].1,
                    rects[j].1,
                    dir,
                ),
        r is None ==> forall|j: int|
            #![trigger rects[j]]
            0 <= j < rects.len() && rects[j].0 != rects[at].0 ==> !faces(
                rects[at].1,
                rects[j].1,
                dir,
            ),
{
    lemma_place(rects, at);
}

} // verus!
