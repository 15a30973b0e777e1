//! Split layout of a tab: a binary tree whose leaves are pane ids.

use vstd::prelude::*;

verus! {

pub type PaneId = u64;

/// How the two children of a split are laid out.
#[derive(Clone, Copy, PartialEq, Eq, Structural, Debug)]
pub enum Axis {
    /// Children side by side.
    Horizontal,
    /// Children stacked.
    Vertical,
}

#[derive(Clone, Copy, PartialEq, Eq, Structural, Debug)]
pub enum Direction {
    Left,
    Right,
    Up,
    Down,
}

/// The bits of one half as a single-precision number.
pub const HALF: u32 = 0x3f00_0000;

/// The bits of one tenth: no split gives less than that to a pane.
pub const MIN_RATIO: u32 = 0x3dcc_cccd;

/// The bits of nine tenths.
pub const MAX_RATIO: u32 = 0x3f66_6666;

/// The bits of the positive infinity: what lies above, sign aside, is no number.
pub const INFINITY: u32 = 0x7f80_0000;

/// The sign bit.
pub const SIGN: u32 = 0x8000_0000;

/// A single-precision number, held as its bits: the share of the first child of
/// a split, or a coordinate of the window.
#[derive(Clone, Copy, PartialEq, Eq, Structural, Debug)]
pub struct Real {
    pub bits: u32,
}

impl Real {
    /// Whether the bits are those of no number.
    pub open spec fn is_nan(self) -> bool {
        INFINITY < self.bits < SIGN || self.bits > SIGN + INFINITY
    }

    /// The number brought between one tenth and nine tenths. Among positive
    /// numbers the bits are ordered as the numbers are; negative ones are below
    /// the range; what is no number stays as it is.
    pub open spec fn clamped(self) -> Real {
        if self.is_nan() {
            self
        } else if self.bits >= SIGN || self.bits < MIN_RATIO {
            Real { bits: MIN_RATIO }
        } else if self.bits > MAX_RATIO {
            Real { bits: MAX_RATIO }
        } else {
            self
        }
    }

    /// Whether two numbers are equal: zero equals its opposite, and
    /// what is no number equals nothing.
    pub open spec fn equals(self, other: Real) -> bool {
        &&& !self.is_nan()
        &&& !other.is_nan()
        &&& self.bits == other.bits || (self.bits % SIGN == 0 && other.bits % SIGN == 0)
    }

    /// Brings a ratio in range.
    pub fn clamp(self) -> (r: Real)
        ensures
            r == self.clamped(),
    {
        if (self.bits > INFINITY && self.bits < SIGN) || self.bits > SIGN + INFINITY {
            self
        } else if self.bits >= SIGN || self.bits < MIN_RATIO {
            Real { bits: MIN_RATIO }
        } else if self.bits > MAX_RATIO {
            Real { bits: MAX_RATIO }
        } else {
            self
        }
    }

    /// Compares two numbers.
    pub fn same(self, other: Real) -> (r: bool)
        ensures
            r == self.equals(other),
    {
        let nan = (self.bits > INFINITY && self.bits < SIGN) || self.bits > SIGN + INFINITY;
        let other_nan = (other.bits > INFINITY && other.bits < SIGN) || other.bits > SIGN
            + INFINITY;
        !nan && !other_nan && (self.bits == other.bits || (self.bits % SIGN == 0 && other.bits
            % SIGN == 0))
    }
}

/// A clamped ratio is in range, and clamping it again changes nothing.
pub proof fn law_clamped_ratio(r: Real)
    requires
        !r.is_nan(),
    ensures
        MIN_RATIO <= r.clamped().bits <= MAX_RATIO,
        !r.clamped().is_nan(),
        r.clamped().clamped() == r.clamped(),
{
}

/// The split tree of a tab.
#[derive(Debug)]
pub enum Node {
    Leaf(PaneId),
    Split { axis: Axis, ratio: Real, a: Box<Node>, b: Box<Node> },
}

/// The axis along which a side lies.
pub open spec fn axis_of(side: Direction) -> Axis {
    match side {
        Direction::Left | Direction::Right => Axis::Horizontal,
        Direction::Up | Direction::Down => Axis::Vertical,
    }
}

/// Whether a side comes first in layout order.
pub open spec fn leads(side: Direction) -> bool {
    side is Left || side is Up
}

impl Node {
    /// Whether a pane is in the tree.
    pub open spec fn has(self, target: PaneId) -> bool
        decreases self,
    {
        match self {
            Node::Leaf(id) => id == target,
            Node::Split { a, b, .. } => a.has(target) || b.has(target),
        }
    }

    /// The pane ids in layout order (left or top first).
    pub open spec fn order(self) -> Seq<PaneId>
        decreases self,
    {
        match self {
            Node::Leaf(id) => seq![id],
            Node::Split { a, b, .. } => a.order() + b.order(),
        }
    }

    /// The two halves that a pane and a new one beside it make.
    pub open spec fn halves(target: PaneId, new: PaneId, side: Direction) -> Node {
        let old_leaf = Box::new(Node::Leaf(target));
        let new_leaf = Box::new(Node::Leaf(new));
        if leads(side) {
            Node::Split {
                axis: axis_of(side),
                ratio: Real { bits: HALF },
                a: new_leaf,
                b: old_leaf,
            }
        } else {
            Node::Split {
                axis: axis_of(side),
                ratio: Real { bits: HALF },
                a: old_leaf,
                b: new_leaf,
            }
        }
    }

    /// The tree with the first leaf `target` split.
    pub open spec fn with_split(self, target: PaneId, new: PaneId, side: Direction) -> Node
        decreases self,
    {
        match self {
            Node::Leaf(_) => Node::halves(target, new, side),
            Node::Split { axis, ratio, a, b } => if a.has(target) {
                Node::Split { axis, ratio, a: Box::new(a.with_split(target, new, side)), b }
            } else {
                Node::Split { axis, ratio, a, b: Box::new(b.with_split(target, new, side)) }
            },
        }
    }

    /// The tree without the leaf `target`, its sibling in its parent's place.
    pub open spec fn without(self, target: PaneId) -> Node
        decreases self,
    {
        match self {
            Node::Leaf(_) => self,
            Node::Split { axis, ratio, a, b } => if *a == Node::Leaf(target) {
                *b
            } else if *b == Node::Leaf(target) {
                *a
            } else if a.has(target) {
                Node::Split { axis, ratio, a: Box::new(a.without(target)), b }
            } else {
                Node::Split { axis, ratio, a, b: Box::new(b.without(target)) }
            },
        }
    }

    /// Replaces the leaf `target` by a split holding it and `new`, placed on the
    /// `side` of it. Returns whether the leaf was there.
    pub fn split(&mut self, target: PaneId, new: PaneId, side: Direction) -> (done: bool)
        ensures
            done == old(self).has(target),
            *final(self) == if old(self).has(target) {
                old(self).with_split(target, new, side)
            } else {
                *old(self)
            },
            done == old(self).can_split(target),
        decreases *old(self),
    {
        match self {
            Node::Leaf(id) => {
                if *id != target {
                    return false;
                }
                let axis = match side {
                    Direction::Left | Direction::Right => Axis::Horizontal,
                    Direction::Up | Direction::Down => Axis::Vertical,
                };
                let first = match side {
                    Direction::Left | Direction::Up => true,
                    Direction::Right | Direction::Down => false,
                };
                let ratio = Real { bits: HALF };
                *self = if first {
                    Node::Split {
                        axis,
                        ratio,
                        a: Box::new(Node::Leaf(new)),
                        b: Box::new(Node::Leaf(target)),
                    }
                } else {
                    Node::Split {
                        axis,
                        ratio,
                        a: Box::new(Node::Leaf(target)),
                        b: Box::new(Node::Leaf(new)),
                    }
                };
                true
            },
            Node::Split { a, b, .. } => {
                if a.split(target, new, side) {
                    true
                } else {
                    b.split(target, new, side)
                }
            },
        }
    }

    /// Whether the tree is the single leaf `target`.
    pub fn is_leaf(&self, target: PaneId) -> (r: bool)
        ensures
            r == (*self == Node::Leaf(target)),
    {
        match self {
            Node::Leaf(id) => *id == target,
            Node::Split { .. } => false,
        }
    }

    /// Removes a leaf; its sibling takes the parent's place. Returns false if
    /// `target` is the only leaf, or is not there.
    pub fn remove(&mut self, target: PaneId) -> (done: bool)
        ensures
            done == (*old(self) is Split && old(self).has(target)),
            *final(self) == if *old(self) is Split && old(self).has(target) {
                old(self).without(target)
            } else {
                *old(self)
            },
            done == old(self).can_remove(target),
        decreases *old(self),
    {
        proof {
            reveal_with_fuel(Node::has, 2);
        }
        let mut keep = Node::Leaf(0);
        match self {
            Node::Leaf(_) => {
                return false;
            },
            Node::Split { a, b, .. } => {
                if a.is_leaf(target) {
                    std::mem::swap(&mut keep, &mut **b);
                } else if b.is_leaf(target) {
                    std::mem::swap(&mut keep, &mut **a);
                } else {
                    if a.remove(target) {
                        return true;
                    }
                    return b.remove(target);
                }
            },
        }
        *self = keep;
        true
    }

    /// Pane ids in layout order (left or top first).
    pub fn leaves(&self) -> (r: Vec<PaneId>)
        ensures
            r@ == self.order(),
        decreases self,
    {
        match self {
            Node::Leaf(id) => {
                let mut v: Vec<PaneId> = Vec::new();
                v.push(*id);
                assert(v@ =~= self.order());
                v
            },
            Node::Split { a, b, .. } => {
                let mut v = a.leaves();
                let mut rest = b.leaves();
                v.append(&mut rest);
                v
            },
        }
    }

    /// The first pane in layout order.
    pub fn first_leaf(&self) -> (r: PaneId)
        ensures
            self.order().len() > 0,
            r == self.order()[0],
        decreases self,
    {
        match self {
            Node::Leaf(id) => *id,
            Node::Split { a, .. } => a.first_leaf(),
        }
    }

    /// Whether a pane is in the tree.
    pub fn holds(&self, target: PaneId) -> (r: bool)
        ensures
            r == self.has(target),
        decreases self,
    {
        match self {
            Node::Leaf(id) => *id == target,
            Node::Split { a, b, .. } => a.holds(target) || b.holds(target),
        }
    }
}

/// A tree has a pane exactly when its layout order holds it, and is never empty.
pub proof fn law_order_holds(n: Node, id: PaneId)
    ensures
        n.has(id) == n.order().contains(id),
        n.order().len() > 0,
    decreases n,
{
    match n {
        Node::Leaf(x) => {
            assert(n.order()[0] == x);
        },
        Node::Split { a, b, .. } => {
            law_order_holds(*a, id);
            law_order_holds(*b, id);
            if a.has(id) {
                let i = choose|i: int| 0 <= i < a.order().len() && a.order()[i] == id;
                assert(n.order()[i] == id);
            }
            if b.has(id) {
                let i = choose|i: int| 0 <= i < b.order().len() && b.order()[i] == id;
                assert(n.order()[a.order().len() + i] == id);
            }
        },
    }
}

/// The two panes that a split puts in the place of one, in layout order.
pub open spec fn pair(target: PaneId, new: PaneId, side: Direction) -> Seq<PaneId> {
    if leads(side) {
        seq![new, target]
    } else {
        seq![target, new]
    }
}

/// Splitting a pane puts the new one right beside it in layout order, and moves
/// no other pane.
pub proof fn law_split_order(n: Node, target: PaneId, new: PaneId, side: Direction)
    requires
        n.has(target),
    ensures
        exists|i: int|
            0 <= i < n.order().len() && #[trigger] n.order()[i] == target && n.with_split(
                target,
                new,
                side,
            ).order() == n.order().take(i) + pair(target, new, side) + n.order().skip(i + 1),
    decreases n,
{
    let after = n.with_split(target, new, side);
    match n {
        Node::Leaf(x) => {
            reveal_with_fuel(Node::order, 2);
            assert(n.order()[0] == target);
            assert(after.order() =~= n.order().take(0) + pair(target, new, side) + n.order().skip(
                1,
            ));
        },
        Node::Split { a, b, .. } => {
            let la = a.order();
            let lb = b.order();
            if a.has(target) {
                law_split_order(*a, target, new, side);
                let i = choose|i: int|
                    0 <= i < la.len() && #[trigger] la[i] == target && a.with_split(
                        target,
                        new,
                        side,
                    ).order() == la.take(i) + pair(target, new, side) + la.skip(i + 1);
                assert(n.order()[i] == target);
                assert(after.order() =~= n.order().take(i) + pair(target, new, side)
                    + n.order().skip(i + 1));
            } else {
                law_split_order(*b, target, new, side);
                let i = choose|i: int|
                    0 <= i < lb.len() && #[trigger] lb[i] == target && b.with_split(
                        target,
                        new,
                        side,
                    ).order() == lb.take(i) + pair(target, new, side) + lb.skip(i + 1);
                let k = la.len() + i;
                assert(n.order()[k] == target);
                assert(after.order() =~= n.order().take(k) + pair(target, new, side)
                    + n.order().skip(k + 1));
            }
        },
    }
}

/// Where no pane occurs twice, removing one takes it out of the layout order
/// and keeps all others in theirs.
pub proof fn law_remove_order(n: Node, target: PaneId, i: int)
    requires
        n is Split,
        n.order().no_duplicates(),
        0 <= i < n.order().len(),
        n.order()[i] == target,
    ensures
        n.has(target),
        n.without(target).order() == n.order().remove(i),
    decreases n,
{
    law_order_holds(n, target);
    if let Node::Split { a, b, .. } = n {
        let la = a.order();
        let lb = b.order();
        law_order_holds(*a, target);
        law_order_holds(*b, target);
        assert(la =~= n.order().take(la.len() as int));
        assert(lb =~= n.order().skip(la.len() as int));
        assert(forall|j: int| 0 <= j < lb.len() ==> lb[j] == n.order()[la.len() + j]);
        if i < la.len() {
            assert(la[i] == target);
            assert(!lb.contains(target));
            if *a != Node::Leaf(target) {
                assert(*b != Node::Leaf(target));
                if let Node::Leaf(x) = *a {
                    assert(la[i] == x);
                }
                law_remove_order(*a, target, i);
                assert(n.without(target).order() =~= n.order().remove(i));
            } else {
                assert(n.without(target).order() =~= n.order().remove(i));
            }
        } else {
            let k = i - la.len();
            assert(lb[k] == target);
            assert(!la.contains(target)) by {
                if la.contains(target) {
                    let j = choose|j: int| 0 <= j < la.len() && la[j] == target;
                    assert(n.order()[j] == target);
                }
            }
            assert(*a != Node::Leaf(target)) by {
                if *a == Node::Leaf(target) {
                    assert(la[0] == target);
                }
            }
            if *b != Node::Leaf(target) {
                if let Node::Leaf(x) = *b {
                    assert(lb[k] == x);
                }
                law_remove_order(*b, target, k);
                assert(n.without(target).order() =~= n.order().remove(i));
            } else {
                assert(n.without(target).order() =~= n.order().remove(i));
            }
        }
    }
}

/// Removing the pane that a split has just made gives the tree back.
pub proof fn law_remove_undoes_split(n: Node, target: PaneId, new: PaneId, side: Direction)
    requires
        n.has(target),
        !n.has(new),
    ensures
        n.with_split(target, new, side) is Split,
        n.with_split(target, new, side).has(new),
        n.with_split(target, new, side).without(new) == n,
    decreases n,
{
    reveal_with_fuel(Node::has, 2);
    if let Node::Split { a, b, .. } = n {
        if a.has(target) {
            law_remove_undoes_split(*a, target, new, side);
        } else {
            law_remove_undoes_split(*b, target, new, side);
        }
    }
}

/// A rectangle on screen, in thousand-and-twenty-fourths of a point.
#[derive(Clone, Copy, PartialEq, Eq, Structural, Debug)]
pub struct Rect {
    pub left: i32,
    pub top: i32,
    pub right: i32,
    pub bottom: i32,
}

/// How far behind a pane may still reach: two points.
pub const BEHIND: i64 = -2048;

/// How far `to` lies from `from` in a direction; negative where they overlap.
pub open spec fn gap(from: Rect, to: Rect, dir: Direction) -> int {
    match dir {
        Direction::Left => from.left - to.right,
        Direction::Right => to.left - from.right,
        Direction::Up => from.top - to.bottom,
        Direction::Down => to.top - from.bottom,
    }
}

pub open spec fn min(a: int, b: int) -> int {
    if a <= b {
        a
    } else {
        b
    }
}

pub open spec fn max(a: int, b: int) -> int {
    if a >= b {
        a
    } else {
        b
    }
}

/// The length that two rectangles share on the axis across a direction.
pub open spec fn overlap(from: Rect, to: Rect, dir: Direction) -> int {
    match dir {
        Direction::Left | Direction::Right => min(from.bottom as int, to.bottom as int) - max(
            from.top as int,
            to.top as int,
        ),
        Direction::Up | Direction::Down => min(from.right as int, to.right as int) - max(
            from.left as int,
            to.left as int,
        ),
    }
}

/// Where a pane first stands in a list of rectangles.
pub open spec fn place_of(rects: Seq<(PaneId, Rect)>, id: PaneId) -> int
    decreases rects.len(),
{
    if rects.len() == 0 || rects[0].0 == id {
        0
    } else {
        1 + place_of(rects.drop_first(), id)
    }
}

/// Whether the pane at `j` can be reached from `src`: another pane, not behind
/// by two points or more, which shares some edge.
pub open spec fn reachable(
    rects: Seq<(PaneId, Rect)>,
    from: PaneId,
    src: Rect,
    dir: Direction,
    j: int,
) -> bool {
    &&& 0 <= j < rects.len()
    &&& rects[j].0 != from
    &&& gap(src, rects[j].1, dir) > BEHIND
    &&& overlap(src, rects[j].1, dir) > 0
}

/// Whether the pane at `i` is a better neighbour than the one at `j`: nearer,
/// or as near and sharing more of the edge, or alike and earlier.
pub open spec fn better(
    rects: Seq<(PaneId, Rect)>,
    src: Rect,
    dir: Direction,
    i: int,
    j: int,
) -> bool {
    let (gi, gj) = (gap(src, rects[i].1, dir), gap(src, rects[j].1, dir));
    let (oi, oj) = (overlap(src, rects[i].1, dir), overlap(src, rects[j].1, dir));
    gi < gj || (gi == gj && (oi > oj || (oi == oj && i <= j)))
}

/// Whether `r` is the neighbour of `from` in a direction.
pub open spec fn is_neighbor(
    rects: Seq<(PaneId, Rect)>,
    from: PaneId,
    dir: Direction,
    r: Option<PaneId>,
) -> bool {
    let at = place_of(rects, from);
    if at >= rects.len() {
        r is None
    } else {
        let src = rects[at].1;
        match r {
            Some(id) => exists|i: int|
                #![trigger rects[i]]
                reachable(rects, from, src, dir, i) && rects[i].0 == id && forall|j: int|
                    #![trigger rects[j]]
                    reachable(rects, from, src, dir, j) ==> better(rects, src, dir, i, j),
            None => forall|j: int| #![trigger rects[j]] !reachable(rects, from, src, dir, j),
        }
    }
}

/// The neighbour of a pane in a direction.
pub open spec fn neighbor_id(rects: Seq<(PaneId, Rect)>, from: PaneId, dir: Direction) -> Option<
    PaneId,
> {
    choose|r: Option<PaneId>| is_neighbor(rects, from, dir, r)
}

/// A pane has one neighbour in a direction, or none.
pub proof fn law_one_neighbor(
    rects: Seq<(PaneId, Rect)>,
    from: PaneId,
    dir: Direction,
    r: Option<PaneId>,
    s: Option<PaneId>,
)
    requires
        is_neighbor(rects, from, dir, r),
        is_neighbor(rects, from, dir, s),
    ensures
        r == s,
{
    let at = place_of(rects, from);
    if at < rects.len() {
        let src = rects[at].1;
        match (r, s) {
            (Some(x), Some(y)) => {
                let i = choose|i: int|
                    #![trigger rects[i]]
                    reachable(rects, from, src, dir, i) && rects[i].0 == x && forall|j: int|
                        #![trigger rects[j]]
                        reachable(rects, from, src, dir, j) ==> better(rects, src, dir, i, j);
                let j = choose|i: int|
                    #![trigger rects[i]]
                    reachable(rects, from, src, dir, i) && rects[i].0 == y && forall|j: int|
                        #![trigger rects[j]]
                        reachable(rects, from, src, dir, j) ==> better(rects, src, dir, i, j);
                assert(better(rects, src, dir, i, j) && better(rects, src, dir, j, i));
            },
            (Some(x), None) => {
                let i = choose|i: int|
                    #![trigger rects[i]]
                    reachable(rects, from, src, dir, i) && rects[i].0 == x && forall|j: int|
                        #![trigger rects[j]]
                        reachable(rects, from, src, dir, j) ==> better(rects, src, dir, i, j);
                assert(!reachable(rects, from, src, dir, i));
            },
            (None, Some(y)) => {
                let i = choose|i: int|
                    #![trigger rects[i]]
                    reachable(rects, from, src, dir, i) && rects[i].0 == y && forall|j: int|
                        #![trigger rects[j]]
                        reachable(rects, from, src, dir, j) ==> better(rects, src, dir, i, j);
                assert(!reachable(rects, from, src, dir, i));
            },
            (None, None) => {},
        }
    }
}

/// `place_of` is the first place of the pane, or the length of the list.
proof fn lemma_place(rects: Seq<(PaneId, Rect)>, id: PaneId, n: int)
    requires
        0 <= n <= rects.len(),
        forall|j: int| 0 <= j < n ==> (#[trigger] rects[j]).0 != id,
        n < rects.len() ==> rects[n].0 == id,
    ensures
        place_of(rects, id) == n,
    decreases n,
{
    if n > 0 {
        let rest = rects.drop_first();
        assert forall|j: int| 0 <= j < n - 1 implies (#[trigger] rest[j]).0 != id by {
            assert(rest[j] == rects[j + 1]);
        }
        lemma_place(rest, id, n - 1);
    }
}

fn gap_of(from: &Rect, to: &Rect, dir: Direction) -> (r: i64)
    ensures
        r == gap(*from, *to, dir),
{
    match dir {
        Direction::Left => from.left as i64 - to.right as i64,
        Direction::Right => to.left as i64 - from.right as i64,
        Direction::Up => from.top as i64 - to.bottom as i64,
        Direction::Down => to.top as i64 - from.bottom as i64,
    }
}

fn shared(a: i32, b: i32, c: i32, d: i32) -> (r: i64)
    ensures
        r == min(b as int, d as int) - max(a as int, c as int),
{
    let high = if b <= d {
        b
    } else {
        d
    };
    let low = if a >= c {
        a
    } else {
        c
    };
    high as i64 - low as i64
}

fn overlap_of(from: &Rect, to: &Rect, dir: Direction) -> (r: i64)
    ensures
        r == overlap(*from, *to, dir),
{
    match dir {
        Direction::Left | Direction::Right => shared(from.top, from.bottom, to.top, to.bottom),
        Direction::Up | Direction::Down => shared(from.left, from.right, to.left, to.right),
    }
}

/// The pane closest to `from` in `dir`, among panes overlapping it on the other axis.
pub fn neighbor(rects: &Vec<(PaneId, Rect)>, from: PaneId, dir: Direction) -> (r: Option<PaneId>)
    ensures
        is_neighbor(rects@, from, dir, r),
        r == neighbor_id(rects@, from, dir),
{
    let mut at: usize = 0;
    while at < rects.len() && rects[at].0 != from
        invariant
            at <= rects@.len(),
            forall|j: int| 0 <= j < at ==> (#[trigger] rects@[j]).0 != from,
        decreases rects.len() - at,
    {
        at += 1;
    }
    proof {
        lemma_place(rects@, from, at as int);
    }
    if at >= rects.len() {
        assert(is_neighbor(rects@, from, dir, None));
        return None;
    }
    let src = rects[at].1;
    let mut best: Option<usize> = None;
    let mut j: usize = 0;
    while j < rects.len()
        invariant
            j <= rects@.len(),
            match best {
                Some(i) => i < j && reachable(rects@, from, src, dir, i as int) && forall|k: int|
                    #![trigger rects@[k]]
                    k < j && reachable(rects@, from, src, dir, k) ==> better(
                        rects@,
                        src,
                        dir,
                        i as int,
                        k,
                    ),
                None => forall|k: int|
                    #![trigger rects@[k]]
                    k < j ==> !reachable(rects@, from, src, dir, k),
            },
        decreases rects.len() - j,
    {
        let (id, rect) = rects[j];
        let g: i64 = gap_of(&src, &rect, dir);
        let o: i64 = overlap_of(&src, &rect, dir);
        if id != from && g > BEHIND && o > 0 {
            best = match best {
                Some(i) => {
                    let bg: i64 = gap_of(&src, &rects[i].1, dir);
                    let bo: i64 = overlap_of(&src, &rects[i].1, dir);
                    if g < bg || (g == bg && o > bo) {
                        Some(j)
                    } else {
                        Some(i)
                    }
                },
                None => Some(j),
            };
        }
        j += 1;
    }
    let r = match best {
        Some(i) => Some(rects[i].0),
        None => None,
    };
    proof {
        assert(is_neighbor(rects@, from, dir, r));
        law_one_neighbor(rects@, from, dir, r, neighbor_id(rects@, from, dir));
    }
    r
}

impl Node {
    /// Whether a pane can be split.
    pub open spec fn can_split(self, target: PaneId) -> bool {
        self.has(target)
    }

    /// Whether a pane can be taken out.
    pub open spec fn can_remove(self, target: PaneId) -> bool {
        self is Split && self.has(target)
    }
}

} // verus!
