//! Weighted recursive grid layout.
//!
//! A layout is a tree of [`Node`]s: `Row`s split their box horizontally among
//! their children, `Col`s vertically, each child getting a share of the space
//! proportional to its weight; the last child gets the exact remainder so that
//! rounding never drifts. [`resolve`] walks the tree once and returns a flat
//! list of positioned [`Cell`]s; drawing a cell is then a dirty check and one
//! renderer call.
use vstd::prelude::*;
use super::{Pixel, Renderer};

verus! {

/// A text generator: called each frame to produce the text of a cell.
pub trait TextSource {
    /// `t` is a text that this source can produce; any text, unless the
    /// source says more.
    open spec fn yields(&self, t: Seq<char>) -> bool {
        true
    }

    /// The text to show now.
    fn text(&self) -> (t: &'static str)
        ensures
            self.yields(t@),
    ;
}

/// An element of the layout tree.
pub enum Node<'r, R: ?Sized, G> {
    /// Leaf: a renderer and the generator of its text.
    Cell { renderer: &'r R, gen: G },
    /// Splits its box horizontally (children side by side).
    Row { weight: u32, children: Vec<Node<'r, R, G>> },
    /// Splits its box vertically (children stacked).
    Col { weight: u32, children: Vec<Node<'r, R, G>> },
}

/// A resolved, positioned leaf.
pub struct Cell<'r, R: ?Sized, G> {
    pub renderer: &'r R,
    pub gen: G,
    pub x: usize,
    pub y: usize,
    /// The text drawn last; the next `draw` skips the blit while the text stays the same.
    pub last: String,
}

/// The weight of a node in its parent's split: 1 for a leaf.
pub open spec fn spec_weight<'r, R: ?Sized + Renderer, G>(node: Node<'r, R, G>) -> nat {
    match node {
        Node::Cell { .. } => 1,
        Node::Row { weight, .. } => weight as nat,
        Node::Col { weight, .. } => weight as nat,
    }
}

/// Sum of the weights of `children`.
pub open spec fn weight_sum<'r, R: ?Sized + Renderer, G>(children: Seq<Node<'r, R, G>>) -> nat
    decreases children.len(),
{
    if children.len() == 0 {
        0
    } else {
        weight_sum(children.drop_last()) + spec_weight(children.last())
    }
}

/// The share of `total` pixels that a non-last child of weight `w` gets.
pub open spec fn weighted_share(total: int, w: nat, wsum: nat) -> int {
    total * w / wsum as int
}

/// Where child `i` starts inside its parent: the sum of the weighted shares of
/// the children before it.
pub open spec fn offset_before<'r, R: ?Sized + Renderer, G>(total: int, children: Seq<Node<'r, R, G>>, i: int) -> int
    decreases i,
{
    if i <= 0 {
        0
    } else {
        offset_before(total, children, i - 1) + weighted_share(
            total,
            spec_weight(children[i - 1]),
            weight_sum(children),
        )
    }
}

/// The number of pixels child `i` gets along the split axis: its weighted
/// share, or, for the last child, everything the others left.
pub open spec fn share_of<'r, R: ?Sized + Renderer, G>(total: int, children: Seq<Node<'r, R, G>>, i: int) -> int {
    if i == children.len() - 1 {
        total - offset_before(total, children, i)
    } else {
        weighted_share(total, spec_weight(children[i]), weight_sum(children))
    }
}

/// The box `(x, y, w, h)` of child `i` of a split of the box `(bx, by, bw, bh)`.
pub open spec fn child_box<'r, R: ?Sized + Renderer, G>(
    children: Seq<Node<'r, R, G>>,
    bx: int,
    by: int,
    bw: int,
    bh: int,
    horizontal: bool,
    i: int,
) -> (int, int, int, int) {
    let total = if horizontal {
        bw
    } else {
        bh
    };
    let off = offset_before(total, children, i);
    let sh = share_of(total, children, i);
    if horizontal {
        (bx + off, by, sh, bh)
    } else {
        (bx, by + off, bw, sh)
    }
}

/// `a - b`, or 0 when `b > a`.
pub open spec fn sat_sub(a: int, b: int) -> int {
    if a > b {
        a - b
    } else {
        0
    }
}

/// The row at which a leaf of cell height `ch` is drawn inside a box: text is
/// vertically centred, clamped to the top of the box.
pub open spec fn centred_y(by: int, bh: int, ch: int) -> int {
    by + sat_sub(bh / 2, ch / 2)
}

/// The positioned leaves of `node` laid out in the box `(bx, by, bw, bh)`,
/// in tree order: each is `(renderer, x, y)`.
pub open spec fn layout<'r, R: ?Sized + Renderer, G>(node: Node<'r, R, G>, bx: int, by: int, bw: int, bh: int) -> Seq<
    (&'r R, int, int),
>
    decreases node, 0int,
{
    match node {
        Node::Cell { renderer, .. } => seq![
            (renderer, bx, centred_y(by, bh, renderer.spec_cell_height() as int)),
        ],
        Node::Row { children, .. } => layout_children(children@, bx, by, bw, bh, true, 0),
        Node::Col { children, .. } => layout_children(children@, bx, by, bw, bh, false, 0),
    }
}

/// The positioned leaves of `children[i..]` in a split of the box `(bx, by, bw, bh)`.
pub open spec fn layout_children<'r, R: ?Sized + Renderer, G>(
    children: Seq<Node<'r, R, G>>,
    bx: int,
    by: int,
    bw: int,
    bh: int,
    horizontal: bool,
    i: int,
) -> Seq<(&'r R, int, int)>
    decreases children, children.len() - i,
{
    if i < 0 || i >= children.len() {
        seq![]
    } else {
        let (cx, cy, cw, ch) = child_box(children, bx, by, bw, bh, horizontal, i);
        layout(children[i], cx, cy, cw, ch) + layout_children(
            children,
            bx,
            by,
            bw,
            bh,
            horizontal,
            i + 1,
        )
    }
}

/// The text sources of the leaves of `node`, in tree order.
pub open spec fn leaf_gens<'r, R: ?Sized + Renderer, G>(node: Node<'r, R, G>) -> Seq<G>
    decreases node, 0int,
{
    match node {
        Node::Cell { gen, .. } => seq![gen],
        Node::Row { children, .. } => children_gens(children@, 0),
        Node::Col { children, .. } => children_gens(children@, 0),
    }
}

/// The text sources of the leaves of `children[i..]`, in tree order.
pub open spec fn children_gens<'r, R: ?Sized + Renderer, G>(children: Seq<Node<'r, R, G>>, i: int) -> Seq<G>
    decreases children, children.len() - i,
{
    if i < 0 || i >= children.len() {
        seq![]
    } else {
        leaf_gens(children[i]) + children_gens(children, i + 1)
    }
}

/// Cell `k` of `cells` carries a clone of text source `k` of `gens`.
pub open spec fn carries<'r, R: ?Sized, G: Clone>(cells: Seq<Cell<'r, R, G>>, gens: Seq<G>) -> bool {
    &&& cells.len() == gens.len()
    &&& forall|k: int| 0 <= k < cells.len() ==> cloned(gens[k], #[trigger] cells[k].gen)
}

/// Carrying two runs of text sources side by side carries their concatenation.
proof fn lemma_carries_concat<'r, R: ?Sized, G: Clone>(
    s: Seq<Cell<'r, R, G>>,
    lo: int,
    mid: int,
    a: Seq<G>,
    b: Seq<G>,
)
    requires
        0 <= lo <= mid <= s.len(),
        carries(s.subrange(lo, mid), a),
        carries(s.subrange(mid, s.len() as int), b),
    ensures
        carries(s.subrange(lo, s.len() as int), a + b),
{
    let t = s.subrange(lo, s.len() as int);
    assert forall|k: int| 0 <= k < t.len() implies cloned((a + b)[k], #[trigger] t[k].gen) by {
        if k < mid - lo {
            assert(t[k] == s.subrange(lo, mid)[k]);
        } else {
            assert(t[k] == s.subrange(mid, s.len() as int)[k - (mid - lo)]);
        }
    }
}

/// Resolving `node` in the box `(bx, by, bw, bh)` neither divides by zero nor
/// overflows: every split has a representable weight sum that is non-zero when
/// there is more than one child, and every weighted share is computable.
pub open spec fn layout_ok<'r, R: ?Sized + Renderer, G>(node: Node<'r, R, G>, bx: int, by: int, bw: int, bh: int) -> bool
    decreases node, 0int,
{
    match node {
        Node::Cell { .. } => true,
        Node::Row { children, .. } => children_ok(children@, bx, by, bw, bh, true, 0),
        Node::Col { children, .. } => children_ok(children@, bx, by, bw, bh, false, 0),
    }
}

/// `split_ok` holds for the split and `layout_ok` for the children from `i` on.
pub open spec fn children_ok<'r, R: ?Sized + Renderer, G>(
    children: Seq<Node<'r, R, G>>,
    bx: int,
    by: int,
    bw: int,
    bh: int,
    horizontal: bool,
    i: int,
) -> bool
    decreases children, children.len() - i,
{
    if i < 0 || i >= children.len() {
        split_ok(children, if horizontal {
            bw
        } else {
            bh
        })
    } else {
        let (cx, cy, cw, ch) = child_box(children, bx, by, bw, bh, horizontal, i);
        layout_ok(children[i], cx, cy, cw, ch) && children_ok(
            children,
            bx,
            by,
            bw,
            bh,
            horizontal,
            i + 1,
        )
    }
}

/// The arithmetic of one split of `total` pixels among `children` is defined.
pub open spec fn split_ok<'r, R: ?Sized + Renderer, G>(children: Seq<Node<'r, R, G>>, total: int) -> bool {
    children.len() > 0 ==> {
        &&& weight_sum(children) <= u32::MAX
        &&& children.len() > 1 ==> weight_sum(children) > 0
        &&& forall|i: int|
            0 <= i < children.len() - 1 ==> total * spec_weight(#[trigger] children[i])
                <= usize::MAX
    }
}

impl<'r, R: ?Sized + Renderer, G> Node<'r, R, G> {
    /// The weight of this node in its parent's split (1 for a leaf).
    pub fn weight(&self) -> (w: u32)
        ensures
            w == spec_weight(*self),
    {
        match self {
            Node::Cell { .. } => 1,
            Node::Row { weight, .. } => *weight,
            Node::Col { weight, .. } => *weight,
        }
    }
}

/// Leaf node: a renderer and its text generator.
pub fn cell<'r, R: ?Sized + Renderer, G>(renderer: &'r R, gen: G) -> (n: Node<'r, R, G>)
    ensures
        n == (Node::Cell { renderer, gen }),
{
    Node::Cell { renderer, gen }
}

/// Splits its bounding box horizontally (children side by side).
pub fn row<'r, R: ?Sized + Renderer, G>(weight: u32, children: Vec<Node<'r, R, G>>) -> (n: Node<'r, R, G>)
    ensures
        n == (Node::Row { weight, children }),
{
    Node::Row { weight, children }
}

/// Splits its bounding box vertically (children stacked).
pub fn col<'r, R: ?Sized + Renderer, G>(weight: u32, children: Vec<Node<'r, R, G>>) -> (n: Node<'r, R, G>)
    ensures
        n == (Node::Col { weight, children }),
{
    Node::Col { weight, children }
}

/// The geometry `(renderer, x, y)` of resolved cells.
pub open spec fn geoms<'r, R: ?Sized + Renderer, G>(cells: Seq<Cell<'r, R, G>>) -> Seq<(&'r R, int, int)> {
    cells.map_values(|c: Cell<'r, R, G>| (c.renderer, c.x as int, c.y as int))
}

impl<'r, R: ?Sized + Renderer, G> Cell<'r, R, G> {
    /// The text this cell drew last (empty before its first draw).
    pub open spec fn spec_last(&self) -> Seq<char> {
        self.last@
    }
}

/// What a `draw` of cell `c` does when its cache holds `last` and its
/// source yields `text`: nothing when the text is the cached one; else it
/// draws the text at the cell's position. Gives whether it drew and the
/// buffer after.
pub open spec fn draw_step<'r, R: ?Sized + Renderer, G>(
    c: Cell<'r, R, G>,
    fb: Seq<Pixel>,
    stride: nat,
    last: Seq<char>,
    text: Seq<char>,
) -> (bool, Seq<Pixel>) {
    if text == last {
        (false, fb)
    } else {
        (true, c.renderer.spec_draw(fb, stride, c.x as nat, c.y as nat, text))
    }
}

/// A resolved cell starts with an empty cache, so its first `draw` changes
/// the buffer exactly when its text is non-empty.
pub proof fn lemma_first_draw<'r, R: ?Sized + Renderer, G>(c: Cell<'r, R, G>, fb: Seq<Pixel>, stride: nat, text: Seq<char>)
    ensures
        draw_step(c, fb, stride, Seq::empty(), text).0 == (text.len() > 0),
{
    if text.len() == 0 {
        assert(text =~= Seq::<char>::empty());
    }
}

/// Two `draw`s whose source yields the same text: the first leaves that text
/// in the cache, so the second draws nothing and leaves the buffer as the
/// first left it.
pub proof fn lemma_draw_twice<'r, R: ?Sized + Renderer, G>(
    c: Cell<'r, R, G>,
    fb: Seq<Pixel>,
    stride: nat,
    last: Seq<char>,
    text: Seq<char>,
)
    ensures
        ({
            let fb1 = draw_step(c, fb, stride, last, text).1;
            draw_step(c, fb1, stride, text, text) == (false, fb1)
        }),
{
}

/// `force_draw` leaves its text in the cache, so a following `draw` whose
/// source yields the same text draws nothing and leaves the buffer as it is.
pub proof fn lemma_force_then_draw<'r, R: ?Sized + Renderer, G>(
    c: Cell<'r, R, G>,
    fb: Seq<Pixel>,
    stride: nat,
    text: Seq<char>,
)
    ensures
        ({
            let fb1 = c.renderer.spec_draw(fb, stride, c.x as nat, c.y as nat, text);
            draw_step(c, fb1, stride, text, text) == (false, fb1)
        }),
{
}

impl<'r, R: ?Sized + Renderer, G: TextSource> Cell<'r, R, G> {
    /// Every text the generator can produce can be drawn at the cell's
    /// position into a buffer of `len` pixels with `stride` pixels per row.
    pub open spec fn drawable(&self, len: nat, stride: nat) -> bool {
        forall|t: Seq<char>|
            self.gen.yields(t) ==> #[trigger] self.renderer.can_draw(
                len,
                stride,
                self.x as nat,
                self.y as nat,
                t,
            )
    }

    /// Draws this cell if its text changed since the last call. Returns
    /// `true` if the framebuffer was modified.
    pub fn draw(&mut self, fb: &mut [Pixel], stride: usize) -> (changed: bool)
        requires
            old(self).drawable(old(fb)@.len(), stride as nat),
        ensures
            final(self).renderer == old(self).renderer,
            final(self).gen == old(self).gen,
            final(self).x == old(self).x,
            final(self).y == old(self).y,
            old(self).gen.yields(final(self).spec_last()),
            (changed, final(fb)@) == draw_step(
                *old(self),
                old(fb)@,
                stride as nat,
                old(self).spec_last(),
                final(self).spec_last(),
            ),
            final(fb)@.len() == old(fb)@.len(),
    {
        let text = self.gen.text();
        let owned = text.to_owned();
        if owned == self.last {
            return false;
        }
        self.last = owned;
        self.renderer.draw(fb, stride, self.x, self.y, text);
        true
    }

    /// Draws this cell unconditionally (after the framebuffer was blanked).
    pub fn force_draw(&mut self, fb: &mut [Pixel], stride: usize)
        requires
            old(self).drawable(old(fb)@.len(), stride as nat),
        ensures
            final(self).renderer == old(self).renderer,
            final(self).gen == old(self).gen,
            final(self).x == old(self).x,
            final(self).y == old(self).y,
            old(self).gen.yields(final(self).spec_last()),
            final(fb)@.len() == old(fb)@.len(),
            final(fb)@ == old(self).renderer.spec_draw(
                old(fb)@,
                stride as nat,
                old(self).x as nat,
                old(self).y as nat,
                final(self).spec_last(),
            ),
    {
        let text = self.gen.text();
        self.last = text.to_owned();
        self.renderer.draw(fb, stride, self.x, self.y, text);
    }
}

pub proof fn lemma_weight_sum_take<'r, R: ?Sized + Renderer, G>(children: Seq<Node<'r, R, G>>, i: int)
    requires
        0 <= i < children.len(),
    ensures
        weight_sum(children.take(i + 1)) == weight_sum(children.take(i)) + spec_weight(children[i]),
{
    assert(children.take(i + 1).drop_last() =~= children.take(i));
}

pub proof fn lemma_weight_sum_take_le<'r, R: ?Sized + Renderer, G>(children: Seq<Node<'r, R, G>>, i: int)
    requires
        0 <= i <= children.len(),
    ensures
        weight_sum(children.take(i)) <= weight_sum(children),
    decreases children.len() - i,
{
    if i < children.len() {
        lemma_weight_sum_take(children, i);
        lemma_weight_sum_take_le(children, i + 1);
    } else {
        assert(children.take(i) =~= children);
    }
}

/// The weighted shares of the first `i` children never exceed their
/// proportional part of `total`, hence never exceed `total`.
pub proof fn lemma_offset_bound<'r, R: ?Sized + Renderer, G>(total: int, children: Seq<Node<'r, R, G>>, i: int)
    requires
        0 <= total,
        0 <= i <= children.len(),
        i > 0 ==> weight_sum(children) > 0,
    ensures
        0 <= offset_before(total, children, i),
        offset_before(total, children, i) * weight_sum(children) <= total * weight_sum(
            children.take(i),
        ),
        offset_before(total, children, i) <= total,
    decreases i,
{
    let wsum = weight_sum(children);
    if i > 0 {
        lemma_offset_bound(total, children, i - 1);
        lemma_weight_sum_take(children, i - 1);
        let w = spec_weight(children[i - 1]);
        let prev = offset_before(total, children, i - 1);
        let q = total * w / wsum as int;
        assert(q * wsum <= total * w && q >= 0) by (nonlinear_arith)
            requires
                q == total * w / wsum as int,
                wsum > 0,
                total >= 0,
        ;
        assert(total * weight_sum(children.take(i)) == total * weight_sum(children.take(i - 1))
            + total * w) by (nonlinear_arith)
            requires
                weight_sum(children.take(i)) == weight_sum(children.take(i - 1)) + w,
        ;
        assert((prev + q) * wsum == prev * wsum + q * wsum) by (nonlinear_arith);
        lemma_weight_sum_take_le(children, i);
        let ws = weight_sum(children.take(i));
        let off = prev + q;
        assert(off <= total) by (nonlinear_arith)
            requires
                off * wsum <= total * ws,
                ws <= wsum,
                wsum > 0,
                total >= 0,
        ;
    }
}

/// `children_ok` from `i` on includes the arithmetic condition of the split.
pub proof fn lemma_children_ok_split<'r, R: ?Sized + Renderer, G>(
    children: Seq<Node<'r, R, G>>,
    bx: int,
    by: int,
    bw: int,
    bh: int,
    horizontal: bool,
    i: int,
)
    requires
        0 <= i,
        children_ok(children, bx, by, bw, bh, horizontal, i),
    ensures
        split_ok(children, if horizontal {
            bw
        } else {
            bh
        }),
    decreases children.len() - i,
{
    if i < children.len() {
        lemma_children_ok_split(children, bx, by, bw, bh, horizontal, i + 1);
    }
}

/// Child `i` of a split lies inside its parent's box along the split axis.
pub proof fn lemma_child_box_inside<'r, R: ?Sized + Renderer, G>(
    children: Seq<Node<'r, R, G>>,
    bx: int,
    by: int,
    bw: int,
    bh: int,
    horizontal: bool,
    i: int,
)
    requires
        0 <= i < children.len(),
        0 <= bw,
        0 <= bh,
        children.len() > 1 ==> weight_sum(children) > 0,
    ensures
        ({
            let (cx, cy, cw, ch) = child_box(children, bx, by, bw, bh, horizontal, i);
            &&& 0 <= cw
            &&& 0 <= ch
            &&& bx <= cx
            &&& by <= cy
            &&& cx + cw <= bx + bw
            &&& cy + ch <= by + bh
        }),
{
    let total = if horizontal {
        bw
    } else {
        bh
    };
    lemma_offset_bound(total, children, i);
    if i < children.len() - 1 {
        lemma_offset_bound(total, children, i + 1);
        let w = spec_weight(children[i]);
        let wsum = weight_sum(children);
        assert(total * w / wsum as int >= 0) by (nonlinear_arith)
            requires
                total >= 0,
                wsum > 0,
        ;
    }
}

/// Resolves `node` in the box `(bx, by, bw, bh)` and appends its leaves,
/// in tree order, to `out`. Text is vertically centred in each leaf's box.
pub fn resolve_into<'r, R: ?Sized + Renderer, G: Clone>(
    node: &'r Node<'r, R, G>,
    bx: usize,
    by: usize,
    bw: usize,
    bh: usize,
    out: &mut Vec<Cell<'r, R, G>>,
)
    requires
        layout_ok(*node, bx as int, by as int, bw as int, bh as int),
        bx + bw <= usize::MAX,
        by + bh <= usize::MAX,
    ensures
        final(out)@.len() == old(out)@.len() + layout(
            *node,
            bx as int,
            by as int,
            bw as int,
            bh as int,
        ).len(),
        geoms(final(out)@) == geoms(old(out)@) + layout(
            *node,
            bx as int,
            by as int,
            bw as int,
            bh as int,
        ),
        forall|k: int| 0 <= k < old(out)@.len() ==> #[trigger] final(out)@[k] == old(out)@[k],
        forall|k: int|
            old(out)@.len() <= k < final(out)@.len() ==> (#[trigger] final(out)@[k]).spec_last()
                == Seq::<char>::empty(),
        carries(final(out)@.subrange(old(out)@.len() as int, final(out)@.len() as int), leaf_gens(*node)),
    decreases node, 1int,
{
    match node {
        Node::Cell { renderer, gen } => {
            let ch = renderer.cell_height();
            let half = bh / 2;
            let lift = half.saturating_sub(ch / 2);
            let y = by + lift;
            let ghost old_out = out@;
            let c = Cell { renderer: *renderer, gen: gen.clone(), x: bx, y, last: String::new() };
            assert(c.last@ == Seq::<char>::empty());
            out.push(c);
            proof {
                assert(out@ == old_out.push(c));
                assert(out@.subrange(old_out.len() as int, out@.len() as int) =~= seq![c]);
                assert(y == centred_y(by as int, bh as int, renderer.spec_cell_height() as int));
                assert(geoms(out@) =~= geoms(old_out) + layout(
                    *node,
                    bx as int,
                    by as int,
                    bw as int,
                    bh as int,
                ));
            }
        },
        Node::Row { children, .. } => {
            split_children(children.as_slice(), bx, by, bw, bh, true, out);
        },
        Node::Col { children, .. } => {
            split_children(children.as_slice(), bx, by, bw, bh, false, out);
        },
    }
}

/// Splits the box `(bx, by, bw, bh)` among `children` (horizontally or
/// vertically) in proportion to their weights and resolves each child in its
/// part; the last child gets the exact remainder.
fn split_children<'r, R: ?Sized + Renderer, G: Clone>(
    children: &'r [Node<'r, R, G>],
    bx: usize,
    by: usize,
    bw: usize,
    bh: usize,
    horizontal: bool,
    out: &mut Vec<Cell<'r, R, G>>,
)
    requires
        children_ok(children@, bx as int, by as int, bw as int, bh as int, horizontal, 0),
        bx + bw <= usize::MAX,
        by + bh <= usize::MAX,
    ensures
        final(out)@.len() == old(out)@.len() + layout_children(
            children@,
            bx as int,
            by as int,
            bw as int,
            bh as int,
            horizontal,
            0,
        ).len(),
        geoms(final(out)@) == geoms(old(out)@) + layout_children(
            children@,
            bx as int,
            by as int,
            bw as int,
            bh as int,
            horizontal,
            0,
        ),
        forall|k: int| 0 <= k < old(out)@.len() ==> #[trigger] final(out)@[k] == old(out)@[k],
        forall|k: int|
            old(out)@.len() <= k < final(out)@.len() ==> (#[trigger] final(out)@[k]).spec_last()
                == Seq::<char>::empty(),
        carries(final(out)@.subrange(old(out)@.len() as int, final(out)@.len() as int), children_gens(children@, 0)),
    decreases children@, 0int,
{
    let ghost kids = children@;
    let ghost old_out = out@;
    let ghost lc0 = layout_children(
        kids,
        bx as int,
        by as int,
        bw as int,
        bh as int,
        horizontal,
        0,
    );
    if children.len() == 0 {
        proof {
            assert(geoms(out@) =~= geoms(old_out) + lc0);
            assert(out@.subrange(old_out.len() as int, out@.len() as int) =~= Seq::empty());
            assert(children_gens(kids, 0) =~= Seq::empty());
        }
        return ;
    }
    proof {
        lemma_children_ok_split(kids, bx as int, by as int, bw as int, bh as int, horizontal, 0);
    }
    let n = children.len();
    let mut total_weight: u32 = 0;
    let mut j: usize = 0;
    while j < n
        invariant
            j <= n == kids.len(),
            kids == children@,
            split_ok(kids, if horizontal {
                bw as int
            } else {
                bh as int
            }),
            total_weight == weight_sum(kids.take(j as int)),
        decreases n - j,
    {
        proof {
            lemma_weight_sum_take(kids, j as int);
            lemma_weight_sum_take_le(kids, j + 1);
        }
        total_weight = total_weight + children[j].weight();
        j = j + 1;
    }
    proof {
        assert(kids.take(n as int) =~= kids);
    }
    let total_px = if horizontal {
        bw
    } else {
        bh
    };
    let mut offset: usize = 0;
    let mut i: usize = 0;
    let ghost mut done: Seq<G> = Seq::empty();
    proof {
        assert(out@.subrange(old_out.len() as int, out@.len() as int) =~= Seq::empty());
        assert(done + children_gens(kids, 0) =~= children_gens(kids, 0));
    }
    while i < n
        invariant
            i <= n == kids.len(),
            kids == children@,
            n > 0,
            total_weight == weight_sum(kids),
            total_px == if horizontal {
                bw
            } else {
                bh
            },
            split_ok(kids, total_px as int),
            children_ok(kids, bx as int, by as int, bw as int, bh as int, horizontal, i as int),
            bx + bw <= usize::MAX,
            by + bh <= usize::MAX,
            i < n ==> offset == offset_before(total_px as int, kids, i as int),
            geoms(out@) + layout_children(
                kids,
                bx as int,
                by as int,
                bw as int,
                bh as int,
                horizontal,
                i as int,
            ) == geoms(old_out) + lc0,
            out@.len() >= old_out.len(),
            forall|k: int| 0 <= k < old_out.len() ==> #[trigger] out@[k] == old_out[k],
            forall|k: int|
                old_out.len() <= k < out@.len() ==> (#[trigger] out@[k]).spec_last()
                    == Seq::<char>::empty(),
            carries(out@.subrange(old_out.len() as int, out@.len() as int), done),
            done + children_gens(kids, i as int) == children_gens(kids, 0),
        decreases n - i,
    {
        let child = &children[i];
        proof {
            lemma_child_box_inside(
                kids,
                bx as int,
                by as int,
                bw as int,
                bh as int,
                horizontal,
                i as int,
            );
            lemma_offset_bound(total_px as int, kids, i as int);
        }
        let share = if i == n - 1 {
            total_px - offset
        } else {
            proof {
                assert(total_px * spec_weight(kids[i as int]) <= usize::MAX);
            }
            total_px * child.weight() as usize / total_weight as usize
        };
        let (cx, cy, cw, chh) = if horizontal {
            (bx + offset, by, share, bh)
        } else {
            (bx, by + offset, bw, share)
        };
        let ghost before = out@;
        resolve_into(child, cx, cy, cw, chh, out);
        proof {
            let lci = layout_children(
                kids,
                bx as int,
                by as int,
                bw as int,
                bh as int,
                horizontal,
                i as int,
            );
            let lci1 = layout_children(
                kids,
                bx as int,
                by as int,
                bw as int,
                bh as int,
                horizontal,
                i + 1,
            );
            let li = layout(kids[i as int], cx as int, cy as int, cw as int, chh as int);
            assert(lci == li + lci1);
            assert(geoms(out@) + lci1 =~= geoms(before) + lci);
            let lo = old_out.len() as int;
            let mid = before.len() as int;
            assert(out@.subrange(lo, mid) =~= before.subrange(lo, mid));
            lemma_carries_concat(out@, lo, mid, done, leaf_gens(kids[i as int]));
            assert(children_gens(kids, i as int) == leaf_gens(kids[i as int]) + children_gens(kids, i + 1));
            assert(done + leaf_gens(kids[i as int]) + children_gens(kids, i + 1) =~= done + children_gens(kids, i as int));
            done = done + leaf_gens(kids[i as int]);
        }
        offset = offset + share;
        i = i + 1;
    }
    proof {
        assert(layout_children(
            kids,
            bx as int,
            by as int,
            bw as int,
            bh as int,
            horizontal,
            n as int,
        ) =~= Seq::empty());
        assert(geoms(out@) =~= geoms(out@) + Seq::<(&'r R, int, int)>::empty());
        assert(children_gens(kids, n as int) =~= Seq::empty());
        assert(done =~= done + children_gens(kids, n as int));
    }
}

/// Walks `root` and returns its leaves as a flat list of positioned cells.
pub fn resolve<'r, R: ?Sized + Renderer, G: Clone>(root: &'r Node<'r, R, G>, bx: usize, by: usize, bw: usize, bh: usize) -> (cells: Vec<Cell<'r, R, G>>)
    requires
        layout_ok(*root, bx as int, by as int, bw as int, bh as int),
        bx + bw <= usize::MAX,
        by + bh <= usize::MAX,
    ensures
        geoms(cells@) == layout(*root, bx as int, by as int, bw as int, bh as int),
        forall|k: int| 0 <= k < cells@.len() ==> (#[trigger] cells@[k]).spec_last() == Seq::<char>::empty(),
        carries(cells@, leaf_gens(*root)),
{
    let mut out = Vec::new();
    resolve_into(root, bx, by, bw, bh, &mut out);
    proof {
        assert(geoms(Seq::<Cell<'r, R, G>>::empty()) =~= Seq::empty());
        assert(geoms(out@) =~= layout(*root, bx as int, by as int, bw as int, bh as int));
        assert(out@.subrange(0, out@.len() as int) =~= out@);
    }
    out
}

/// The children of a split tile their parent exactly along the split axis:
/// the first starts where the parent starts, each next one starts where the
/// previous one ends, and the last one ends where the parent ends (it gets
/// the remainder); every other child gets `total * weight / weight_sum` pixels.
pub proof fn lemma_children_tile<'r, R: ?Sized + Renderer, G>(
    children: Seq<Node<'r, R, G>>,
    bx: int,
    by: int,
    bw: int,
    bh: int,
    horizontal: bool,
)
    requires
        children.len() > 0,
        children.len() > 1 ==> weight_sum(children) > 0,
        0 <= bw,
        0 <= bh,
    ensures
        ({
            let first = child_box(children, bx, by, bw, bh, horizontal, 0);
            first.0 == bx && first.1 == by
        }),
        forall|i: int|
            0 <= i < children.len() - 1 ==> {
                let b = #[trigger] child_box(children, bx, by, bw, bh, horizontal, i);
                let nb = child_box(children, bx, by, bw, bh, horizontal, i + 1);
                &&& horizontal ==> nb.0 == b.0 + b.2 && b.2 == weighted_share(
                    bw,
                    spec_weight(children[i]),
                    weight_sum(children),
                )
                &&& !horizontal ==> nb.1 == b.1 + b.3 && b.3 == weighted_share(
                    bh,
                    spec_weight(children[i]),
                    weight_sum(children),
                )
            },
        ({
            let last = child_box(children, bx, by, bw, bh, horizontal, children.len() - 1);
            &&& horizontal ==> last.0 + last.2 == bx + bw && last.3 == bh
            &&& !horizontal ==> last.1 + last.3 == by + bh && last.2 == bw
        }),
{
}

/// Space is shared in proportion to weight: a child whose weight is `k` times
/// another's gets `k` times as many pixels, up to the rounding of each share
/// (less than `k` pixels in all).
pub proof fn lemma_share_proportional(total: int, w: nat, k: nat, wsum: nat)
    requires
        0 <= total,
        0 < wsum,
    ensures
        k * weighted_share(total, w, wsum) <= weighted_share(total, k * w, wsum),
        k > 0 ==> weighted_share(total, k * w, wsum) < k * weighted_share(total, w, wsum) + k,
{
    let a = total * w;
    let q = a / wsum as int;
    let r = a % wsum as int;
    vstd::arithmetic::div_mod::lemma_fundamental_div_mod(a, wsum as int);
    assert(total * (k * w) == k * q * wsum + k * r) by (nonlinear_arith)
        requires
            a == total * w,
            a == wsum * q + r,
    ;
    assert(0 <= r < wsum);
    let b = total * (k * w);
    let d = b / wsum as int;
    vstd::arithmetic::div_mod::lemma_fundamental_div_mod(b, wsum as int);
    assert(k * q <= d && (k > 0 ==> d < k * q + k)) by (nonlinear_arith)
        requires
            b == k * q * wsum + k * r,
            b == wsum * d + b % (wsum as int),
            0 <= b % (wsum as int),
            b % (wsum as int) < wsum,
            0 <= r,
            r < wsum,
            wsum > 0,
            k >= 0,
    ;
}

/// Every child of a split spans its parent across the split axis: the
/// children of a row all start at the parent's top and are as high as the
/// parent; the children of a column all start at the parent's left edge and
/// are as wide as the parent.
pub proof fn lemma_child_box_cross<'r, R: ?Sized + Renderer, G>(
    children: Seq<Node<'r, R, G>>,
    bx: int,
    by: int,
    bw: int,
    bh: int,
    horizontal: bool,
)
    ensures
        forall|i: int|
            0 <= i < children.len() ==> {
                let b = #[trigger] child_box(children, bx, by, bw, bh, horizontal, i);
                &&& horizontal ==> b.1 == by && b.3 == bh
                &&& !horizontal ==> b.0 == bx && b.2 == bw
            },
{
}

/// Every leaf that resolving `node` in a box produces lies inside that box.
pub proof fn lemma_layout_inside<'r, R: ?Sized + Renderer, G>(
    node: Node<'r, R, G>,
    bx: int,
    by: int,
    bw: int,
    bh: int,
)
    requires
        layout_ok(node, bx, by, bw, bh),
        0 <= bw,
        0 <= bh,
    ensures
        forall|k: int|
            0 <= k < layout(node, bx, by, bw, bh).len() ==> {
                let (_, x, y) = #[trigger] layout(node, bx, by, bw, bh)[k];
                bx <= x <= bx + bw && by <= y <= by + bh
            },
    decreases node, 0int,
{
    match node {
        Node::Cell { renderer, .. } => {
            let ch = renderer.spec_cell_height() as int;
            assert(sat_sub(bh / 2, ch / 2) <= bh);
            assert(layout(node, bx, by, bw, bh) == seq![(renderer, bx, centred_y(by, bh, ch))]);
        },
        Node::Row { children, .. } => {
            lemma_layout_children_inside(children@, bx, by, bw, bh, true, 0);
            assert(layout(node, bx, by, bw, bh) == layout_children(children@, bx, by, bw, bh, true, 0));
        },
        Node::Col { children, .. } => {
            lemma_layout_children_inside(children@, bx, by, bw, bh, false, 0);
            assert(layout(node, bx, by, bw, bh) == layout_children(children@, bx, by, bw, bh, false, 0));
        },
    }
}

/// Every leaf of the children from `i` on lies inside the parent box.
pub proof fn lemma_layout_children_inside<'r, R: ?Sized + Renderer, G>(
    children: Seq<Node<'r, R, G>>,
    bx: int,
    by: int,
    bw: int,
    bh: int,
    horizontal: bool,
    i: int,
)
    requires
        children_ok(children, bx, by, bw, bh, horizontal, i),
        0 <= i,
        0 <= bw,
        0 <= bh,
    ensures
        forall|k: int|
            0 <= k < layout_children(children, bx, by, bw, bh, horizontal, i).len() ==> {
                let (_, x, y) = #[trigger] layout_children(
                    children,
                    bx,
                    by,
                    bw,
                    bh,
                    horizontal,
                    i,
                )[k];
                bx <= x <= bx + bw && by <= y <= by + bh
            },
    decreases children, children.len() - i,
{
    if i < children.len() {
        lemma_children_ok_split(children, bx, by, bw, bh, horizontal, i);
        lemma_child_box_inside(children, bx, by, bw, bh, horizontal, i);
        let (cx, cy, cw, ch) = child_box(children, bx, by, bw, bh, horizontal, i);
        lemma_layout_inside(children[i], cx, cy, cw, ch);
        lemma_layout_children_inside(children, bx, by, bw, bh, horizontal, i + 1);
        let a = layout(children[i], cx, cy, cw, ch);
        let b = layout_children(children, bx, by, bw, bh, horizontal, i + 1);
        assert forall|k: int|
            0 <= k < (a + b).len() implies {
                let (_, x, y) = #[trigger] (a + b)[k];
                bx <= x <= bx + bw && by <= y <= by + bh
            } by {
            if k < a.len() {
                assert((a + b)[k] == a[k]);
            } else {
                assert((a + b)[k] == b[k - a.len()]);
            }
        }
    }
}

} // verus!
