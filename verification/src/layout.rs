//! The pane layout: a binary split tree. Leaves hold pane ids; splits divide
//! their area left/right or top/bottom by a ratio. Pure geometry and tree
//! surgery — no rendering or pane ownership here.
//!
//! A split's ratio is the share of the usable length that goes to its first
//! child, in thousandths: `EVEN_RATIO` (500) halves the area.

use vstd::prelude::*;
use crate::pane::Rect;

verus! {

pub type PaneId = usize;

/// The ratio a fresh split starts with: an even halving.
pub const EVEN_RATIO: u16 = 500;

/// The denominator of a split ratio.
pub const RATIO_SCALE: u16 = 1000;

#[derive(Clone, Copy, Debug, PartialEq, Eq, Structural)]
pub enum SplitDir {
    LeftRight,
    TopBottom,
}

pub enum Layout {
    Leaf(PaneId),
    Split { dir: SplitDir, ratio: u16, a: Box<Layout>, b: Box<Layout> },
}

/// `a - b`, or 0 when `b` exceeds `a`.
pub open spec fn sat_sub(a: nat, b: nat) -> nat {
    if a >= b { (a - b) as nat } else { 0 }
}

/// The first child's share of `usable` at `ratio` thousandths, rounded down.
pub open spec fn share(usable: nat, ratio: u16) -> nat {
    usable * (ratio as nat) / (RATIO_SCALE as nat)
}

/// The two child areas of a split of `area` along `dir` at `ratio`, with `gap`
/// pixels left between them.
pub open spec fn split_area(area: Rect, dir: SplitDir, ratio: u16, gap: usize) -> (Rect, Rect) {
    match dir {
        SplitDir::LeftRight => {
            let usable = sat_sub(area.w as nat, gap as nat);
            let aw = share(usable, ratio);
            (
                Rect { x: area.x, y: area.y, w: aw as usize, h: area.h },
                Rect {
                    x: (area.x + aw + gap) as usize,
                    y: area.y,
                    w: (usable - aw) as usize,
                    h: area.h,
                },
            )
        },
        SplitDir::TopBottom => {
            let usable = sat_sub(area.h as nat, gap as nat);
            let ah = share(usable, ratio);
            (
                Rect { x: area.x, y: area.y, w: area.w, h: ah as usize },
                Rect {
                    x: area.x,
                    y: (area.y + ah + gap) as usize,
                    w: area.w,
                    h: (usable - ah) as usize,
                },
            )
        },
    }
}

/// `s` with every occurrence of `target` replaced by `target, new_id`.
pub open spec fn expand_leaf(s: Seq<PaneId>, target: PaneId, new_id: PaneId) -> Seq<PaneId>
    decreases s.len(),
{
    if s.len() == 0 {
        s
    } else {
        let head = if s[0] == target { seq![target, new_id] } else { seq![s[0]] };
        head + expand_leaf(s.drop_first(), target, new_id)
    }
}

/// `s` without the occurrences of `target`.
pub open spec fn without(s: Seq<PaneId>, target: PaneId) -> Seq<PaneId> {
    s.filter(|x: PaneId| x != target)
}

impl Layout {
    /// Every ratio in the tree is at most one whole.
    pub open spec fn wf(self) -> bool
        decreases self,
    {
        match self {
            Layout::Leaf(_) => true,
            Layout::Split { ratio, a, b, .. } => ratio <= RATIO_SCALE && a.wf() && b.wf(),
        }
    }

    /// The pane ids at the leaves, left to right.
    pub open spec fn leaves(self) -> Seq<PaneId>
        decreases self,
    {
        match self {
            Layout::Leaf(id) => seq![id],
            Layout::Split { a, b, .. } => a.leaves() + b.leaves(),
        }
    }

    /// How far, at most, the gaps of nested splits push a child area past the
    /// end of its parent.
    pub open spec fn reach(self, gap: usize) -> nat
        decreases self,
    {
        match self {
            Layout::Leaf(_) => 0,
            Layout::Split { a, b, .. } => {
                let ra = a.reach(gap);
                let rb = b.reach(gap);
                gap as nat + if ra >= rb { ra } else { rb }
            },
        }
    }

    /// Dividing `area` for this tree stays within machine coordinates.
    pub open spec fn fits(self, area: Rect, gap: usize) -> bool {
        &&& area.x + area.w + self.reach(gap) <= usize::MAX
        &&& area.y + area.h + self.reach(gap) <= usize::MAX
    }

    /// The rect of each leaf, in leaf order.
    pub open spec fn rects_of(self, area: Rect, gap: usize) -> Seq<(PaneId, Rect)>
        decreases self,
    {
        match self {
            Layout::Leaf(id) => seq![(id, area)],
            Layout::Split { dir, ratio, a, b } => {
                let (ra, rb) = split_area(area, dir, ratio, gap);
                a.rects_of(ra, gap) + b.rects_of(rb, gap)
            },
        }
    }

    /// The tree after splitting each leaf `target` into `[target | new_id]`.
    pub open spec fn split_result(self, target: PaneId, dir: SplitDir, new_id: PaneId) -> Layout
        decreases self,
    {
        match self {
            Layout::Leaf(id) => if id == target {
                Layout::Split {
                    dir,
                    ratio: EVEN_RATIO,
                    a: Box::new(Layout::Leaf(id)),
                    b: Box::new(Layout::Leaf(new_id)),
                }
            } else {
                Layout::Leaf(id)
            },
            Layout::Split { dir: d, ratio, a, b } => Layout::Split {
                dir: d,
                ratio,
                a: Box::new(a.split_result(target, dir, new_id)),
                b: Box::new(b.split_result(target, dir, new_id)),
            },
        }
    }

    /// The tree after removing the leaves `target`, each collapsed split giving
    /// way to its surviving child; `None` when nothing survives.
    pub open spec fn remove_result(self, target: PaneId) -> Option<Layout>
        decreases self,
    {
        match self {
            Layout::Leaf(id) => if id == target { None } else { Some(Layout::Leaf(id)) },
            Layout::Split { dir, ratio, a, b } => match (
                a.remove_result(target),
                b.remove_result(target),
            ) {
                (Some(x), None) => Some(x),
                (None, Some(x)) => Some(x),
                (Some(x), Some(y)) => Some(
                    Layout::Split { dir, ratio, a: Box::new(x), b: Box::new(y) },
                ),
                (None, None) => None,
            },
        }
    }
}

proof fn lemma_share_bounded(usable: nat, ratio: u16)
    requires
        ratio <= RATIO_SCALE,
    ensures
        share(usable, ratio) <= usable,
{
    assert(usable * (ratio as nat) <= usable * 1000) by (nonlinear_arith)
        requires
            ratio <= 1000,
    ;
    assert(usable * (ratio as nat) / 1000 <= usable) by (nonlinear_arith)
        requires
            usable * (ratio as nat) <= usable * 1000,
    ;
}

fn child_areas(area: Rect, dir: SplitDir, ratio: u16, gap: usize) -> (r: (Rect, Rect))
    requires
        ratio <= RATIO_SCALE,
        area.x + area.w + gap <= usize::MAX,
        area.y + area.h + gap <= usize::MAX,
    ensures
        r == split_area(area, dir, ratio, gap),
        r.0.x + r.0.w <= area.x + area.w,
        r.0.y + r.0.h <= area.y + area.h,
        r.1.x + r.1.w <= area.x + area.w + gap,
        r.1.y + r.1.h <= area.y + area.h + gap,
{
    match dir {
        SplitDir::LeftRight => {
            let usable: usize = area.w.saturating_sub(gap);
            proof {
                lemma_share_bounded(usable as nat, ratio);
                assert((usable as u128) * (ratio as u128) <= (usable as u128) * 1000) by (nonlinear_arith)
                    requires ratio <= 1000;
                assert((usable as u128) * 1000 <= 0xffff_ffff_ffff_ffff_u128 * 1000);
            }
            let aw: usize = ((usable as u128) * (ratio as u128) / 1000) as usize;
            let bw: usize = usable - aw;
            (Rect::new(area.x, area.y, aw, area.h), Rect::new(area.x + aw + gap, area.y, bw, area.h))
        },
        SplitDir::TopBottom => {
            let usable: usize = area.h.saturating_sub(gap);
            proof {
                lemma_share_bounded(usable as nat, ratio);
                assert((usable as u128) * (ratio as u128) <= (usable as u128) * 1000) by (nonlinear_arith)
                    requires ratio <= 1000;
                assert((usable as u128) * 1000 <= 0xffff_ffff_ffff_ffff_u128 * 1000);
            }
            let ah: usize = ((usable as u128) * (ratio as u128) / 1000) as usize;
            let bh: usize = usable - ah;
            (Rect::new(area.x, area.y, area.w, ah), Rect::new(area.x, area.y + ah + gap, area.w, bh))
        },
    }
}

impl Layout {
    /// Assign a pixel rect to every leaf by recursively dividing `area`, leaving
    /// `gap` pixels between siblings for a visible divider.
    pub fn compute_rects(&self, area: Rect, gap: usize, out: &mut Vec<(PaneId, Rect)>)
        requires
            self.wf(),
            self.fits(area, gap),
        ensures
            final(out)@ == old(out)@ + self.rects_of(area, gap),
        decreases self,
    {
        match self {
            Layout::Leaf(id) => {
                out.push((*id, area));
            },
            Layout::Split { dir, ratio, a, b } => {
                let (ra, rb) = child_areas(area, *dir, *ratio, gap);
                a.compute_rects(ra, gap, out);
                b.compute_rects(rb, gap, out);
                proof {
                    assert(out@ =~= old(out)@ + self.rects_of(area, gap));
                }
            },
        }
    }

    /// Split the leaf holding `target` into `[target | new_id]` along `dir`.
    /// Consumes and returns the (possibly rewritten) tree.
    pub fn split(self, target: PaneId, dir: SplitDir, new_id: PaneId) -> (r: Layout)
        ensures
            r == self.split_result(target, dir, new_id),
        decreases self,
    {
        match self {
            Layout::Leaf(id) => {
                if id == target {
                    Layout::Split {
                        dir,
                        ratio: EVEN_RATIO,
                        a: Box::new(Layout::Leaf(id)),
                        b: Box::new(Layout::Leaf(new_id)),
                    }
                } else {
                    Layout::Leaf(id)
                }
            },
            Layout::Split { dir: d, ratio, a, b } => {
                let na = (*a).split(target, dir, new_id);
                let nb = (*b).split(target, dir, new_id);
                Layout::Split { dir: d, ratio, a: Box::new(na), b: Box::new(nb) }
            },
        }
    }

    /// Remove the leaf holding `target`, collapsing its parent split to the
    /// surviving sibling. Returns `None` if the whole tree was that one leaf.
    pub fn remove(self, target: PaneId) -> (r: Option<Layout>)
        ensures
            r == self.remove_result(target),
        decreases self,
    {
        match self {
            Layout::Leaf(id) => {
                if id == target {
                    None
                } else {
                    Some(Layout::Leaf(id))
                }
            },
            Layout::Split { dir, ratio, a, b } => {
                let ra = (*a).remove(target);
                let rb = (*b).remove(target);
                match (ra, rb) {
                    (Some(x), None) => Some(x),
                    (None, Some(x)) => Some(x),
                    (Some(x), Some(y)) => Some(
                        Layout::Split { dir, ratio, a: Box::new(x), b: Box::new(y) },
                    ),
                    (None, None) => None,
                }
            },
        }
    }
}

/// The pane ids of a list of placed panes, in order.
pub open spec fn ids_of(s: Seq<(PaneId, Rect)>) -> Seq<PaneId> {
    Seq::new(s.len(), |i: int| s[i].0)
}

/// Dividing an area gives each leaf exactly one rect, in leaf order.
pub proof fn law_rects_follow_leaves(l: Layout, area: Rect, gap: usize)
    ensures
        ids_of(l.rects_of(area, gap)) == l.leaves(),
    decreases l,
{
    match l {
        Layout::Leaf(id) => {
            assert(ids_of(l.rects_of(area, gap)) =~= l.leaves());
        },
        Layout::Split { dir, ratio, a, b } => {
            let (ra, rb) = split_area(area, dir, ratio, gap);
            law_rects_follow_leaves(*a, ra, gap);
            law_rects_follow_leaves(*b, rb, gap);
            assert(ids_of(a.rects_of(ra, gap) + b.rects_of(rb, gap)) =~= ids_of(a.rects_of(ra, gap))
                + ids_of(b.rects_of(rb, gap)));
        },
    }
}

/// `r` lies within `area`.
pub open spec fn inside(r: Rect, area: Rect) -> bool {
    &&& area.x <= r.x
    &&& area.y <= r.y
    &&& r.x + r.w <= area.x + area.w
    &&& r.y + r.h <= area.y + area.h
}

/// `r` and `s` share no pixel: one ends before the other begins, across or
/// down.
pub open spec fn apart(r: Rect, s: Rect) -> bool {
    ||| r.x + r.w <= s.x
    ||| s.x + s.w <= r.x
    ||| r.y + r.h <= s.y
    ||| s.y + s.h <= r.y
}

impl Layout {
    /// Every split's area is at least `gap` long across its cut, so no
    /// divider pushes a child past its parent.
    pub open spec fn roomy(self, area: Rect, gap: usize) -> bool
        decreases self,
    {
        match self {
            Layout::Leaf(_) => true,
            Layout::Split { dir, ratio, a, b } => {
                let (ra, rb) = split_area(area, dir, ratio, gap);
                &&& match dir {
                    SplitDir::LeftRight => area.w >= gap,
                    SplitDir::TopBottom => area.h >= gap,
                }
                &&& a.roomy(ra, gap)
                &&& b.roomy(rb, gap)
            },
        }
    }
}

/// The two halves of a roomy split lie within the area, the first wholly
/// before the second across the cut.
proof fn lemma_split_area_inside(area: Rect, dir: SplitDir, ratio: u16, gap: usize)
    requires
        ratio <= RATIO_SCALE,
        match dir {
            SplitDir::LeftRight => area.w >= gap,
            SplitDir::TopBottom => area.h >= gap,
        },
        area.x + area.w <= usize::MAX,
        area.y + area.h <= usize::MAX,
    ensures
        ({
            let (ra, rb) = split_area(area, dir, ratio, gap);
            &&& inside(ra, area)
            &&& inside(rb, area)
            &&& match dir {
                SplitDir::LeftRight => ra.x + ra.w <= rb.x,
                SplitDir::TopBottom => ra.y + ra.h <= rb.y,
            }
        }),
{
    match dir {
        SplitDir::LeftRight => lemma_share_bounded(sat_sub(area.w as nat, gap as nat), ratio),
        SplitDir::TopBottom => lemma_share_bounded(sat_sub(area.h as nat, gap as nat), ratio),
    }
}

/// When every divider fits, each pane's rect lies within the divided area.
pub proof fn law_rects_inside_area(l: Layout, area: Rect, gap: usize)
    requires
        l.wf(),
        l.roomy(area, gap),
        area.x + area.w <= usize::MAX,
        area.y + area.h <= usize::MAX,
    ensures
        forall|i: int|
            #![trigger l.rects_of(area, gap)[i]]
            0 <= i < l.rects_of(area, gap).len() ==> inside(l.rects_of(area, gap)[i].1, area),
    decreases l,
{
    match l {
        Layout::Leaf(_) => {},
        Layout::Split { dir, ratio, a, b } => {
            let (ra, rb) = split_area(area, dir, ratio, gap);
            lemma_split_area_inside(area, dir, ratio, gap);
            law_rects_inside_area(*a, ra, gap);
            law_rects_inside_area(*b, rb, gap);
            let s = l.rects_of(area, gap);
            let sa = a.rects_of(ra, gap);
            let sb = b.rects_of(rb, gap);
            assert forall|i: int| 0 <= i < s.len() implies inside(s[i].1, area) by {
                if i < sa.len() {
                    assert(s[i] == sa[i]);
                } else {
                    assert(s[i] == sb[i - sa.len()]);
                }
            }
        },
    }
}

/// When every divider fits, no two panes' rects share a pixel.
pub proof fn law_rects_apart(l: Layout, area: Rect, gap: usize)
    requires
        l.wf(),
        l.roomy(area, gap),
        area.x + area.w <= usize::MAX,
        area.y + area.h <= usize::MAX,
    ensures
        forall|i: int, j: int|
            #![trigger l.rects_of(area, gap)[i], l.rects_of(area, gap)[j]]
            0 <= i < j < l.rects_of(area, gap).len() ==> apart(
                l.rects_of(area, gap)[i].1,
                l.rects_of(area, gap)[j].1,
            ),
    decreases l,
{
    match l {
        Layout::Leaf(_) => {},
        Layout::Split { dir, ratio, a, b } => {
            let (ra, rb) = split_area(area, dir, ratio, gap);
            lemma_split_area_inside(area, dir, ratio, gap);
            law_rects_inside_area(*a, ra, gap);
            law_rects_inside_area(*b, rb, gap);
            law_rects_apart(*a, ra, gap);
            law_rects_apart(*b, rb, gap);
            let s = l.rects_of(area, gap);
            let sa = a.rects_of(ra, gap);
            let sb = b.rects_of(rb, gap);
            let n = sa.len() as int;
            assert forall|i: int, j: int| 0 <= i < j < s.len() implies apart(s[i].1, s[j].1) by {
                if j < n {
                    assert(s[i] == sa[i] && s[j] == sa[j]);
                } else if i >= n {
                    assert(s[i] == sb[i - n] && s[j] == sb[j - n]);
                } else {
                    assert(s[i] == sa[i] && s[j] == sb[j - n]);
                    assert(inside(sa[i].1, ra));
                    assert(inside(sb[j - n].1, rb));
                }
            }
        },
    }
}

proof fn lemma_expand_leaf_add(s1: Seq<PaneId>, s2: Seq<PaneId>, target: PaneId, new_id: PaneId)
    ensures
        expand_leaf(s1 + s2, target, new_id) == expand_leaf(s1, target, new_id) + expand_leaf(
            s2,
            target,
            new_id,
        ),
    decreases s1.len(),
{
    if s1.len() == 0 {
        assert(s1 + s2 =~= s2);
        assert(expand_leaf(s1, target, new_id) + expand_leaf(s2, target, new_id) =~= expand_leaf(
            s2,
            target,
            new_id,
        ));
    } else {
        assert((s1 + s2)[0] == s1[0]);
        assert((s1 + s2).drop_first() =~= s1.drop_first() + s2);
        lemma_expand_leaf_add(s1.drop_first(), s2, target, new_id);
        let head = if s1[0] == target { seq![target, new_id] } else { seq![s1[0]] };
        assert(head + (expand_leaf(s1.drop_first(), target, new_id) + expand_leaf(s2, target, new_id))
            =~= (head + expand_leaf(s1.drop_first(), target, new_id)) + expand_leaf(s2, target, new_id));
    }
}

/// Splitting puts `new_id` right after each leaf `target` and leaves every
/// other leaf where it was.
pub proof fn law_split_inserts_after_target(l: Layout, target: PaneId, dir: SplitDir, new_id: PaneId)
    ensures
        l.split_result(target, dir, new_id).leaves() == expand_leaf(l.leaves(), target, new_id),
    decreases l,
{
    match l {
        Layout::Leaf(id) => {
            let s = seq![id];
            assert(s.drop_first() =~= Seq::<PaneId>::empty());
            assert(expand_leaf(Seq::<PaneId>::empty(), target, new_id) =~= Seq::<PaneId>::empty());
            if id == target {
                assert(Layout::Leaf(id).leaves() == seq![id]);
                assert(Layout::Leaf(new_id).leaves() == seq![new_id]);
                assert(l.split_result(target, dir, new_id).leaves() =~= seq![target, new_id]);
                assert(expand_leaf(s, target, new_id) =~= seq![target, new_id]);
            } else {
                assert(expand_leaf(s, target, new_id) =~= s);
            }
        },
        Layout::Split { dir: d, ratio, a, b } => {
            law_split_inserts_after_target(*a, target, dir, new_id);
            law_split_inserts_after_target(*b, target, dir, new_id);
            lemma_expand_leaf_add(a.leaves(), b.leaves(), target, new_id);
        },
    }
}

/// Removing drops exactly the leaves `target`, keeping the order of the
/// others; nothing is left only when every leaf was `target`.
pub proof fn law_remove_drops_target(l: Layout, target: PaneId)
    ensures
        match l.remove_result(target) {
            None => without(l.leaves(), target).len() == 0,
            Some(r) => r.leaves() == without(l.leaves(), target),
        },
    decreases l,
{
    match l {
        Layout::Leaf(id) => {
            reveal_with_fuel(Seq::filter, 2);
            let s = seq![id];
            assert(s.drop_last() =~= Seq::<PaneId>::empty());
            if id == target {
                assert(without(s, target) =~= Seq::<PaneId>::empty());
            } else {
                assert(without(s, target) =~= s);
            }
        },
        Layout::Split { dir, ratio, a, b } => {
            law_remove_drops_target(*a, target);
            law_remove_drops_target(*b, target);
            Seq::filter_distributes_over_add(a.leaves(), b.leaves(), |x: PaneId| x != target);
            assert(without(l.leaves(), target) == without(a.leaves(), target) + without(
                b.leaves(),
                target,
            ));
            match (a.remove_result(target), b.remove_result(target)) {
                (Some(x), None) => {
                    assert(without(l.leaves(), target) =~= without(a.leaves(), target));
                },
                (None, Some(x)) => {
                    assert(without(l.leaves(), target) =~= without(b.leaves(), target));
                },
                _ => {},
            }
        },
    }
}

/// Closing the pane a split has just opened gives back the layout as it was
/// before the split (for a fresh pane id, one not already in the layout).
pub proof fn law_remove_undoes_split(l: Layout, target: PaneId, dir: SplitDir, new_id: PaneId)
    requires
        !l.leaves().contains(new_id),
    ensures
        l.split_result(target, dir, new_id).remove_result(new_id) == Some(l),
    decreases l,
{
    match l {
        Layout::Leaf(id) => {
            assert(l.leaves()[0] == id);
            assert(Layout::Leaf(id).remove_result(new_id) == Some(Layout::Leaf(id)));
            assert(Layout::Leaf(new_id).remove_result(new_id) is None);
        },
        Layout::Split { dir: d, ratio, a, b } => {
            assert(!a.leaves().contains(new_id)) by {
                if a.leaves().contains(new_id) {
                    let i = choose|i: int| 0 <= i < a.leaves().len() && a.leaves()[i] == new_id;
                    assert(l.leaves()[i] == new_id);
                }
            }
            assert(!b.leaves().contains(new_id)) by {
                if b.leaves().contains(new_id) {
                    let i = choose|i: int| 0 <= i < b.leaves().len() && b.leaves()[i] == new_id;
                    assert(l.leaves()[a.leaves().len() + i] == new_id);
                }
            }
            law_remove_undoes_split(*a, target, dir, new_id);
            law_remove_undoes_split(*b, target, dir, new_id);
        },
    }
}

/// Splitting and removing keep every ratio at most one whole.
pub proof fn law_surgery_keeps_wf(l: Layout, target: PaneId, dir: SplitDir, new_id: PaneId)
    requires
        l.wf(),
    ensures
        l.split_result(target, dir, new_id).wf(),
        l.remove_result(target) matches Some(r) ==> r.wf(),
    decreases l,
{
    match l {
        Layout::Leaf(id) => {
            assert(Layout::Leaf(id).wf());
            assert(Layout::Leaf(new_id).wf());
        },
        Layout::Split { a, b, .. } => {
            law_surgery_keeps_wf(*a, target, dir, new_id);
            law_surgery_keeps_wf(*b, target, dir, new_id);
        },
    }
}

} // verus!
