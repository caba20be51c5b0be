//! How the leaves of a layout share its rectangle.

use vstd::prelude::*;
use crate::border::BorderStyle;
use crate::layout::{
    child_rect, children_leaves, layout_leaves, node_leaves, nmin, nsub, parts, parts_from,
    sat16, sizes_of, wanted, Leaf, PaneSize, Paner,
};

verus! {

/// The leaf's rectangle holds the cell (`px`, `py`).
pub open spec fn covers<T>(l: Leaf<T>, px: int, py: int) -> bool {
    l.1 <= px < l.1 + l.3 && l.2 <= py < l.2 + l.4
}

/// The leaf's rectangle lies inside the rectangle (`x`, `y`, `w`, `h`).
pub open spec fn within<T>(l: Leaf<T>, x: int, y: int, w: int, h: int) -> bool {
    x <= l.1 && l.1 + l.3 <= x + w && y <= l.2 && l.2 + l.4 <= y + h
}

/// The two rectangles are separated along one of the axes.
pub open spec fn apart<T>(a: Leaf<T>, b: Leaf<T>) -> bool {
    a.1 + a.3 <= b.1 || b.1 + b.3 <= a.1 || a.2 + a.4 <= b.2 || b.2 + b.4 <= a.2
}

pub open spec fn axis_lo<T>(l: Leaf<T>, horizontal: bool) -> int {
    if horizontal { l.1 as int } else { l.2 as int }
}

proof fn lemma_parts_from_ordered(s: Seq<PaneSize>, k: int, o: nat, avail: nat, gap: nat)
    requires
        0 <= k <= s.len(),
        o <= avail,
        avail <= u16::MAX,
    ensures
        forall|i: int|
            0 <= i < s.len() - k ==> (#[trigger] parts_from(s, k, o, avail, gap)[i]).0 >= o,
        forall|i: int, j: int|
            0 <= i < j < s.len() - k ==> (#[trigger] parts_from(s, k, o, avail, gap)[i]).0
                + parts_from(s, k, o, avail, gap)[i].1 <= (#[trigger] parts_from(
                s,
                k,
                o,
                avail,
                gap,
            )[j]).0,
    decreases s.len() - k,
{
    if k < s.len() {
        let e = nmin(wanted(s, k, o, avail, gap), nsub(avail, o));
        let o2 = nmin(o + e + gap, avail);
        lemma_parts_from_ordered(s, k + 1, o2, avail, gap);
        crate::layout::lemma_parts_from_bounds(s, k + 1, o2, avail, gap);
        let p = parts_from(s, k, o, avail, gap);
        let rest = parts_from(s, k + 1, o2, avail, gap);
        assert(p == seq![(o as u16, e as u16)] + rest);
        assert forall|i: int| 0 <= i < s.len() - k implies (#[trigger] p[i]).0 >= o by {
            if i > 0 {
                assert(p[i] == rest[i - 1]);
            }
        }
        assert forall|i: int, j: int| 0 <= i < j < s.len() - k implies (#[trigger] p[i]).0 + p[i].1
            <= (#[trigger] p[j]).0 by {
            assert(p[j] == rest[j - 1]);
            if i > 0 {
                assert(p[i] == rest[i - 1]);
            }
        }
    }
}

proof fn lemma_node_tiles<T>(t: Paner<T>, x: u16, y: u16, w: u16, h: u16, gap: nat, ox: u16, oy: u16)
    requires
        ox + x + w <= u16::MAX,
        oy + y + h <= u16::MAX,
    ensures
        forall|i: int|
            0 <= i < node_leaves(t, x, y, w, h, gap, ox, oy).len() ==> within(
                #[trigger] node_leaves(t, x, y, w, h, gap, ox, oy)[i],
                ox + x,
                oy + y,
                w as int,
                h as int,
            ),
        forall|i: int, j: int|
            0 <= i < j < node_leaves(t, x, y, w, h, gap, ox, oy).len() ==> apart(
                #[trigger] node_leaves(t, x, y, w, h, gap, ox, oy)[i],
                #[trigger] node_leaves(t, x, y, w, h, gap, ox, oy)[j],
            ),
    decreases t, 0nat,
{
    match t {
        Paner::Pane(v) => {
            let l = node_leaves(t, x, y, w, h, gap, ox, oy);
            assert(l == seq![(v, (ox + x) as u16, (oy + y) as u16, w, h)]);
            assert(l.len() == 1);
            assert(within(l[0], ox + x, oy + y, w as int, h as int));
        },
        Paner::Horizontal(c) => {
            let p = parts(sizes_of(c@), w as nat, gap);
            crate::layout::lemma_parts_bounds(sizes_of(c@), w as nat, gap);
            lemma_parts_from_ordered(sizes_of(c@), 0, 0, w as nat, gap);
            lemma_children_tile(c, 0, p, true, x, y, w, h, gap, ox, oy);
            assert(node_leaves(t, x, y, w, h, gap, ox, oy) == children_leaves(c, 0, p, true, x, y, w, h, gap, ox, oy));
        },
        Paner::Vertical(c) => {
            let p = parts(sizes_of(c@), h as nat, gap);
            crate::layout::lemma_parts_bounds(sizes_of(c@), h as nat, gap);
            lemma_parts_from_ordered(sizes_of(c@), 0, 0, h as nat, gap);
            lemma_children_tile(c, 0, p, false, x, y, w, h, gap, ox, oy);
            assert(node_leaves(t, x, y, w, h, gap, ox, oy) == children_leaves(c, 0, p, false, x, y, w, h, gap, ox, oy));
        },
    }
}

proof fn lemma_children_tile<T>(
    c: Vec<(PaneSize, Paner<T>)>,
    k: int,
    p: Seq<(u16, u16)>,
    horizontal: bool,
    x: u16,
    y: u16,
    w: u16,
    h: u16,
    gap: nat,
    ox: u16,
    oy: u16,
)
    requires
        0 <= k,
        ox + x + w <= u16::MAX,
        oy + y + h <= u16::MAX,
        p.len() == c@.len(),
        forall|i: int|
            0 <= i < p.len() ==> (#[trigger] p[i]).0 + p[i].1 <= (if horizontal { w } else { h }),
        forall|i: int, j: int|
            0 <= i < j < p.len() ==> (#[trigger] p[i]).0 + p[i].1 <= (#[trigger] p[j]).0,
    ensures
        forall|i: int|
            0 <= i < children_leaves(c, k, p, horizontal, x, y, w, h, gap, ox, oy).len() ==> {
                let l = #[trigger] children_leaves(c, k, p, horizontal, x, y, w, h, gap, ox, oy)[i];
                &&& within(l, ox + x, oy + y, w as int, h as int)
                &&& k < p.len() ==> axis_lo(l, horizontal) >= (if horizontal {
                    ox + x
                } else {
                    oy + y
                }) + p[k].0
            },
        forall|i: int, j: int|
            0 <= i < j < children_leaves(c, k, p, horizontal, x, y, w, h, gap, ox, oy).len()
                ==> apart(
                #[trigger] children_leaves(c, k, p, horizontal, x, y, w, h, gap, ox, oy)[i],
                #[trigger] children_leaves(c, k, p, horizontal, x, y, w, h, gap, ox, oy)[j],
            ),
    decreases c, c@.len() - k,
{
    if k < c@.len() {
        let r = child_rect(horizontal, p[k].0, p[k].1, x, y, w, h);
        let first = node_leaves(c@[k].1, r.0, r.1, r.2, r.3, gap, ox, oy);
        let rest = children_leaves(c, k + 1, p, horizontal, x, y, w, h, gap, ox, oy);
        let all = children_leaves(c, k, p, horizontal, x, y, w, h, gap, ox, oy);
        assert(all == first + rest);
        lemma_node_tiles(c@[k].1, r.0, r.1, r.2, r.3, gap, ox, oy);
        lemma_children_tile(c, k + 1, p, horizontal, x, y, w, h, gap, ox, oy);
        let base = if horizontal { ox + x } else { oy + y };
        assert forall|i: int| 0 <= i < all.len() implies {
            let l = #[trigger] all[i];
            &&& within(l, ox + x, oy + y, w as int, h as int)
            &&& axis_lo(l, horizontal) >= base + p[k].0
        } by {
            if i < first.len() {
                assert(all[i] == first[i]);
                assert(within(first[i], ox + r.0, oy + r.1, r.2 as int, r.3 as int));
            } else {
                assert(all[i] == rest[i - first.len()]);
                assert(p[k].0 + p[k].1 <= p[k + 1].0);
            }
        }
        assert forall|i: int, j: int| 0 <= i < j < all.len() implies apart(
            #[trigger] all[i],
            #[trigger] all[j],
        ) by {
            if j < first.len() {
                assert(all[i] == first[i] && all[j] == first[j]);
            } else if i >= first.len() {
                assert(all[i] == rest[i - first.len()] && all[j] == rest[j - first.len()]);
            } else {
                assert(all[i] == first[i] && all[j] == rest[j - first.len()]);
                assert(within(first[i], ox + r.0, oy + r.1, r.2 as int, r.3 as int));
                assert(p[k].0 + p[k].1 <= p[k + 1].0);
            }
        }
    }
}

/// The cell (`px`, `py`) lies in the rectangle (`x`, `y`, `w`, `h`).
pub open spec fn in_rect(px: int, py: int, x: int, y: int, w: int, h: int) -> bool {
    x <= px < x + w && y <= py < y + h
}

/// Every split has children and ends in a relative child, which takes what
/// is left of the split: no cell at its end goes unclaimed.
pub open spec fn fills<T>(t: Paner<T>) -> bool
    decreases t, 0nat,
{
    match t {
        Paner::Pane(_) => true,
        Paner::Horizontal(c) => c@.len() > 0 && c@.last().0 is Relative && children_fill(c, 0),
        Paner::Vertical(c) => c@.len() > 0 && c@.last().0 is Relative && children_fill(c, 0),
    }
}

pub open spec fn children_fill<T>(c: Vec<(PaneSize, Paner<T>)>, k: int) -> bool
    decreases c, c@.len() - k,
{
    if k < 0 || k >= c@.len() {
        true
    } else {
        fills(c@[k].1) && children_fill(c, k + 1)
    }
}

/// The cell (`px`, `py`) lies in a gap between two siblings somewhere in
/// the tree laid out in (`x`, `y`, `w`, `h`), moved by (`ox`, `oy`).
pub open spec fn in_gap<T>(
    t: Paner<T>,
    x: u16,
    y: u16,
    w: u16,
    h: u16,
    gap: nat,
    ox: u16,
    oy: u16,
    px: int,
    py: int,
) -> bool
    decreases t, 0nat,
{
    match t {
        Paner::Pane(_) => false,
        Paner::Horizontal(c) => children_gap(
            c,
            0,
            parts(sizes_of(c@), w as nat, gap),
            true,
            x,
            y,
            w,
            h,
            gap,
            ox,
            oy,
            px,
            py,
        ),
        Paner::Vertical(c) => children_gap(
            c,
            0,
            parts(sizes_of(c@), h as nat, gap),
            false,
            x,
            y,
            w,
            h,
            gap,
            ox,
            oy,
            px,
            py,
        ),
    }
}

/// The cell lies in a gap inside one of children `k..` of a split, or in
/// the strip between one of them and the next sibling, across the split.
pub open spec fn children_gap<T>(
    c: Vec<(PaneSize, Paner<T>)>,
    k: int,
    p: Seq<(u16, u16)>,
    horizontal: bool,
    x: u16,
    y: u16,
    w: u16,
    h: u16,
    gap: nat,
    ox: u16,
    oy: u16,
    px: int,
    py: int,
) -> bool
    decreases c, c@.len() - k,
{
    if k < 0 || k >= c@.len() {
        false
    } else {
        let r = child_rect(horizontal, p[k].0, p[k].1, x, y, w, h);
        let base = if horizontal { ox + x } else { oy + y };
        let a = if horizontal { px } else { py };
        let strip = k + 1 < c@.len() && base + p[k].0 + p[k].1 <= a < base + p[k + 1].0 && in_rect(
            px,
            py,
            ox + x,
            oy + y,
            w as int,
            h as int,
        );
        in_gap(c@[k].1, r.0, r.1, r.2, r.3, gap, ox, oy, px, py) || strip || children_gap(
            c,
            k + 1,
            p,
            horizontal,
            x,
            y,
            w,
            h,
            gap,
            ox,
            oy,
            px,
            py,
        )
    }
}

proof fn lemma_parts_from_last(s: Seq<PaneSize>, k: int, o: nat, avail: nat, gap: nat)
    requires
        0 <= k < s.len(),
        o <= avail,
        avail <= u16::MAX,
        s.last() is Relative,
    ensures
        ({
            let q = parts_from(s, k, o, avail, gap)[s.len() - 1 - k];
            q.0 + q.1 == avail
        }),
    decreases s.len() - k,
{
    let e = nmin(wanted(s, k, o, avail, gap), nsub(avail, o));
    let o2 = nmin(o + e + gap, avail);
    crate::layout::lemma_parts_from_bounds(s, k + 1, o2, avail, gap);
    if k < s.len() - 1 {
        lemma_parts_from_last(s, k + 1, o2, avail, gap);
        assert(parts_from(s, k, o, avail, gap)[s.len() - 1 - k] == parts_from(s, k + 1, o2, avail, gap)[s.len() - 1 - (k + 1)]);
    } else {
        assert(parts_from(s, k, o, avail, gap)[0] == (o as u16, e as u16));
    }
}

proof fn lemma_node_covers<T>(t: Paner<T>, x: u16, y: u16, w: u16, h: u16, gap: nat, ox: u16, oy: u16)
    requires
        fills(t),
        ox + x + w <= u16::MAX,
        oy + y + h <= u16::MAX,
    ensures
        forall|px: int, py: int|
            #[trigger] in_gap(t, x, y, w, h, gap, ox, oy, px, py) ==> in_rect(
                px,
                py,
                ox + x,
                oy + y,
                w as int,
                h as int,
            ),
        forall|px: int, py: int|
            #[trigger] in_rect(px, py, ox + x, oy + y, w as int, h as int) ==> in_gap(
                t,
                x,
                y,
                w,
                h,
                gap,
                ox,
                oy,
                px,
                py,
            ) || exists|i: int|
                0 <= i < node_leaves(t, x, y, w, h, gap, ox, oy).len() && #[trigger] covers(
                    node_leaves(t, x, y, w, h, gap, ox, oy)[i],
                    px,
                    py,
                ),
        forall|i: int, px: int, py: int|
            0 <= i < node_leaves(t, x, y, w, h, gap, ox, oy).len() && #[trigger] covers(
                node_leaves(t, x, y, w, h, gap, ox, oy)[i],
                px,
                py,
            ) ==> !in_gap(t, x, y, w, h, gap, ox, oy, px, py),
    decreases t, 0nat,
{
    lemma_node_tiles(t, x, y, w, h, gap, ox, oy);
    match t {
        Paner::Pane(v) => {
            let l = node_leaves(t, x, y, w, h, gap, ox, oy);
            assert(l == seq![(v, (ox + x) as u16, (oy + y) as u16, w, h)]);
            assert forall|px: int, py: int|
                #[trigger] in_rect(px, py, ox + x, oy + y, w as int, h as int) implies in_gap(
                t,
                x,
                y,
                w,
                h,
                gap,
                ox,
                oy,
                px,
                py,
            ) || exists|i: int| 0 <= i < l.len() && #[trigger] covers(l[i], px, py) by {
                assert(covers(l[0], px, py));
            }
        },
        Paner::Horizontal(c) => {
            let p = parts(sizes_of(c@), w as nat, gap);
            crate::layout::lemma_parts_bounds(sizes_of(c@), w as nat, gap);
            lemma_parts_from_ordered(sizes_of(c@), 0, 0, w as nat, gap);
            lemma_parts_from_last(sizes_of(c@), 0, 0, w as nat, gap);
            lemma_children_cover(c, 0, p, true, x, y, w, h, gap, ox, oy);
            assert(node_leaves(t, x, y, w, h, gap, ox, oy) == children_leaves(c, 0, p, true, x, y, w, h, gap, ox, oy));
            assert(p[0].0 == 0);
            assert forall|px: int, py: int|
                #[trigger] in_gap(t, x, y, w, h, gap, ox, oy, px, py) == children_gap(
                    c,
                    0,
                    p,
                    true,
                    x,
                    y,
                    w,
                    h,
                    gap,
                    ox,
                    oy,
                    px,
                    py,
                ) by {}
        },
        Paner::Vertical(c) => {
            let p = parts(sizes_of(c@), h as nat, gap);
            crate::layout::lemma_parts_bounds(sizes_of(c@), h as nat, gap);
            lemma_parts_from_ordered(sizes_of(c@), 0, 0, h as nat, gap);
            lemma_parts_from_last(sizes_of(c@), 0, 0, h as nat, gap);
            lemma_children_cover(c, 0, p, false, x, y, w, h, gap, ox, oy);
            assert(node_leaves(t, x, y, w, h, gap, ox, oy) == children_leaves(c, 0, p, false, x, y, w, h, gap, ox, oy));
            assert(p[0].0 == 0);
            assert forall|px: int, py: int|
                #[trigger] in_gap(t, x, y, w, h, gap, ox, oy, px, py) == children_gap(
                    c,
                    0,
                    p,
                    false,
                    x,
                    y,
                    w,
                    h,
                    gap,
                    ox,
                    oy,
                    px,
                    py,
                ) by {}
        },
    }
}

proof fn lemma_children_cover<T>(
    c: Vec<(PaneSize, Paner<T>)>,
    k: int,
    p: Seq<(u16, u16)>,
    horizontal: bool,
    x: u16,
    y: u16,
    w: u16,
    h: u16,
    gap: nat,
    ox: u16,
    oy: u16,
)
    requires
        0 <= k <= c@.len(),
        children_fill(c, k),
        ox + x + w <= u16::MAX,
        oy + y + h <= u16::MAX,
        p.len() == c@.len(),
        p.len() > 0,
        p[p.len() - 1].0 + p[p.len() - 1].1 == (if horizontal { w } else { h }),
        forall|i: int|
            0 <= i < p.len() ==> (#[trigger] p[i]).0 + p[i].1 <= (if horizontal { w } else { h }),
        forall|i: int, j: int|
            0 <= i < j < p.len() ==> (#[trigger] p[i]).0 + p[i].1 <= (#[trigger] p[j]).0,
    ensures
        forall|px: int, py: int|
            #[trigger] children_gap(c, k, p, horizontal, x, y, w, h, gap, ox, oy, px, py) ==> in_rect(
                px,
                py,
                ox + x,
                oy + y,
                w as int,
                h as int,
            ) && (if horizontal { px } else { py }) >= (if horizontal {
                ox + x
            } else {
                oy + y
            }) + p[k].0,
        forall|px: int, py: int|
            #![trigger children_gap(c, k, p, horizontal, x, y, w, h, gap, ox, oy, px, py)]
            k < c@.len() && in_rect(px, py, ox + x, oy + y, w as int, h as int) && (if horizontal {
                px
            } else {
                py
            }) >= (if horizontal { ox + x } else { oy + y }) + p[k].0 ==> children_gap(
                c,
                k,
                p,
                horizontal,
                x,
                y,
                w,
                h,
                gap,
                ox,
                oy,
                px,
                py,
            ) || exists|i: int|
                0 <= i < children_leaves(c, k, p, horizontal, x, y, w, h, gap, ox, oy).len()
                    && #[trigger] covers(
                    children_leaves(c, k, p, horizontal, x, y, w, h, gap, ox, oy)[i],
                    px,
                    py,
                ),
        forall|i: int, px: int, py: int|
            0 <= i < children_leaves(c, k, p, horizontal, x, y, w, h, gap, ox, oy).len()
                && #[trigger] covers(
                children_leaves(c, k, p, horizontal, x, y, w, h, gap, ox, oy)[i],
                px,
                py,
            ) ==> !children_gap(c, k, p, horizontal, x, y, w, h, gap, ox, oy, px, py),
    decreases c, c@.len() - k,
{
    if k < c@.len() {
        let r = child_rect(horizontal, p[k].0, p[k].1, x, y, w, h);
        let first = node_leaves(c@[k].1, r.0, r.1, r.2, r.3, gap, ox, oy);
        let rest = children_leaves(c, k + 1, p, horizontal, x, y, w, h, gap, ox, oy);
        let all = children_leaves(c, k, p, horizontal, x, y, w, h, gap, ox, oy);
        assert(all == first + rest);
        lemma_node_tiles(c@[k].1, r.0, r.1, r.2, r.3, gap, ox, oy);
        lemma_node_covers(c@[k].1, r.0, r.1, r.2, r.3, gap, ox, oy);
        lemma_children_tile(c, k + 1, p, horizontal, x, y, w, h, gap, ox, oy);
        lemma_children_cover(c, k + 1, p, horizontal, x, y, w, h, gap, ox, oy);
        let base = if horizontal { ox + x } else { oy + y };
        assert forall|px: int, py: int|
            #[trigger] children_gap(c, k, p, horizontal, x, y, w, h, gap, ox, oy, px, py) implies in_rect(
            px,
            py,
            ox + x,
            oy + y,
            w as int,
            h as int,
        ) && (if horizontal { px } else { py }) >= base + p[k].0 by {
            if in_gap(c@[k].1, r.0, r.1, r.2, r.3, gap, ox, oy, px, py) {
                assert(in_rect(px, py, ox + r.0, oy + r.1, r.2 as int, r.3 as int));
            } else if children_gap(c, k + 1, p, horizontal, x, y, w, h, gap, ox, oy, px, py) {
                assert(p[k].0 + p[k].1 <= p[k + 1].0);
            }
        }
        assert forall|px: int, py: int|
            #![trigger children_gap(c, k, p, horizontal, x, y, w, h, gap, ox, oy, px, py)]
            in_rect(px, py, ox + x, oy + y, w as int, h as int) && (if horizontal {
                px
            } else {
                py
            }) >= base + p[k].0 implies children_gap(
            c,
            k,
            p,
            horizontal,
            x,
            y,
            w,
            h,
            gap,
            ox,
            oy,
            px,
            py,
        ) || exists|i: int| 0 <= i < all.len() && #[trigger] covers(all[i], px, py) by {
            let a = if horizontal { px } else { py };
            if a < base + p[k].0 + p[k].1 {
                assert(in_rect(px, py, ox + r.0, oy + r.1, r.2 as int, r.3 as int));
                if !in_gap(c@[k].1, r.0, r.1, r.2, r.3, gap, ox, oy, px, py) {
                    let i = choose|i: int| 0 <= i < first.len() && #[trigger] covers(first[i], px, py);
                    assert(all[i] == first[i]);
                }
            } else if k + 1 < c@.len() {
                if a >= base + p[k + 1].0 {
                    if !children_gap(c, k + 1, p, horizontal, x, y, w, h, gap, ox, oy, px, py) {
                        let i = choose|i: int| 0 <= i < rest.len() && #[trigger] covers(rest[i], px, py);
                        assert(all[first.len() + i] == rest[i]);
                    }
                }
            }
        }
        assert forall|i: int, px: int, py: int|
            0 <= i < all.len() && #[trigger] covers(all[i], px, py) implies !children_gap(
            c,
            k,
            p,
            horizontal,
            x,
            y,
            w,
            h,
            gap,
            ox,
            oy,
            px,
            py,
        ) by {
            if i < first.len() {
                assert(all[i] == first[i]);
                assert(within(first[i], ox + r.0, oy + r.1, r.2 as int, r.3 as int));
                assert(covers(first[i], px, py));
                if k + 1 < c@.len() {
                    assert(p[k].0 + p[k].1 <= p[k + 1].0);
                    if children_gap(c, k + 1, p, horizontal, x, y, w, h, gap, ox, oy, px, py) {
                        assert(false);
                    }
                }
            } else {
                assert(all[i] == rest[i - first.len()]);
                assert(covers(rest[i - first.len()], px, py));
                assert(p[k].0 + p[k].1 <= p[k + 1].0);
                assert(within(rest[i - first.len()], ox + x, oy + y, w as int, h as int));
                if in_gap(c@[k].1, r.0, r.1, r.2, r.3, gap, ox, oy, px, py) {
                    assert(in_rect(px, py, ox + r.0, oy + r.1, r.2 as int, r.3 as int));
                }
            }
        }
    }
}

/// Panes never overlap: every leaf of a rendered layout lies inside the
/// rectangle one cell within the target's edge, and no cell lies in two
/// leaves.
pub proof fn lemma_leaves_tile<T>(
    t: Paner<T>,
    col: u16,
    row: u16,
    width: u16,
    height: u16,
    b: BorderStyle,
)
    requires
        col + width + 3 <= u16::MAX,
        row + height + 3 <= u16::MAX,
    ensures
        forall|i: int|
            0 <= i < layout_leaves(t, col, row, width, height, b).len() ==> within(
                #[trigger] layout_leaves(t, col, row, width, height, b)[i],
                col + 1,
                row + 1,
                sat16(width, 2) as int,
                sat16(height, 2) as int,
            ),
        forall|i: int, j: int, px: int, py: int|
            0 <= i < layout_leaves(t, col, row, width, height, b).len() && 0 <= j < layout_leaves(
                t,
                col,
                row,
                width,
                height,
                b,
            ).len() && i != j && #[trigger] covers(
                layout_leaves(t, col, row, width, height, b)[i],
                px,
                py,
            ) ==> !#[trigger] covers(layout_leaves(t, col, row, width, height, b)[j], px, py),
{
    let g = crate::border::gap_spec(b);
    let l = layout_leaves(t, col, row, width, height, b);
    lemma_node_tiles(t, 1, 1, sat16(width, 2), sat16(height, 2), g, col, row);
    assert forall|i: int, j: int, px: int, py: int|
        0 <= i < l.len() && 0 <= j < l.len() && i != j && #[trigger] covers(l[i], px, py)
            implies !#[trigger] covers(l[j], px, py) by {
        if i < j {
            assert(apart(l[i], l[j]));
        } else {
            assert(apart(l[j], l[i]));
        }
    }
}

/// The cells between sibling panes of a layout: those that gaps, separators
/// or pane boxes take.
pub open spec fn layout_gap<T>(
    t: Paner<T>,
    col: u16,
    row: u16,
    width: u16,
    height: u16,
    b: BorderStyle,
    px: int,
    py: int,
) -> bool {
    in_gap(t, 1, 1, sat16(width, 2), sat16(height, 2), crate::border::gap_spec(b), col, row, px, py)
}

/// Panes and the gaps between them fill the layout: where every split has
/// children and ends in a relative child, each cell one step or more inside
/// the target's edge lies either in exactly one leaf or in a gap between
/// siblings, never both; the edge itself is the outer margin.
pub proof fn lemma_layout_covers<T>(
    t: Paner<T>,
    col: u16,
    row: u16,
    width: u16,
    height: u16,
    b: BorderStyle,
)
    requires
        fills(t),
        col + width + 3 <= u16::MAX,
        row + height + 3 <= u16::MAX,
    ensures
        forall|px: int, py: int|
            #[trigger] layout_gap(t, col, row, width, height, b, px, py) ==> in_rect(
                px,
                py,
                col + 1,
                row + 1,
                sat16(width, 2) as int,
                sat16(height, 2) as int,
            ),
        forall|px: int, py: int|
            in_rect(
                px,
                py,
                col + 1,
                row + 1,
                sat16(width, 2) as int,
                sat16(height, 2) as int,
            ) ==> (#[trigger] layout_gap(t, col, row, width, height, b, px, py) <==> !exists|i: int|
                0 <= i < layout_leaves(t, col, row, width, height, b).len() && #[trigger] covers(
                    layout_leaves(t, col, row, width, height, b)[i],
                    px,
                    py,
                )),
{
    let g = crate::border::gap_spec(b);
    let w2 = sat16(width, 2);
    let h2 = sat16(height, 2);
    lemma_node_covers(t, 1, 1, w2, h2, g, col, row);
    let l = layout_leaves(t, col, row, width, height, b);
    assert forall|px: int, py: int|
        in_rect(px, py, col + 1, row + 1, w2 as int, h2 as int) implies (#[trigger] layout_gap(
        t,
        col,
        row,
        width,
        height,
        b,
        px,
        py,
    ) <==> !exists|i: int| 0 <= i < l.len() && #[trigger] covers(l[i], px, py)) by {
        assert(in_rect(px, py, col + 1, row + 1, w2 as int, h2 as int));
        if layout_gap(t, col, row, width, height, b, px, py) {
            assert forall|i: int| 0 <= i < l.len() implies !#[trigger] covers(l[i], px, py) by {
                if covers(l[i], px, py) {
                    assert(!in_gap(t, 1, 1, w2, h2, g, col, row, px, py));
                }
            }
        }
    }
}

} // verus!
