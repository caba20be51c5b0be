//! The pane-layout engine: a tree of horizontal and vertical splits whose
//! children have fixed or weighted sizes, laid out into leaf rectangles with
//! borders drawn between them.

use vstd::prelude::*;
use crate::border::{
    gap_spec, glyph, BorderStyle, CROSS, HORIZONTAL, TEE_DOWN, TEE_LEFT, TEE_RIGHT, TEE_UP, VERTICAL,
};
use crate::canvas::{box_ops, hbar_ops, rendered, vbar_ops, Canvas, InstructionBuffer, Op};
use crate::style::{plain_style, style_code};

verus! {

/// The extent of a child along its parent's split axis.
#[derive(Clone, Copy, Debug, PartialEq, Eq, Structural)]
pub enum PaneSize {
    /// Exactly this many cells.
    Fixed(u16),
    /// A share of the space the fixed children leave, in proportion to the
    /// weights of the other relative siblings.
    Relative(u16),
}

/// Why a layout cannot be computed.
#[derive(Clone, Copy, Debug, PartialEq, Eq, Structural)]
pub enum LayoutError {
    /// A split has a relative child while its relative weights sum to zero.
    ZeroWeight,
}

pub open spec fn fixed_of(p: PaneSize) -> nat {
    match p {
        PaneSize::Fixed(n) => n as nat,
        PaneSize::Relative(_) => 0,
    }
}

pub open spec fn weight_of(p: PaneSize) -> nat {
    match p {
        PaneSize::Fixed(_) => 0,
        PaneSize::Relative(w) => w as nat,
    }
}

pub open spec fn total_fixed(s: Seq<PaneSize>) -> nat
    decreases s.len(),
{
    if s.len() == 0 {
        0
    } else {
        total_fixed(s.drop_last()) + fixed_of(s.last())
    }
}

pub open spec fn total_relative(s: Seq<PaneSize>) -> nat
    decreases s.len(),
{
    if s.len() == 0 {
        0
    } else {
        total_relative(s.drop_last()) + weight_of(s.last())
    }
}

pub open spec fn has_relative(s: Seq<PaneSize>) -> bool {
    exists|i: int| 0 <= i < s.len() && #[trigger] s[i] is Relative
}

/// Sizes that can be laid out: relative children have weight to share.
pub open spec fn weights_ok(s: Seq<PaneSize>) -> bool {
    has_relative(s) ==> total_relative(s) > 0
}

/// `a - b`, or zero where `b` is larger.
pub open spec fn nsub(a: nat, b: nat) -> nat {
    if a >= b { (a - b) as nat } else { 0 }
}

pub open spec fn nmin(a: nat, b: nat) -> nat {
    if a <= b { a } else { b }
}

/// The cells that relative children share: what is left of `avail` after
/// the fixed children and the gaps between all children.
pub open spec fn shared_space(s: Seq<PaneSize>, avail: nat, gap: nat) -> nat {
    nsub(nsub(avail, total_fixed(s)), gap * nsub(s.len(), 1))
}

/// The extent child `k` asks for when it would start at offset `o`: a fixed
/// size as given, a relative one its weighted share of the shared space,
/// rounded down, except that the last child takes everything that is left.
pub open spec fn wanted(s: Seq<PaneSize>, k: int, o: nat, avail: nat, gap: nat) -> nat {
    match s[k] {
        PaneSize::Fixed(n) => n as nat,
        PaneSize::Relative(w) => if k == s.len() - 1 {
            nsub(avail, o)
        } else {
            shared_space(s, avail, gap) * (w as nat) / total_relative(s)
        },
    }
}

/// The (offset, extent) of children `k..` along an axis of `avail` cells,
/// child `k` starting at offset `o`. Each child gets what it asks for, cut
/// to what is left of the axis; `gap` cells follow every child.
pub open spec fn parts_from(s: Seq<PaneSize>, k: int, o: nat, avail: nat, gap: nat) -> Seq<
    (u16, u16),
>
    decreases s.len() - k,
{
    if k < 0 || k >= s.len() {
        Seq::empty()
    } else {
        let e = nmin(wanted(s, k, o, avail, gap), nsub(avail, o));
        seq![(o as u16, e as u16)] + parts_from(s, k + 1, nmin(o + e + gap, avail), avail, gap)
    }
}

/// The (offset, extent) of every child of a split along an axis of `avail`
/// cells, with `gap` cells between neighbours.
pub open spec fn parts(s: Seq<PaneSize>, avail: nat, gap: nat) -> Seq<(u16, u16)> {
    parts_from(s, 0, 0, avail, gap)
}

/// A layout tree: a pane holding a payload of the caller's, or a horizontal
/// (side by side) or vertical (stacked) split of sized children.
pub enum Paner<T> {
    Pane(T),
    Horizontal(Vec<(PaneSize, Paner<T>)>),
    Vertical(Vec<(PaneSize, Paner<T>)>),
}

/// A leaf of a rendered layout: its payload and its rectangle (column, row,
/// width, height).
pub type Leaf<T> = (T, u16, u16, u16, u16);

pub open spec fn sizes_of<T>(c: Seq<(PaneSize, Paner<T>)>) -> Seq<PaneSize> {
    c.map_values(|p: (PaneSize, Paner<T>)| p.0)
}

/// Every split of the tree can be laid out.
pub open spec fn tree_ok<T>(t: Paner<T>) -> bool
    decreases t, 0nat,
{
    match t {
        Paner::Pane(_) => true,
        Paner::Horizontal(c) => weights_ok(sizes_of(c@)) && children_ok(c, 0),
        Paner::Vertical(c) => weights_ok(sizes_of(c@)) && children_ok(c, 0),
    }
}

pub open spec fn children_ok<T>(c: Vec<(PaneSize, Paner<T>)>, k: int) -> bool
    decreases c, c@.len() - k,
{
    if k < 0 || k >= c@.len() {
        true
    } else {
        tree_ok(c@[k].1) && children_ok(c, k + 1)
    }
}

/// The rectangle (column, row, width, height) of a child at offset `o` with
/// extent `e` in the split rectangle (`x`, `y`, `w`, `h`).
pub open spec fn child_rect(horizontal: bool, o: u16, e: u16, x: u16, y: u16, w: u16, h: u16) -> (
    u16,
    u16,
    u16,
    u16,
) {
    if horizontal {
        ((x + o) as u16, y, e, h)
    } else {
        (x, (y + o) as u16, w, e)
    }
}

/// The leaves of the tree laid out in the rectangle (`x`, `y`, `w`, `h`),
/// in tree order, their rectangles moved by (`ox`, `oy`).
pub open spec fn node_leaves<T>(
    t: Paner<T>,
    x: u16,
    y: u16,
    w: u16,
    h: u16,
    gap: nat,
    ox: u16,
    oy: u16,
) -> Seq<Leaf<T>>
    decreases t, 0nat,
{
    match t {
        Paner::Pane(p) => seq![(p, (ox + x) as u16, (oy + y) as u16, w, h)],
        Paner::Horizontal(c) => children_leaves(
            c,
            0,
            parts(sizes_of(c@), w as nat, gap),
            true,
            x,
            y,
            w,
            h,
            gap,
            ox,
            oy,
        ),
        Paner::Vertical(c) => children_leaves(
            c,
            0,
            parts(sizes_of(c@), h as nat, gap),
            false,
            x,
            y,
            w,
            h,
            gap,
            ox,
            oy,
        ),
    }
}

/// The leaves of children `k..` of a split, child `i` laid out in its part
/// `p[i]` of the split rectangle.
pub open spec fn children_leaves<T>(
    c: Vec<(PaneSize, Paner<T>)>,
    k: int,
    p: Seq<(u16, u16)>,
    horizontal: bool,
    x: u16,
    y: u16,
    w: u16,
    h: u16,
    gap: nat,
    ox: u16,
    oy: u16,
) -> Seq<Leaf<T>>
    decreases c, c@.len() - k,
{
    if k < 0 || k >= c@.len() {
        Seq::empty()
    } else {
        let r = child_rect(horizontal, p[k].0, p[k].1, x, y, w, h);
        node_leaves(c@[k].1, r.0, r.1, r.2, r.3, gap, ox, oy) + children_leaves(
            c,
            k + 1,
            p,
            horizontal,
            x,
            y,
            w,
            h,
            gap,
            ox,
            oy,
        )
    }
}

/// The operations that write glyph `g` at one cell.
pub open spec fn mark_ops(col: u16, row: u16, g: Seq<char>, st: Seq<char>) -> Seq<Op> {
    seq![Op::Cursor(col, row), Op::Style(st), Op::Text(g)]
}

/// The style every border glyph is drawn in.
pub open spec fn border_style_code() -> Seq<char> {
    style_code(plain_style())
}

/// The separator of a connected border in front of child `k` of a split: a
/// bar across the whole split in the cell that follows child `k - 1`, and a
/// tee at each of its ends where it meets the enclosing border. Nothing if
/// child `k - 1` reaches the end of the split.
pub open spec fn separator_ops(
    p: Seq<(u16, u16)>,
    k: int,
    horizontal: bool,
    x: u16,
    y: u16,
    w: u16,
    h: u16,
    b: BorderStyle,
) -> Seq<Op> {
    let s = p[k - 1].0 + p[k - 1].1;
    let st = border_style_code();
    if s >= (if horizontal { w } else { h }) {
        Seq::empty()
    } else if horizontal {
        let c = (x + s) as u16;
        seq![Op::Style(st)] + vbar_ops(c, y, h as nat, glyph(b, VERTICAL as int)) + mark_ops(
            c,
            (y - 1) as u16,
            glyph(b, TEE_DOWN as int),
            st,
        ) + mark_ops(c, (y + h) as u16, glyph(b, TEE_UP as int), st)
    } else {
        let r = (y + s) as u16;
        hbar_ops(x, r, w as nat, glyph(b, HORIZONTAL as int), st) + mark_ops(
            (x - 1) as u16,
            r,
            glyph(b, TEE_RIGHT as int),
            st,
        ) + mark_ops((x + w) as u16, r, glyph(b, TEE_LEFT as int), st)
    }
}

/// The separators in front of children `k..` of a split.
pub open spec fn separators_from(
    p: Seq<(u16, u16)>,
    k: int,
    horizontal: bool,
    x: u16,
    y: u16,
    w: u16,
    h: u16,
    b: BorderStyle,
) -> Seq<Op>
    decreases p.len() - k,
{
    if k < 1 || k >= p.len() {
        Seq::empty()
    } else {
        separator_ops(p, k, horizontal, x, y, w, h, b) + separators_from(
            p,
            k + 1,
            horizontal,
            x,
            y,
            w,
            h,
            b,
        )
    }
}

/// The drawing operations of the tree laid out in (`x`, `y`, `w`, `h`): a
/// connected border draws each split's separators before its children; a
/// disconnected border draws a box just outside every pane. Once the
/// children are drawn, a connected border turns into crosses the tees that
/// meet from both sides of a separator.
pub open spec fn node_ops<T>(t: Paner<T>, x: u16, y: u16, w: u16, h: u16, b: BorderStyle) -> Seq<
    Op,
>
    decreases t, 0nat,
{
    match t {
        Paner::Pane(_) => if b is Disconnected {
            box_ops((x - 1) as u16, (y - 1) as u16, (w + 2) as u16, (h + 2) as u16, b, border_style_code())
        } else {
            Seq::empty()
        },
        Paner::Horizontal(c) => {
            let p = parts(sizes_of(c@), w as nat, gap_of(b));
            (if b is Connected {
                separators_from(p, 1, true, x, y, w, h, b)
            } else {
                Seq::empty()
            }) + children_ops(c, 0, p, true, x, y, w, h, b) + (if b is Connected {
                crosses_from(c, 1, p, true, x, y, w, h, b)
            } else {
                Seq::empty()
            })
        },
        Paner::Vertical(c) => {
            let p = parts(sizes_of(c@), h as nat, gap_of(b));
            (if b is Connected {
                separators_from(p, 1, false, x, y, w, h, b)
            } else {
                Seq::empty()
            }) + children_ops(c, 0, p, false, x, y, w, h, b) + (if b is Connected {
                crosses_from(c, 1, p, false, x, y, w, h, b)
            } else {
                Seq::empty()
            })
        },
    }
}

pub open spec fn children_ops<T>(
    c: Vec<(PaneSize, Paner<T>)>,
    k: int,
    p: Seq<(u16, u16)>,
    horizontal: bool,
    x: u16,
    y: u16,
    w: u16,
    h: u16,
    b: BorderStyle,
) -> Seq<Op>
    decreases c, c@.len() - k,
{
    if k < 0 || k >= c@.len() {
        Seq::empty()
    } else {
        let r = child_rect(horizontal, p[k].0, p[k].1, x, y, w, h);
        node_ops(c@[k].1, r.0, r.1, r.2, r.3, b) + children_ops(c, k + 1, p, horizontal, x, y, w, h, b)
    }
}

/// A side of a rectangle.
#[derive(Clone, Copy, Debug, PartialEq, Eq, Structural)]
pub enum Side {
    Top,
    Bottom,
    Left,
    Right,
}

/// The separators of a split run across it, so they reach these two sides.
pub open spec fn crossed_by_bars(horizontal: bool, side: Side) -> bool {
    if horizontal {
        side == Side::Top || side == Side::Bottom
    } else {
        side == Side::Left || side == Side::Right
    }
}

/// The side of a split at which its first child starts.
pub open spec fn leading(horizontal: bool, side: Side) -> bool {
    if horizontal {
        side == Side::Left
    } else {
        side == Side::Top
    }
}

/// The positions (columns for a horizontal split, rows for a vertical one)
/// of the separators in front of children `k..`, starting from `base`.
pub open spec fn bar_positions(p: Seq<(u16, u16)>, k: int, base: u16, axis: u16) -> Seq<u16>
    decreases p.len() - k,
{
    if k < 1 || k >= p.len() {
        Seq::empty()
    } else {
        let s = p[k - 1].0 + p[k - 1].1;
        (if s < axis {
            seq![(base + s) as u16]
        } else {
            Seq::empty()
        }) + bar_positions(p, k + 1, base, axis)
    }
}

/// Where the separators of a connected border inside the tree laid out in
/// (`x`, `y`, `w`, `h`) meet the line just beyond `side`: columns for the
/// top and bottom, rows for the left and right, in drawing order.
pub open spec fn node_seams<T>(t: Paner<T>, x: u16, y: u16, w: u16, h: u16, side: Side) -> Seq<u16>
    decreases t, 0nat,
{
    match t {
        Paner::Pane(_) => Seq::empty(),
        Paner::Horizontal(c) => {
            let p = parts(sizes_of(c@), w as nat, 1);
            (if crossed_by_bars(true, side) {
                bar_positions(p, 1, x, w)
            } else {
                Seq::empty()
            }) + children_seams(c, 0, p, true, x, y, w, h, side)
        },
        Paner::Vertical(c) => {
            let p = parts(sizes_of(c@), h as nat, 1);
            (if crossed_by_bars(false, side) {
                bar_positions(p, 1, y, h)
            } else {
                Seq::empty()
            }) + children_seams(c, 0, p, false, x, y, w, h, side)
        },
    }
}

/// The seams on `side` that children `k..` of a split contribute: on the
/// sides the split's own separators cross, every child's seams;
/// on the leading side the first child's; on the trailing side the last
/// child's, if it reaches the end of the split.
pub open spec fn children_seams<T>(
    c: Vec<(PaneSize, Paner<T>)>,
    k: int,
    p: Seq<(u16, u16)>,
    horizontal: bool,
    x: u16,
    y: u16,
    w: u16,
    h: u16,
    side: Side,
) -> Seq<u16>
    decreases c, c@.len() - k,
{
    if k < 0 || k >= c@.len() {
        Seq::empty()
    } else {
        let r = child_rect(horizontal, p[k].0, p[k].1, x, y, w, h);
        let axis = if horizontal { w } else { h };
        let own = if crossed_by_bars(horizontal, side) {
            node_seams(c@[k].1, r.0, r.1, r.2, r.3, side)
        } else if leading(horizontal, side) {
            if k == 0 {
                node_seams(c@[k].1, r.0, r.1, r.2, r.3, side)
            } else {
                Seq::empty()
            }
        } else {
            if k == c@.len() - 1 && p[k].0 + p[k].1 == axis {
                node_seams(c@[k].1, r.0, r.1, r.2, r.3, side)
            } else {
                Seq::empty()
            }
        };
        own + children_seams(c, k + 1, p, horizontal, x, y, w, h, side)
    }
}

/// Cross glyphs on the separator at `at` (a column for a horizontal split,
/// a row for a vertical one) wherever a seam in `a` from the child before
/// it meets a seam in `b` from the child after it.
pub open spec fn cross_marks(a: Seq<u16>, b: Seq<u16>, horizontal: bool, at: u16, g: Seq<char>) -> Seq<
    Op,
>
    decreases a.len(),
{
    if a.len() == 0 {
        Seq::empty()
    } else {
        cross_marks(a.drop_last(), b, horizontal, at, g) + if b.contains(a.last()) {
            if horizontal {
                mark_ops(at, a.last(), g, border_style_code())
            } else {
                mark_ops(a.last(), at, g, border_style_code())
            }
        } else {
            Seq::empty()
        }
    }
}

/// The crosses on the separators in front of children `k..` of a split.
pub open spec fn crosses_from<T>(
    c: Vec<(PaneSize, Paner<T>)>,
    k: int,
    p: Seq<(u16, u16)>,
    horizontal: bool,
    x: u16,
    y: u16,
    w: u16,
    h: u16,
    b: BorderStyle,
) -> Seq<Op>
    decreases c@.len() - k,
{
    if k < 1 || k >= c@.len() {
        Seq::empty()
    } else {
        let s = p[k - 1].0 + p[k - 1].1;
        let axis = if horizontal { w } else { h };
        let before = child_rect(horizontal, p[k - 1].0, p[k - 1].1, x, y, w, h);
        let after = child_rect(horizontal, p[k].0, p[k].1, x, y, w, h);
        let far = if horizontal { Side::Right } else { Side::Bottom };
        let near = if horizontal { Side::Left } else { Side::Top };
        (if s < axis {
            cross_marks(
                node_seams(c@[k - 1].1, before.0, before.1, before.2, before.3, far),
                node_seams(c@[k].1, after.0, after.1, after.2, after.3, near),
                horizontal,
                ((if horizontal { x } else { y }) + s) as u16,
                glyph(b, CROSS as int),
            )
        } else {
            Seq::empty()
        }) + crosses_from(c, k + 1, p, horizontal, x, y, w, h, b)
    }
}

pub open spec fn gap_of(b: BorderStyle) -> nat {
    crate::border::gap_spec(b)
}

fn fixed_number(p: &PaneSize) -> (r: u16)
    ensures
        r == fixed_of(*p),
{
    match p {
        PaneSize::Fixed(n) => *n,
        PaneSize::Relative(_) => 0,
    }
}

fn weight_number(p: &PaneSize) -> (r: u16)
    ensures
        r == weight_of(*p),
{
    match p {
        PaneSize::Fixed(_) => 0,
        PaneSize::Relative(w) => *w,
    }
}

/// Sums the fixed sizes and the relative weights of `sizes`, and tells
/// whether any size is relative.
fn totals(sizes: &Vec<PaneSize>) -> (r: (u128, u128, bool))
    ensures
        r.0 == total_fixed(sizes@),
        r.1 == total_relative(sizes@),
        r.2 == has_relative(sizes@),
{
    let mut fixed: u128 = 0;
    let mut rel: u128 = 0;
    let mut any_rel = false;
    let mut i: usize = 0;
    while i < sizes.len()
        invariant
            i <= sizes@.len(),
            fixed == total_fixed(sizes@.take(i as int)),
            rel == total_relative(sizes@.take(i as int)),
            fixed <= 65535 * i,
            rel <= 65535 * i,
            any_rel == exists|j: int| 0 <= j < i && #[trigger] sizes@[j] is Relative,
        decreases sizes@.len() - i,
    {
        proof {
            assert(sizes@.take(i + 1).drop_last() =~= sizes@.take(i as int));
        }
        fixed = fixed + fixed_number(&sizes[i]) as u128;
        rel = rel + weight_number(&sizes[i]) as u128;
        if let PaneSize::Relative(_) = sizes[i] {
            any_rel = true;
        }
        i = i + 1;
    }
    proof {
        assert(sizes@.take(i as int) =~= sizes@);
    }
    (fixed, rel, any_rel)
}

/// Lays out a split's children along an axis of `available` cells with `gap`
/// cells between neighbours: the (offset, extent) of each child, in order.
pub fn split_extents(sizes: &Vec<PaneSize>, available: u16, gap: u16) -> (r: Result<
    Vec<(u16, u16)>,
    LayoutError,
>)
    ensures
        r is Ok <==> weights_ok(sizes@),
        r matches Ok(v) ==> v@ == parts(sizes@, available as nat, gap as nat),
        r matches Err(e) ==> e == LayoutError::ZeroWeight,
{
    let (fixed, rel, any_rel) = totals(sizes);
    if any_rel && rel == 0 {
        return Err(LayoutError::ZeroWeight);
    }
    let n = sizes.len();
    let avail = available as u128;
    let g = gap as u128;
    let after_fixed: u128 = if avail >= fixed { avail - fixed } else { 0 };
    let gaps: u128 = if n == 0 {
        0
    } else {
        assert(g * (n as u128 - 1) <= 65535 * 0x1_0000_0000_0000_0000) by (nonlinear_arith)
            requires
                g <= 65535,
                n as u128 - 1 <= 0x1_0000_0000_0000_0000,
        {}
        g * (n as u128 - 1)
    };
    assert(gaps == gap * nsub(sizes@.len(), 1)) by {
        if n == 0 {
            assert(gap * nsub(sizes@.len(), 1) == 0) by (nonlinear_arith)
                requires
                    nsub(sizes@.len(), 1) == 0,
            {}
        } else {
            assert(nsub(sizes@.len(), 1) == n - 1);
        }
    }
    let space: u128 = if after_fixed >= gaps { after_fixed - gaps } else { 0 };
    assert(space == shared_space(sizes@, available as nat, gap as nat)) by (nonlinear_arith)
        requires
            gaps == gap * nsub(sizes@.len(), 1),
            after_fixed == nsub(available as nat, total_fixed(sizes@)),
            space == if after_fixed >= gaps { after_fixed - gaps } else { 0 },
    {}
    let mut out: Vec<(u16, u16)> = Vec::new();
    let mut o: u128 = 0;
    let mut k: usize = 0;
    while k < n
        invariant
            n == sizes@.len(),
            k <= n,
            o <= avail,
            avail == available,
            g == gap,
            rel == total_relative(sizes@),
            weights_ok(sizes@),
            space == shared_space(sizes@, available as nat, gap as nat),
            space <= 65535,
            out@ + parts_from(sizes@, k as int, o as nat, avail as nat, g as nat) == parts(
                sizes@,
                available as nat,
                gap as nat,
            ),
        decreases n - k,
    {
        let left = avail - o;
        let want: u128 = match sizes[k] {
            PaneSize::Fixed(size) => size as u128,
            PaneSize::Relative(w) => {
                if k == n - 1 {
                    left
                } else {
                    proof {
                        assert(sizes@[k as int] is Relative);
                    }
                    assert(space * (w as u128) <= 65535 * 65535) by (nonlinear_arith)
                        requires
                            space <= 65535,
                            w <= 65535,
                    {}
                    space * (w as u128) / rel
                }
            },
        };
        let e = if want <= left { want } else { left };
        out.push((o as u16, e as u16));
        let next = o + e + g;
        o = if next <= avail { next } else { avail };
        k = k + 1;
        proof {
            let s = sizes@;
            assert(out@ + parts_from(s, k as int, o as nat, avail as nat, g as nat) =~= parts(
                s,
                available as nat,
                gap as nat,
            ));
        }
    }
    proof {
        assert(parts_from(sizes@, k as int, o as nat, avail as nat, g as nat) =~= Seq::empty());
        assert(out@ =~= parts(sizes@, available as nat, gap as nat));
    }
    Ok(out)
}

pub(crate) proof fn lemma_parts_from_bounds(s: Seq<PaneSize>, k: int, o: nat, avail: nat, gap: nat)
    requires
        0 <= k <= s.len(),
        o <= avail,
        avail <= u16::MAX,
    ensures
        parts_from(s, k, o, avail, gap).len() == s.len() - k,
        forall|i: int|
            0 <= i < s.len() - k ==> {
                let q = #[trigger] parts_from(s, k, o, avail, gap)[i];
                q.0 as nat + q.1 as nat <= avail
            },
    decreases s.len() - k,
{
    if k < s.len() {
        let e = nmin(wanted(s, k, o, avail, gap), nsub(avail, o));
        let o2 = nmin(o + e + gap, avail);
        lemma_parts_from_bounds(s, k + 1, o2, avail, gap);
        let rest = parts_from(s, k + 1, o2, avail, gap);
        assert forall|i: int| 0 <= i < s.len() - k implies {
            let q = #[trigger] parts_from(s, k, o, avail, gap)[i];
            q.0 as nat + q.1 as nat <= avail
        } by {
            if i > 0 {
                assert(parts_from(s, k, o, avail, gap)[i] == rest[i - 1]);
            }
        }
    }
}

pub(crate) proof fn lemma_parts_bounds(s: Seq<PaneSize>, avail: nat, gap: nat)
    requires
        avail <= u16::MAX,
    ensures
        parts(s, avail, gap).len() == s.len(),
        forall|i: int|
            0 <= i < s.len() ==> {
                let q = #[trigger] parts(s, avail, gap)[i];
                q.0 as nat + q.1 as nat <= avail
            },
{
    lemma_parts_from_bounds(s, 0, 0, avail, gap);
}

proof fn lemma_children_ok<T>(c: Vec<(PaneSize, Paner<T>)>, k: int)
    requires
        0 <= k,
        children_ok(c, k),
    ensures
        forall|i: int| k <= i < c@.len() ==> tree_ok(#[trigger] c@[i].1),
    decreases c@.len() - k,
{
    if k < c@.len() {
        lemma_children_ok(c, k + 1);
    }
}

proof fn lemma_child_decreases<T>(t: &Paner<T>, c: Vec<(PaneSize, Paner<T>)>, k: int)
    requires
        *t == Paner::Horizontal(c) || *t == Paner::Vertical(c),
        0 <= k < c@.len(),
    ensures
        decreases_to!(*t => c@[k].1),
{
    assert(decreases_to!(c => c@));
    assert(decreases_to!(c@ => c@[k]));
    assert(decreases_to!(c@[k] => c@[k].1));
    if *t == Paner::Horizontal(c) {
        assert(decreases_to!(*t => t->Horizontal_0));
    } else {
        assert(decreases_to!(*t => t->Vertical_0));
    }
}

/// The leaves of a rendered layout as the contracts see them.
pub open spec fn leaf_view<T>(v: Seq<(&T, u16, u16, u16, u16)>) -> Seq<Leaf<T>> {
    v.map_values(|l: (&T, u16, u16, u16, u16)| (*l.0, l.1, l.2, l.3, l.4))
}

/// The drawing operations of a whole layout in a `width` by `height`
/// rectangle: a connected border first draws the outer box, then the tree
/// is laid out one cell inside it.
pub open spec fn layout_ops<T>(t: Paner<T>, width: u16, height: u16, b: BorderStyle) -> Seq<Op> {
    (if b is Connected {
        box_ops(0, 0, width, height, b, border_style_code())
    } else {
        Seq::empty()
    }) + node_ops(t, 1, 1, sat16(width, 2), sat16(height, 2), b)
}

pub open spec fn sat16(a: u16, b: u16) -> u16 {
    if a >= b { (a - b) as u16 } else { 0 }
}

/// The border text of a layout whose rectangle starts at (`col`, `row`).
pub open spec fn layout_text<T>(
    t: Paner<T>,
    col: u16,
    row: u16,
    width: u16,
    height: u16,
    b: BorderStyle,
) -> Seq<char> {
    rendered(layout_ops(t, width, height, b), col as nat, row as nat, width, height, row as int)
}

/// The leaves of a layout whose rectangle is (`col`, `row`, `width`,
/// `height`), each inside the one-cell outer margin.
pub open spec fn layout_leaves<T>(
    t: Paner<T>,
    col: u16,
    row: u16,
    width: u16,
    height: u16,
    b: BorderStyle,
) -> Seq<Leaf<T>> {
    node_leaves(t, 1, 1, sat16(width, 2), sat16(height, 2), gap_spec(b), col, row)
}

fn sizes_vec<T>(c: &Vec<(PaneSize, Paner<T>)>) -> (r: Vec<PaneSize>)
    ensures
        r@ == sizes_of(c@),
{
    let mut r: Vec<PaneSize> = Vec::new();
    let mut i: usize = 0;
    while i < c.len()
        invariant
            i <= c@.len(),
            r@ == sizes_of(c@).take(i as int),
        decreases c@.len() - i,
    {
        r.push(c[i].0);
        i = i + 1;
        assert(r@ =~= sizes_of(c@).take(i as int));
    }
    assert(r@ =~= sizes_of(c@));
    r
}

/// Whether `v` holds `x`.
fn contains(v: &Vec<u16>, x: u16) -> (r: bool)
    ensures
        r == v@.contains(x),
{
    let mut i: usize = 0;
    while i < v.len()
        invariant
            i <= v@.len(),
            forall|j: int| 0 <= j < i ==> v@[j] != x,
        decreases v@.len() - i,
    {
        if v[i] == x {
            return true;
        }
        i = i + 1;
    }
    false
}

/// Draws the separators of a connected border between the children of a
/// split laid out in (`x`, `y`, `w`, `h`) with parts `p`.
fn draw_separators(
    canvas: &mut InstructionBuffer,
    p: &Vec<(u16, u16)>,
    horizontal: bool,
    x: u16,
    y: u16,
    w: u16,
    h: u16,
    axis: u16,
    border: &BorderStyle,
)
    requires
        *border is Connected,
        1 <= x,
        1 <= y,
        x + w + 2 <= u16::MAX,
        y + h + 2 <= u16::MAX,
        axis == (if horizontal { w } else { h }),
        forall|i: int|
            0 <= i < p@.len() ==> (#[trigger] p@[i]).0 as nat + p@[i].1 as nat <= axis,
        old(canvas).fallback() == plain_style(),
    ensures
        final(canvas).ops() == old(canvas).ops() + separators_from(p@, 1, horizontal, x, y, w, h, *border),
        final(canvas).fallback() == plain_style(),
        final(canvas).dims() == old(canvas).dims(),
{
    let ghost base = canvas.ops();
    let mut k: usize = 1;
    while k < p.len()
        invariant
            1 <= k,
            *border is Connected,
            1 <= x,
            1 <= y,
            x + w + 2 <= u16::MAX,
            y + h + 2 <= u16::MAX,
            axis == (if horizontal { w } else { h }),
            forall|i: int|
                0 <= i < p@.len() ==> (#[trigger] p@[i]).0 as nat + p@[i].1 as nat <= axis,
            canvas.fallback() == plain_style(),
            canvas.dims() == old(canvas).dims(),
            canvas.ops() + separators_from(p@, k as int, horizontal, x, y, w, h, *border) == base
                + separators_from(p@, 1, horizontal, x, y, w, h, *border),
        decreases p@.len() - k,
    {
        let ghost before = canvas.ops();
        let sep = p[k - 1].0 + p[k - 1].1;
        if sep < axis {
            if horizontal {
                canvas.draw_vbar(x + sep, y, h, border.glyph(VERTICAL), None);
                canvas.addstr(x + sep, y - 1, border.glyph(TEE_DOWN), None);
                canvas.addstr(x + sep, y + h, border.glyph(TEE_UP), None);
            } else {
                canvas.draw_hbar(x, y + sep, w, border.glyph(HORIZONTAL), None);
                canvas.addstr(x - 1, y + sep, border.glyph(TEE_RIGHT), None);
                canvas.addstr(x + w, y + sep, border.glyph(TEE_LEFT), None);
            }
        }
        assert(canvas.ops() =~= before + separator_ops(p@, k as int, horizontal, x, y, w, h, *border));
        k = k + 1;
    }
    assert(canvas.ops() =~= base + separators_from(p@, 1, horizontal, x, y, w, h, *border));
}

/// Writes `cross` on the separator at `at` wherever a seam in `far` is also
/// in `near`.
fn draw_cross_marks(
    canvas: &mut InstructionBuffer,
    far: &Vec<u16>,
    near: &Vec<u16>,
    horizontal: bool,
    at: u16,
    cross: &str,
)
    requires
        old(canvas).fallback() == plain_style(),
    ensures
        final(canvas).ops() == old(canvas).ops() + cross_marks(far@, near@, horizontal, at, cross@),
        final(canvas).fallback() == plain_style(),
        final(canvas).dims() == old(canvas).dims(),
{
    let ghost before = canvas.ops();
    let mut i: usize = 0;
    while i < far.len()
        invariant
            i <= far@.len(),
            canvas.fallback() == plain_style(),
            canvas.dims() == old(canvas).dims(),
            canvas.ops() == before + cross_marks(far@.take(i as int), near@, horizontal, at, cross@),
        decreases far@.len() - i,
    {
        proof {
            assert(far@.take(i + 1).drop_last() =~= far@.take(i as int));
        }
        if contains(near, far[i]) {
            if horizontal {
                canvas.addstr(at, far[i], cross, None);
            } else {
                canvas.addstr(far[i], at, cross, None);
            }
        }
        i = i + 1;
        assert(canvas.ops() =~= before + cross_marks(far@.take(i as int), near@, horizontal, at, cross@));
    }
    assert(far@.take(i as int) =~= far@);
}

impl<T> Paner<T> {
    /// The children of a split, and whether it is horizontal.
    fn split_parts(&self) -> (r: (&Vec<(PaneSize, Paner<T>)>, bool))
        requires
            !(*self is Pane),
        ensures
            r.1 ==> *self == Paner::Horizontal(*r.0),
            !r.1 ==> *self == Paner::Vertical(*r.0),
    {
        match self {
            Paner::Horizontal(c) => (c, true),
            Paner::Vertical(c) => (c, false),
            Paner::Pane(_) => (unreached(), true),
        }
    }
    /// Whether every split of the tree can be laid out.
    pub fn is_valid(&self) -> (r: bool)
        ensures
            r == tree_ok(*self),
        decreases self,
    {
        match self {
            Paner::Pane(_) => true,
            _ => {
                let (c, horizontal) = self.split_parts();
                let sizes = sizes_vec(c);
                let (_, rel, any_rel) = totals(&sizes);
                if any_rel && rel == 0 {
                    return false;
                }
                let mut k: usize = 0;
                while k < c.len()
                    invariant
                        k <= c@.len(),
                        horizontal ==> *self == Paner::Horizontal(*c),
                        !horizontal ==> *self == Paner::Vertical(*c),
                        weights_ok(sizes_of(c@)),
                        children_ok(*c, 0) == children_ok(*c, k as int),
                    decreases c@.len() - k,
                {
                    proof {
                        lemma_child_decreases(self, *c, k as int);
                    }
                    if !c[k].1.is_valid() {
                        return false;
                    }
                    k = k + 1;
                }
                true
            },
        }
    }

    /// Lays the tree out in the rectangle (`start_col`, `start_row`, `width`,
    /// `height`), one cell inside its edge, and draws the borders: the border
    /// text to write to the terminal, and every pane's payload with its
    /// rectangle, in tree order.
    pub fn render<'a>(
        &'a self,
        start_col: u16,
        start_row: u16,
        width: u16,
        height: u16,
        border: &BorderStyle,
    ) -> (r: Result<(String, Vec<(&'a T, u16, u16, u16, u16)>), LayoutError>)
        requires
            start_col + width + 3 <= u16::MAX,
            start_row + height + 3 <= u16::MAX,
        ensures
            r is Ok <==> tree_ok(*self),
            r matches Ok(out) ==> out.0@ == layout_text(
                *self,
                start_col,
                start_row,
                width,
                height,
                *border,
            ) && leaf_view(out.1@) == layout_leaves(
                *self,
                start_col,
                start_row,
                width,
                height,
                *border,
            ),
            r matches Err(e) ==> e == LayoutError::ZeroWeight,
    {
        if !self.is_valid() {
            return Err(LayoutError::ZeroWeight);
        }
        let mut canvas = InstructionBuffer::new(width, height, None);
        if let BorderStyle::Connected(..) = border {
            canvas.draw_box(0, 0, width, height, border, None);
        }
        let ghost base = canvas.ops();
        assert(base =~= (if *border is Connected {
            box_ops(0, 0, width, height, *border, border_style_code())
        } else {
            Seq::empty()
        }));
        let mut leaves: Vec<(&'a T, u16, u16, u16, u16)> = Vec::new();
        self.render_sub(
            &mut canvas,
            1,
            1,
            width.saturating_sub(2),
            height.saturating_sub(2),
            border,
            start_col,
            start_row,
            &mut leaves,
        );
        let text = canvas.render(start_col, start_row);
        assert(leaf_view(leaves@) =~= layout_leaves(
            *self,
            start_col,
            start_row,
            width,
            height,
            *border,
        ));
        Ok((text, leaves))
    }

    /// Where the separators of a connected border inside the tree meet the
    /// line just beyond `side` of (`x`, `y`, `w`, `h`).
    fn edge_seams(&self, x: u16, y: u16, w: u16, h: u16, side: Side) -> (r: Vec<u16>)
        requires
            tree_ok(*self),
            x + w + 2 <= u16::MAX,
            y + h + 2 <= u16::MAX,
        ensures
            r@ == node_seams(*self, x, y, w, h, side),
        decreases self,
    {
        match self {
            Paner::Pane(_) => Vec::new(),
            _ => {
                let (c, horizontal) = self.split_parts();
                let sizes = sizes_vec(c);
                let axis = if horizontal { w } else { h };
                let base = if horizontal { x } else { y };
                let p = match split_extents(&sizes, axis, 1) {
                    Ok(p) => p,
                    Err(_) => {
                        // a valid tree has weight to share in every split
                        proof {
                            assert(false);
                        }
                        return Vec::new();
                    },
                };
                proof {
                    lemma_parts_bounds(sizes@, axis as nat, 1);
                    lemma_children_ok(*c, 0);
                }
                let crossed = match side {
                    Side::Top | Side::Bottom => horizontal,
                    Side::Left | Side::Right => !horizontal,
                };
                let lead = match side {
                    Side::Left => horizontal,
                    Side::Top => !horizontal,
                    _ => false,
                };
                let mut out: Vec<u16> = Vec::new();
                if crossed {
                    let mut k: usize = 1;
                    while k < p.len()
                        invariant
                            1 <= k,
                            base + axis + 2 <= u16::MAX,
                            forall|i: int|
                                0 <= i < p@.len() ==> (#[trigger] p@[i]).0 as nat + p@[i].1 as nat
                                    <= axis,
                            out@ + bar_positions(p@, k as int, base, axis) == bar_positions(
                                p@,
                                1,
                                base,
                                axis,
                            ),
                        decreases p@.len() - k,
                    {
                        let sep = p[k - 1].0 + p[k - 1].1;
                        if sep < axis {
                            out.push(base + sep);
                        }
                        k = k + 1;
                        assert(out@ + bar_positions(p@, k as int, base, axis) =~= bar_positions(
                            p@,
                            1,
                            base,
                            axis,
                        ));
                    }
                    assert(out@ =~= bar_positions(p@, 1, base, axis));
                }
                let ghost head = out@;
                assert(head =~= (if crossed_by_bars(horizontal, side) {
                    bar_positions(p@, 1, base, axis)
                } else {
                    Seq::empty()
                }));
                let n = c.len();
                let mut k: usize = 0;
                while k < n
                    invariant
                        n == c@.len(),
                        horizontal ==> *self == Paner::Horizontal(*c),
                        !horizontal ==> *self == Paner::Vertical(*c),
                        x + w + 2 <= u16::MAX,
                        y + h + 2 <= u16::MAX,
                        axis == (if horizontal { w } else { h }),
                        crossed == crossed_by_bars(horizontal, side),
                        lead == leading(horizontal, side),
                        p@ == parts(sizes@, axis as nat, 1),
                        sizes@ == sizes_of(c@),
                        p@.len() == c@.len(),
                        forall|i: int|
                            0 <= i < p@.len() ==> (#[trigger] p@[i]).0 as nat + p@[i].1 as nat <= axis,
                        forall|i: int| 0 <= i < c@.len() ==> tree_ok(#[trigger] c@[i].1),
                        k <= n,
                        out@ + children_seams(*c, k as int, p@, horizontal, x, y, w, h, side) == head
                            + children_seams(*c, 0, p@, horizontal, x, y, w, h, side),
                    decreases n - k,
                {
                    proof {
                        lemma_child_decreases(self, *c, k as int);
                    }
                    let (o, e) = p[k];
                    let take = crossed || (lead && k == 0) || (!crossed && !lead && k == n - 1
                        && o + e == axis);
                    if take {
                        let mut more = if horizontal {
                            c[k].1.edge_seams(x + o, y, e, h, side)
                        } else {
                            c[k].1.edge_seams(x, y + o, w, e, side)
                        };
                        out.append(&mut more);
                    }
                    k = k + 1;
                    assert(out@ + children_seams(*c, k as int, p@, horizontal, x, y, w, h, side)
                        =~= head + children_seams(*c, 0, p@, horizontal, x, y, w, h, side));
                }
                assert(out@ =~= node_seams(*self, x, y, w, h, side));
                out
            },
        }
    }

    /// Draws the crosses of a connected border on the separators between
    /// the children `c` of a split laid out in (`x`, `y`, `w`, `h`).
    fn draw_crosses(
        c: &Vec<(PaneSize, Paner<T>)>,
        canvas: &mut InstructionBuffer,
        p: &Vec<(u16, u16)>,
        horizontal: bool,
        x: u16,
        y: u16,
        w: u16,
        h: u16,
        axis: u16,
        border: &BorderStyle,
    )
        requires
            *border is Connected,
            x + w + 2 <= u16::MAX,
            y + h + 2 <= u16::MAX,
            axis == (if horizontal { w } else { h }),
            p@.len() == c@.len(),
            forall|i: int|
                0 <= i < p@.len() ==> (#[trigger] p@[i]).0 as nat + p@[i].1 as nat <= axis,
            forall|i: int| 0 <= i < c@.len() ==> tree_ok(#[trigger] c@[i].1),
            old(canvas).fallback() == plain_style(),
        ensures
            final(canvas).ops() == old(canvas).ops() + crosses_from(*c, 1, p@, horizontal, x, y, w, h, *border),
            final(canvas).fallback() == plain_style(),
            final(canvas).dims() == old(canvas).dims(),
    {
        let ghost drawn = canvas.ops();
        let mut k: usize = 1;
        while k < c.len()
            invariant
                1 <= k,
                *border is Connected,
                x + w + 2 <= u16::MAX,
                y + h + 2 <= u16::MAX,
                axis == (if horizontal { w } else { h }),
                p@.len() == c@.len(),
                forall|i: int|
                    0 <= i < p@.len() ==> (#[trigger] p@[i]).0 as nat + p@[i].1 as nat <= axis,
                forall|i: int| 0 <= i < c@.len() ==> tree_ok(#[trigger] c@[i].1),
                canvas.fallback() == plain_style(),
                canvas.dims() == old(canvas).dims(),
                canvas.ops() + crosses_from(*c, k as int, p@, horizontal, x, y, w, h, *border) == drawn
                    + crosses_from(*c, 1, p@, horizontal, x, y, w, h, *border),
            decreases c@.len() - k,
        {
            let ghost before = canvas.ops();
            let sep = p[k - 1].0 + p[k - 1].1;
            if sep < axis {
                let (o0, e0) = p[k - 1];
                let (o1, e1) = p[k];
                let far = if horizontal {
                    c[k - 1].1.edge_seams(x + o0, y, e0, h, Side::Right)
                } else {
                    c[k - 1].1.edge_seams(x, y + o0, w, e0, Side::Bottom)
                };
                let near = if horizontal {
                    c[k].1.edge_seams(x + o1, y, e1, h, Side::Left)
                } else {
                    c[k].1.edge_seams(x, y + o1, w, e1, Side::Top)
                };
                let at = if horizontal { x + sep } else { y + sep };
                draw_cross_marks(canvas, &far, &near, horizontal, at, border.glyph(CROSS));
            }
            k = k + 1;
            assert(canvas.ops() + crosses_from(*c, k as int, p@, horizontal, x, y, w, h, *border)
                =~= drawn + crosses_from(*c, 1, p@, horizontal, x, y, w, h, *border));
        }
    }

    #[verifier::rlimit(40)]
    fn render_sub<'a>(
        &'a self,
        canvas: &mut InstructionBuffer,
        x: u16,
        y: u16,
        w: u16,
        h: u16,
        border: &BorderStyle,
        ox: u16,
        oy: u16,
        leaves: &mut Vec<(&'a T, u16, u16, u16, u16)>,
    )
        requires
            tree_ok(*self),
            1 <= x,
            1 <= y,
            ox + x + w + 2 <= u16::MAX,
            oy + y + h + 2 <= u16::MAX,
            old(canvas).fallback() == plain_style(),
        ensures
            final(canvas).ops() == old(canvas).ops() + node_ops(*self, x, y, w, h, *border),
            final(canvas).fallback() == plain_style(),
            final(canvas).dims() == old(canvas).dims(),
            leaf_view(final(leaves)@) == leaf_view(old(leaves)@) + node_leaves(
                *self,
                x,
                y,
                w,
                h,
                gap_spec(*border),
                ox,
                oy,
            ),
        decreases self,
    {
        match self {
            Paner::Pane(pane) => {
                leaves.push((pane, ox + x, oy + y, w, h));
                if let BorderStyle::Disconnected(..) = border {
                    canvas.draw_box(x - 1, y - 1, w + 2, h + 2, border, None);
                } else {
                    assert(canvas.ops() =~= old(canvas).ops() + Seq::<Op>::empty());
                }
                assert(leaf_view(leaves@) =~= leaf_view(old(leaves)@) + node_leaves(
                    *self,
                    x,
                    y,
                    w,
                    h,
                    gap_spec(*border),
                    ox,
                    oy,
                ));
            },
            _ => {
                let (c, horizontal) = self.split_parts();
                let sizes = sizes_vec(c);
                let axis = if horizontal { w } else { h };
                let gap = border.gap();
                let p = match split_extents(&sizes, axis, gap) {
                    Ok(p) => p,
                    Err(_) => {
                        // a valid tree has weight to share in every split
                        proof {
                            assert(false);
                        }
                        return ;
                    },
                };
                proof {
                    lemma_parts_bounds(sizes@, axis as nat, gap as nat);
                    lemma_children_ok(*c, 0);
                }
                let ghost base = canvas.ops();
                if let BorderStyle::Connected(..) = border {
                    draw_separators(canvas, &p, horizontal, x, y, w, h, axis, border);
                }
                let ghost mid = canvas.ops();
                assert(mid =~= base + (if *border is Connected {
                    separators_from(p@, 1, horizontal, x, y, w, h, *border)
                } else {
                    Seq::empty()
                }));
                let mut k: usize = 0;
                while k < c.len()
                    invariant
                        horizontal ==> *self == Paner::Horizontal(*c),
                        !horizontal ==> *self == Paner::Vertical(*c),
                        1 <= x,
                        1 <= y,
                        ox + x + w + 2 <= u16::MAX,
                        oy + y + h + 2 <= u16::MAX,
                        axis == (if horizontal { w } else { h }),
                        gap == gap_spec(*border),
                        p@ == parts(sizes@, axis as nat, gap as nat),
                        sizes@ == sizes_of(c@),
                        p@.len() == c@.len(),
                        forall|i: int|
                            0 <= i < p@.len() ==> (#[trigger] p@[i]).0 as nat + p@[i].1 as nat <= axis,
                        forall|i: int| 0 <= i < c@.len() ==> tree_ok(#[trigger] c@[i].1),
                        k <= c@.len(),
                        canvas.fallback() == plain_style(),
                        canvas.dims() == old(canvas).dims(),
                        canvas.ops() + children_ops(*c, k as int, p@, horizontal, x, y, w, h, *border)
                            == mid + children_ops(*c, 0, p@, horizontal, x, y, w, h, *border),
                        leaf_view(leaves@) + children_leaves(
                            *c,
                            k as int,
                            p@,
                            horizontal,
                            x,
                            y,
                            w,
                            h,
                            gap as nat,
                            ox,
                            oy,
                        ) == leaf_view(old(leaves)@) + children_leaves(
                            *c,
                            0,
                            p@,
                            horizontal,
                            x,
                            y,
                            w,
                            h,
                            gap as nat,
                            ox,
                            oy,
                        ),
                    decreases c@.len() - k,
                {
                    proof {
                        lemma_child_decreases(self, *c, k as int);
                    }
                    let (o, e) = p[k];
                    let ghost ops_before = canvas.ops();
                    let ghost leaves_before = leaf_view(leaves@);
                    if horizontal {
                        c[k].1.render_sub(canvas, x + o, y, e, h, border, ox, oy, leaves);
                    } else {
                        c[k].1.render_sub(canvas, x, y + o, w, e, border, ox, oy, leaves);
                    }
                    proof {
                        let r = child_rect(horizontal, o, e, x, y, w, h);
                        assert(canvas.ops() == ops_before + node_ops(c@[k as int].1, r.0, r.1, r.2, r.3, *border));
                    }
                    k = k + 1;
                    proof {
                        assert(canvas.ops() + children_ops(*c, k as int, p@, horizontal, x, y, w, h, *border)
                            =~= mid + children_ops(*c, 0, p@, horizontal, x, y, w, h, *border));
                        assert(leaf_view(leaves@) + children_leaves(
                            *c,
                            k as int,
                            p@,
                            horizontal,
                            x,
                            y,
                            w,
                            h,
                            gap as nat,
                            ox,
                            oy,
                        ) =~= leaf_view(old(leaves)@) + children_leaves(
                            *c,
                            0,
                            p@,
                            horizontal,
                            x,
                            y,
                            w,
                            h,
                            gap as nat,
                            ox,
                            oy,
                        ));
                    }
                }
                let ghost drawn = canvas.ops();
                if let BorderStyle::Connected(..) = border {
                    Self::draw_crosses(c, canvas, &p, horizontal, x, y, w, h, axis, border);
                } else {
                    assert(canvas.ops() =~= drawn + Seq::<Op>::empty());
                }
                proof {
                    assert(canvas.ops() =~= old(canvas).ops() + node_ops(*self, x, y, w, h, *border));
                    assert(leaf_view(leaves@) =~= leaf_view(old(leaves)@) + node_leaves(
                        *self,
                        x,
                        y,
                        w,
                        h,
                        gap_spec(*border),
                        ox,
                        oy,
                    ));
                }
            },
        }
    }
}

} // verus!
