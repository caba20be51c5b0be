//! Border styles: a plain gap, connected single-line borders with junction
//! glyphs, or a separate box around every pane.

use vstd::prelude::*;
use crate::text::{grapheme_clusters, graphemes_of};

verus! {

/// How the space between panes is filled.
///
/// A connected glyph set holds, in order: horizontal, vertical, the four
/// corners (top left, top right, bottom left, bottom right), the four tees
/// (opening right, left, down, up) and the cross. A disconnected set holds
/// the first six of these.
#[derive(Clone, Copy, Debug)]
pub enum BorderStyle {
    /// An empty gap of some number of cells.
    Gap(u16),
    Connected([&'static str; 11]),
    Disconnected([&'static str; 6]),
}

/// A glyph string did not hold the number of grapheme clusters its border
/// style needs.
#[derive(Clone, Copy, Debug, PartialEq, Eq, Structural)]
pub struct GlyphCountError {
    pub expected: usize,
    pub found: usize,
}

pub const HORIZONTAL: usize = 0;
pub const VERTICAL: usize = 1;
pub const TOP_LEFT: usize = 2;
pub const TOP_RIGHT: usize = 3;
pub const BOTTOM_LEFT: usize = 4;
pub const BOTTOM_RIGHT: usize = 5;
pub const TEE_RIGHT: usize = 6;
pub const TEE_LEFT: usize = 7;
pub const TEE_DOWN: usize = 8;
pub const TEE_UP: usize = 9;
pub const CROSS: usize = 10;

/// Cells reserved between adjacent siblings along a split axis.
pub open spec fn gap_spec(b: BorderStyle) -> nat {
    match b {
        BorderStyle::Gap(n) => n as nat,
        BorderStyle::Connected(..) => 1,
        BorderStyle::Disconnected(..) => 2,
    }
}

/// Glyph `k` of a border style's set; a gap has only empty glyphs.
pub open spec fn glyph(b: BorderStyle, k: int) -> Seq<char> {
    match b {
        BorderStyle::Gap(..) => Seq::empty(),
        BorderStyle::Connected(g) => g@[k]@,
        BorderStyle::Disconnected(g) => g@[k]@,
    }
}

/// The glyph set that `connected_from_str` builds from `s`, if the count fits.
pub open spec fn connected_glyphs_match(g: [&'static str; 11], s: Seq<char>) -> bool {
    forall|i: int| 0 <= i < 11 ==> #[trigger] g@[i]@ == graphemes_of(s)[i]
}

pub open spec fn disconnected_glyphs_match(g: [&'static str; 6], s: Seq<char>) -> bool {
    forall|i: int| 0 <= i < 6 ==> #[trigger] g@[i]@ == graphemes_of(s)[i]
}

impl BorderStyle {
    /// Builds a connected border from its eleven glyphs, in the order the
    /// glyph set keeps them.
    pub fn connected_from_glyphs(g: &Vec<&'static str>) -> (r: Result<BorderStyle, GlyphCountError>)
        ensures
            g@.len() == 11 <==> r is Ok,
            r matches Ok(b) ==> (b matches BorderStyle::Connected(a) && a@ == g@),
            r matches Err(e) ==> e.expected == 11 && e.found == g@.len(),
    {
        if g.len() != 11 {
            return Err(GlyphCountError { expected: 11, found: g.len() });
        }
        let arr = [g[0], g[1], g[2], g[3], g[4], g[5], g[6], g[7], g[8], g[9], g[10]];
        assert(arr@ =~= g@);
        Ok(BorderStyle::Connected(arr))
    }

    /// Builds a disconnected border from its six glyphs, in the order the
    /// glyph set keeps them.
    pub fn disconnected_from_glyphs(g: &Vec<&'static str>) -> (r: Result<BorderStyle, GlyphCountError>)
        ensures
            g@.len() == 6 <==> r is Ok,
            r matches Ok(b) ==> (b matches BorderStyle::Disconnected(a) && a@ == g@),
            r matches Err(e) ==> e.expected == 6 && e.found == g@.len(),
    {
        if g.len() != 6 {
            return Err(GlyphCountError { expected: 6, found: g.len() });
        }
        let arr = [g[0], g[1], g[2], g[3], g[4], g[5]];
        assert(arr@ =~= g@);
        Ok(BorderStyle::Disconnected(arr))
    }

    /// Builds a connected border from a string of eleven grapheme clusters.
    pub fn connected_from_str(string: &'static str) -> (r: Result<BorderStyle, GlyphCountError>)
        ensures
            graphemes_of(string@).len() == 11 <==> r is Ok,
            r matches Ok(b) ==> (b matches BorderStyle::Connected(g) && connected_glyphs_match(
                g,
                string@,
            )),
            r matches Err(e) ==> e.expected == 11 && e.found == graphemes_of(string@).len(),
    {
        let g = grapheme_clusters(string);
        Self::connected_from_glyphs(&g)
    }

    /// Builds a disconnected border from a string of six grapheme clusters.
    pub fn disconnected_from_str(string: &'static str) -> (r: Result<BorderStyle, GlyphCountError>)
        ensures
            graphemes_of(string@).len() == 6 <==> r is Ok,
            r matches Ok(b) ==> (b matches BorderStyle::Disconnected(g)
                && disconnected_glyphs_match(g, string@)),
            r matches Err(e) ==> e.expected == 6 && e.found == graphemes_of(string@).len(),
    {
        let g = grapheme_clusters(string);
        Self::disconnected_from_glyphs(&g)
    }

    /// Cells reserved between adjacent siblings along a split axis.
    pub fn gap(&self) -> (r: u16)
        ensures
            r == gap_spec(*self),
    {
        match self {
            BorderStyle::Gap(cells) => *cells,
            BorderStyle::Connected(..) => 1,
            BorderStyle::Disconnected(..) => 2,
        }
    }

    /// Glyph `k` of the set; empty for a gap.
    pub fn glyph(&self, k: usize) -> (r: &'static str)
        requires
            k < 6 || (k < 11 && *self is Connected),
        ensures
            r@ == glyph(*self, k as int),
    {
        match self {
            BorderStyle::Gap(..) => {
                proof { reveal_strlit(""); }
                ""
            },
            BorderStyle::Connected(g) => g[k],
            BorderStyle::Disconnected(g) => g[k],
        }
    }

    /// Single-line box drawing glyphs.
    pub fn connected_light() -> (r: BorderStyle)
        ensures
            r is Connected,
    {
        BorderStyle::Connected(["─", "│", "┌", "┐", "└", "┘", "├", "┤", "┬", "┴", "┼"])
    }

    pub fn disconnected_light() -> (r: BorderStyle)
        ensures
            r is Disconnected,
    {
        BorderStyle::Disconnected(["─", "│", "┌", "┐", "└", "┘"])
    }

    /// Heavy box drawing glyphs.
    pub fn connected_heavy() -> (r: BorderStyle)
        ensures
            r is Connected,
    {
        BorderStyle::Connected(["━", "┃", "┏", "┓", "┗", "┛", "┣", "┫", "┳", "┻", "╋"])
    }

    pub fn disconnected_heavy() -> (r: BorderStyle)
        ensures
            r is Disconnected,
    {
        BorderStyle::Disconnected(["━", "┃", "┏", "┓", "┗", "┛"])
    }

    /// Double-line box drawing glyphs.
    pub fn connected_double() -> (r: BorderStyle)
        ensures
            r is Connected,
    {
        BorderStyle::Connected(["═", "║", "╔", "╗", "╚", "╝", "╠", "╣", "╦", "╩", "╬"])
    }

    pub fn disconnected_double() -> (r: BorderStyle)
        ensures
            r is Disconnected,
    {
        BorderStyle::Disconnected(["═", "║", "╔", "╗", "╚", "╝"])
    }
}

} // verus!
