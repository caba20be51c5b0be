//! A canvas that records draw operations and later flattens them into one
//! absolutely positioned output string.

use vstd::prelude::*;
use crate::border::{
    glyph, BorderStyle, BOTTOM_LEFT, BOTTOM_RIGHT, HORIZONTAL, TOP_LEFT, TOP_RIGHT, VERTICAL,
};
use crate::codes::{cursor_code, cursor_string};
use crate::codes::RESET;
use crate::style::{lemma_style_starts_with_reset, plain_style, style_code, Style};
use crate::text::{clip, clip_spec};

verus! {

/// A recorded draw operation, as the contracts see it.
pub enum Op {
    Text(Seq<char>),
    Style(Seq<char>),
    Cursor(u16, u16),
    Command(Seq<char>),
}

/// The style a draw call applies: the one given, else the canvas's fallback.
pub open spec fn resolve(style: Option<&Style>, fallback: Style) -> Style {
    match style {
        Some(s) => *s,
        None => fallback,
    }
}

/// `s` written `n` times in a row.
pub open spec fn repeat_spec(s: Seq<char>, n: nat) -> Seq<char>
    decreases n,
{
    if n == 0 {
        Seq::empty()
    } else {
        repeat_spec(s, (n - 1) as nat) + s
    }
}

/// The operations of a horizontal bar of `n` glyphs starting at (`col`, `row`).
pub open spec fn hbar_ops(col: u16, row: u16, n: nat, g: Seq<char>, st: Seq<char>) -> Seq<Op> {
    seq![Op::Cursor(col, row), Op::Style(st), Op::Text(repeat_spec(g, n))]
}

/// The cursor moves and glyphs of a vertical bar of `n` cells starting at
/// (`col`, `row`), after its style.
pub open spec fn vbar_ops(col: u16, row: u16, n: nat, g: Seq<char>) -> Seq<Op>
    decreases n,
{
    if n == 0 {
        Seq::empty()
    } else {
        vbar_ops(col, row, (n - 1) as nat, g) + seq![
            Op::Cursor(col, (row + n - 1) as u16),
            Op::Text(g),
        ]
    }
}

/// The four corner glyphs of the rectangle (`col`, `row`, `w`, `h`).
pub open spec fn corner_ops(
    col: u16,
    row: u16,
    w: u16,
    h: u16,
    tl: Seq<char>,
    tr: Seq<char>,
    bl: Seq<char>,
    br: Seq<char>,
    st: Seq<char>,
) -> Seq<Op> {
    let right = (col + sat_sub(w, 1)) as u16;
    let bottom = (row + sat_sub(h, 1)) as u16;
    seq![
        Op::Style(st),
        Op::Cursor(col, row),
        Op::Text(tl),
        Op::Cursor(right, row),
        Op::Text(tr),
        Op::Cursor(col, bottom),
        Op::Text(bl),
        Op::Cursor(right, bottom),
        Op::Text(br),
    ]
}

pub open spec fn sat_sub(a: u16, b: u16) -> u16 {
    if a >= b { (a - b) as u16 } else { 0 }
}

/// The operations of a box around (`col`, `row`, `w`, `h`): the four sides
/// without their ends, then the corners. A gap draws nothing.
pub open spec fn box_ops(col: u16, row: u16, w: u16, h: u16, b: BorderStyle, st: Seq<char>) -> Seq<
    Op,
> {
    if b is Gap {
        Seq::empty()
    } else {
        let hz = glyph(b, HORIZONTAL as int);
        let vt = glyph(b, VERTICAL as int);
        let inner_w = sat_sub(w, 2) as nat;
        let inner_h = sat_sub(h, 2) as nat;
        hbar_ops((col + 1) as u16, row, inner_w, hz, st) + hbar_ops(
            (col + 1) as u16,
            (row + sat_sub(h, 1)) as u16,
            inner_w,
            hz,
            st,
        ) + seq![Op::Style(st)] + vbar_ops(col, (row + 1) as u16, inner_h, vt) + seq![Op::Style(st)]
            + vbar_ops((col + sat_sub(w, 1)) as u16, (row + 1) as u16, inner_h, vt) + corner_ops(
            col,
            row,
            w,
            h,
            glyph(b, TOP_LEFT as int),
            glyph(b, TOP_RIGHT as int),
            glyph(b, BOTTOM_LEFT as int),
            glyph(b, BOTTOM_RIGHT as int),
            st,
        )
    }
}

/// A surface that records draw operations in order and renders them later.
pub trait Canvas: Sized {
    /// The operations recorded so far, oldest first.
    spec fn ops(&self) -> Seq<Op>;

    /// The style applied when a draw call supplies none.
    spec fn fallback(&self) -> Style;

    /// Width and height in cells, fixed when the canvas is made.
    spec fn dims(&self) -> (u16, u16);

    /// What `render` returns for the given output origin.
    spec fn output(&self, col: u16, row: u16) -> Seq<char>;

    /// Drops every recorded operation.
    fn clear(&mut self)
        ensures
            final(self).ops() == Seq::<Op>::empty(),
            final(self).fallback() == old(self).fallback(),
            final(self).dims() == old(self).dims(),
    ;

    /// Flattens the recorded operations, placing the canvas's top left cell
    /// at (`col`, `row`) of the terminal.
    fn render(&self, col: u16, row: u16) -> (r: String)
        ensures
            r@ == self.output(col, row),
    ;

    /// Records `string`, to be written at the cursor.
    fn addtext(&mut self, string: &str)
        ensures
            final(self).ops() == old(self).ops().push(Op::Text(string@)),
            final(self).fallback() == old(self).fallback(),
            final(self).dims() == old(self).dims(),
    ;

    /// Records a raw escape sequence, written as it is.
    fn addcmd(&mut self, cmd: &str)
        ensures
            final(self).ops() == old(self).ops().push(Op::Command(cmd@)),
            final(self).fallback() == old(self).fallback(),
            final(self).dims() == old(self).dims(),
    ;

    /// Records a style change: to `style`, or to the fallback if none.
    fn setstyle(&mut self, style: Option<&Style>)
        ensures
            final(self).ops() == old(self).ops().push(
                Op::Style(style_code(resolve(style, old(self).fallback()))),
            ),
            final(self).fallback() == old(self).fallback(),
            final(self).dims() == old(self).dims(),
    ;

    /// Records a cursor move to (`col`, `row`) of the canvas.
    fn setcursor(&mut self, col: u16, row: u16)
        ensures
            final(self).ops() == old(self).ops().push(Op::Cursor(col, row)),
            final(self).fallback() == old(self).fallback(),
            final(self).dims() == old(self).dims(),
    ;

    /// Moves the cursor, applies a style and writes `string`.
    fn addstr(&mut self, col: u16, row: u16, string: &str, style: Option<&Style>)
        ensures
            final(self).ops() == old(self).ops() + seq![
                Op::Cursor(col, row),
                Op::Style(style_code(resolve(style, old(self).fallback()))),
                Op::Text(string@),
            ],
            final(self).fallback() == old(self).fallback(),
            final(self).dims() == old(self).dims(),
    {
        self.setcursor(col, row);
        self.setstyle(style);
        self.addtext(string);
        assert(self.ops() =~= old(self).ops() + seq![
            Op::Cursor(col, row),
            Op::Style(style_code(resolve(style, old(self).fallback()))),
            Op::Text(string@),
        ]);
    }

    /// Writes `ch` `length` times in a row, starting at (`col`, `row`).
    fn draw_hbar(&mut self, col: u16, row: u16, length: u16, ch: &str, style: Option<&Style>)
        ensures
            final(self).ops() == old(self).ops() + hbar_ops(
                col,
                row,
                length as nat,
                ch@,
                style_code(resolve(style, old(self).fallback())),
            ),
            final(self).fallback() == old(self).fallback(),
            final(self).dims() == old(self).dims(),
    {
        let bar = repeat_str(ch, length);
        self.addstr(col, row, bar.as_str(), style);
    }

    /// Writes `ch` in `length` cells downwards, starting at (`col`, `row`).
    fn draw_vbar(&mut self, col: u16, row: u16, length: u16, ch: &str, style: Option<&Style>)
        requires
            row + length <= u16::MAX + 1,
        ensures
            final(self).ops() == old(self).ops() + seq![
                Op::Style(style_code(resolve(style, old(self).fallback()))),
            ] + vbar_ops(col, row, length as nat, ch@),
            final(self).fallback() == old(self).fallback(),
            final(self).dims() == old(self).dims(),
    {
        self.setstyle(style);
        let ghost base = self.ops();
        let mut i: u16 = 0;
        while i < length
            invariant
                i <= length,
                row + length <= u16::MAX + 1,
                self.ops() == base + vbar_ops(col, row, i as nat, ch@),
                self.fallback() == old(self).fallback(),
                self.dims() == old(self).dims(),
            decreases length - i,
        {
            self.setcursor(col, row + i);
            self.addtext(ch);
            i = i + 1;
            assert(self.ops() =~= base + vbar_ops(col, row, i as nat, ch@));
        }
        assert(self.ops() =~= old(self).ops() + seq![
            Op::Style(style_code(resolve(style, old(self).fallback()))),
        ] + vbar_ops(col, row, length as nat, ch@));
    }

    /// Draws the four corner glyphs of the rectangle (`col`, `row`, `width`,
    /// `height`).
    fn draw_corners(
        &mut self,
        col: u16,
        row: u16,
        width: u16,
        height: u16,
        tl: &str,
        tr: &str,
        bl: &str,
        br: &str,
        style: Option<&Style>,
    )
        requires
            col + width <= u16::MAX + 1,
            row + height <= u16::MAX + 1,
        ensures
            final(self).ops() == old(self).ops() + corner_ops(
                col,
                row,
                width,
                height,
                tl@,
                tr@,
                bl@,
                br@,
                style_code(resolve(style, old(self).fallback())),
            ),
            final(self).fallback() == old(self).fallback(),
            final(self).dims() == old(self).dims(),
    {
        let right = col + width.saturating_sub(1);
        let bottom = row + height.saturating_sub(1);
        self.setstyle(style);
        self.setcursor(col, row);
        self.addtext(tl);
        self.setcursor(right, row);
        self.addtext(tr);
        self.setcursor(col, bottom);
        self.addtext(bl);
        self.setcursor(right, bottom);
        self.addtext(br);
        assert(self.ops() =~= old(self).ops() + corner_ops(
            col,
            row,
            width,
            height,
            tl@,
            tr@,
            bl@,
            br@,
            style_code(resolve(style, old(self).fallback())),
        ));
    }

    /// Draws the edges and corners of the rectangle (`col`, `row`, `width`,
    /// `height`) with the glyphs of `border`; a gap draws nothing.
    fn draw_box(
        &mut self,
        col: u16,
        row: u16,
        width: u16,
        height: u16,
        border: &BorderStyle,
        style: Option<&Style>,
    )
        requires
            col + width < u16::MAX,
            row + height < u16::MAX,
        ensures
            final(self).ops() == old(self).ops() + box_ops(
                col,
                row,
                width,
                height,
                *border,
                style_code(resolve(style, old(self).fallback())),
            ),
            final(self).fallback() == old(self).fallback(),
            final(self).dims() == old(self).dims(),
    {
        if let BorderStyle::Gap(..) = border {
            assert(self.ops() =~= old(self).ops() + Seq::<Op>::empty());
            return;
        }
        let h = border.glyph(HORIZONTAL);
        let v = border.glyph(VERTICAL);
        let inner_w = width.saturating_sub(2);
        let inner_h = height.saturating_sub(2);
        let right = col + width.saturating_sub(1);
        let bottom = row + height.saturating_sub(1);
        self.draw_hbar(col + 1, row, inner_w, h, style);
        self.draw_hbar(col + 1, bottom, inner_w, h, style);
        self.draw_vbar(col, row + 1, inner_h, v, style);
        self.draw_vbar(right, row + 1, inner_h, v, style);
        self.draw_corners(
            col,
            row,
            width,
            height,
            border.glyph(TOP_LEFT),
            border.glyph(TOP_RIGHT),
            border.glyph(BOTTOM_LEFT),
            border.glyph(BOTTOM_RIGHT),
            style,
        );
        assert(self.ops() =~= old(self).ops() + box_ops(
            col,
            row,
            width,
            height,
            *border,
            style_code(resolve(style, old(self).fallback())),
        ));
    }
}

/// What one operation contributes to the output, given the row the cursor
/// was last placed on and the canvas's origin and size.
pub open spec fn piece(op: Op, row: int, col0: nat, row0: nat, w: u16, h: u16) -> Seq<char> {
    match op {
        Op::Text(s) => if row < h as int {
            clip_spec(s, w as nat)
        } else {
            Seq::empty()
        },
        Op::Cursor(c, r) => cursor_code((row0 + r + 1) as nat, (col0 + c + 1) as nat),
        Op::Style(s) => s,
        Op::Command(s) => s,
    }
}

/// The tracked row after replaying `ops` from tracked row `row`: the row of
/// the last cursor move, or `row` if there is none.
pub open spec fn row_after(ops: Seq<Op>, row: int) -> int
    decreases ops.len(),
{
    if ops.len() == 0 {
        row
    } else {
        match ops.last() {
            Op::Cursor(_, r) => r as int,
            _ => row_after(ops.drop_last(), row),
        }
    }
}

/// The output of replaying `ops` in order, starting with tracked row `row`,
/// for a canvas of `w` by `h` cells whose top left cell is at (`col0`, `row0`).
pub open spec fn rendered(ops: Seq<Op>, col0: nat, row0: nat, w: u16, h: u16, row: int) -> Seq<
    char,
>
    decreases ops.len(),
{
    if ops.len() == 0 {
        Seq::empty()
    } else {
        rendered(ops.drop_last(), col0, row0, w, h, row) + piece(
            ops.last(),
            row_after(ops.drop_last(), row),
            col0,
            row0,
            w,
            h,
        )
    }
}

enum Instruction {
    Text(String),
    Style(String),
    SetCursor(u16, u16),
    Command(String),
}

spec fn op_of(i: Instruction) -> Op {
    match i {
        Instruction::Text(s) => Op::Text(s@),
        Instruction::Style(s) => Op::Style(s@),
        Instruction::SetCursor(c, r) => Op::Cursor(c, r),
        Instruction::Command(s) => Op::Command(s@),
    }
}

/// A canvas of a fixed size that keeps its draw operations in a list.
pub struct InstructionBuffer {
    instructions: Vec<Instruction>,
    default_style: Style,
    width: u16,
    height: u16,
}

impl InstructionBuffer {
    /// An empty canvas of `width` by `height` cells whose draw calls fall
    /// back to `default_style`, or to the plain style if none is given.
    pub fn new(width: u16, height: u16, default_style: Option<&Style>) -> (r: InstructionBuffer)
        ensures
            r.ops() == Seq::<Op>::empty(),
            r.dims() == (width, height),
            r.fallback() == match default_style {
                Some(s) => *s,
                None => plain_style(),
            },
    {
        let fallback = match default_style {
            Some(s) => *s,
            None => Style::new(),
        };
        InstructionBuffer { instructions: Vec::new(), default_style: fallback, width, height }
    }

    fn push(&mut self, i: Instruction)
        ensures
            final(self).ops() == old(self).ops().push(op_of(i)),
            final(self).fallback() == old(self).fallback(),
            final(self).dims() == old(self).dims(),
    {
        let ghost i_op = op_of(i);
        self.instructions.push(i);
        assert(self.ops() =~= old(self).ops().push(i_op));
    }
}

impl Canvas for InstructionBuffer {
    closed spec fn ops(&self) -> Seq<Op> {
        self.instructions@.map_values(|i: Instruction| op_of(i))
    }

    closed spec fn fallback(&self) -> Style {
        self.default_style
    }

    closed spec fn dims(&self) -> (u16, u16) {
        (self.width, self.height)
    }

    open spec fn output(&self, col: u16, row: u16) -> Seq<char> {
        rendered(self.ops(), col as nat, row as nat, self.dims().0, self.dims().1, row as int)
    }

    fn clear(&mut self) {
        self.instructions.clear();
        assert(self.ops() =~= Seq::<Op>::empty());
    }

    fn addtext(&mut self, string: &str) {
        self.push(Instruction::Text(String::from_str(string)));
    }

    fn addcmd(&mut self, cmd: &str) {
        self.push(Instruction::Command(String::from_str(cmd)));
    }

    fn setcursor(&mut self, col: u16, row: u16) {
        self.push(Instruction::SetCursor(col, row));
    }

    fn setstyle(&mut self, style: Option<&Style>) {
        let s = match style {
            Some(s) => s.as_string(),
            None => self.default_style.as_string(),
        };
        self.push(Instruction::Style(s));
    }

    fn render(&self, start_col: u16, start_row: u16) -> (r: String) {
        let ghost ops = self.ops();
        let mut result = String::new();
        let mut row: u16 = start_row;
        let mut k: usize = 0;
        while k < self.instructions.len()
            invariant
                ops == self.ops(),
                ops.len() == self.instructions@.len(),
                k <= ops.len(),
                row as int == row_after(ops.take(k as int), start_row as int),
                result@ == rendered(
                    ops.take(k as int),
                    start_col as nat,
                    start_row as nat,
                    self.width,
                    self.height,
                    start_row as int,
                ),
            decreases ops.len() - k,
        {
            proof {
                assert(ops.take(k + 1).drop_last() =~= ops.take(k as int));
                assert(ops[k as int] == op_of(self.instructions@[k as int]));
            }
            match &self.instructions[k] {
                Instruction::Text(string) => {
                    if row < self.height {
                        let clipped = clip(string.as_str(), self.width);
                        result.append(clipped.as_str());
                    }
                },
                Instruction::SetCursor(col, new_row) => {
                    let code = cursor_string(
                        start_row as u32 + *new_row as u32 + 1,
                        start_col as u32 + *col as u32 + 1,
                    );
                    result.append(code.as_str());
                    row = *new_row;
                },
                Instruction::Command(string) | Instruction::Style(string) => {
                    result.append(string.as_str());
                },
            }
            k = k + 1;
        }
        proof {
            assert(ops.take(k as int) =~= ops);
        }
        result
    }
}

/// Replaying two runs of operations one after the other gives the output of
/// the first followed by the output of the second, started from the row the
/// first left the cursor on.
pub proof fn lemma_rendered_append(
    a: Seq<Op>,
    b: Seq<Op>,
    col0: nat,
    row0: nat,
    w: u16,
    h: u16,
    row: int,
)
    ensures
        rendered(a + b, col0, row0, w, h, row) == rendered(a, col0, row0, w, h, row) + rendered(
            b,
            col0,
            row0,
            w,
            h,
            row_after(a, row),
        ),
        row_after(a + b, row) == row_after(b, row_after(a, row)),
    decreases b.len(),
{
    if b.len() == 0 {
        assert(a + b =~= a);
        assert(rendered(b, col0, row0, w, h, row_after(a, row)) =~= Seq::empty());
        assert(rendered(a, col0, row0, w, h, row) + Seq::<char>::empty() =~= rendered(a, col0, row0, w, h, row));
    } else {
        lemma_rendered_append(a, b.drop_last(), col0, row0, w, h, row);
        assert((a + b).drop_last() =~= a + b.drop_last());
        assert((a + b).last() == b.last());
        assert(rendered(a + b, col0, row0, w, h, row) =~= rendered(a, col0, row0, w, h, row) + rendered(
            b,
            col0,
            row0,
            w,
            h,
            row_after(a, row),
        ));
    }
}

/// Text written on a row at or below the canvas's height leaves no trace: the
/// output is what it would be without that text, for whatever came before
/// and whatever comes after.
pub proof fn lemma_row_suppression(
    pre: Seq<Op>,
    post: Seq<Op>,
    c: u16,
    r: u16,
    s: Seq<char>,
    col0: nat,
    row0: nat,
    w: u16,
    h: u16,
    row: int,
)
    requires
        r >= h,
    ensures
        rendered(pre + seq![Op::Cursor(c, r), Op::Text(s)] + post, col0, row0, w, h, row)
            == rendered(pre + seq![Op::Cursor(c, r)] + post, col0, row0, w, h, row),
{
    let x = pre + seq![Op::Cursor(c, r)];
    let y = seq![Op::Text(s)];
    assert(pre + seq![Op::Cursor(c, r), Op::Text(s)] + post =~= x + (y + post));
    lemma_rendered_append(x, y + post, col0, row0, w, h, row);
    lemma_rendered_append(y, post, col0, row0, w, h, row_after(x, row));
    lemma_rendered_append(x, post, col0, row0, w, h, row);
    assert(x.drop_last() =~= pre);
    assert(row_after(x, row) == r as int);
    assert(y.drop_last() =~= Seq::<Op>::empty());
    assert(y.last() == Op::Text(s));
    assert(rendered(y.drop_last(), col0, row0, w, h, r as int) == Seq::<char>::empty());
    assert(row_after(y.drop_last(), r as int) == r as int);
    assert(piece(y.last(), r as int, col0, row0, w, h) == Seq::<char>::empty());
    assert(rendered(y, col0, row0, w, h, r as int) =~= Seq::<char>::empty());
    assert(row_after(y, r as int) == r as int);
}

/// Rendering depends on nothing but the recorded operations, the canvas's
/// size and the origin: two canvases that agree on these give the same
/// output, and so does one canvas rendered twice.
pub proof fn lemma_render_deterministic(a: InstructionBuffer, b: InstructionBuffer, col: u16, row: u16)
    requires
        a.ops() == b.ops(),
        a.dims() == b.dims(),
    ensures
        a.output(col, row) == b.output(col, row),
{
}

/// Every style a canvas records starts with a full reset, whatever the style
/// and whatever the canvas's fallback.
pub proof fn lemma_recorded_styles_reset(style: Option<&Style>, fallback: Style)
    ensures
        style_code(resolve(style, fallback)).subrange(0, RESET@.len() as int) == RESET@,
{
    lemma_style_starts_with_reset(resolve(style, fallback));
}

/// `s` repeated `n` times.
fn repeat_str(s: &str, n: u16) -> (r: String)
    ensures
        r@ == repeat_spec(s@, n as nat),
{
    let mut out = String::new();
    let mut i: u16 = 0;
    while i < n
        invariant
            i <= n,
            out@ == repeat_spec(s@, i as nat),
        decreases n - i,
    {
        out.append(s);
        i = i + 1;
    }
    out
}

} // verus!
