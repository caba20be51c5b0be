use paner::codes::{cursor_string, decimal_string};
use paner::text::{clip, join_first};
use paner::{BorderStyle, Canvas, Color, InstructionBuffer, Style};

const PLAIN: &str = "\x1b[0m\x1b[39m\x1b[49m";

#[test]
fn grapheme_clipping_counts_clusters_not_bytes() {
    let mut c = InstructionBuffer::new(3, 1, None);
    c.addstr(0, 0, "h\u{e9}llo", None);
    assert_eq!(c.render(0, 0), format!("\x1b[1;1H{}h\u{e9}l", PLAIN));
}

#[test]
fn grapheme_clipping_keeps_combining_marks() {
    let mut c = InstructionBuffer::new(3, 1, None);
    c.addstr(0, 0, "he\u{301}llo", None);
    assert_eq!(c.render(0, 0), format!("\x1b[1;1H{}he\u{301}l", PLAIN));
}

#[test]
fn text_shorter_than_width_is_kept_whole() {
    let mut c = InstructionBuffer::new(10, 1, None);
    c.addtext("abc");
    assert_eq!(c.render(0, 0), "abc");
}

#[test]
fn rows_past_height_are_dropped_without_disturbing_others() {
    let mut c = InstructionBuffer::new(5, 2, None);
    c.addstr(0, 0, "a", None);
    c.addstr(0, 5, "zzz", None);
    c.addstr(0, 1, "b", None);
    let expected = format!(
        "\x1b[1;1H{p}a\x1b[6;1H{p}\x1b[2;1H{p}b",
        p = PLAIN
    );
    assert_eq!(c.render(0, 0), expected);
}

#[test]
fn origin_moves_cursor_positions() {
    let mut c = InstructionBuffer::new(5, 2, None);
    c.setcursor(2, 1);
    c.addtext("x");
    assert_eq!(c.render(10, 20), "\x1b[22;13Hx");
}

#[test]
fn text_before_any_cursor_move_follows_the_origin_row() {
    let mut c = InstructionBuffer::new(5, 2, None);
    c.addtext("x");
    assert_eq!(c.render(0, 0), "x");
    assert_eq!(c.render(0, 3), "");
}

#[test]
fn commands_and_styles_are_never_clipped() {
    let mut c = InstructionBuffer::new(1, 1, None);
    c.setcursor(0, 9);
    c.addcmd("\x1b[2J");
    c.setstyle(Some(&Style::new().bold()));
    c.addtext("gone");
    let expected = format!("\x1b[10;1H\x1b[2J{}\x1b[1m", PLAIN);
    assert_eq!(c.render(0, 0), expected);
}

#[test]
fn render_twice_gives_identical_output() {
    let mut c = InstructionBuffer::new(4, 2, None);
    c.addstr(1, 0, "hello", Some(&Style::new().fg(Color::Red)));
    c.addstr(0, 1, "x", None);
    let a = c.render(3, 4);
    let b = c.render(3, 4);
    assert_eq!(a, b);
}

#[test]
fn clear_drops_instructions() {
    let mut c = InstructionBuffer::new(4, 2, None);
    c.addstr(1, 0, "hello", None);
    c.clear();
    assert_eq!(c.render(0, 0), "");
}

#[test]
fn default_style_applies_when_none_given() {
    let st = Style::new().italic();
    let mut c = InstructionBuffer::new(4, 2, Some(&st));
    c.setstyle(None);
    assert_eq!(c.render(0, 0), format!("{}\x1b[3m", PLAIN));
}

#[test]
fn second_canvas_does_not_inherit_first_style() {
    let bold = Style::new().bold().underline();
    let mut first = InstructionBuffer::new(5, 1, None);
    first.addstr(0, 0, "one", Some(&bold));
    let mut second = InstructionBuffer::new(5, 1, None);
    second.addstr(0, 0, "two", Some(&Style::new().fg(Color::Green)));
    let a = first.render(0, 0);
    let b = second.render(0, 1);
    let joined = format!("{}{}", a, b);
    let rest = &joined[a.len()..];
    assert!(rest.starts_with("\x1b[2;1H\x1b[0m"));
    assert_eq!(rest, "\x1b[2;1H\x1b[0m\x1b[32m\x1b[49mtwo");
}

#[test]
fn hbar_repeats_glyph() {
    let mut c = InstructionBuffer::new(10, 1, None);
    c.draw_hbar(1, 0, 3, "-", None);
    assert_eq!(c.render(0, 0), format!("\x1b[1;2H{}---", PLAIN));
}

#[test]
fn vbar_moves_down() {
    let mut c = InstructionBuffer::new(10, 5, None);
    c.draw_vbar(2, 1, 2, "|", None);
    assert_eq!(c.render(0, 0), format!("{}\x1b[2;3H|\x1b[3;3H|", PLAIN));
}

#[test]
fn box_with_disconnected_glyphs() {
    let mut c = InstructionBuffer::new(3, 3, None);
    c.draw_box(0, 0, 3, 3, &BorderStyle::disconnected_light(), None);
    let expected = format!(
        "\x1b[1;2H{p}\u{2500}\x1b[3;2H{p}\u{2500}{p}\x1b[2;1H\u{2502}{p}\x1b[2;3H\u{2502}\
         {p}\x1b[1;1H\u{250c}\x1b[1;3H\u{2510}\x1b[3;1H\u{2514}\x1b[3;3H\u{2518}",
        p = PLAIN
    );
    assert_eq!(c.render(0, 0), expected);
}

#[test]
fn box_with_gap_draws_nothing() {
    let mut c = InstructionBuffer::new(3, 3, None);
    c.draw_box(0, 0, 3, 3, &BorderStyle::Gap(1), None);
    assert_eq!(c.render(0, 0), "");
}

#[test]
fn decimal_and_cursor_codes() {
    assert_eq!(decimal_string(0), "0");
    assert_eq!(decimal_string(7), "7");
    assert_eq!(decimal_string(65535), "65535");
    assert_eq!(cursor_string(12, 3), "\x1b[12;3H");
}

#[test]
fn joining_the_first_clusters() {
    let g = vec!["a", "b\u{301}", "cd", "e"];
    assert_eq!(join_first(&g, 2), "ab\u{301}");
    assert_eq!(join_first(&g, 9), "ab\u{301}cde");
    assert_eq!(join_first(&g, 0), "");
    assert_eq!(clip("e\u{301}e\u{301}e", 2), "e\u{301}e\u{301}");
    assert_eq!(clip("", 4), "");
}

#[test]
fn glyph_sets_from_cluster_lists() {
    let eleven = vec!["+"; 11];
    assert!(matches!(BorderStyle::connected_from_glyphs(&eleven), Ok(BorderStyle::Connected(_))));
    let six = vec!["#"; 6];
    assert!(matches!(BorderStyle::disconnected_from_glyphs(&six), Ok(BorderStyle::Disconnected(_))));
    let five = vec!["#"; 5];
    let e = BorderStyle::disconnected_from_glyphs(&five).err().unwrap();
    assert_eq!((e.expected, e.found), (6, 5));
    let e = BorderStyle::connected_from_glyphs(&six).err().unwrap();
    assert_eq!((e.expected, e.found), (11, 6));
}
