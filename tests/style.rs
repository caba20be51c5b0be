use paner::{Color, Style};

#[test]
fn named_foreground_colors() {
    assert_eq!(Color::Default.as_string_fg(), "\x1b[39m");
    assert_eq!(Color::Black.as_string_fg(), "\x1b[30m");
    assert_eq!(Color::Red.as_string_fg(), "\x1b[31m");
    assert_eq!(Color::White.as_string_fg(), "\x1b[37m");
    assert_eq!(Color::BrightBlue.as_string_fg(), "\x1b[94m");
    assert_eq!(Color::BrightWhite.as_string_fg(), "\x1b[97m");
}

#[test]
fn named_background_colors() {
    assert_eq!(Color::Default.as_string_bg(), "\x1b[49m");
    assert_eq!(Color::Red.as_string_bg(), "\x1b[41m");
    assert_eq!(Color::BrightBlack.as_string_bg(), "\x1b[100m");
    assert_eq!(Color::BrightWhite.as_string_bg(), "\x1b[107m");
}

#[test]
fn indexed_and_true_colors() {
    assert_eq!(Color::Ansi(208).as_string_fg(), "\x1b[38;5;208m");
    assert_eq!(Color::Ansi(0).as_string_bg(), "\x1b[48;5;0m");
    assert_eq!(Color::True(255, 0, 10).as_string_fg(), "\x1b[38;2;255;0;10m");
    assert_eq!(Color::True(1, 22, 133).as_string_bg(), "\x1b[48;2;1;22;133m");
}

#[test]
fn plain_style_resets_and_sets_default_colors() {
    assert_eq!(Style::new().as_string(), "\x1b[0m\x1b[39m\x1b[49m");
}

#[test]
fn attributes_in_fixed_order() {
    let s = Style::new().strike().bold().blink().dim().underline().italic();
    assert_eq!(
        s.as_string(),
        "\x1b[0m\x1b[39m\x1b[49m\x1b[1m\x1b[2m\x1b[3m\x1b[4m\x1b[5m\x1b[9m"
    );
}

#[test]
fn unset_colors_are_left_out() {
    let mut s = Style::new().bold();
    s.fg = None;
    s.bg = None;
    assert_eq!(s.as_string(), "\x1b[0m\x1b[1m");
}

#[test]
fn with_colors_copies() {
    let base = Style::new().bold();
    let red = base.with_fg(Color::Red);
    let on_blue = red.with_bg(Color::Blue);
    assert_eq!(base.fg, Some(Color::Default));
    assert_eq!(red.fg, Some(Color::Red));
    assert!(red.bold);
    assert_eq!(on_blue.as_string(), "\x1b[0m\x1b[31m\x1b[44m\x1b[1m");
}

#[test]
fn every_style_starts_with_reset() {
    let styles = [
        Style::new(),
        Style::new().fg(Color::True(1, 2, 3)).bg(Color::Ansi(9)),
        Style::new().dim().strike(),
    ];
    for s in styles.iter() {
        assert!(s.as_string().starts_with("\x1b[0m"));
    }
}
