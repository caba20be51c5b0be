use paner::input::{ends_wait, strip_bytes};
use paner::{split_extents, BorderStyle, GlyphCountError, LayoutError, PaneSize, Paner};

fn pair(a: PaneSize, b: PaneSize, horizontal: bool) -> Paner<char> {
    let children = vec![(a, Paner::Pane('a')), (b, Paner::Pane('b'))];
    if horizontal {
        Paner::Horizontal(children)
    } else {
        Paner::Vertical(children)
    }
}

fn leaves(t: &Paner<char>, w: u16, h: u16, b: &BorderStyle) -> Vec<(char, u16, u16, u16, u16)> {
    let (_, l) = t.render(0, 0, w, h, b).unwrap();
    l.into_iter().map(|(p, x, y, w, h)| (*p, x, y, w, h)).collect()
}

#[test]
fn weighted_split_even() {
    let sizes = vec![PaneSize::Relative(1), PaneSize::Relative(1)];
    assert_eq!(split_extents(&sizes, 10, 0).unwrap(), vec![(0, 5), (5, 5)]);
}

#[test]
fn weighted_split_remainder_to_last() {
    let sizes = vec![PaneSize::Relative(1), PaneSize::Relative(1)];
    assert_eq!(split_extents(&sizes, 11, 0).unwrap(), vec![(0, 5), (5, 6)]);
}

#[test]
fn fixed_before_relative() {
    let sizes = vec![PaneSize::Fixed(3), PaneSize::Relative(1)];
    assert_eq!(split_extents(&sizes, 10, 0).unwrap(), vec![(0, 3), (3, 7)]);
}

#[test]
fn weights_in_proportion_with_gaps() {
    let sizes = vec![PaneSize::Relative(1), PaneSize::Relative(2), PaneSize::Relative(1)];
    // 20 cells, 2 gaps of 2: 16 shared as 4, 8, and the rest.
    assert_eq!(split_extents(&sizes, 20, 2).unwrap(), vec![(0, 4), (6, 8), (16, 4)]);
}

#[test]
fn fixed_sizes_are_cut_to_what_is_left() {
    let sizes = vec![PaneSize::Fixed(8), PaneSize::Relative(1)];
    assert_eq!(split_extents(&sizes, 5, 0).unwrap(), vec![(0, 5), (5, 0)]);
}

#[test]
fn zero_total_weight_is_an_error() {
    let sizes = vec![PaneSize::Relative(0), PaneSize::Fixed(2)];
    assert_eq!(split_extents(&sizes, 5, 0), Err(LayoutError::ZeroWeight));
    let t = pair(PaneSize::Relative(0), PaneSize::Fixed(2), true);
    assert!(!t.is_valid());
    assert_eq!(t.render(0, 0, 10, 10, &BorderStyle::Gap(0)).err(), Some(LayoutError::ZeroWeight));
}

#[test]
fn empty_split_has_no_parts() {
    let sizes: Vec<PaneSize> = Vec::new();
    assert_eq!(split_extents(&sizes, 5, 1).unwrap(), Vec::new());
}

#[test]
fn render_weighted_split_inside_margin() {
    let t = pair(PaneSize::Relative(1), PaneSize::Relative(1), true);
    assert_eq!(
        leaves(&t, 12, 6, &BorderStyle::Gap(0)),
        vec![('a', 1, 1, 5, 4), ('b', 6, 1, 5, 4)]
    );
    assert_eq!(
        leaves(&t, 13, 6, &BorderStyle::Gap(0)),
        vec![('a', 1, 1, 5, 4), ('b', 6, 1, 6, 4)]
    );
}

#[test]
fn render_fixed_before_relative_vertical() {
    let t = pair(PaneSize::Fixed(3), PaneSize::Relative(1), false);
    assert_eq!(
        leaves(&t, 6, 12, &BorderStyle::Gap(0)),
        vec![('a', 1, 1, 4, 3), ('b', 1, 4, 4, 7)]
    );
}

#[test]
fn render_moves_leaves_by_origin() {
    let t = pair(PaneSize::Relative(1), PaneSize::Relative(1), true);
    let (_, l) = t.render(10, 20, 12, 6, &BorderStyle::Gap(0)).unwrap();
    assert_eq!((l[0].1, l[0].2), (11, 21));
    assert_eq!((l[1].1, l[1].2), (16, 21));
}

#[test]
fn disconnected_leaves_leave_room_for_boxes() {
    let t = pair(PaneSize::Relative(1), PaneSize::Relative(1), true);
    let b = BorderStyle::disconnected_light();
    assert_eq!(leaves(&t, 12, 5, &b), vec![('a', 1, 1, 4, 3), ('b', 7, 1, 4, 3)]);
    let (text, _) = t.render(0, 0, 12, 5, &b).unwrap();
    assert_eq!(text.matches('\u{250c}').count(), 2);
    assert_eq!(text.matches('\u{2518}').count(), 2);
    assert!(text.contains("\x1b[1;1H\u{250c}"));
    assert!(text.contains("\x1b[1;7H\u{250c}"));
    assert!(text.contains("\x1b[5;12H\u{2518}"));
}

#[test]
fn connected_border_has_outer_box_and_tees() {
    let t = pair(PaneSize::Relative(1), PaneSize::Relative(1), true);
    let b = BorderStyle::connected_light();
    assert_eq!(leaves(&t, 11, 5, &b), vec![('a', 1, 1, 4, 3), ('b', 6, 1, 4, 3)]);
    let (text, _) = t.render(0, 0, 11, 5, &b).unwrap();
    assert!(text.contains("\x1b[1;1H\u{250c}"));
    assert!(text.contains("\x1b[1;11H\u{2510}"));
    assert!(text.contains("\x1b[5;1H\u{2514}"));
    assert!(text.contains("\x1b[5;11H\u{2518}"));
    assert!(text.contains("\x1b[1;6H\x1b[0m\x1b[39m\x1b[49m\u{252c}"));
    assert!(text.contains("\x1b[5;6H\x1b[0m\x1b[39m\x1b[49m\u{2534}"));
    assert!(text.contains("\x1b[2;6H\u{2502}"));
}

#[test]
fn gap_border_draws_nothing() {
    let t = pair(PaneSize::Relative(1), PaneSize::Relative(1), true);
    let (text, l) = t.render(0, 0, 12, 6, &BorderStyle::Gap(2)).unwrap();
    assert_eq!(text, "");
    assert_eq!(l.len(), 2);
}

#[test]
fn nested_layout_tiles() {
    let t = Paner::Horizontal(vec![
        (PaneSize::Fixed(4), Paner::Pane(1u8)),
        (
            PaneSize::Relative(1),
            Paner::Vertical(vec![
                (PaneSize::Relative(1), Paner::Pane(2u8)),
                (PaneSize::Relative(1), Paner::Pane(3u8)),
            ]),
        ),
    ]);
    let (_, l) = t.render(0, 0, 12, 9, &BorderStyle::connected_light()).unwrap();
    let got: Vec<(u8, u16, u16, u16, u16)> = l.into_iter().map(|(p, x, y, w, h)| (*p, x, y, w, h)).collect();
    assert_eq!(got, vec![(1, 1, 1, 4, 7), (2, 6, 1, 5, 3), (3, 6, 5, 5, 3)]);
}

#[test]
fn layout_render_is_repeatable() {
    let t = pair(PaneSize::Fixed(2), PaneSize::Relative(3), false);
    let b = BorderStyle::connected_double();
    let first = t.render(2, 3, 20, 10, &b).unwrap();
    let second = t.render(2, 3, 20, 10, &b).unwrap();
    assert_eq!(first.0, second.0);
    assert_eq!(first.1, second.1);
}

#[test]
fn tiny_rectangles_saturate() {
    let t = pair(PaneSize::Relative(1), PaneSize::Relative(1), true);
    let l = leaves(&t, 1, 1, &BorderStyle::connected_heavy());
    assert_eq!(l, vec![('a', 1, 1, 0, 0), ('b', 1, 1, 0, 0)]);
}

#[test]
fn glyph_sets_from_strings() {
    let c = BorderStyle::connected_from_str("\u{2500}\u{2502}\u{250c}\u{2510}\u{2514}\u{2518}\u{251c}\u{2524}\u{252c}\u{2534}\u{253c}");
    assert!(matches!(c, Ok(BorderStyle::Connected(g)) if g[10] == "\u{253c}"));
    let d = BorderStyle::disconnected_from_str("-|++++");
    assert!(matches!(d, Ok(BorderStyle::Disconnected(g)) if g[0] == "-" && g[1] == "|"));
}

#[test]
fn glyph_sets_with_wrong_counts_fail() {
    assert_eq!(
        BorderStyle::connected_from_str("abc").err(),
        Some(GlyphCountError { expected: 11, found: 3 })
    );
    assert_eq!(
        BorderStyle::disconnected_from_str("e\u{301}\u{301}xyz").err(),
        Some(GlyphCountError { expected: 6, found: 4 })
    );
}

#[test]
fn gap_widths() {
    assert_eq!(BorderStyle::Gap(3).gap(), 3);
    assert_eq!(BorderStyle::connected_light().gap(), 1);
    assert_eq!(BorderStyle::disconnected_light().gap(), 2);
}

#[test]
fn stripping_read_padding() {
    assert_eq!(strip_bytes(&[104, 105, 0, 0]), vec![104, 105]);
    assert_eq!(strip_bytes(&[0, 1]), Vec::<u8>::new());
    assert_eq!(strip_bytes(&[7, 8]), vec![7, 8]);
}

#[test]
fn waiting_for_interrupt() {
    assert!(ends_wait(Some(&[3])));
    assert!(!ends_wait(Some(&[97])));
    assert!(!ends_wait(Some(&[3, 3])));
    assert!(ends_wait(None));
}

fn row_pair(first: PaneSize) -> Paner<u8> {
    Paner::Horizontal(vec![(first, Paner::Pane(0)), (PaneSize::Relative(1), Paner::Pane(1))])
}

#[test]
fn aligned_seams_meet_in_a_cross() {
    let t = Paner::Vertical(vec![
        (PaneSize::Relative(1), row_pair(PaneSize::Relative(1))),
        (PaneSize::Relative(1), row_pair(PaneSize::Relative(1))),
    ]);
    let (text, _) = t.render(0, 0, 11, 7, &BorderStyle::connected_light()).unwrap();
    assert!(text.ends_with("\x1b[4;6H\x1b[0m\x1b[39m\x1b[49m\u{253c}"));
    assert!(text.contains("\x1b[4;1H\x1b[0m\x1b[39m\x1b[49m\u{251c}"));
    assert!(text.contains("\x1b[4;11H\x1b[0m\x1b[39m\x1b[49m\u{2524}"));
}

#[test]
fn unaligned_seams_stay_tees() {
    let t = Paner::Vertical(vec![
        (PaneSize::Relative(1), row_pair(PaneSize::Relative(1))),
        (PaneSize::Relative(1), row_pair(PaneSize::Fixed(2))),
    ]);
    let (text, _) = t.render(0, 0, 11, 7, &BorderStyle::connected_light()).unwrap();
    assert!(!text.contains('\u{253c}'));
    assert!(text.contains("\x1b[4;6H\x1b[0m\x1b[39m\x1b[49m\u{2534}"));
    assert!(text.contains("\x1b[4;4H\x1b[0m\x1b[39m\x1b[49m\u{252c}"));
}

#[test]
fn leaves_cover_interior_once() {
    let t = Paner::Horizontal(vec![
        (PaneSize::Fixed(3), Paner::Pane(0u8)),
        (
            PaneSize::Relative(2),
            Paner::Vertical(vec![
                (PaneSize::Relative(1), Paner::Pane(1u8)),
                (PaneSize::Fixed(1), Paner::Pane(2u8)),
                (PaneSize::Relative(3), Paner::Pane(3u8)),
            ]),
        ),
        (PaneSize::Relative(1), Paner::Pane(4u8)),
    ]);
    for b in [BorderStyle::Gap(0), BorderStyle::Gap(1), BorderStyle::connected_light(), BorderStyle::disconnected_light()] {
        let (_, l) = t.render(0, 0, 23, 14, &b).unwrap();
        let mut count = vec![vec![0u8; 23]; 14];
        for (_, x, y, w, h) in l.iter() {
            for r in *y..*y + *h {
                for c in *x..*x + *w {
                    count[r as usize][c as usize] += 1;
                }
            }
        }
        let covered: usize = count.iter().flatten().filter(|n| **n == 1).count();
        assert!(count.iter().flatten().all(|n| *n <= 1));
        let gap = b.gap() as usize;
        // Interior 21 x 12; the root split loses two gaps of width `gap`
        // across all rows, the middle split two gaps across its own width.
        let middle_width = l[1].3 as usize;
        assert_eq!(covered, 21 * 12 - 2 * gap * 12 - 2 * gap * middle_width);
    }
}
