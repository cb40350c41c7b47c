use egui_fractals::design::{
    continue_dragging_line_end, draw_new_line, handle_is_tip_only, handle_line_style_change,
    make_loop, make_tree, LinesStyle,
    LoopBuilder, ReversibleLine,
};

type Pt = (i32, i32);

fn line(root: Pt, tip: Pt) -> ReversibleLine<Pt> {
    ReversibleLine::new(root, tip)
}

fn ends(lines: &[ReversibleLine<Pt>]) -> Vec<(Pt, Pt, bool)> {
    lines.iter().map(|l| (l.root, l.tip, l.reversed)).collect()
}

fn is_closed_loop(lines: &[ReversibleLine<Pt>]) -> bool {
    let n = lines.len();
    (0..n).all(|i| lines[i].tip == lines[(i + 1) % n].root)
}

#[test]
fn reversed_line_is_drawn_from_its_tip() {
    let mut l = line((0, 0), (1, 2));
    assert_eq!(l.directed_ends(), ((0, 0), (1, 2)));
    l.toggle_reversed();
    assert_eq!(l.directed_ends(), ((1, 2), (0, 0)));
    l.toggle_reversed();
    assert!(!l.reversed);
}

#[test]
fn swapping_ends_keeps_the_drawing() {
    let mut l = line((0, 0), (1, 2));
    l.swap_ends();
    assert_eq!((l.root, l.tip, l.reversed), ((1, 2), (0, 0), true));
    assert_eq!(l.directed_ends(), ((0, 0), (1, 2)));
}

#[test]
fn anchoring_at_the_tip_turns_the_line() {
    let mut l = line((0, 0), (1, 2));
    l.anchor(1, (5, 5));
    assert_eq!((l.root, l.tip, l.reversed), ((5, 5), (0, 0), true));
    let mut m = line((0, 0), (1, 2));
    m.anchor(0, (5, 5));
    assert_eq!((m.root, m.tip, m.reversed), ((5, 5), (1, 2), false));
}

#[test]
fn free_drag_moves_one_handle() {
    let mut lines = vec![line((0, 0), (0, 1)), line((0, 1), (1, 1))];
    continue_dragging_line_end(&mut lines, LinesStyle::Free, 1, 0, (9, 9));
    assert_eq!(ends(&lines), vec![((0, 0), (0, 1), false), ((9, 9), (1, 1), false)]);
}

#[test]
fn tree_drag_of_initiator_tip_moves_all_roots() {
    let mut lines = vec![line((0, 0), (0, 1)), line((0, 1), (1, 2)), line((0, 1), (-1, 2))];
    continue_dragging_line_end(&mut lines, LinesStyle::Tree, 0, 1, (0, 3));
    assert_eq!(
        ends(&lines),
        vec![((0, 0), (0, 3), false), ((0, 3), (1, 2), false), ((0, 3), (-1, 2), false)]
    );
    continue_dragging_line_end(&mut lines, LinesStyle::Tree, 2, 1, (7, 7));
    assert_eq!(ends(&lines)[2], ((0, 3), (7, 7), false));
}

#[test]
fn loop_drag_moves_shared_point() {
    let mut lines = vec![line((0, 0), (0, 1)), line((0, 1), (1, 1)), line((1, 1), (0, 0))];
    // dragging the root of line 0 moves the tip of the last line too
    continue_dragging_line_end(&mut lines, LinesStyle::Loop, 0, 0, (-1, -1));
    assert_eq!(ends(&lines)[0], ((-1, -1), (0, 1), false));
    assert_eq!(ends(&lines)[2], ((1, 1), (-1, -1), false));
    continue_dragging_line_end(&mut lines, LinesStyle::Loop, 1, 1, (5, 5));
    assert_eq!(ends(&lines)[1], ((0, 1), (5, 5), false));
    assert_eq!(ends(&lines)[2], ((5, 5), (-1, -1), false));
    assert!(is_closed_loop(&lines));
}

#[test]
fn loop_drag_of_a_single_line() {
    let mut lines = vec![line((0, 0), (0, 0))];
    continue_dragging_line_end(&mut lines, LinesStyle::Loop, 0, 1, (3, 3));
    assert_eq!(ends(&lines), vec![((3, 3), (3, 3), false)]);
}

#[test]
fn drawing_a_new_line() {
    let mut lines = vec![line((0, 0), (0, 1))];
    let mut draft = None;
    assert!(!draw_new_line(&mut draft, &mut lines, false, true, (1, 1)));
    assert!(draft.is_none());
    assert!(draw_new_line(&mut draft, &mut lines, true, false, (1, 1)));
    assert!(draft.is_none());
    assert!(draw_new_line(&mut draft, &mut lines, true, true, (1, 1)));
    assert_eq!(draft.map(|l| (l.root, l.tip)), Some(((1, 1), (1, 1))));
    // the key may be released while the line is being drawn
    assert!(draw_new_line(&mut draft, &mut lines, false, true, (4, 2)));
    assert_eq!(draft.map(|l| (l.root, l.tip)), Some(((1, 1), (4, 2))));
    assert_eq!(lines.len(), 1);
    assert!(draw_new_line(&mut draft, &mut lines, false, false, (8, 8)));
    assert!(draft.is_none());
    assert_eq!(ends(&lines), vec![((0, 0), (0, 1), false), ((1, 1), (4, 2), false)]);
}

#[test]
fn tree_roots_generators_at_the_initiator_tip() {
    let mut lines = vec![line((0, 0), (0, 1)), line((2, 2), (0, 1)), line((0, 2), (3, 3)), line((4, 4), (5, 5))];
    make_tree(&mut lines, &vec![Some(1), Some(0), None]);
    assert_eq!(
        ends(&lines),
        vec![
            ((0, 0), (0, 1), false),
            ((0, 1), (2, 2), true),
            ((0, 1), (3, 3), false),
            ((4, 4), (5, 5), false),
        ]
    );
}

#[test]
fn loop_builder_closes_the_loop() {
    let lines = vec![line((0, 0), (0, 1)), line((5, 5), (1, 1)), line((1, 1), (2, 2))];
    let mut b = LoopBuilder::new(lines);
    assert_eq!(b.current_pos(), (0, 1));
    assert_eq!(b.remaining().len(), 2);
    // nearest to (0, 1): the tip of remaining line 0
    b.take(0, 1);
    assert_eq!(b.current_pos(), (5, 5));
    assert!(b.has_remaining());
    b.take(0, 0);
    assert!(!b.has_remaining());
    let result = b.finish();
    assert_eq!(
        ends(&result),
        vec![((0, 0), (0, 1), false), ((0, 1), (5, 5), true), ((5, 5), (0, 0), false)]
    );
    assert!(is_closed_loop(&result));
}

#[test]
fn loop_builder_merges_a_vanishing_last_line() {
    // the last placed line starts at the initiator's root
    let lines = vec![line((0, 0), (0, 1)), line((0, 1), (0, 0)), line((0, 0), (3, 3))];
    let mut b = LoopBuilder::new(lines);
    b.take(0, 0);
    b.take(0, 0);
    let result = b.finish();
    assert_eq!(
        ends(&result),
        vec![((0, 0), (0, 1), false), ((0, 1), (3, 3), false), ((3, 3), (0, 0), false)]
    );
    assert!(is_closed_loop(&result));
}

#[test]
fn loop_of_the_initiator_alone() {
    let b = LoopBuilder::new(vec![line((0, 0), (0, 1))]);
    assert_eq!(ends(&b.finish()), vec![((0, 0), (0, 1), false)]);
}

#[test]
fn tip_only_handles() {
    assert!(!handle_is_tip_only(LinesStyle::Free, 3));
    assert!(!handle_is_tip_only(LinesStyle::Tree, 0));
    assert!(handle_is_tip_only(LinesStyle::Tree, 1));
    assert!(handle_is_tip_only(LinesStyle::Loop, 0));
}

fn nearest(point: Pt, remaining: &Vec<ReversibleLine<Pt>>) -> Option<(usize, usize)> {
    let dist = |a: Pt, b: Pt| (a.0 - b.0).abs() + (a.1 - b.1).abs();
    let mut best: Option<(usize, usize, i32)> = None;
    for (i, l) in remaining.iter().enumerate() {
        for (h, p) in [(0, l.root), (1, l.tip)] {
            let d = dist(point, p);
            if best.map_or(true, |(_, _, bd)| d <= bd) {
                best = Some((i, h, d));
            }
        }
    }
    best.map(|(i, h, _)| (i, h))
}

#[test]
fn make_loop_places_every_line() {
    let mut lines = vec![
        line((0, 0), (0, 1)),
        line((4, 4), (2, 2)),
        line((0, 1), (2, 1)),
        line((2, 2), (3, 0)),
    ];
    make_loop(&mut lines, &nearest);
    assert_eq!(lines.len(), 4);
    assert!(is_closed_loop(&lines));
    assert_eq!(ends(&lines)[0], ((0, 0), (0, 1), false));
    assert_eq!(ends(&lines)[1], ((0, 1), (2, 1), false));
    assert_eq!(ends(&lines)[2], ((2, 1), (3, 0), false));
    assert_eq!(ends(&lines)[3], ((3, 0), (0, 0), true));
}

#[test]
fn make_loop_drops_lines_when_nothing_is_found() {
    let mut lines = vec![line((0, 0), (0, 1)), line((0, 1), (2, 1)), line((5, 5), (6, 6))];
    let none = |_: Pt, _: &Vec<ReversibleLine<Pt>>| -> Option<(usize, usize)> { None };
    make_loop(&mut lines, &none);
    assert_eq!(ends(&lines), vec![((0, 0), (0, 1), false)]);
}

#[test]
fn style_change_to_tree_and_loop() {
    let nearest_of_line = |p: Pt, l: ReversibleLine<Pt>| -> Option<usize> {
        let d = |a: Pt| (a.0 - p.0).abs() + (a.1 - p.1).abs();
        Some(if d(l.tip) < d(l.root) { 1 } else { 0 })
    };
    let mut lines = vec![line((0, 0), (0, 1)), line((3, 3), (0, 2)), line((1, 1), (5, 5))];
    handle_line_style_change(&mut lines, LinesStyle::Free, &nearest_of_line, &nearest);
    assert_eq!(ends(&lines)[1], ((3, 3), (0, 2), false));
    handle_line_style_change(&mut lines, LinesStyle::Tree, &nearest_of_line, &nearest);
    assert_eq!(ends(&lines)[1], ((0, 1), (3, 3), true));
    assert_eq!(ends(&lines)[2], ((0, 1), (5, 5), false));
    handle_line_style_change(&mut lines, LinesStyle::Loop, &nearest_of_line, &nearest);
    assert_eq!(lines.len(), 3);
    assert!(is_closed_loop(&lines));
}
