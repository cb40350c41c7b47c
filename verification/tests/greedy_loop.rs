use egui_fractals::design::{handle_line_style_change, make_loop, LinesStyle, ReversibleLine};

type Pt = (f32, f32);

fn dist(a: Pt, b: Pt) -> f32 {
    ((a.0 - b.0).powi(2) + (a.1 - b.1).powi(2)).sqrt()
}

// the remaining line and handle nearest to `point`; later lines and tips win ties
fn nearest(point: Pt, remaining: &Vec<ReversibleLine<Pt>>) -> Option<(usize, usize)> {
    let mut min = f32::MAX;
    let mut found = None;
    for (i, l) in remaining.iter().enumerate() {
        for (h, p) in [(0usize, l.root), (1usize, l.tip)] {
            let d = dist(point, p);
            if d <= min {
                min = d;
                found = Some((i, h));
            }
        }
    }
    found
}

fn nearest_of_line(point: Pt, l: ReversibleLine<Pt>) -> Option<usize> {
    Some(if dist(point, l.tip) <= dist(point, l.root) { 1 } else { 0 })
}

fn line(root: Pt, tip: Pt) -> ReversibleLine<Pt> {
    ReversibleLine::new(root, tip)
}

fn ends(lines: &[ReversibleLine<Pt>]) -> Vec<(Pt, Pt, bool)> {
    lines.iter().map(|l| (l.root, l.tip, l.reversed)).collect()
}

#[test]
fn greedy_loop_of_three_lines() {
    let mut lines = vec![
        line((0.0, 0.0), (0.0, -1.0)),
        line((1.0, 0.0), (1.0, -1.0)),
        line((0.1, -1.0), (0.9, -1.0)),
    ];
    make_loop(&mut lines, &nearest);
    assert_eq!(
        ends(&lines),
        vec![
            ((0.0, 0.0), (0.0, -1.0), false),
            ((0.0, -1.0), (0.9, -1.0), false),
            ((0.9, -1.0), (0.0, 0.0), true),
        ]
    );
}

#[test]
fn closed_loop_is_kept() {
    let original = vec![
        line((0.0, 0.0), (0.0, -1.0)),
        line((0.0, -1.0), (1.0, -1.0)),
        ReversibleLine { root: (1.0, -1.0), tip: (1.0, 0.0), reversed: true },
        line((1.0, 0.0), (0.0, 0.0)),
    ];
    let mut lines = original.clone();
    make_loop(&mut lines, &nearest);
    assert_eq!(ends(&lines), ends(&original));
}

#[test]
fn loop_style_change_is_make_loop() {
    let design = vec![
        line((0.0, 0.0), (0.0, -1.0)),
        line((1.0, 0.0), (1.0, -1.0)),
        line((0.1, -1.0), (0.9, -1.0)),
    ];
    let mut by_style = design.clone();
    handle_line_style_change(&mut by_style, LinesStyle::Loop, &nearest_of_line, &nearest);
    let mut by_loop = design.clone();
    make_loop(&mut by_loop, &nearest);
    assert_eq!(ends(&by_style), ends(&by_loop));
    let mut free = design.clone();
    handle_line_style_change(&mut free, LinesStyle::Free, &nearest_of_line, &nearest);
    assert_eq!(ends(&free), ends(&design));
}
