use egui_fractals::animation::AnimationCycles;
use egui_fractals::palette::{design_line_role, line_color, DesignLineRole, Rgb};

#[test]
fn rainbow_cycles_through_six_colors() {
    assert_eq!(line_color(0, true), Rgb { r: 255, g: 0, b: 0 });
    assert_eq!(line_color(1, true), Rgb { r: 255, g: 127, b: 0 });
    assert_eq!(line_color(5, true), Rgb { r: 139, g: 0, b: 255 });
    assert_eq!(line_color(6, true), Rgb { r: 255, g: 0, b: 0 });
    assert_eq!(line_color(10, true), Rgb { r: 0, g: 0, b: 255 });
}

#[test]
fn plain_lines_are_black() {
    assert_eq!(line_color(0, false), Rgb { r: 0, g: 0, b: 0 });
    assert_eq!(line_color(7, false), Rgb { r: 0, g: 0, b: 0 });
}

#[test]
fn hovered_line_wins_over_initiator() {
    assert_eq!(design_line_role(0, Some(0)), DesignLineRole::Hovered);
    assert_eq!(design_line_role(0, None), DesignLineRole::Initiator);
    assert_eq!(design_line_role(0, Some(2)), DesignLineRole::Initiator);
    assert_eq!(design_line_role(2, Some(2)), DesignLineRole::Hovered);
    assert_eq!(design_line_role(3, Some(2)), DesignLineRole::Generator);
    assert_eq!(design_line_role(3, None), DesignLineRole::Generator);
}

#[test]
fn a_new_cycle_is_painted_one_level_shallower() {
    let mut a = AnimationCycles::new();
    assert!(a.new_cycle);
    a.enter_cycle(0);
    assert!(!a.new_cycle);
    assert_eq!(a.paint_depth(9, true), 9);
    a.record_paint(100, true);
    assert_eq!(a.line_count, 100);
    a.enter_cycle(1);
    assert!(a.new_cycle);
    assert!(a.started_next_cycle(true));
    assert!(!a.started_next_cycle(false));
    assert_eq!(a.paint_depth(9, true), 8);
    assert_eq!(a.paint_depth(9, false), 9);
    // the last frame painted 100 lines, the cycle start count is 0: no repetition yet
    a.record_paint(60, true);
    assert_eq!(a.repetition_cycle, None);
    assert_eq!(a.cycle_start_paint_count, 60);
    a.enter_cycle(1);
    a.record_paint(60, true);
    a.enter_cycle(2);
    // the last frame of cycle 1 painted as many lines as its first frame
    a.record_paint(60, true);
    assert_eq!(a.repetition_cycle, Some(2));
}

#[test]
fn repetition_cycle_is_kept() {
    let mut a = AnimationCycles::new();
    a.repetition_cycle = Some(3);
    a.enter_cycle(4);
    assert!(!a.started_next_cycle(true));
    a.record_paint(5, true);
    assert_eq!(a.repetition_cycle, Some(3));
    assert_eq!(a.cycle_start_paint_count, 0);
    assert_eq!(a.line_count, 5);
}
