use egui_fractals::design::ReversibleLine;
use egui_fractals::interaction::{
    depth_for_number, depth_for_text, handle_hovered_line_mouse_input, handle_keyboard_input,
    DraggedHandle, HoverOutcome, InteractionState, KeyboardInput,
};

fn keys() -> KeyboardInput {
    KeyboardInput {
        widget_focused: false,
        texts: Vec::new(),
        arrow_down_pressed: false,
        arrow_up_pressed: false,
        shift_only: false,
        d_pressed: false,
        d_down: false,
        d_released: false,
        n_down: false,
        t_down: false,
        ctrl: false,
    }
}

#[test]
fn number_keys_select_depths() {
    assert_eq!(depth_for_number(9, 17), 17);
    assert_eq!(depth_for_number(8, 30), 15);
    assert_eq!(depth_for_number(8, 12), 6);
    assert_eq!(depth_for_number(8, 10), 5);
    assert_eq!(depth_for_number(8, 5), 2);
    assert_eq!(depth_for_number(3, 17), 3);
    assert_eq!(depth_for_number(7, 4), 4);
    assert_eq!(depth_for_number(0, 4), 0);
}

#[test]
fn typed_text_selects_depth_only_when_it_parses() {
    assert_eq!(depth_for_text("5", 2, 17), 5);
    assert_eq!(depth_for_text("+6", 2, 17), 6);
    assert_eq!(depth_for_text("12", 2, 10), 10);
    assert_eq!(depth_for_text("9", 2, 10), 10);
    assert_eq!(depth_for_text("a", 2, 17), 2);
    assert_eq!(depth_for_text("-5", 2, 17), 2);
    assert_eq!(depth_for_text("5 ", 2, 17), 2);
    assert_eq!(depth_for_text("", 2, 17), 2);
    assert_eq!(depth_for_text("99999999999999999999999", 2, 17), 2);
}

#[test]
fn arrows_step_the_depth() {
    let mut state = InteractionState::new();
    let mut depth = 0;
    let mut input = keys();
    input.arrow_down_pressed = true;
    handle_keyboard_input(&input, &mut state, &mut depth, 10);
    assert_eq!(depth, 0);
    let mut input = keys();
    input.arrow_up_pressed = true;
    handle_keyboard_input(&input, &mut state, &mut depth, 10);
    assert_eq!(depth, 1);
    depth = 10;
    handle_keyboard_input(&input, &mut state, &mut depth, 10);
    assert_eq!(depth, 10);
}

#[test]
fn texts_then_arrows() {
    let mut state = InteractionState::new();
    let mut depth = 4;
    let mut input = keys();
    input.texts = vec!["7".to_string(), "x".to_string(), "3".to_string()];
    input.arrow_down_pressed = true;
    handle_keyboard_input(&input, &mut state, &mut depth, 10);
    assert_eq!(depth, 2);
}

#[test]
fn focused_widget_keeps_the_depth() {
    let mut state = InteractionState::new();
    let mut depth = 4;
    let mut input = keys();
    input.widget_focused = true;
    input.texts = vec!["7".to_string()];
    input.arrow_up_pressed = true;
    input.n_down = true;
    handle_keyboard_input(&input, &mut state, &mut depth, 10);
    assert_eq!(depth, 4);
    assert!(state.new_line_key_down);
}

#[test]
fn design_key_shows_the_design() {
    let mut state = InteractionState::new();
    let mut depth = 0;
    let mut input = keys();
    input.d_down = true;
    handle_keyboard_input(&input, &mut state, &mut depth, 10);
    assert!(state.show_design_only);
    let mut input = keys();
    input.d_released = true;
    handle_keyboard_input(&input, &mut state, &mut depth, 10);
    assert!(!state.show_design_only);
    let mut input = keys();
    input.shift_only = true;
    input.d_pressed = true;
    input.d_down = true;
    handle_keyboard_input(&input, &mut state, &mut depth, 10);
    assert!(state.show_design_only);
    input.d_down = false;
    input.d_released = true;
    handle_keyboard_input(&input, &mut state, &mut depth, 10);
    assert!(!state.show_design_only);
    let mut input = keys();
    input.t_down = true;
    input.ctrl = true;
    handle_keyboard_input(&input, &mut state, &mut depth, 10);
    assert!(state.trash_line_key_down);
    assert!(state.fine_tune);
    assert!(!state.show_design_only);
}

fn lines() -> Vec<ReversibleLine<(i32, i32)>> {
    vec![
        ReversibleLine::new((0, 0), (0, 1)),
        ReversibleLine::new((0, 1), (1, 1)),
        ReversibleLine::new((1, 1), (2, 2)),
    ]
}

#[test]
fn pressing_picks_up_a_handle_once() {
    let mut ls = lines();
    let mut state = InteractionState::new();
    let outcome = handle_hovered_line_mouse_input(&mut ls, &mut state, 1, 1, true, false);
    assert_eq!(outcome, HoverOutcome::Pressed);
    assert_eq!(state.hovered_line, Some(1));
    assert_eq!(state.dragged_handle, Some(DraggedHandle { line: 1, end: 1 }));
    handle_hovered_line_mouse_input(&mut ls, &mut state, 2, 0, true, false);
    assert_eq!(state.hovered_line, Some(2));
    assert_eq!(state.dragged_handle, Some(DraggedHandle { line: 1, end: 1 }));
    assert_eq!(state.continuing_drag(true), Some(DraggedHandle { line: 1, end: 1 }));
    assert_eq!(state.continuing_drag(false), None);
    assert_eq!(state.dragged_handle, None);
}

#[test]
fn double_click_reverses_or_removes() {
    let mut ls = lines();
    let mut state = InteractionState::new();
    assert_eq!(
        handle_hovered_line_mouse_input(&mut ls, &mut state, 1, 0, false, true),
        HoverOutcome::Reversed
    );
    assert!(ls[1].reversed);
    state.trash_line_key_down = true;
    assert_eq!(
        handle_hovered_line_mouse_input(&mut ls, &mut state, 0, 0, false, true),
        HoverOutcome::BaseKept
    );
    assert_eq!(ls.len(), 3);
    assert_eq!(
        handle_hovered_line_mouse_input(&mut ls, &mut state, 1, 0, false, true),
        HoverOutcome::Removed
    );
    assert_eq!(ls.len(), 2);
    assert_eq!(ls[1].root, (1, 1));
    assert_eq!(
        handle_hovered_line_mouse_input(&mut ls, &mut state, 1, 0, false, false),
        HoverOutcome::Idle
    );
}
