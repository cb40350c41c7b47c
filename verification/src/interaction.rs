//! Decisions taken on keyboard and pointer input while a fractal is designed:
//! which depth the number and arrow keys select, when the design is shown,
//! which line a pointer press picks up, and what a double click does.

use vstd::prelude::*;
use crate::design::ReversibleLine;

verus! {

/// A handle of a design line: `end` 0 is its root, 1 its tip.
#[derive(Clone, Copy, Debug, PartialEq, Eq, Structural)]
pub struct DraggedHandle {
    pub line: usize,
    pub end: usize,
}

/// What the designer remembers about the keys and the pointer between frames.
#[derive(Clone, Copy, Debug, PartialEq, Eq, Structural)]
pub struct InteractionState {
    /// Dragging moves handles in small steps (the control key is held).
    pub fine_tune: bool,
    /// The handle being dragged.
    pub dragged_handle: Option<DraggedHandle>,
    /// Only the design lines are painted, not the fractal.
    pub show_design_only: bool,
    /// The key for drawing a new line is held.
    pub new_line_key_down: bool,
    /// The key for removing lines is held.
    pub trash_line_key_down: bool,
    /// The design line under the pointer.
    pub hovered_line: Option<usize>,
}

impl InteractionState {
    /// No key held, nothing dragged or hovered, the fractal shown.
    pub fn new() -> (state: Self)
        ensures
            state == (InteractionState {
                fine_tune: false,
                dragged_handle: None,
                show_design_only: false,
                new_line_key_down: false,
                trash_line_key_down: false,
                hovered_line: None,
            }),
    {
        InteractionState {
            fine_tune: false,
            dragged_handle: None,
            show_design_only: false,
            new_line_key_down: false,
            trash_line_key_down: false,
            hovered_line: None,
        }
    }

    /// The handle whose drag goes on while the pointer stays down; a released
    /// pointer ends the drag.
    pub fn continuing_drag(&mut self, pointer_down: bool) -> (drag: Option<DraggedHandle>)
        ensures
            pointer_down && old(self).dragged_handle is Some ==> drag == old(
                self,
            ).dragged_handle && *final(self) == *old(self),
            !(pointer_down && old(self).dragged_handle is Some) ==> drag is None && *final(self)
                == (InteractionState { dragged_handle: None, ..*old(self) }),
    {
        if pointer_down && self.dragged_handle.is_some() {
            return self.dragged_handle;
        }
        self.dragged_handle = None;
        None
    }
}

/// The keys seen during one frame.
pub struct KeyboardInput {
    /// A widget has the keyboard focus, so depth keys are not for the fractal.
    pub widget_focused: bool,
    /// The texts typed, in order.
    pub texts: Vec<String>,
    pub arrow_down_pressed: bool,
    pub arrow_up_pressed: bool,
    /// Shift and no other modifier is held.
    pub shift_only: bool,
    /// The design key was pressed during the frame.
    pub d_pressed: bool,
    /// The design key is held.
    pub d_down: bool,
    /// The design key was released during the frame.
    pub d_released: bool,
    /// The new-line key is held.
    pub n_down: bool,
    /// The trash key is held.
    pub t_down: bool,
    /// The control key is held.
    pub ctrl: bool,
}

pub open spec fn is_decimal_digit(c: char) -> bool {
    '0' <= c && c <= '9'
}

/// The value of a sequence of decimal digits.
pub open spec fn decimal_value(digits: Seq<char>) -> nat
    decreases digits.len(),
{
    if digits.len() == 0 {
        0
    } else {
        10 * decimal_value(digits.drop_last()) + ((digits.last() as int) - ('0' as int)) as nat
    }
}

/// `text` without a leading `+`.
pub open spec fn unsigned_digits(text: Seq<char>) -> Seq<char> {
    if text.len() > 0 && text[0] == '+' {
        text.drop_first()
    } else {
        text
    }
}

/// The `usize` that `text` spells: an optional `+` followed by one or more
/// decimal digits and nothing else, whose value fits in a `usize`.
pub open spec fn parsed_usize(text: Seq<char>) -> Option<usize> {
    let digits = unsigned_digits(text);
    if digits.len() > 0 && (forall|i: int| 0 <= i < digits.len() ==> is_decimal_digit(#[trigger] digits[i]))
        && decimal_value(digits) <= usize::MAX {
        Some(decimal_value(digits) as usize)
    } else {
        None
    }
}

/// std's `str::parse::<usize>`. Its documentation says the text must be an
/// optional `+` followed by decimal digits only (no sign `-`, no whitespace, no
/// underscore), and that an empty text or a value that overflows is an error;
/// `parsed_usize` states exactly that.
#[verifier::external_body]
fn parse_usize(text: &str) -> (number: Option<usize>)
    ensures
        number == parsed_usize(text@),
{
    text.parse::<usize>().ok()
}

pub open spec fn min_nat(a: nat, b: nat) -> nat {
    if a <= b {
        a
    } else {
        b
    }
}

/// The depth a typed number selects: 9 the deepest allowed, 8 half of that,
/// any other number itself, capped at the deepest.
pub open spec fn depth_for_number_spec(number: nat, max_depth: nat) -> nat {
    if number == 9 {
        max_depth
    } else if number == 8 {
        max_depth / 2
    } else {
        min_nat(number, max_depth)
    }
}

/// The depth after the text `text` is typed at depth `depth`: a text holding a
/// digit that parses as a number selects the depth for that number, any other
/// text changes nothing.
pub open spec fn depth_after_text(text: Seq<char>, depth: nat, max_depth: nat) -> nat {
    if (exists|i: int| 0 <= i < text.len() && is_decimal_digit(#[trigger] text[i]))
        && parsed_usize(text) is Some {
        depth_for_number_spec(parsed_usize(text)->0 as nat, max_depth)
    } else {
        depth
    }
}

/// The depth after the texts `texts` are typed in order.
pub open spec fn depth_after_texts(texts: Seq<String>, depth: nat, max_depth: nat) -> nat
    decreases texts.len(),
{
    if texts.len() == 0 {
        depth
    } else {
        depth_after_text(
            texts.last()@,
            depth_after_texts(texts.drop_last(), depth, max_depth),
            max_depth,
        )
    }
}

/// The depth after the typed texts and the down arrow (one level less, never below 0).
pub open spec fn depth_before_arrow_up(input: KeyboardInput, depth: nat, max_depth: nat) -> nat {
    let typed = depth_after_texts(input.texts@, depth, max_depth);
    if input.arrow_down_pressed {
        if typed >= 1 {
            (typed - 1) as nat
        } else {
            0
        }
    } else {
        typed
    }
}

/// The depth after a frame's keys: unchanged while a widget has the focus,
/// otherwise the typed numbers, then the down arrow, then the up arrow (one
/// level more, never beyond the deepest allowed).
pub open spec fn depth_after_keys(input: KeyboardInput, depth: nat, max_depth: nat) -> nat {
    if input.widget_focused {
        depth
    } else {
        let before_up = depth_before_arrow_up(input, depth, max_depth);
        if input.arrow_up_pressed {
            min_nat(before_up + 1, max_depth)
        } else {
            before_up
        }
    }
}

/// Whether only the design is shown after a frame's keys: with shift alone the
/// design key toggles it, otherwise it is shown while the key is held and
/// hidden when the key is released.
pub open spec fn design_shown_after_keys(input: KeyboardInput, shown: bool) -> bool {
    if input.shift_only {
        if input.d_pressed {
            !shown
        } else {
            shown
        }
    } else if input.d_down {
        true
    } else if input.d_released {
        false
    } else {
        shown
    }
}

/// The depth a typed number selects, never beyond `max_depth`.
pub fn depth_for_number(number: usize, max_depth: usize) -> (depth: usize)
    ensures
        depth == depth_for_number_spec(number as nat, max_depth as nat),
        depth <= max_depth,
{
    if number == 9 {
        max_depth
    } else if number == 8 {
        // half of the deepest allowed depth
        max_depth / 2
    } else if number > max_depth {
        max_depth
    } else {
        number
    }
}

/// The depth after `text` is typed at depth `depth`.
pub fn depth_for_text(text: &str, depth: usize, max_depth: usize) -> (new_depth: usize)
    ensures
        new_depth == depth_after_text(text@, depth as nat, max_depth as nat),
{
    let mut has_digit = false;
    for c in it: text.chars()
        invariant
            it.seq() == text@,
            has_digit == (exists|j: int| 0 <= j < it.index() && is_decimal_digit(#[trigger] text@[j])),
    {
        if '0' <= c && c <= '9' {
            has_digit = true;
        }
    }
    if !has_digit {
        return depth;
    }
    match parse_usize(text) {
        Some(number) => depth_for_number(number, max_depth),
        None => depth,
    }
}

/// Apply a frame's keys: typed numbers and the arrows change `depth` (unless a
/// widget has the focus), the design key shows or hides the design, and the
/// new-line, trash and control keys are remembered as held or not.
pub fn handle_keyboard_input(
    input: &KeyboardInput,
    state: &mut InteractionState,
    depth: &mut usize,
    max_depth: usize,
)
    requires
        !input.widget_focused && input.arrow_up_pressed ==> depth_before_arrow_up(
            *input,
            *old(depth) as nat,
            max_depth as nat,
        ) < usize::MAX,
    ensures
        *final(depth) == depth_after_keys(*input, *old(depth) as nat, max_depth as nat),
        *final(state) == (InteractionState {
            show_design_only: design_shown_after_keys(*input, old(state).show_design_only),
            new_line_key_down: input.n_down,
            trash_line_key_down: input.t_down,
            fine_tune: input.ctrl,
            ..*old(state)
        }),
{
    if !input.widget_focused {
        let n = input.texts.len();
        let mut i: usize = 0;
        while i < n
            invariant
                0 <= i <= n,
                n == input.texts@.len(),
                *depth == depth_after_texts(input.texts@.take(i as int), *old(depth) as nat, max_depth as nat),
            decreases n - i,
        {
            let new_depth = depth_for_text(input.texts[i].as_str(), *depth, max_depth);
            proof {
                assert(input.texts@.take(i + 1).drop_last() =~= input.texts@.take(i as int));
            }
            *depth = new_depth;
            i = i + 1;
        }
        proof {
            assert(input.texts@.take(n as int) =~= input.texts@);
        }
        if input.arrow_down_pressed {
            // never below depth 0
            *depth = if *depth >= 1 {
                *depth - 1
            } else {
                0
            };
        }
        if input.arrow_up_pressed {
            let up = *depth + 1;
            *depth = if up > max_depth {
                max_depth
            } else {
                up
            };
        }
    }
    if input.shift_only {
        if input.d_pressed {
            state.show_design_only = !state.show_design_only;
        }
    } else {
        if input.d_down {
            state.show_design_only = true;
        } else if input.d_released {
            state.show_design_only = false;
        }
    }
    state.new_line_key_down = input.n_down;
    state.trash_line_key_down = input.t_down;
    state.fine_tune = input.ctrl;
}

/// The number and arrow keys keep a depth within the deepest allowed, and the
/// up arrow always lands within it.
pub proof fn lemma_depth_keys_stay_in_range(input: KeyboardInput, depth: nat, max_depth: nat)
    ensures
        depth <= max_depth ==> depth_after_keys(input, depth, max_depth) <= max_depth,
        !input.widget_focused && input.arrow_up_pressed ==> depth_after_keys(
            input,
            depth,
            max_depth,
        ) <= max_depth,
{
    if depth <= max_depth {
        lemma_texts_keep_depth_in_range(input.texts@, depth, max_depth);
    }
}

/// Typed texts keep a depth within the deepest allowed.
pub proof fn lemma_texts_keep_depth_in_range(texts: Seq<String>, depth: nat, max_depth: nat)
    requires
        depth <= max_depth,
    ensures
        depth_after_texts(texts, depth, max_depth) <= max_depth,
    decreases texts.len(),
{
    if texts.len() > 0 {
        lemma_texts_keep_depth_in_range(texts.drop_last(), depth, max_depth);
    }
}

/// What a pointer event on a hovered design line did.
#[derive(Clone, Copy, Debug, PartialEq, Eq, Structural)]
pub enum HoverOutcome {
    /// The pointer is down on the line: its handle is being dragged.
    Pressed,
    /// A double click with the trash key held removed the line.
    Removed,
    /// A double click with the trash key held hit the initiator, which is kept.
    BaseKept,
    /// A double click reversed the line.
    Reversed,
    /// Nothing happened to the line.
    Idle,
}

/// The outcome of a pointer event on hovered line `hover_line`.
pub open spec fn hover_outcome(
    hover_line: nat,
    pointer_down: bool,
    double_clicked: bool,
    trash_line_key_down: bool,
) -> HoverOutcome {
    if pointer_down {
        HoverOutcome::Pressed
    } else if double_clicked {
        if trash_line_key_down {
            if hover_line != 0 {
                HoverOutcome::Removed
            } else {
                HoverOutcome::BaseKept
            }
        } else {
            HoverOutcome::Reversed
        }
    } else {
        HoverOutcome::Idle
    }
}

/// Handle the pointer over design line `hover_line`, whose handle `hover_handle`
/// is the nearer one: the line becomes the hovered one; pressing picks up that
/// handle unless one is dragged already; a double click removes the line while
/// the trash key is held (never the initiator) and reverses it otherwise.
pub fn handle_hovered_line_mouse_input<P: Copy>(
    lines: &mut Vec<ReversibleLine<P>>,
    state: &mut InteractionState,
    hover_line: usize,
    hover_handle: usize,
    pointer_down: bool,
    double_clicked: bool,
) -> (outcome: HoverOutcome)
    requires
        hover_line < old(lines).len(),
        hover_handle < 2,
    ensures
        outcome == hover_outcome(
            hover_line as nat,
            pointer_down,
            double_clicked,
            old(state).trash_line_key_down,
        ),
        *final(state) == (InteractionState {
            hovered_line: Some(hover_line),
            dragged_handle: if pointer_down && old(state).dragged_handle is None {
                Some(DraggedHandle { line: hover_line, end: hover_handle })
            } else {
                old(state).dragged_handle
            },
            ..*old(state)
        }),
        final(lines)@ == match outcome {
            HoverOutcome::Removed => old(lines)@.remove(hover_line as int),
            HoverOutcome::Reversed => old(lines)@.update(
                hover_line as int,
                old(lines)@[hover_line as int].toggled(),
            ),
            _ => old(lines)@,
        },
{
    state.hovered_line = Some(hover_line);
    if pointer_down {
        if state.dragged_handle.is_none() {
            state.dragged_handle = Some(DraggedHandle { line: hover_line, end: hover_handle });
        }
        HoverOutcome::Pressed
    } else if double_clicked {
        if state.trash_line_key_down {
            if hover_line != 0 {
                lines.remove(hover_line);
                HoverOutcome::Removed
            } else {
                // the initiator cannot be removed
                HoverOutcome::BaseKept
            }
        } else {
            let mut line = lines[hover_line];
            line.toggle_reversed();
            lines.set(hover_line, line);
            HoverOutcome::Reversed
        }
    } else {
        HoverOutcome::Idle
    }
}

/// A double click never removes the initiator: the lines keep their first line
/// unless the line count shrinks by exactly one.
pub proof fn lemma_initiator_is_never_removed<P>(
    lines: Seq<ReversibleLine<P>>,
    hover_line: nat,
    double_clicked: bool,
    trash_line_key_down: bool,
)
    requires
        hover_line < lines.len(),
        hover_outcome(hover_line, false, double_clicked, trash_line_key_down)
            == HoverOutcome::Removed,
    ensures
        hover_line != 0,
        lines.remove(hover_line as int)[0] == lines[0],
        lines.remove(hover_line as int).len() == lines.len() - 1,
{
}

/// Without focus and without typed text, the down arrow alone lowers every
/// depth of at least 1 by exactly one and leaves depth 0 at 0; the up arrow
/// alone raises a depth below the deepest allowed by exactly one and keeps the
/// deepest allowed.
pub proof fn lemma_arrows_step_by_one(input: KeyboardInput, depth: nat, max_depth: nat)
    requires
        !input.widget_focused,
        input.texts@.len() == 0,
    ensures
        input.arrow_down_pressed && !input.arrow_up_pressed ==> {
            let after = depth_after_keys(input, depth, max_depth);
            &&& depth >= 1 ==> after + 1 == depth
            &&& depth == 0 ==> after == 0
        },
        !input.arrow_down_pressed && input.arrow_up_pressed ==> {
            let after = depth_after_keys(input, depth, max_depth);
            &&& depth < max_depth ==> after == depth + 1
            &&& depth >= max_depth ==> after == max_depth
        },
        !input.arrow_down_pressed && !input.arrow_up_pressed ==> depth_after_keys(
            input,
            depth,
            max_depth,
        ) == depth,
{
}

/// The design view: with shift alone a press of the design key flips it and
/// otherwise it stays; without shift a held key shows it, a release without
/// the key held hides it, and a frame with the key neither held nor released
/// leaves it as it was.
pub proof fn lemma_design_view_keys(input: KeyboardInput, shown: bool)
    ensures
        input.shift_only && input.d_pressed ==> design_shown_after_keys(input, shown) == !shown,
        input.shift_only && !input.d_pressed ==> design_shown_after_keys(input, shown) == shown,
        !input.shift_only && input.d_down ==> design_shown_after_keys(input, shown),
        !input.shift_only && !input.d_down && input.d_released ==> !design_shown_after_keys(
            input,
            shown,
        ),
        !input.shift_only && !input.d_down && !input.d_released ==> design_shown_after_keys(
            input,
            shown,
        ) == shown,
{
}

/// A double click with the pointer up: without the trash key it reverses the
/// hovered line, whichever line it is, the initiator included; with the trash
/// key it removes any line but the initiator, which is kept. A press always
/// picks up, and no click does nothing.
pub proof fn lemma_double_click_outcomes<P>(line: ReversibleLine<P>, hover_line: nat, trash: bool)
    ensures
        hover_outcome(hover_line, false, true, false) == HoverOutcome::Reversed,
        line.toggled().reversed == !line.reversed,
        line.toggled().root == line.root && line.toggled().tip == line.tip,
        hover_line != 0 ==> hover_outcome(hover_line, false, true, true) == HoverOutcome::Removed,
        hover_outcome(0, false, true, true) == HoverOutcome::BaseKept,
        hover_outcome(hover_line, true, true, trash) == HoverOutcome::Pressed,
        hover_outcome(hover_line, false, false, trash) == HoverOutcome::Idle,
{
}

} // verus!
