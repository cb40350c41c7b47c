//! Design lines and the edits made to them: dragging handles, drawing new
//! lines, reversing and removing lines, and arranging the lines as a tree or a
//! closed loop.
//!
//! The lines are generic over the point type `P`: the edits only move points
//! around and never compute with their coordinates.

use vstd::prelude::*;
use vstd::std_specs::cmp::PartialEqSpec;

verus! {

/// How the design lines hang together while they are edited.
#[derive(Clone, Copy, Debug, PartialEq, Eq, Structural)]
pub enum LinesStyle {
    /// Every line moves on its own.
    Free,
    /// Every generator starts at the tip of the initiator.
    Tree,
    /// Every line starts where the line before it ends, and the last one ends
    /// where the initiator starts.
    Loop,
}

/// A design line from `root` (handle 0) to `tip` (handle 1). A reversed line is
/// drawn from its tip to its root.
#[derive(Clone, Copy, Debug)]
pub struct ReversibleLine<P> {
    pub root: P,
    pub tip: P,
    pub reversed: bool,
}

impl<P> ReversibleLine<P> {
    /// The point of handle `handle`: the root for 0, the tip otherwise.
    pub open spec fn handle(self, handle: nat) -> P {
        if handle == 0 {
            self.root
        } else {
            self.tip
        }
    }

    /// The line with the point of handle `handle` moved to `point`.
    pub open spec fn with_handle(self, handle: nat, point: P) -> ReversibleLine<P> {
        if handle == 0 {
            ReversibleLine { root: point, tip: self.tip, reversed: self.reversed }
        } else {
            ReversibleLine { root: self.root, tip: point, reversed: self.reversed }
        }
    }

    /// Where the line is drawn from.
    pub open spec fn drawn_start(self) -> P {
        if self.reversed {
            self.tip
        } else {
            self.root
        }
    }

    /// Where the line is drawn to.
    pub open spec fn drawn_end(self) -> P {
        if self.reversed {
            self.root
        } else {
            self.tip
        }
    }

    /// The line with root and tip exchanged and the direction flag flipped.
    pub open spec fn swapped(self) -> ReversibleLine<P> {
        ReversibleLine { root: self.tip, tip: self.root, reversed: !self.reversed }
    }

    /// The line drawn the other way round.
    pub open spec fn toggled(self) -> ReversibleLine<P> {
        ReversibleLine { root: self.root, tip: self.tip, reversed: !self.reversed }
    }

    /// The line turned so that handle `handle` becomes its root, with that root
    /// then moved to `point`.
    pub open spec fn anchored(self, handle: nat, point: P) -> ReversibleLine<P> {
        let turned = if handle == 1 {
            self.swapped()
        } else {
            self
        };
        turned.with_handle(0, point)
    }
}

impl<P: Copy> ReversibleLine<P> {
    /// A line from `root` to `tip`, drawn in that direction.
    pub fn new(root: P, tip: P) -> (line: Self)
        ensures
            line == (ReversibleLine { root, tip, reversed: false }),
    {
        ReversibleLine { root, tip, reversed: false }
    }

    /// The point of handle `handle` (0 for the root, 1 for the tip).
    pub fn handle_point(&self, handle: usize) -> (point: P)
        requires
            handle < 2,
        ensures
            point == self.handle(handle as nat),
    {
        if handle == 0 {
            self.root
        } else {
            self.tip
        }
    }

    /// The points the line is drawn from and to.
    pub fn directed_ends(&self) -> (ends: (P, P))
        ensures
            ends == (self.drawn_start(), self.drawn_end()),
    {
        if self.reversed {
            (self.tip, self.root)
        } else {
            (self.root, self.tip)
        }
    }

    /// Exchange root and tip, keeping the direction in which the line is drawn.
    pub fn swap_ends(&mut self)
        ensures
            *final(self) == old(self).swapped(),
    {
        let root = self.root;
        self.root = self.tip;
        self.tip = root;
        self.reversed = !self.reversed;
    }

    /// Draw the line the other way round.
    pub fn toggle_reversed(&mut self)
        ensures
            *final(self) == old(self).toggled(),
    {
        self.reversed = !self.reversed;
    }

    /// Turn the line so that handle `handle` becomes its root, then move that root to `point`.
    pub fn anchor(&mut self, handle: usize, point: P)
        requires
            handle < 2,
        ensures
            *final(self) == old(self).anchored(handle as nat, point),
    {
        if handle == 1 {
            self.swap_ends();
        }
        self.root = point;
    }
}

/// Exchanging root and tip does not change how the line is drawn.
pub proof fn lemma_swap_keeps_drawing<P>(line: ReversibleLine<P>)
    ensures
        line.swapped().drawn_start() == line.drawn_start(),
        line.swapped().drawn_end() == line.drawn_end(),
        line.swapped().swapped() == line,
{
}

/// Reversing a line twice gives the line back, and a reversed line is drawn
/// between the same points the other way round.
pub proof fn lemma_toggle_twice<P>(line: ReversibleLine<P>)
    ensures
        line.toggled().toggled() == line,
        line.toggled().drawn_start() == line.drawn_end(),
        line.toggled().drawn_end() == line.drawn_start(),
{
}

/// Anchoring a line at its tip keeps its far end and how it is drawn relative
/// to it: the old root becomes the tip.
pub proof fn lemma_anchor_at_tip<P>(line: ReversibleLine<P>, point: P)
    ensures
        line.anchored(1, point).root == point,
        line.anchored(1, point).tip == line.root,
        line.anchored(1, point).reversed == !line.reversed,
        line.anchored(0, point).tip == line.tip,
        line.anchored(0, point).reversed == line.reversed,
{
}

/// The index before `i` in a cyclic sequence of length `len`.
pub open spec fn prev_index(i: int, len: int) -> int {
    if i == 0 {
        len - 1
    } else {
        i - 1
    }
}

/// The index after `i` in a cyclic sequence of length `len`.
pub open spec fn next_index(i: int, len: int) -> int {
    if i + 1 == len {
        0
    } else {
        i + 1
    }
}

/// Every line starts where the one before it ends, and the first starts where the last ends.
pub open spec fn is_closed_loop<P>(lines: Seq<ReversibleLine<P>>) -> bool {
    &&& lines.len() >= 1
    &&& forall|i: int|
        0 <= i < lines.len() ==> #[trigger] lines[i].tip == lines[next_index(i, lines.len() as int)].root
}

/// Every generator starts at the tip of the initiator.
pub open spec fn is_tree<P>(lines: Seq<ReversibleLine<P>>) -> bool {
    &&& lines.len() >= 1
    &&& forall|i: int| 1 <= i < lines.len() ==> #[trigger] lines[i].root == lines[0].tip
}

/// The lines after handle `end` of line `line` is dragged to `point`.
///
/// In a loop the tip of a line and the root of the next are one point and move
/// together. In a tree, moving the tip of the initiator moves the roots of all
/// generators with it. Otherwise only the dragged handle moves.
pub open spec fn dragged_lines<P>(
    lines: Seq<ReversibleLine<P>>,
    style: LinesStyle,
    line: int,
    end: nat,
    point: P,
) -> Seq<ReversibleLine<P>> {
    let len = lines.len() as int;
    match style {
        LinesStyle::Loop => {
            let moved = if end == 0 {
                prev_index(line, len)
            } else {
                line
            };
            let next = next_index(moved, len);
            let with_tip = lines.update(moved, lines[moved].with_handle(1, point));
            with_tip.update(next, with_tip[next].with_handle(0, point))
        },
        LinesStyle::Tree => {
            let moved = lines.update(line, lines[line].with_handle(end, point));
            if line == 0 && end == 1 {
                Seq::new(
                    moved.len(),
                    |i: int|
                        if i == 0 {
                            moved[0]
                        } else {
                            moved[i].with_handle(0, point)
                        },
                )
            } else {
                moved
            }
        },
        LinesStyle::Free => lines.update(line, lines[line].with_handle(end, point)),
    }
}

/// Move handle `end` of design line `line` to `new_point`, keeping the lines
/// together as `style` asks.
pub fn continue_dragging_line_end<P: Copy>(
    lines: &mut Vec<ReversibleLine<P>>,
    style: LinesStyle,
    line: usize,
    end: usize,
    new_point: P,
)
    requires
        line < old(lines).len(),
        end < 2,
    ensures
        final(lines)@ == dragged_lines(old(lines)@, style, line as int, end as nat, new_point),
{
    let len = lines.len();
    match style {
        LinesStyle::Loop => {
            // dragging a root moves the tip of the previous line
            let moved: usize = if end == 0 {
                if line == 0 {
                    len - 1
                } else {
                    line - 1
                }
            } else {
                line
            };
            let next: usize = if moved + 1 == len {
                0
            } else {
                moved + 1
            };
            let mut with_tip = lines[moved];
            with_tip.tip = new_point;
            lines.set(moved, with_tip);
            let mut with_root = lines[next];
            with_root.root = new_point;
            lines.set(next, with_root);
        },
        LinesStyle::Tree => {
            let mut moved = lines[line];
            if end == 0 {
                moved.root = new_point;
            } else {
                moved.tip = new_point;
            }
            lines.set(line, moved);
            if line == 0 && end == 1 {
                let ghost after_move = lines@;
                let mut i: usize = 1;
                while i < len
                    invariant
                        1 <= i <= len,
                        len == lines@.len(),
                        after_move.len() == len,
                        lines@[0] == after_move[0],
                        forall|j: int| 1 <= j < i ==> #[trigger] lines@[j] == after_move[j].with_handle(0, new_point),
                        forall|j: int| i <= j < len ==> #[trigger] lines@[j] == after_move[j],
                    decreases len - i,
                {
                    let mut branch = lines[i];
                    branch.root = new_point;
                    lines.set(i, branch);
                    i = i + 1;
                }
                assert(lines@ =~= Seq::new(
                    after_move.len(),
                    |k: int|
                        if k == 0 {
                            after_move[0]
                        } else {
                            after_move[k].with_handle(0, new_point)
                        },
                ));
            }
        },
        LinesStyle::Free => {
            let mut moved = lines[line];
            if end == 0 {
                moved.root = new_point;
            } else {
                moved.tip = new_point;
            }
            lines.set(line, moved);
        },
    }
}

/// Dragging any handle of a closed loop in loop style keeps the loop closed.
pub proof fn lemma_loop_drag_keeps_loop_closed<P>(
    lines: Seq<ReversibleLine<P>>,
    line: int,
    end: nat,
    point: P,
)
    requires
        is_closed_loop(lines),
        0 <= line < lines.len(),
        end < 2,
    ensures
        is_closed_loop(dragged_lines(lines, LinesStyle::Loop, line, end, point)),
        dragged_lines(lines, LinesStyle::Loop, line, end, point).len() == lines.len(),
{
    let result = dragged_lines(lines, LinesStyle::Loop, line, end, point);
    let len = lines.len() as int;
    let moved = if end == 0 {
        prev_index(line, len)
    } else {
        line
    };
    let next = next_index(moved, len);
    assert forall|i: int| 0 <= i < len implies #[trigger] result[i].tip == result[next_index(
        i,
        len,
    )].root by {
        if i == moved {
        } else if next_index(i, len) == next {
        } else {
            assert(lines[i].tip == lines[next_index(i, len)].root);
        }
    }
}

/// Dragging a handle of a tree in tree style keeps it a tree, unless the
/// handle is the root of a generator.
pub proof fn lemma_tree_drag_keeps_tree<P>(
    lines: Seq<ReversibleLine<P>>,
    line: int,
    end: nat,
    point: P,
)
    requires
        is_tree(lines),
        0 <= line < lines.len(),
        end < 2,
        line == 0 || end == 1,
    ensures
        is_tree(dragged_lines(lines, LinesStyle::Tree, line, end, point)),
        dragged_lines(lines, LinesStyle::Tree, line, end, point).len() == lines.len(),
{
    let result = dragged_lines(lines, LinesStyle::Tree, line, end, point);
    assert forall|i: int| 1 <= i < result.len() implies #[trigger] result[i].root
        == result[0].tip by {
        assert(lines[i].root == lines[0].tip);
    }
}

/// Whether only the tip of design line `index` can be picked up in style
/// `style`: the generators of a tree and every line of a loop.
pub fn handle_is_tip_only(style: LinesStyle, index: usize) -> (tip_only: bool)
    ensures
        tip_only == ((style == LinesStyle::Tree && index != 0) || style == LinesStyle::Loop),
{
    match style {
        LinesStyle::Tree => index != 0,
        LinesStyle::Loop => true,
        LinesStyle::Free => false,
    }
}

/// Step of drawing a new design line with the pointer while the new-line key
/// is held: pressing starts a line at `hover_pos`, dragging moves its tip, and
/// releasing adds it to `lines`. Returns whether a line is being drawn, in
/// which case the pointer does nothing else.
pub fn draw_new_line<P: Copy>(
    draft: &mut Option<ReversibleLine<P>>,
    lines: &mut Vec<ReversibleLine<P>>,
    new_line_key_down: bool,
    pointer_down: bool,
    hover_pos: P,
) -> (drawing: bool)
    ensures
        drawing == (new_line_key_down || *old(draft) is Some),
        !drawing ==> *final(draft) == *old(draft) && final(lines)@ == old(lines)@,
        drawing ==> match *old(draft) {
            None => final(lines)@ == old(lines)@ && *final(draft) == (if pointer_down {
                Some(ReversibleLine { root: hover_pos, tip: hover_pos, reversed: false })
            } else {
                None
            }),
            Some(line) => if pointer_down {
                final(lines)@ == old(lines)@ && *final(draft) == Some(line.with_handle(1, hover_pos))
            } else {
                final(lines)@ == old(lines)@.push(line) && *final(draft) == None::<
                    ReversibleLine<P>,
                >
            },
        },
{
    let current = *draft;
    if !new_line_key_down && current.is_none() {
        return false;
    }
    match current {
        None => {
            if pointer_down {
                *draft = Some(ReversibleLine::new(hover_pos, hover_pos));
            }
        },
        Some(line) => {
            if pointer_down {
                let mut moved = line;
                moved.tip = hover_pos;
                *draft = Some(moved);
            } else {
                lines.push(line);
                *draft = None;
            }
        },
    }
    true
}

/// The lines after every generator `i` with a nearest handle `handles[i - 1]`
/// is turned to start from that handle and anchored at the initiator's tip.
pub open spec fn tree_anchored<P>(
    lines: Seq<ReversibleLine<P>>,
    handles: Seq<Option<usize>>,
) -> Seq<ReversibleLine<P>> {
    Seq::new(
        lines.len(),
        |i: int|
            if i == 0 {
                lines[0]
            } else {
                match handles[i - 1] {
                    Some(h) => lines[i].anchored(h as nat, lines[0].tip),
                    None => lines[i],
                }
            },
    )
}

/// Arrange the design lines as a tree: every generator is turned so that its
/// handle nearest to the initiator's tip, `nearest_handles[i - 1]` for line
/// `i`, becomes its root, and that root is moved onto the initiator's tip. A
/// generator without a nearest handle stays as it is.
pub fn make_tree<P: Copy>(lines: &mut Vec<ReversibleLine<P>>, nearest_handles: &Vec<Option<usize>>)
    requires
        old(lines).len() >= 1,
        nearest_handles.len() + 1 == old(lines).len(),
        forall|i: int|
            0 <= i < nearest_handles.len() ==> (#[trigger] nearest_handles@[i] matches Some(h)
                ==> h < 2),
    ensures
        final(lines)@ == tree_anchored(old(lines)@, nearest_handles@),
        (forall|i: int| 0 <= i < nearest_handles.len() ==> #[trigger] nearest_handles@[i] is Some)
            ==> is_tree(final(lines)@),
{
    let ghost start = lines@;
    let base_tip = lines[0].tip;
    let len = lines.len();
    let mut i: usize = 1;
    while i < len
        invariant
            1 <= i <= len,
            len == lines@.len(),
            start.len() == len,
            nearest_handles.len() + 1 == len,
            base_tip == start[0].tip,
            forall|k: int|
                0 <= k < nearest_handles.len() ==> (#[trigger] nearest_handles@[k] matches Some(h)
                    ==> h < 2),
            forall|j: int| 0 <= j < i ==> #[trigger] lines@[j] == tree_anchored(start, nearest_handles@)[j],
            forall|j: int| i <= j < len ==> #[trigger] lines@[j] == start[j],
        decreases len - i,
    {
        match nearest_handles[i - 1] {
            Some(handle) => {
                let mut branch = lines[i];
                branch.anchor(handle, base_tip);
                lines.set(i, branch);
            },
            None => {},
        }
        i = i + 1;
    }
    assert(lines@ =~= tree_anchored(start, nearest_handles@));
}

/// Every line of `built` starts where the one before it ends, the first where
/// `base` ends.
pub open spec fn chained_after<P>(base: ReversibleLine<P>, built: Seq<ReversibleLine<P>>) -> bool {
    forall|i: int|
        0 <= i < built.len() ==> #[trigger] built[i].root == (if i == 0 {
            base.tip
        } else {
            built[i - 1].tip
        })
}

/// The design lines once the chain `built` after `base` is closed into a loop:
/// the last line is made to end where `base` starts. With `merge` the last line
/// is first shortened to its tip, which the line before it now reaches, so
/// that closing the loop does not collapse it to a point.
pub open spec fn loop_closed<P>(
    base: ReversibleLine<P>,
    built: Seq<ReversibleLine<P>>,
    merge: bool,
) -> Seq<ReversibleLine<P>> {
    if built.len() == 0 {
        seq![base]
    } else {
        let n = built.len() as int;
        let merged = if merge {
            let last_tip = built[n - 1].tip;
            built.update(n - 2, built[n - 2].with_handle(1, last_tip)).update(
                n - 1,
                built[n - 1].with_handle(0, last_tip),
            )
        } else {
            built
        };
        seq![base] + merged.update(n - 1, merged[n - 1].with_handle(1, base.root))
    }
}

/// Closing a chain always gives a closed loop with one line more than the chain.
pub proof fn lemma_loop_closed_is_loop<P>(
    base: ReversibleLine<P>,
    built: Seq<ReversibleLine<P>>,
    merge: bool,
)
    requires
        chained_after(base, built),
        built.len() >= 1,
        merge ==> built.len() >= 2,
    ensures
        is_closed_loop(loop_closed(base, built, merge)),
        loop_closed(base, built, merge).len() == built.len() + 1,
        loop_closed(base, built, merge)[0] == base,
{
    let result = loop_closed(base, built, merge);
    let len = result.len() as int;
    let n = built.len() as int;
    assert forall|i: int| 0 <= i < len implies #[trigger] result[i].tip == result[next_index(
        i,
        len,
    )].root by {
        if i + 1 < len {
            assert(built[i].root == (if i == 0 {
                base.tip
            } else {
                built[i - 1].tip
            }));
        }
    }
}

/// Arranges the design lines into a closed loop, one line at a time: starting
/// at the tip of the initiator, the caller repeatedly names the remaining line
/// and handle nearest to the current point; that line is turned to start there
/// and its tip becomes the current point. Finishing closes the loop at the
/// root of the initiator.
pub struct LoopBuilder<P> {
    base: ReversibleLine<P>,
    remaining: Vec<ReversibleLine<P>>,
    built: Vec<ReversibleLine<P>>,
    current_pos: P,
}

impl<P> LoopBuilder<P> {
    /// The initiator, which stays first.
    pub closed spec fn base_line(self) -> ReversibleLine<P> {
        self.base
    }

    /// The lines not placed yet.
    pub closed spec fn remaining_lines(self) -> Seq<ReversibleLine<P>> {
        self.remaining@
    }

    /// The vector of the lines not placed yet.
    pub closed spec fn remaining_vec(self) -> Vec<ReversibleLine<P>> {
        self.remaining
    }

    /// The lines placed so far, in loop order.
    pub closed spec fn built_lines(self) -> Seq<ReversibleLine<P>> {
        self.built@
    }

    /// Where the next line will start.
    pub closed spec fn current_point(self) -> P {
        self.current_pos
    }

    /// The placed lines form a chain from the initiator's tip to the current point.
    pub open spec fn wf(self) -> bool {
        &&& chained_after(self.base_line(), self.built_lines())
        &&& self.current_point() == (if self.built_lines().len() == 0 {
            self.base_line().tip
        } else {
            self.built_lines().last().tip
        })
    }
}

impl<P: Copy + PartialEq> LoopBuilder<P> {
    /// Start a loop from `lines`: the first is the initiator, the others are still to be placed.
    pub fn new(lines: Vec<ReversibleLine<P>>) -> (builder: Self)
        requires
            lines.len() >= 1,
        ensures
            builder.wf(),
            builder.base_line() == lines@[0],
            builder.remaining_lines() == lines@.drop_first(),
            builder.built_lines() == Seq::<ReversibleLine<P>>::empty(),
            builder.current_point() == lines@[0].tip,
    {
        let mut remaining = lines;
        let base = remaining.remove(0);
        let builder = LoopBuilder { base, remaining, built: Vec::new(), current_pos: base.tip };
        assert(builder.remaining@ =~= lines@.drop_first());
        builder
    }

    /// Where the next line will start.
    pub fn current_pos(&self) -> (point: P)
        ensures
            point == self.current_point(),
    {
        self.current_pos
    }

    /// The lines not placed yet.
    pub fn remaining(&self) -> (lines: &Vec<ReversibleLine<P>>)
        ensures
            lines@ == self.remaining_lines(),
            *lines == self.remaining_vec(),
    {
        &self.remaining
    }

    /// Whether lines remain to be placed.
    pub fn has_remaining(&self) -> (more: bool)
        ensures
            more == (self.remaining_lines().len() > 0),
    {
        self.remaining.len() > 0
    }

    /// Place remaining line `index` next, starting from its handle `handle`.
    pub fn take(&mut self, index: usize, handle: usize)
        requires
            old(self).wf(),
            index < old(self).remaining_lines().len(),
            handle < 2,
        ensures
            final(self).wf(),
            final(self).base_line() == old(self).base_line(),
            final(self).remaining_lines() == old(self).remaining_lines().remove(index as int),
            final(self).built_lines() == old(self).built_lines().push(
                old(self).remaining_lines()[index as int].anchored(
                    handle as nat,
                    old(self).current_point(),
                ),
            ),
            final(self).current_point() == old(self).remaining_lines()[index as int].anchored(
                handle as nat,
                old(self).current_point(),
            ).tip,
            final(self).remaining_lines().len() + final(self).built_lines().len()
                == old(self).remaining_lines().len() + old(self).built_lines().len(),
    {
        let mut line = self.remaining.remove(index);
        line.anchor(handle, self.current_pos);
        self.current_pos = line.tip;
        self.built.push(line);
    }

    /// The design lines as a loop: the initiator, then the placed lines, the
    /// last of which now ends at the initiator's root. Lines still remaining are
    /// dropped. When the last placed line starts where the initiator starts, it
    /// is merged with the line before it so that it does not disappear.
    pub fn finish(self) -> (lines: Vec<ReversibleLine<P>>)
        requires
            self.wf(),
        ensures
            lines@ == loop_closed(self.base_line(), self.built_lines(), false) || (
            self.built_lines().len() > 1 && lines@ == loop_closed(
                self.base_line(),
                self.built_lines(),
                true,
            )),
            P::obeys_eq_spec() ==> lines@ == loop_closed(
                self.base_line(),
                self.built_lines(),
                self.built_lines().len() > 1 && self.built_lines().last().root.eq_spec(
                    &self.base_line().root,
                ),
            ),
            lines@.len() == self.built_lines().len() + 1,
            lines@[0] == self.base_line(),
            self.built_lines().len() >= 1 ==> is_closed_loop(lines@),
    {
        let ghost built0 = self.built@;
        let base = self.base;
        let mut built = self.built;
        let n = built.len();
        let mut merge = false;
        if n > 1 {
            let last = built[n - 1];
            if last.root == base.root {
                // the last line would disappear
                merge = true;
                let mut before_last = built[n - 2];
                before_last.tip = last.tip;
                built.set(n - 2, before_last);
                let mut shortened = last;
                shortened.root = last.tip;
                built.set(n - 1, shortened);
            }
        }
        if n > 0 {
            // close the loop
            let mut closing = built[n - 1];
            closing.tip = base.root;
            built.set(n - 1, closing);
        }
        let mut lines = Vec::new();
        lines.push(base);
        lines.append(&mut built);
        proof {
            assert(lines@ =~= loop_closed(base, built0, merge));
            if n >= 1 {
                lemma_loop_closed_is_loop(base, built0, merge);
            }
        }
        lines
    }
}

/// `after` is `before` arranged into a loop by `make_loop` with the
/// nearest-handle search `nearest_handle`: the initiator stays first, some of
/// the other lines follow, each starting where the one before it ends, and the
/// last ending where the initiator starts. Lines are dropped only when the
/// search finds nothing among lines that remain.
pub open spec fn is_loop_made<P, F: Fn(P, &Vec<ReversibleLine<P>>) -> Option<(usize, usize)>>(
    before: Seq<ReversibleLine<P>>,
    after: Seq<ReversibleLine<P>>,
    nearest_handle: F,
) -> bool {
    &&& 1 <= after.len() <= before.len()
    &&& after[0] == before[0]
    &&& after.len() >= 2 ==> is_closed_loop(after)
    &&& (forall|p: P, v: &Vec<ReversibleLine<P>>, r: Option<(usize, usize)>|
        #[trigger] call_ensures(nearest_handle, (p, v), r) && v@.len() > 0 ==> r is Some)
        ==> after.len() == before.len()
}

/// The loop walk after the search answers `answers`: starting at the point
/// `start` with the lines `remaining`, each answer `(index, handle)` takes
/// remaining line `index`, turns it to start from its handle `handle` at the
/// current point, places it next, and makes its tip the current point. Gives
/// the lines still remaining, the lines placed in order, and the current point.
pub open spec fn loop_walk<P>(
    start: P,
    remaining: Seq<ReversibleLine<P>>,
    answers: Seq<(usize, usize)>,
) -> (Seq<ReversibleLine<P>>, Seq<ReversibleLine<P>>, P)
    decreases answers.len(),
{
    if answers.len() == 0 {
        (remaining, Seq::empty(), start)
    } else {
        let before = loop_walk(start, remaining, answers.drop_last());
        let index = answers.last().0 as int;
        let handle = answers.last().1 as nat;
        let placed = before.0[index].anchored(handle, before.2);
        (before.0.remove(index), before.1.push(placed), placed.tip)
    }
}

/// Every answer of `answers` is what `nearest_handle` gave for the current
/// point and the lines remaining at its step of the walk.
pub open spec fn answers_given<P, F: Fn(P, &Vec<ReversibleLine<P>>) -> Option<(usize, usize)>>(
    start: P,
    remaining: Seq<ReversibleLine<P>>,
    answers: Seq<(usize, usize)>,
    nearest_handle: F,
) -> bool {
    forall|k: int|
        0 <= k < answers.len() ==> exists|v: Vec<ReversibleLine<P>>|
            v@ == (#[trigger] loop_walk(start, remaining, answers.take(k))).0 && call_ensures(
                nearest_handle,
                (loop_walk(start, remaining, answers.take(k)).2, &v),
                Some(answers[k]),
            )
}

/// `after` is the loop that the greedy walk builds from `before`: from the
/// initiator's tip, each step places the line and handle that `nearest_handle`
/// names for the current point and the lines remaining; the walk ends when no
/// line remains or the search names none, and the placed lines are then
/// closed into a loop after the initiator (`loop_closed`), merging the last
/// two as `LoopBuilder::finish` does.
pub open spec fn is_greedy_loop<
    P: PartialEq,
    F: Fn(P, &Vec<ReversibleLine<P>>) -> Option<(usize, usize)>,
>(before: Seq<ReversibleLine<P>>, after: Seq<ReversibleLine<P>>, nearest_handle: F) -> bool {
    exists|answers: Seq<(usize, usize)>|
        {
            let walk = #[trigger] loop_walk(before[0].tip, before.drop_first(), answers);
            &&& answers_given(before[0].tip, before.drop_first(), answers, nearest_handle)
            &&& walk.0.len() == 0 || exists|v: Vec<ReversibleLine<P>>|
                v@ == walk.0 && #[trigger] call_ensures(
                    nearest_handle,
                    (walk.2, &v),
                    None::<(usize, usize)>,
                )
            &&& after == loop_closed(before[0], walk.1, false) || (walk.1.len() > 1 && after
                == loop_closed(before[0], walk.1, true))
            &&& P::obeys_eq_spec() ==> after == loop_closed(
                before[0],
                walk.1,
                walk.1.len() > 1 && walk.1.last().root.eq_spec(&before[0].root),
            )
        }
}

/// Arrange the design lines into a closed loop, starting at the initiator's
/// tip: `nearest_handle(point, remaining)` names the remaining line and its
/// handle nearest to the current point; that line is turned to start there
/// and its tip becomes the current point. When the search finds nothing the
/// lines still remaining are dropped.
pub fn make_loop<P: Copy + PartialEq, F: Fn(P, &Vec<ReversibleLine<P>>) -> Option<(usize, usize)>>(
    lines: &mut Vec<ReversibleLine<P>>,
    nearest_handle: &F,
)
    requires
        old(lines).len() >= 1,
        forall|p: P, v: &Vec<ReversibleLine<P>>| call_requires(*nearest_handle, (p, v)),
        forall|p: P, v: &Vec<ReversibleLine<P>>, r: Option<(usize, usize)>|
            #[trigger] call_ensures(*nearest_handle, (p, v), r) ==> (r matches Some(found) ==> found.0
                < v@.len() && found.1 < 2),
    ensures
        is_greedy_loop(old(lines)@, final(lines)@, *nearest_handle),
        is_loop_made(old(lines)@, final(lines)@, *nearest_handle),
{
    let ghost before = lines@;
    let ghost start = before[0].tip;
    let ghost rest = before.drop_first();
    let mut taken: Vec<ReversibleLine<P>> = Vec::new();
    core::mem::swap(&mut taken, lines);
    let mut builder = LoopBuilder::new(taken);
    let ghost mut answers: Seq<(usize, usize)> = Seq::empty();
    let ghost mut failed: bool = false;
    let ghost mut failed_point: P = before[0].tip;
    let ghost mut failed_lines: Vec<ReversibleLine<P>> = builder.remaining_vec();
    proof {
        assert(loop_walk(start, rest, answers) == (
            builder.remaining_lines(),
            builder.built_lines(),
            builder.current_point(),
        ));
    }
    while builder.has_remaining()
        invariant_except_break
            !failed,
        invariant
            builder.wf(),
            builder.base_line() == before[0],
            builder.built_lines().len() + builder.remaining_lines().len() + 1 == before.len(),
            forall|p: P, v: &Vec<ReversibleLine<P>>| call_requires(*nearest_handle, (p, v)),
            forall|p: P, v: &Vec<ReversibleLine<P>>, r: Option<(usize, usize)>|
                #[trigger] call_ensures(*nearest_handle, (p, v), r) ==> (r matches Some(found)
                    ==> found.0 < v@.len() && found.1 < 2),
            loop_walk(start, rest, answers) == (
                builder.remaining_lines(),
                builder.built_lines(),
                builder.current_point(),
            ),
            answers_given(start, rest, answers, *nearest_handle),
        ensures
            builder.wf(),
            builder.base_line() == before[0],
            builder.built_lines().len() + builder.remaining_lines().len() + 1 == before.len(),
            loop_walk(start, rest, answers) == (
                builder.remaining_lines(),
                builder.built_lines(),
                builder.current_point(),
            ),
            answers_given(start, rest, answers, *nearest_handle),
            !failed ==> builder.remaining_lines().len() == 0,
            failed ==> failed_lines@.len() > 0 && failed_lines@ == builder.remaining_lines()
                && failed_point == builder.current_point() && call_ensures(
                *nearest_handle,
                (failed_point, &failed_lines),
                None::<(usize, usize)>,
            ),
        decreases builder.remaining_lines().len(),
    {
        let point = builder.current_pos();
        let ghost asked = builder.remaining_vec();
        let found = nearest_handle(point, builder.remaining());
        match found {
            None => {
                proof {
                    failed = true;
                    failed_point = point;
                    failed_lines = builder.remaining_vec();
                }
                break;
            },
            Some((index, handle)) => {
                builder.take(index, handle);
                proof {
                    let old_answers = answers;
                    answers = answers.push((index, handle));
                    assert(answers.drop_last() =~= old_answers);
                    assert(answers.take(old_answers.len() as int) =~= old_answers);
                    assert forall|k: int| 0 <= k < answers.len() implies exists|
                        v: Vec<ReversibleLine<P>>,
                    |
                        v@ == (#[trigger] loop_walk(start, rest, answers.take(k))).0
                            && call_ensures(
                            *nearest_handle,
                            (loop_walk(start, rest, answers.take(k)).2, &v),
                            Some(answers[k]),
                        ) by {
                        if k < old_answers.len() {
                            assert(answers.take(k) =~= old_answers.take(k));
                            assert(answers[k] == old_answers[k]);
                            let step = loop_walk(start, rest, old_answers.take(k));
                            assert(exists|v: Vec<ReversibleLine<P>>|
                                v@ == step.0 && call_ensures(
                                    *nearest_handle,
                                    (step.2, &v),
                                    Some(old_answers[k]),
                                ));
                        } else {
                            assert(asked@ == loop_walk(start, rest, answers.take(k)).0);
                        }
                    }
                }
            },
        }
    }
    let ghost walk = loop_walk(start, rest, answers);
    let ghost base = builder.base_line();
    let ghost built = builder.built_lines();
    let result = builder.finish();
    *lines = result;
    proof {
        assert(walk.1 == built);
        if failed {
            assert(failed_lines@ == walk.0);
            assert(call_ensures(*nearest_handle, (walk.2, &failed_lines), None::<(usize, usize)>));
        }
        assert(walk.0.len() == 0 || exists|v: Vec<ReversibleLine<P>>|
            v@ == walk.0 && #[trigger] call_ensures(
                *nearest_handle,
                (walk.2, &v),
                None::<(usize, usize)>,
            ));
        assert(is_greedy_loop(before, lines@, *nearest_handle));
    }
}

/// Keep the design lines together in the style just chosen: nothing changes
/// for free lines; for a tree every generator is turned so that its handle
/// nearest to the initiator's tip (`nearest_handle_of_line(tip, line)`) becomes
/// its root, placed on that tip; for a loop the lines are arranged by `make_loop`
/// and end exactly as it leaves them.
pub fn handle_line_style_change<
    P: Copy + PartialEq,
    G: Fn(P, ReversibleLine<P>) -> Option<usize>,
    F: Fn(P, &Vec<ReversibleLine<P>>) -> Option<(usize, usize)>,
>(
    lines: &mut Vec<ReversibleLine<P>>,
    style: LinesStyle,
    nearest_handle_of_line: &G,
    nearest_handle: &F,
)
    requires
        style != LinesStyle::Free ==> old(lines).len() >= 1,
        forall|p: P, l: ReversibleLine<P>| call_requires(*nearest_handle_of_line, (p, l)),
        forall|p: P, l: ReversibleLine<P>, r: Option<usize>|
            #[trigger] call_ensures(*nearest_handle_of_line, (p, l), r) ==> (r matches Some(h) ==> h
                < 2),
        forall|p: P, v: &Vec<ReversibleLine<P>>| call_requires(*nearest_handle, (p, v)),
        forall|p: P, v: &Vec<ReversibleLine<P>>, r: Option<(usize, usize)>|
            #[trigger] call_ensures(*nearest_handle, (p, v), r) ==> (r matches Some(found) ==> found.0
                < v@.len() && found.1 < 2),
    ensures
        style == LinesStyle::Free ==> final(lines)@ == old(lines)@,
        style == LinesStyle::Tree ==> exists|handles: Seq<Option<usize>>|
            {
                &&& handles.len() + 1 == old(lines)@.len()
                &&& forall|i: int|
                    0 <= i < handles.len() ==> #[trigger] call_ensures(
                        *nearest_handle_of_line,
                        (old(lines)@[0].tip, old(lines)@[i + 1]),
                        handles[i],
                    )
                &&& final(lines)@ == tree_anchored(old(lines)@, handles)
            },
        style == LinesStyle::Loop ==> is_greedy_loop(old(lines)@, final(lines)@, *nearest_handle)
            && is_loop_made(old(lines)@, final(lines)@, *nearest_handle),
{
    match style {
        LinesStyle::Free => {},
        LinesStyle::Tree => {
            let base_tip = lines[0].tip;
            let len = lines.len();
            let mut handles: Vec<Option<usize>> = Vec::new();
            let mut i: usize = 1;
            while i < len
                invariant
                    1 <= i <= len,
                    len == lines@.len(),
                    base_tip == lines@[0].tip,
                    handles@.len() + 1 == i,
                    forall|p: P, l: ReversibleLine<P>| call_requires(*nearest_handle_of_line, (p, l)),
                    forall|p: P, l: ReversibleLine<P>, r: Option<usize>|
                        #[trigger] call_ensures(*nearest_handle_of_line, (p, l), r) ==> (r matches Some(
                            h,
                        ) ==> h < 2),
                    forall|k: int|
                        0 <= k < handles@.len() ==> #[trigger] call_ensures(
                            *nearest_handle_of_line,
                            (base_tip, lines@[k + 1]),
                            handles@[k],
                        ),
                decreases len - i,
            {
                let handle = nearest_handle_of_line(base_tip, lines[i]);
                handles.push(handle);
                i = i + 1;
            }
            proof {
                assert forall|k: int| 0 <= k < handles@.len() implies (#[trigger] handles@[k] matches Some(h)
                    ==> h < 2) by {
                    assert(call_ensures(*nearest_handle_of_line, (base_tip, lines@[k + 1]), handles@[k]));
                }
            }
            make_tree(lines, &handles);
        },
        LinesStyle::Loop => {
            make_loop(lines, nearest_handle);
        },
    }
}

/// The walk over a closed loop in which every step takes the first remaining
/// line at its root: after `k` steps the first `k` generators are placed
/// unchanged, and the next one starts at the current point.
proof fn lemma_walk_along_loop<P>(lines: Seq<ReversibleLine<P>>, k: nat)
    requires
        is_closed_loop(lines),
        k < lines.len(),
    ensures
        loop_walk(
            lines[0].tip,
            lines.drop_first(),
            Seq::new(k, |i: int| (0usize, 0usize)),
        ) == (lines.drop_first().skip(k as int), lines.drop_first().take(k as int), lines[k as int].tip),
    decreases k,
{
    let rest = lines.drop_first();
    let answers = Seq::new(k, |i: int| (0usize, 0usize));
    if k == 0 {
        assert(rest.skip(0) =~= rest);
        assert(rest.take(0) =~= Seq::<ReversibleLine<P>>::empty());
    } else {
        lemma_walk_along_loop(lines, (k - 1) as nat);
        assert(answers.drop_last() =~= Seq::new((k - 1) as nat, |i: int| (0usize, 0usize)));
        assert(lines[k - 1].tip == lines[next_index(k - 1, lines.len() as int)].root);
        assert(rest.skip(k - 1)[0] == lines[k as int]);
        assert(rest.skip(k - 1).remove(0) =~= rest.skip(k as int));
        assert(rest.take(k - 1).push(lines[k as int]) =~= rest.take(k as int));
    }
}

/// A design that already is a closed loop is rebuilt unchanged when each step
/// of the walk names the remaining line that starts at the current point (the
/// first remaining one, by its root) and the last two lines are not merged.
pub proof fn lemma_closed_loop_is_kept<P>(lines: Seq<ReversibleLine<P>>)
    requires
        is_closed_loop(lines),
    ensures
        ({
            let answers = Seq::new((lines.len() - 1) as nat, |i: int| (0usize, 0usize));
            let walk = loop_walk(lines[0].tip, lines.drop_first(), answers);
            &&& forall|k: int|
                0 <= k < answers.len() ==> (#[trigger] loop_walk(
                    lines[0].tip,
                    lines.drop_first(),
                    answers.take(k),
                )).0[0].root == loop_walk(lines[0].tip, lines.drop_first(), answers.take(k)).2
            &&& walk.0.len() == 0
            &&& loop_closed(lines[0], walk.1, false) == lines
        }),
{
    let n = lines.len();
    let rest = lines.drop_first();
    let answers = Seq::new((n - 1) as nat, |i: int| (0usize, 0usize));
    assert forall|k: int| 0 <= k < answers.len() implies (#[trigger] loop_walk(
        lines[0].tip,
        rest,
        answers.take(k),
    )).0[0].root == loop_walk(lines[0].tip, rest, answers.take(k)).2 by {
        assert(answers.take(k) =~= Seq::new(k as nat, |i: int| (0usize, 0usize)));
        lemma_walk_along_loop(lines, k as nat);
        assert(lines[k].tip == lines[next_index(k, n as int)].root);
    }
    lemma_walk_along_loop(lines, (n - 1) as nat);
    let walk = loop_walk(lines[0].tip, rest, answers);
    assert(rest.take(n - 1) =~= rest);
    assert(walk.1 == rest);
    if n >= 2 {
        assert(lines[n - 1].tip == lines[next_index(n - 1, n as int)].root);
        assert(loop_closed(lines[0], rest, false) =~= lines);
    } else {
        assert(loop_closed(lines[0], rest, false) =~= lines);
    }
}

/// In free style a drag moves only the dragged handle: that handle lands on
/// the point, the other handle and the direction of the dragged line stay,
/// and every other line is left as it was.
pub proof fn lemma_free_drag_moves_one_handle<P>(
    lines: Seq<ReversibleLine<P>>,
    line: int,
    end: nat,
    point: P,
)
    requires
        0 <= line < lines.len(),
        end < 2,
    ensures
        ({
            let result = dragged_lines(lines, LinesStyle::Free, line, end, point);
            &&& result.len() == lines.len()
            &&& result[line].handle(end) == point
            &&& result[line].handle((1 - end) as nat) == lines[line].handle((1 - end) as nat)
            &&& result[line].reversed == lines[line].reversed
            &&& forall|i: int| 0 <= i < lines.len() && i != line ==> #[trigger] result[i] == lines[i]
        }),
{
}

} // verus!
