//! Bookkeeping of the animation cycles.
//!
//! In one cycle the generator line is animated until it takes the place of the
//! initiator. The first frame of a new cycle is painted one level shallower;
//! when that frame paints as many lines as the last frame of the cycle before,
//! the cycle now starting can be repeated for ever and becomes the repetition
//! cycle.

use vstd::prelude::*;

verus! {

/// What the animation remembers from frame to frame.
#[derive(Clone, Copy, Debug, PartialEq, Eq, Structural)]
pub struct AnimationCycles {
    /// The cycle of the last frame.
    pub cycle: usize,
    /// Whether the last frame started a new cycle.
    pub new_cycle: bool,
    /// The cycle that is repeated to make a continuous animation, once found.
    pub repetition_cycle: Option<usize>,
    /// Lines painted by the first, depth limited, frame of the current cycle.
    pub cycle_start_paint_count: usize,
    /// Lines painted by the last frame.
    pub line_count: usize,
}

impl AnimationCycles {
    /// The state after a frame of cycle `cycle`.
    pub open spec fn spec_enter_cycle(self, cycle: usize) -> AnimationCycles {
        AnimationCycles { cycle, new_cycle: cycle != self.cycle, ..self }
    }

    /// Whether this frame, of an animation that runs or not, starts the next cycle
    /// while no repetition cycle is known yet.
    pub open spec fn spec_started_next_cycle(self, animating: bool) -> bool {
        animating && self.repetition_cycle is None && self.new_cycle
    }

    /// The state after a frame that painted `painted` lines.
    pub open spec fn spec_record_paint(self, painted: usize, animating: bool) -> AnimationCycles {
        if self.spec_started_next_cycle(animating) {
            AnimationCycles {
                repetition_cycle: if self.line_count == self.cycle_start_paint_count {
                    Some(self.cycle)
                } else {
                    self.repetition_cycle
                },
                cycle_start_paint_count: painted,
                line_count: painted,
                ..self
            }
        } else {
            AnimationCycles { line_count: painted, ..self }
        }
    }

    /// The state before any frame: cycle 0, which counts as a new cycle.
    pub fn new() -> (state: Self)
        ensures
            state == (AnimationCycles {
                cycle: 0,
                new_cycle: true,
                repetition_cycle: None,
                cycle_start_paint_count: 0,
                line_count: 0,
            }),
    {
        AnimationCycles {
            cycle: 0,
            new_cycle: true,
            repetition_cycle: None,
            cycle_start_paint_count: 0,
            line_count: 0,
        }
    }

    /// Record that the current frame belongs to cycle `cycle`.
    pub fn enter_cycle(&mut self, cycle: usize)
        ensures
            *final(self) == old(self).spec_enter_cycle(cycle),
    {
        self.new_cycle = cycle != self.cycle;
        self.cycle = cycle;
    }

    /// Whether the current frame starts the next cycle of a running animation
    /// that has no repetition cycle yet.
    pub fn started_next_cycle(&self, animating: bool) -> (started: bool)
        ensures
            started == self.spec_started_next_cycle(animating),
    {
        animating && self.repetition_cycle.is_none() && self.new_cycle
    }

    /// The depth to paint the current frame at: one level less than `depth` on
    /// the first frame of a new cycle.
    pub fn paint_depth(&self, depth: usize, animating: bool) -> (paint_depth: usize)
        requires
            self.spec_started_next_cycle(animating) ==> depth >= 1,
        ensures
            paint_depth == (if self.spec_started_next_cycle(animating) {
                depth - 1
            } else {
                depth as int
            }),
    {
        if self.started_next_cycle(animating) {
            depth - 1
        } else {
            depth
        }
    }

    /// Record that the current frame painted `painted` lines.
    pub fn record_paint(&mut self, painted: usize, animating: bool)
        ensures
            *final(self) == old(self).spec_record_paint(painted, animating),
    {
        if self.started_next_cycle(animating) {
            // the last frame of the previous cycle painted as many lines as its
            // first (depth limited) frame: the cycle now starting can be repeated
            if self.line_count == self.cycle_start_paint_count {
                self.repetition_cycle = Some(self.cycle);
            }
            self.cycle_start_paint_count = painted;
        }
        self.line_count = painted;
    }
}

/// Once a repetition cycle is found it stays: neither entering a cycle nor
/// recording a painted frame changes it, and no later frame starts a depth
/// limited cycle again.
pub proof fn lemma_repetition_cycle_is_kept(
    state: AnimationCycles,
    cycle: usize,
    painted: usize,
    animating: bool,
)
    requires
        state.repetition_cycle is Some,
    ensures
        state.spec_enter_cycle(cycle).repetition_cycle == state.repetition_cycle,
        state.spec_record_paint(painted, animating).repetition_cycle == state.repetition_cycle,
        !state.spec_enter_cycle(cycle).spec_started_next_cycle(animating),
{
}

/// A frame records exactly the lines it painted, and a frame that stays in its
/// cycle never starts a depth limited frame.
pub proof fn lemma_frame_bookkeeping(
    state: AnimationCycles,
    cycle: usize,
    painted: usize,
    animating: bool,
)
    ensures
        state.spec_record_paint(painted, animating).line_count == painted,
        cycle == state.cycle ==> !state.spec_enter_cycle(cycle).spec_started_next_cycle(animating),
{
}

/// On the first frame of a new cycle the repetition cycle is found exactly
/// when the frame before it painted as many lines as the start of the previous
/// cycle, and it is then the cycle now starting; the count painted by the
/// current frame plays no part in it, and becomes both the new start count and
/// the last count.
pub proof fn lemma_repetition_found_from_previous_frame(
    state: AnimationCycles,
    painted: usize,
    other_painted: usize,
)
    requires
        state.spec_started_next_cycle(true),
    ensures
        (state.spec_record_paint(painted, true).repetition_cycle == Some(state.cycle)) <==> (
        state.line_count == state.cycle_start_paint_count),
        state.line_count != state.cycle_start_paint_count ==> state.spec_record_paint(
            painted,
            true,
        ).repetition_cycle is None,
        state.spec_record_paint(painted, true).repetition_cycle == state.spec_record_paint(
            other_painted,
            true,
        ).repetition_cycle,
        state.spec_record_paint(painted, true).cycle_start_paint_count == painted,
        state.spec_record_paint(painted, true).line_count == painted,
{
}

} // verus!
