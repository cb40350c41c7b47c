//! How deep a fractal may be painted so that one frame stays under a line budget.

use vstd::prelude::*;

verus! {

/// The most line segments one frame may paint: 2 to the power 18, plus a margin of 100.
pub const MAX_PAINTED_LINE_COUNT: usize = 262244;

/// `base` raised to the power `exp`.
pub open spec fn power(base: nat, exp: nat) -> nat
    decreases exp,
{
    if exp == 0 {
        1
    } else {
        base * power(base, (exp - 1) as nat)
    }
}

/// How many children every painted line gets: one per generator line, twice as
/// many when the generators are mirrored.
pub open spec fn branch_count(design_branches_count: nat, mirror: bool) -> nat {
    if mirror {
        2 * design_branches_count
    } else {
        design_branches_count
    }
}

/// Whether level `level` is drawn when a fractal is painted to depth `paint_depth`.
/// Level 0 is the initiator, level `l` the lines `l` generations below it. When
/// children replace their parent only the deepest level is drawn.
pub open spec fn level_painted(replace_line: bool, level: nat, paint_depth: nat) -> bool {
    !replace_line || level == paint_depth
}

/// Lines drawn (before culling) on levels `0..=upto` of a fractal painted to
/// depth `paint_depth`: level `l` holds `branches^l` lines.
pub open spec fn painted_lines_upto(
    branches: nat,
    replace_line: bool,
    paint_depth: nat,
    upto: nat,
) -> nat
    decreases upto,
{
    let here = if level_painted(replace_line, upto, paint_depth) {
        power(branches, upto)
    } else {
        0
    };
    if upto == 0 {
        here
    } else {
        painted_lines_upto(branches, replace_line, paint_depth, (upto - 1) as nat) + here
    }
}

/// Lines drawn (before culling) when a fractal is painted to depth `depth`.
pub open spec fn painted_line_count(branches: nat, depth: nat, replace_line: bool) -> nat {
    painted_lines_upto(branches, replace_line, depth, depth)
}

/// The inputs on which `max_depth_with_branches` computes without overflow or
/// underflow.
pub open spec fn max_depth_defined(
    max_painted_line_count: nat,
    design_branches_count: nat,
    mirror: bool,
    replace_line: bool,
) -> bool {
    let b = branch_count(design_branches_count, mirror);
    &&& mirror ==> 2 * design_branches_count <= usize::MAX
    &&& b < 2 ==> max_painted_line_count >= 1
    &&& (b >= 2 && !replace_line) ==> max_painted_line_count * (b - 1) + 1 <= usize::MAX
}

/// `depth` is the greatest depth allowed under the line budget `max_painted_line_count`.
///
/// With fewer than two branches it is the budget minus one. Otherwise, when
/// children replace their parent, it is the greatest depth whose `branches^depth`
/// lines stay strictly below the budget (0 when no depth does); when they do not,
/// it is the greatest depth whose lines `1 + branches + ... + branches^depth` fit
/// in the budget (0 when none does).
pub open spec fn is_max_depth(
    max_painted_line_count: nat,
    design_branches_count: nat,
    mirror: bool,
    replace_line: bool,
    depth: nat,
) -> bool {
    is_max_depth_for_branches(
        max_painted_line_count,
        branch_count(design_branches_count, mirror),
        replace_line,
        depth,
    )
}

pub proof fn lemma_power_positive(b: nat, e: nat)
    requires
        b >= 1,
    ensures
        power(b, e) >= 1,
    decreases e,
{
    if e > 0 {
        lemma_power_positive(b, (e - 1) as nat);
        assert(b * power(b, (e - 1) as nat) >= 1) by (nonlinear_arith)
            requires
                b >= 1,
                power(b, (e - 1) as nat) >= 1,
        ;
    }
}

/// For a base of at least 2, powers grow strictly and exceed their exponent.
pub proof fn lemma_power_grows(b: nat, e: nat)
    requires
        b >= 2,
    ensures
        power(b, e + 1) >= 2 * power(b, e),
        power(b, e) > e,
    decreases e,
{
    lemma_power_positive(b, e);
    assert(power(b, e + 1) == b * power(b, e));
    assert(b * power(b, e) >= 2 * power(b, e)) by (nonlinear_arith)
        requires
            b >= 2,
    ;
    if e > 0 {
        lemma_power_grows(b, (e - 1) as nat);
    }
}

pub proof fn lemma_power_monotonic(b: nat, e1: nat, e2: nat)
    requires
        b >= 2,
        e1 <= e2,
    ensures
        power(b, e1) <= power(b, e2),
        e1 < e2 ==> power(b, e1) < power(b, e2),
    decreases e2,
{
    if e1 < e2 {
        lemma_power_monotonic(b, e1, (e2 - 1) as nat);
        lemma_power_grows(b, (e2 - 1) as nat);
        lemma_power_positive(b, (e2 - 1) as nat);
    }
}

/// Below the painted level nothing is drawn when children replace their parent.
proof fn lemma_replace_upto_below(b: nat, d: nat, u: nat)
    requires
        u < d,
    ensures
        painted_lines_upto(b, true, d, u) == 0,
    decreases u,
{
    if u > 0 {
        lemma_replace_upto_below(b, d, (u - 1) as nat);
    }
}

/// When children replace their parent, only the `branches^depth` deepest lines are drawn.
pub proof fn lemma_replace_count(b: nat, d: nat)
    ensures
        painted_line_count(b, d, true) == power(b, d),
{
    if d > 0 {
        lemma_replace_upto_below(b, d, (d - 1) as nat);
    }
}

/// Without replacing, all levels are drawn: `(b - 1) * (1 + b + ... + b^u) + 1 == b^(u + 1)`.
proof fn lemma_geometric_upto(b: nat, d: nat, u: nat)
    ensures
        (b - 1) * painted_lines_upto(b, false, d, u) + 1 == power(b, u + 1),
    decreases u,
{
    let s = painted_lines_upto(b, false, d, u) as int;
    let p = power(b, u) as int;
    assert(power(b, u + 1) == b * power(b, u));
    if u == 0 {
        assert(power(b, 0) == 1);
        assert((b - 1) * 1 + 1 == b * 1) by (nonlinear_arith);
    } else {
        lemma_geometric_upto(b, d, (u - 1) as nat);
        let prev = painted_lines_upto(b, false, d, (u - 1) as nat) as int;
        assert(s == prev + p);
        assert((b - 1) * prev + 1 == p);
        assert((b - 1) * (prev + p) + 1 == b * p) by (nonlinear_arith)
            requires
                (b - 1) * prev + 1 == p,
        ;
    }
}

pub proof fn lemma_geometric_count(b: nat, d: nat)
    ensures
        (b - 1) * painted_line_count(b, d, false) + 1 == power(b, d + 1),
{
    lemma_geometric_upto(b, d, d);
}

/// With one branch every level holds a single line.
proof fn lemma_single_branch_upto(d: nat, u: nat, replace_line: bool)
    ensures
        power(1, u) == 1,
        !replace_line ==> painted_lines_upto(1, false, d, u) == u + 1,
        replace_line && u <= d ==> painted_lines_upto(1, true, d, u) <= 1,
    decreases u,
{
    if u > 0 {
        lemma_single_branch_upto(d, (u - 1) as nat, replace_line);
        if replace_line && u <= d {
            lemma_replace_upto_below(1, d, (u - 1) as nat);
        }
    }
}

/// With no branch only the initiator exists.
proof fn lemma_no_branch_upto(d: nat, u: nat, replace_line: bool)
    ensures
        painted_lines_upto(0, replace_line, d, u) <= 1,
    decreases u,
{
    if u > 0 {
        lemma_no_branch_upto(d, (u - 1) as nat, replace_line);
        assert(power(0, u) == 0 * power(0, (u - 1) as nat));
        if replace_line && u <= d {
            lemma_replace_upto_below(0, d, (u - 1) as nat);
        }
        if !replace_line {
            assert(painted_lines_upto(0, false, d, (u - 1) as nat) == 1) by {
                lemma_no_branch_exact(d, (u - 1) as nat);
            }
        }
    }
}

proof fn lemma_no_branch_exact(d: nat, u: nat)
    ensures
        painted_lines_upto(0, false, d, u) == 1,
    decreases u,
{
    if u > 0 {
        lemma_no_branch_exact(d, (u - 1) as nat);
        assert(power(0, u) == 0 * power(0, (u - 1) as nat));
    }
}

/// The line count painted at a given depth, for two branches or more, grows
/// strictly with the depth.
pub proof fn lemma_count_grows(b: nat, d1: nat, d2: nat, replace_line: bool)
    requires
        b >= 2,
        d1 < d2,
    ensures
        painted_line_count(b, d1, replace_line) < painted_line_count(b, d2, replace_line),
{
    lemma_power_monotonic(b, d1 + 1, d2 + 1);
    lemma_power_monotonic(b, d1, d2);
    if replace_line {
        lemma_replace_count(b, d1);
        lemma_replace_count(b, d2);
    } else {
        lemma_geometric_count(b, d1);
        lemma_geometric_count(b, d2);
        let s1 = painted_line_count(b, d1, false) as int;
        let s2 = painted_line_count(b, d2, false) as int;
        assert(s1 < s2) by (nonlinear_arith)
            requires
                (b - 1) * s1 + 1 < (b - 1) * s2 + 1,
                b >= 2,
        ;
    }
}

/// The greatest allowed depth is unique: `is_max_depth` pins a single value.
pub proof fn lemma_max_depth_unique(
    max_painted_line_count: nat,
    design_branches_count: nat,
    mirror: bool,
    replace_line: bool,
    d1: nat,
    d2: nat,
)
    requires
        is_max_depth(max_painted_line_count, design_branches_count, mirror, replace_line, d1),
        is_max_depth(max_painted_line_count, design_branches_count, mirror, replace_line, d2),
    ensures
        d1 == d2,
{
    let b = branch_count(design_branches_count, mirror);
    if b >= 2 && d1 != d2 {
        if d1 < d2 {
            if d1 + 1 < d2 {
                lemma_count_grows(b, d1 + 1, d2, replace_line);
            }
        } else {
            if d2 + 1 < d1 {
                lemma_count_grows(b, d2 + 1, d1, replace_line);
            }
        }
    }
}

/// At the greatest allowed depth the painted lines never exceed a budget of at
/// least one line.
pub proof fn lemma_max_depth_within_budget(
    max_painted_line_count: nat,
    design_branches_count: nat,
    mirror: bool,
    replace_line: bool,
    depth: nat,
)
    requires
        max_painted_line_count >= 1,
        is_max_depth(max_painted_line_count, design_branches_count, mirror, replace_line, depth),
    ensures
        painted_line_count(branch_count(design_branches_count, mirror), depth, replace_line)
            <= max_painted_line_count,
{
    let b = branch_count(design_branches_count, mirror);
    if b == 1 {
        lemma_single_branch_upto(depth, depth, replace_line);
    } else if b == 0 {
        lemma_no_branch_upto(depth, depth, replace_line);
    } else if replace_line && max_painted_line_count == 1 {
        lemma_replace_count(b, 0);
    }
}

/// Cap the fractal depth logarithmically, so that one frame paints no more than
/// `max_painted_line_count` lines: `branches^depth < max_painted_line_count` when
/// children replace their parent, and `1 + branches + ... + branches^depth <=
/// max_painted_line_count` when every level is drawn.
pub fn max_depth_with_branches(
    max_painted_line_count: usize,
    design_branches_count: usize,
    mirror: bool,
    replace_line: bool,
) -> (max_depth: usize)
    requires
        max_depth_defined(
            max_painted_line_count as nat,
            design_branches_count as nat,
            mirror,
            replace_line,
        ),
    ensures
        is_max_depth(
            max_painted_line_count as nat,
            design_branches_count as nat,
            mirror,
            replace_line,
            max_depth as nat,
        ),
        max_painted_line_count >= 1 ==> painted_line_count(
            branch_count(design_branches_count as nat, mirror),
            max_depth as nat,
            replace_line,
        ) <= max_painted_line_count,
{
    let branch_count: usize = if mirror {
        design_branches_count * 2
    } else {
        design_branches_count
    };
    // A single branch paints one line per level, so the deepest level is the budget minus one.
    if branch_count < 2 {
        let d = max_painted_line_count - 1;
        proof {
            lemma_max_depth_within_budget(
                max_painted_line_count as nat,
                design_branches_count as nat,
                mirror,
                replace_line,
                d as nat,
            );
        }
        return d;
    }
    let ghost b: nat = branch_count as nat;
    let max = max_painted_line_count;
    if replace_line {
        // the greatest depth with branch_count^depth < max
        if max <= 1 {
            return 0;
        }
        let limit: usize = (max - 1) / branch_count;
        let mut lines: usize = 1;
        let mut depth: usize = 0;
        while lines <= limit
            invariant
                b == branch_count as nat,
                b >= 2,
                max >= 2,
                limit == (max - 1) as int / branch_count as int,
                lines == power(b, depth as nat),
                lines < max,
                depth < lines,
            decreases max - lines,
        {
            proof {
                lemma_power_grows(b, depth as nat);
                assert(lines * branch_count <= max - 1) by (nonlinear_arith)
                    requires
                        lines <= limit,
                        limit == (max - 1) as int / branch_count as int,
                        branch_count >= 2,
                ;
                assert(power(b, (depth + 1) as nat) == b * power(b, depth as nat));
            }
            lines = lines * branch_count;
            depth = depth + 1;
        }
        proof {
            assert(lines * branch_count >= max) by (nonlinear_arith)
                requires
                    lines > limit,
                    limit == (max - 1) as int / branch_count as int,
                    branch_count >= 2,
            ;
            assert(power(b, (depth + 1) as nat) == b * power(b, depth as nat));
            assert(power(b, (depth + 1) as nat) >= max) by (nonlinear_arith)
                requires
                    power(b, (depth + 1) as nat) == b * power(b, depth as nat),
                    lines == power(b, depth as nat),
                    b == branch_count,
                    lines * branch_count >= max,
            ;
            lemma_replace_count(b, depth as nat);
            lemma_replace_count(b, (depth + 1) as nat);
            assert(painted_line_count(b, depth as nat, true) < max);
            assert(painted_line_count(b, (depth + 1) as nat, true) >= max);
        }
        return depth;
    }
    // the greatest k with branch_count^k <= max * (branch_count - 1) + 1; the depth is k - 1
    let argument: usize = max * (branch_count - 1) + 1;
    if argument == 0 {
        return 0;
    }
    let step_limit: usize = argument / branch_count;
    let mut power_k: usize = 1;
    let mut k: usize = 0;
    while power_k <= step_limit
        invariant
            b == branch_count as nat,
            b >= 2,
            argument >= 1,
            step_limit == argument as int / branch_count as int,
            power_k == power(b, k as nat),
            power_k <= argument,
            k < power_k,
        decreases argument - power_k,
    {
        proof {
            lemma_power_grows(b, k as nat);
            assert(power_k * branch_count <= argument) by (nonlinear_arith)
                requires
                    power_k <= step_limit,
                    step_limit == argument as int / branch_count as int,
                    branch_count >= 2,
            ;
            assert(power(b, (k + 1) as nat) == b * power(b, k as nat));
        }
        power_k = power_k * branch_count;
        k = k + 1;
    }
    proof {
        assert(power_k * branch_count > argument) by (nonlinear_arith)
            requires
                power_k > step_limit,
                step_limit == argument as int / branch_count as int,
                branch_count >= 2,
        ;
        assert(power(b, (k + 1) as nat) == b * power(b, k as nat));
    }
    if k == 0 {
        proof {
            // branch_count > argument = max * (branch_count - 1) + 1 forces an empty budget
            assert(power_k == 1);
            assert(power_k * branch_count == branch_count) by (nonlinear_arith)
                requires
                    power_k == 1,
            ;
            assert(max == 0) by (nonlinear_arith)
                requires
                    branch_count > argument,
                    argument == max * (branch_count - 1) + 1,
                    branch_count >= 2,
            ;
        }
        return 0;
    }
    let depth = k - 1;
    proof {
        let m = max as int;
        lemma_power_monotonic(b, 1, k as nat);
        assert(power(b, 1) == b * power(b, 0));
        assert(power(b, 0) == 1);
        assert(b * power(b, 0) == b) by (nonlinear_arith)
            requires
                power(b, 0) == 1,
        ;
        let s = painted_line_count(b, depth as nat, false) as int;
        let s_next = painted_line_count(b, (depth + 1) as nat, false) as int;
        lemma_geometric_count(b, depth as nat);
        lemma_geometric_count(b, (depth + 1) as nat);
        assert(power(b, (k + 1) as nat) > argument) by (nonlinear_arith)
            requires
                power(b, (k + 1) as nat) == b * power(b, k as nat),
                power_k == power(b, k as nat),
                b == branch_count,
                power_k * branch_count > argument,
        ;
        assert(k == depth + 1);
        assert((b - 1) * s_next + 1 > m * (b - 1) + 1);
        assert((b - 1) * s + 1 <= m * (b - 1) + 1);
        assert(s <= m) by (nonlinear_arith)
            requires
                (b - 1) * s + 1 <= m * (b - 1) + 1,
                b >= 2,
        ;
        assert(m < s_next) by (nonlinear_arith)
            requires
                (b - 1) * s_next + 1 > m * (b - 1) + 1,
                b >= 2,
        ;
        assert(m >= 1) by (nonlinear_arith)
            requires
                power_k <= argument,
                argument == m * (b - 1) + 1,
                power_k >= b,
                b >= 2,
                m >= 0,
        ;
    }
    depth
}

/// Every depth up to the greatest allowed one keeps the painted lines within a
/// budget of at least one line.
pub proof fn lemma_within_budget_below_max_depth(
    max_painted_line_count: nat,
    design_branches_count: nat,
    mirror: bool,
    replace_line: bool,
    max_depth: nat,
    depth: nat,
)
    requires
        max_painted_line_count >= 1,
        is_max_depth(max_painted_line_count, design_branches_count, mirror, replace_line, max_depth),
        depth <= max_depth,
    ensures
        painted_line_count(branch_count(design_branches_count, mirror), depth, replace_line)
            <= max_painted_line_count,
{
    let b = branch_count(design_branches_count, mirror);
    lemma_max_depth_within_budget(
        max_painted_line_count,
        design_branches_count,
        mirror,
        replace_line,
        max_depth,
    );
    if b == 1 {
        lemma_single_branch_upto(depth, depth, replace_line);
    } else if b == 0 {
        lemma_no_branch_upto(depth, depth, replace_line);
    } else if depth < max_depth {
        lemma_count_grows(b, depth, max_depth, replace_line);
    }
}

/// Whether level `level` (0 for the initiator) is drawn when painting to depth `paint_depth`.
pub fn level_is_painted(replace_line: bool, level: usize, paint_depth: usize) -> (painted: bool)
    ensures
        painted == level_painted(replace_line, level as nat, paint_depth as nat),
{
    !replace_line || level == paint_depth
}

/// The depth to paint: `depth`, capped at the greatest depth allowed under
/// `MAX_PAINTED_LINE_COUNT` for a design of `design_line_count` lines (the
/// initiator followed by its generators).
pub fn cap_depth(depth: usize, design_line_count: usize, mirror: bool, replace_line: bool) -> (capped:
    usize)
    requires
        design_line_count >= 1,
        max_depth_defined(
            MAX_PAINTED_LINE_COUNT as nat,
            (design_line_count - 1) as nat,
            mirror,
            replace_line,
        ),
    ensures
        exists|m: nat|
            #[trigger] is_max_depth(
                MAX_PAINTED_LINE_COUNT as nat,
                (design_line_count - 1) as nat,
                mirror,
                replace_line,
                m,
            ) && capped == (if depth <= m {
                depth as nat
            } else {
                m
            }),
        capped <= depth,
        painted_line_count(
            branch_count((design_line_count - 1) as nat, mirror),
            capped as nat,
            replace_line,
        ) <= MAX_PAINTED_LINE_COUNT,
{
    let max_depth = max_depth_with_branches(
        MAX_PAINTED_LINE_COUNT,
        design_line_count - 1,
        mirror,
        replace_line,
    );
    let capped = if depth > max_depth {
        max_depth
    } else {
        depth
    };
    proof {
        lemma_within_budget_below_max_depth(
            MAX_PAINTED_LINE_COUNT as nat,
            (design_line_count - 1) as nat,
            mirror,
            replace_line,
            max_depth as nat,
            capped as nat,
        );
    }
    capped
}

/// Whether depth `depth` fits the budget `max` with `b` branches: with fewer
/// than two branches its `depth + 1` levels fit, otherwise depth 0 always
/// fits and a deeper one when its painted lines stay below the budget
/// (strictly when children replace their parent).
pub open spec fn depth_fits(max: nat, b: nat, replace_line: bool, depth: nat) -> bool {
    if b < 2 {
        depth + 1 <= max
    } else if replace_line {
        depth == 0 || power(b, depth) < max
    } else {
        depth == 0 || painted_line_count(b, depth, false) <= max
    }
}

proof fn lemma_power_base_monotonic(b1: nat, b2: nat, e: nat)
    requires
        b2 <= b1,
    ensures
        power(b2, e) <= power(b1, e),
    decreases e,
{
    if e > 0 {
        lemma_power_base_monotonic(b1, b2, (e - 1) as nat);
        let p1 = power(b1, (e - 1) as nat);
        let p2 = power(b2, (e - 1) as nat);
        assert(b2 * p2 <= b1 * p1) by (nonlinear_arith)
            requires
                b2 <= b1,
                p2 <= p1,
        ;
    }
}

proof fn lemma_sum_base_monotonic(b1: nat, b2: nat, d: nat, u: nat)
    requires
        b2 <= b1,
    ensures
        painted_lines_upto(b2, false, d, u) <= painted_lines_upto(b1, false, d, u),
    decreases u,
{
    lemma_power_base_monotonic(b1, b2, u);
    if u > 0 {
        lemma_sum_base_monotonic(b1, b2, d, (u - 1) as nat);
    }
}

/// Every level holds at least one line with at least one branch, so the sum of
/// all levels exceeds the deepest level alone and the depth itself.
proof fn lemma_sum_exceeds_level(b: nat, d: nat)
    requires
        b >= 1,
    ensures
        d >= 1 ==> painted_line_count(b, d, false) > power(b, d),
        painted_line_count(b, d, false) >= d + 1,
{
    lemma_sum_lower_bound(b, d, d);
    if d >= 1 {
        lemma_sum_lower_bound(b, d, (d - 1) as nat);
    }
}

proof fn lemma_sum_lower_bound(b: nat, d: nat, u: nat)
    requires
        b >= 1,
    ensures
        painted_lines_upto(b, false, d, u) >= u + 1,
    decreases u,
{
    lemma_power_positive(b, u);
    if u > 0 {
        lemma_sum_lower_bound(b, d, (u - 1) as nat);
    }
}

/// The greatest allowed depth fits, and no deeper depth does.
proof fn lemma_max_depth_is_greatest_fit(max: nat, b: nat, replace_line: bool, depth: nat, other: nat)
    requires
        is_max_depth_for_branches(max, b, replace_line, depth),
    ensures
        depth_fits(max, b, replace_line, depth),
        depth_fits(max, b, replace_line, other) ==> other <= depth,
        depth + 1 <= max || depth == 0,
{
    if b >= 2 {
        if replace_line {
            lemma_replace_count(b, depth);
            lemma_replace_count(b, depth + 1);
            if other > depth {
                lemma_power_monotonic(b, depth + 1, other);
                lemma_power_positive(b, other);
            }
            if depth > 0 {
                lemma_power_grows(b, depth);
            }
        } else {
            lemma_sum_exceeds_level(b, depth);
            if other > depth + 1 {
                lemma_count_grows(b, depth + 1, other, false);
            }
            if other > depth {
                lemma_sum_exceeds_level(b, other);
            }
        }
    }
}

/// `depth` is the greatest depth allowed under the budget `max` with `b`
/// branches (see `is_max_depth`).
pub open spec fn is_max_depth_for_branches(max: nat, b: nat, replace_line: bool, depth: nat) -> bool {
    if b < 2 {
        depth == max - 1
    } else if replace_line {
        if max <= 1 {
            depth == 0
        } else {
            painted_line_count(b, depth, true) < max <= painted_line_count(b, depth + 1, true)
        }
    } else {
        if max == 0 {
            depth == 0
        } else {
            painted_line_count(b, depth, false) <= max < painted_line_count(b, depth + 1, false)
        }
    }
}

/// The depth limit is monotonic: a larger budget, fewer branches (fewer
/// generators, or no mirroring) and replacing parents by their children each
/// allow an equal or greater depth.
pub proof fn lemma_max_depth_monotonic(
    max1: nat,
    design_branches1: nat,
    mirror1: bool,
    replace1: bool,
    depth1: nat,
    max2: nat,
    design_branches2: nat,
    mirror2: bool,
    replace2: bool,
    depth2: nat,
)
    requires
        is_max_depth(max1, design_branches1, mirror1, replace1, depth1),
        is_max_depth(max2, design_branches2, mirror2, replace2, depth2),
        max1 <= max2,
        branch_count(design_branches2, mirror2) <= branch_count(design_branches1, mirror1),
        replace1 ==> replace2,
    ensures
        depth1 <= depth2,
{
    let b1 = branch_count(design_branches1, mirror1);
    let b2 = branch_count(design_branches2, mirror2);
    assert(is_max_depth_for_branches(max1, b1, replace1, depth1));
    assert(is_max_depth_for_branches(max2, b2, replace2, depth2));
    lemma_max_depth_is_greatest_fit(max1, b1, replace1, depth1, depth1);
    // depth1 fits the second budget, so it is no deeper than the greatest fit there
    if depth1 > 0 {
        if b2 >= 2 {
            if replace1 {
                lemma_replace_count(b1, depth1);
                lemma_power_base_monotonic(b1, b2, depth1);
            } else {
                lemma_sum_exceeds_level(b1, depth1);
                lemma_sum_base_monotonic(b1, b2, depth1, depth1);
                lemma_power_base_monotonic(b1, b2, depth1);
            }
        }
        assert(depth_fits(max2, b2, replace2, depth1));
    } else {
        assert(b2 < 2 ==> max2 >= 1);
    }
    lemma_max_depth_is_greatest_fit(max2, b2, replace2, depth2, depth1);
}

} // verus!
