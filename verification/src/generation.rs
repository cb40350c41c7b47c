//! The generation of a fractal: from the initiator, every level applies each
//! transformation to each line of the level above. Which levels are painted
//! follows `depth::level_painted`.
//!
//! Lines (nodes) and transformations are generic: how a transformation moves a
//! line is the caller's function, and is not looked into here.

use vstd::prelude::*;
use crate::depth::{
    branch_count, is_max_depth, lemma_within_budget_below_max_depth, level_is_painted, level_painted,
    painted_line_count, painted_lines_upto, power, MAX_PAINTED_LINE_COUNT,
};

verus! {

/// A line to paint and the level it belongs to (0 for the initiator).
#[derive(Clone, Copy, Debug)]
pub struct PaintedNode<N> {
    pub level: usize,
    pub node: N,
}

/// The transformations of a design: one per generator, followed by its mirror
/// image when `mirror` is set.
pub open spec fn is_transform_list<L, T, F: Fn(L, bool) -> T>(
    generators: Seq<L>,
    mirror: bool,
    make: F,
    transforms: Seq<T>,
) -> bool {
    let per = if mirror {
        2int
    } else {
        1int
    };
    &&& transforms.len() == per * generators.len()
    &&& forall|g: int|
        #![trigger generators[g]]
        0 <= g < generators.len() ==> {
            &&& call_ensures(make, (generators[g], false), transforms[per * g])
            &&& mirror ==> call_ensures(make, (generators[g], true), transforms[2 * g + 1])
        }
}

/// The transformations for the generators `generators`: `make(line, mirrored)`
/// for each generator, and with `mirror` also its mirrored version right after it.
pub fn transforms_for<L: Copy, T, F: Fn(L, bool) -> T>(
    generators: &Vec<L>,
    mirror: bool,
    make: &F,
) -> (transforms: Vec<T>)
    requires
        forall|l: L, mirrored: bool| call_requires(*make, (l, mirrored)),
    ensures
        is_transform_list(generators@, mirror, *make, transforms@),
        transforms@.len() == branch_count(generators@.len(), mirror),
{
    let mut transforms: Vec<T> = Vec::new();
    let n = generators.len();
    let ghost per: int = if mirror {
        2
    } else {
        1
    };
    for g in 0..n
        invariant
            n == generators@.len(),
            forall|l: L, mirrored: bool| call_requires(*make, (l, mirrored)),
            per == (if mirror {
                2int
            } else {
                1int
            }),
            transforms@.len() == per * g,
            forall|k: int|
                #![trigger generators@[k]]
                0 <= k < g ==> {
                    &&& call_ensures(*make, (generators@[k], false), transforms@[per * k])
                    &&& mirror ==> call_ensures(
                        *make,
                        (generators@[k], true),
                        transforms@[2 * k + 1],
                    )
                },
    {
        let line = generators[g];
        let straight = make(line, false);
        transforms.push(straight);
        if mirror {
            let mirrored = make(line, true);
            transforms.push(mirrored);
        }
    }
    transforms
}

/// `children` is the level below `parents`: child `t * parents.len() + i` is
/// transformation `t` applied to parent `i`.
pub open spec fn is_expansion<N, T, F: Fn(T, N) -> N>(
    parents: Seq<N>,
    transforms: Seq<T>,
    apply: F,
    children: Seq<N>,
) -> bool {
    &&& children.len() == transforms.len() * parents.len()
    &&& forall|t: int, i: int|
        #![trigger transforms[t], parents[i]]
        0 <= t < transforms.len() && 0 <= i < parents.len() ==> call_ensures(
            apply,
            (transforms[t], parents[i]),
            children[t * parents.len() + i],
        )
}

/// `levels` are the levels of the fractal of `initiator`: level 0 holds the
/// initiator alone, every further level expands the one above it.
pub open spec fn is_level_chain<N, T, F: Fn(T, N) -> N>(
    levels: Seq<Seq<N>>,
    initiator: N,
    transforms: Seq<T>,
    apply: F,
) -> bool {
    &&& levels.len() >= 1
    &&& levels[0] == seq![initiator]
    &&& forall|l: int|
        1 <= l < levels.len() ==> is_expansion(#[trigger] levels[l - 1], transforms, apply, levels[l])
}

/// The lines of `level` tagged with their level number.
pub open spec fn tagged<N>(level: Seq<N>, number: nat) -> Seq<PaintedNode<N>> {
    level.map_values(|n: N| PaintedNode { level: number as usize, node: n })
}

/// The painted lines of levels `0..=upto` when painting to depth `paint_depth`,
/// level by level.
pub open spec fn painted_levels<N>(
    levels: Seq<Seq<N>>,
    replace_line: bool,
    paint_depth: nat,
    upto: nat,
) -> Seq<PaintedNode<N>>
    decreases upto,
{
    let here = if level_painted(replace_line, upto, paint_depth) {
        tagged(levels[upto as int], upto)
    } else {
        Seq::empty()
    };
    if upto == 0 {
        here
    } else {
        painted_levels(levels, replace_line, paint_depth, (upto - 1) as nat) + here
    }
}

proof fn lemma_level_sizes<N, T, F: Fn(T, N) -> N>(
    levels: Seq<Seq<N>>,
    initiator: N,
    transforms: Seq<T>,
    apply: F,
    l: int,
)
    requires
        is_level_chain(levels, initiator, transforms, apply),
        0 <= l < levels.len(),
    ensures
        levels[l].len() == power(transforms.len(), l as nat),
    decreases l,
{
    if l > 0 {
        lemma_level_sizes(levels, initiator, transforms, apply, l - 1);
        assert(is_expansion(levels[l - 1], transforms, apply, levels[l]));
        assert(power(transforms.len(), l as nat) == transforms.len() * power(
            transforms.len(),
            (l - 1) as nat,
        ));
    }
}

proof fn lemma_painted_levels_len<N, T, F: Fn(T, N) -> N>(
    levels: Seq<Seq<N>>,
    initiator: N,
    transforms: Seq<T>,
    apply: F,
    replace_line: bool,
    paint_depth: nat,
    upto: nat,
)
    requires
        is_level_chain(levels, initiator, transforms, apply),
        upto < levels.len(),
    ensures
        painted_levels(levels, replace_line, paint_depth, upto).len() == painted_lines_upto(
            transforms.len(),
            replace_line,
            paint_depth,
            upto,
        ),
    decreases upto,
{
    lemma_level_sizes(levels, initiator, transforms, apply, upto as int);
    if upto > 0 {
        lemma_painted_levels_len(
            levels,
            initiator,
            transforms,
            apply,
            replace_line,
            paint_depth,
            (upto - 1) as nat,
        );
    }
}

proof fn lemma_index_step(t: int, p: int, i: int)
    requires
        0 <= t,
        0 <= i,
        0 <= p,
    ensures
        t * p + i + 1 == t * p + (i + 1),
        t * p + p == (t + 1) * p,
        0 <= t * p,
{
    assert(t * p + p == (t + 1) * p) by (nonlinear_arith);
    assert(0 <= t * p) by (nonlinear_arith)
        requires
            0 <= t,
            0 <= p,
    ;
}

/// The lines of the fractal of `initiator` painted to depth `paint_depth`, in
/// painting order: level by level, and within a level transformation by
/// transformation, each applied to every line of the level above. With
/// `replace_line` only the deepest level is painted, otherwise every level.
pub fn painted_nodes<N: Copy, T: Copy, F: Fn(T, N) -> N>(
    initiator: N,
    transforms: &Vec<T>,
    paint_depth: usize,
    replace_line: bool,
    apply: &F,
) -> (painted: Vec<PaintedNode<N>>)
    requires
        paint_depth < usize::MAX,
        forall|t: T, n: N| call_requires(*apply, (t, n)),
    ensures
        exists|levels: Seq<Seq<N>>|
            {
                &&& levels.len() == paint_depth + 1
                &&& is_level_chain(levels, initiator, transforms@, *apply)
                &&& painted@ == #[trigger] painted_levels(
                    levels,
                    replace_line,
                    paint_depth as nat,
                    paint_depth as nat,
                )
            },
        painted@.len() == painted_line_count(transforms@.len(), paint_depth as nat, replace_line),
{
    let ghost ts = transforms@;
    let nt = transforms.len();
    let mut painted: Vec<PaintedNode<N>> = Vec::new();
    if !replace_line || paint_depth == 0 {
        painted.push(PaintedNode { level: 0, node: initiator });
    }
    let mut nodes: Vec<N> = Vec::new();
    nodes.push(initiator);
    let ghost mut levels: Seq<Seq<N>> = seq![nodes@];
    proof {
        assert(painted@ =~= painted_levels(levels, replace_line, paint_depth as nat, 0));
    }
    let mut depth: usize = 1;
    while depth <= paint_depth
        invariant
            1 <= depth <= paint_depth + 1,
            paint_depth < usize::MAX,
            nt == ts.len(),
            ts == transforms@,
            forall|t: T, n: N| call_requires(*apply, (t, n)),
            levels.len() == depth,
            is_level_chain(levels, initiator, ts, *apply),
            depth <= paint_depth ==> nodes@ == levels[depth - 1],
            painted@ == painted_levels(levels, replace_line, paint_depth as nat, (depth - 1) as nat),
        decreases paint_depth + 1 - depth,
    {
        let paints = level_is_painted(replace_line, depth, paint_depth);
        let keeps = depth < paint_depth;
        let ghost parents = nodes@;
        let ghost painted_before = painted@;
        let np = nodes.len();
        let mut new_nodes: Vec<N> = Vec::new();
        let ghost mut children: Seq<N> = Seq::empty();
        // the nesting of the node loop inside the transformations loop is for speed only
        for t in 0..nt
            invariant
                nt == ts.len(),
                np == parents.len(),
                nodes@ == parents,
                ts == transforms@,
                forall|t: T, n: N| call_requires(*apply, (t, n)),
                children.len() == t * np,
                keeps ==> new_nodes@ == children,
                painted@ == painted_before + (if paints {
                    tagged(children, depth as nat)
                } else {
                    Seq::empty()
                }),
                forall|t2: int, i2: int|
                    #![trigger ts[t2], parents[i2]]
                    0 <= t2 < t && 0 <= i2 < np ==> call_ensures(
                        *apply,
                        (ts[t2], parents[i2]),
                        children[t2 * np + i2],
                    ),
        {
            proof {
                lemma_index_step(t as int, np as int, 0);
            }
            for i in 0..np
                invariant
                    nt == ts.len(),
                    np == parents.len(),
                    nodes@ == parents,
                    ts == transforms@,
                    0 <= t < nt,
                    forall|t: T, n: N| call_requires(*apply, (t, n)),
                    children.len() == t * np + i,
                    0 <= t * np,
                    keeps ==> new_nodes@ == children,
                    painted@ == painted_before + (if paints {
                        tagged(children, depth as nat)
                    } else {
                        Seq::empty()
                    }),
                    forall|t2: int, i2: int|
                        #![trigger ts[t2], parents[i2]]
                        (0 <= t2 < t && 0 <= i2 < np) || (t2 == t && 0 <= i2 < i)
                            ==> call_ensures(*apply, (ts[t2], parents[i2]), children[t2 * np + i2]),
            {
                let child = apply(transforms[t], nodes[i]);
                proof {
                    lemma_index_step(t as int, np as int, i as int);
                    let old_children = children;
                    children = children.push(child);
                    assert forall|t2: int, i2: int|
                        #![trigger ts[t2], parents[i2]]
                        (0 <= t2 < t && 0 <= i2 < np) || (t2 == t && 0 <= i2 < i + 1)
                            implies call_ensures(*apply, (ts[t2], parents[i2]), children[t2 * np + i2]) by {
                        if t2 == t && i2 == i {
                        } else if t2 < t {
                            assert(t2 * np + i2 < t * np) by (nonlinear_arith)
                                requires
                                    t2 < t,
                                    0 <= i2 < np,
                                    0 <= t2,
                            ;
                            assert(children[t2 * np + i2] == old_children[t2 * np + i2]);
                        } else {
                            assert(children[t2 * np + i2] == old_children[t2 * np + i2]);
                        }
                    }
                    assert(tagged(children, depth as nat) =~= tagged(old_children, depth as nat).push(
                        PaintedNode { level: depth, node: child },
                    ));
                }
                if paints {
                    painted.push(PaintedNode { level: depth, node: child });
                }
                if keeps {
                    new_nodes.push(child);
                }
            }
        }
        proof {
            assert(children.len() == nt * np);
            assert(is_expansion(parents, ts, *apply, children));
            let old_levels = levels;
            levels = levels.push(children);
            assert(levels.drop_last() =~= old_levels);
            assert(levels[depth as int] == children);
            assert forall|l: int| 1 <= l < levels.len() implies is_expansion(
                #[trigger] levels[l - 1],
                ts,
                *apply,
                levels[l],
            ) by {
                if l < levels.len() - 1 {
                    assert(is_expansion(levels.drop_last()[l - 1], ts, *apply, levels.drop_last()[l]));
                }
            }
            assert(painted_levels(levels, replace_line, paint_depth as nat, (depth - 1) as nat)
                == painted_levels(levels.drop_last(), replace_line, paint_depth as nat, (depth - 1) as nat)) by {
                lemma_painted_levels_prefix(levels, replace_line, paint_depth as nat, (depth - 1) as nat);
            }
            assert(painted_levels(levels, replace_line, paint_depth as nat, depth as nat)
                == painted_levels(levels, replace_line, paint_depth as nat, (depth - 1) as nat) + (
            if paints {
                tagged(children, depth as nat)
            } else {
                Seq::empty()
            }));
            assert(painted@ =~= painted_levels(levels, replace_line, paint_depth as nat, depth as nat));
        }
        nodes = new_nodes;
        depth = depth + 1;
    }
    proof {
        lemma_painted_levels_len(
            levels,
            initiator,
            ts,
            *apply,
            replace_line,
            paint_depth as nat,
            paint_depth as nat,
        );
    }
    painted
}

/// Adding a deeper level does not change what the levels above it paint.
proof fn lemma_painted_levels_prefix<N>(
    levels: Seq<Seq<N>>,
    replace_line: bool,
    paint_depth: nat,
    upto: nat,
)
    requires
        upto + 1 < levels.len(),
    ensures
        painted_levels(levels, replace_line, paint_depth, upto) == painted_levels(
            levels.drop_last(),
            replace_line,
            paint_depth,
            upto,
        ),
    decreases upto,
{
    if upto > 0 {
        lemma_painted_levels_prefix(levels, replace_line, paint_depth, (upto - 1) as nat);
    }
}

/// One frame never paints more than `MAX_PAINTED_LINE_COUNT` lines: the
/// transformations of a design with `generators` and the levels generated from
/// them, painted to a depth no deeper than the greatest allowed for that
/// design, hold at most that many painted lines.
pub proof fn lemma_frame_within_budget<L, T, N, G: Fn(L, bool) -> T, F: Fn(T, N) -> N>(
    generators: Seq<L>,
    mirror: bool,
    make: G,
    transforms: Seq<T>,
    initiator: N,
    apply: F,
    levels: Seq<Seq<N>>,
    replace_line: bool,
    max_depth: nat,
    paint_depth: nat,
)
    requires
        is_transform_list(generators, mirror, make, transforms),
        is_level_chain(levels, initiator, transforms, apply),
        levels.len() == paint_depth + 1,
        is_max_depth(
            MAX_PAINTED_LINE_COUNT as nat,
            generators.len(),
            mirror,
            replace_line,
            max_depth,
        ),
        paint_depth <= max_depth,
    ensures
        painted_levels(levels, replace_line, paint_depth, paint_depth).len()
            <= MAX_PAINTED_LINE_COUNT,
{
    lemma_painted_levels_len(
        levels,
        initiator,
        transforms,
        apply,
        replace_line,
        paint_depth,
        paint_depth,
    );
    assert(transforms.len() == branch_count(generators.len(), mirror));
    lemma_within_budget_below_max_depth(
        MAX_PAINTED_LINE_COUNT as nat,
        generators.len(),
        mirror,
        replace_line,
        max_depth,
        paint_depth,
    );
}

} // verus!
