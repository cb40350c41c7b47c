use egui_fractals::depth::max_depth_with_branches;
use egui_fractals::generation::{painted_nodes, transforms_for, PaintedNode};

fn summary(painted: &[PaintedNode<i64>]) -> Vec<(usize, i64)> {
    painted.iter().map(|p| (p.level, p.node)).collect()
}

// a "line" is a number, a transformation appends its digit
fn apply(t: i64, n: i64) -> i64 {
    n * 10 + t
}

#[test]
fn every_level_is_painted_in_order() {
    let transforms = vec![1, 2];
    let painted = painted_nodes(0i64, &transforms, 2, false, &apply);
    assert_eq!(
        summary(&painted),
        vec![(0, 0), (1, 1), (1, 2), (2, 11), (2, 21), (2, 12), (2, 22)]
    );
}

#[test]
fn replacing_paints_only_the_deepest_level() {
    let transforms = vec![1, 2, 3];
    let painted = painted_nodes(0i64, &transforms, 2, true, &apply);
    assert_eq!(painted.len(), 9);
    assert!(painted.iter().all(|p| p.level == 2));
    assert_eq!(painted[0].node, 11);
    assert_eq!(painted[1].node, 21);
    assert_eq!(painted[3].node, 12);
    assert_eq!(painted[8].node, 33);
}

#[test]
fn depth_zero_paints_the_initiator() {
    let transforms = vec![1, 2];
    assert_eq!(summary(&painted_nodes(5i64, &transforms, 0, true, &apply)), vec![(0, 5)]);
    assert_eq!(summary(&painted_nodes(5i64, &transforms, 0, false, &apply)), vec![(0, 5)]);
}

#[test]
fn no_transformation_paints_the_initiator_only() {
    let transforms: Vec<i64> = Vec::new();
    assert_eq!(summary(&painted_nodes(5i64, &transforms, 3, false, &apply)), vec![(0, 5)]);
    assert!(painted_nodes(5i64, &transforms, 3, true, &apply).is_empty());
}

#[test]
fn mirrored_transformations_follow_their_generator() {
    let generators = vec![10i64, 20, 30];
    let make = |g: i64, mirrored: bool| if mirrored { -g } else { g };
    assert_eq!(transforms_for(&generators, true, &make), vec![10, -10, 20, -20, 30, -30]);
    assert_eq!(transforms_for(&generators, false, &make), vec![10, 20, 30]);
}

#[test]
fn capped_frame_stays_within_budget() {
    let generators = vec![1i64, 2];
    let make = |g: i64, mirrored: bool| if mirrored { g + 2 } else { g };
    let transforms = transforms_for(&generators, true, &make);
    let budget = 1000;
    let depth = max_depth_with_branches(budget, generators.len(), true, false);
    assert_eq!(depth, 4); // 1 + 4 + 16 + 64 + 256 = 341 <= 1000 < 1365
    let painted = painted_nodes(0i64, &transforms, depth, false, &apply);
    assert_eq!(painted.len(), 341);
    assert!(painted_nodes(0i64, &transforms, depth + 1, false, &apply).len() > budget);
}
