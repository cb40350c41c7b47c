use egui_fractals::depth::{cap_depth, level_is_painted, max_depth_with_branches, MAX_PAINTED_LINE_COUNT};

fn painted(branches: usize, depth: usize, replace_line: bool) -> usize {
    let mut total = 0;
    let mut level_lines = 1;
    for level in 0..=depth {
        if level_is_painted(replace_line, level, depth) {
            total += level_lines;
        }
        level_lines *= branches;
    }
    total
}

#[test]
fn single_branch_allows_budget_minus_one() {
    assert_eq!(max_depth_with_branches(MAX_PAINTED_LINE_COUNT, 1, false, false), 262243);
    assert_eq!(max_depth_with_branches(MAX_PAINTED_LINE_COUNT, 1, false, true), 262243);
    assert_eq!(max_depth_with_branches(10, 0, true, false), 9);
}

#[test]
fn replacing_two_branches_stays_below_budget() {
    // 2^18 = 262144 < 262244 <= 2^19
    assert_eq!(max_depth_with_branches(MAX_PAINTED_LINE_COUNT, 1, true, true), 18);
    assert_eq!(max_depth_with_branches(MAX_PAINTED_LINE_COUNT, 2, false, true), 18);
}

#[test]
fn replacing_exact_power_is_strictly_below() {
    // 2^3 == 8 is not below a budget of 8
    assert_eq!(max_depth_with_branches(8, 2, false, true), 2);
    assert_eq!(max_depth_with_branches(9, 2, false, true), 3);
}

#[test]
fn replacing_with_tiny_budget_gives_zero() {
    assert_eq!(max_depth_with_branches(1, 3, false, true), 0);
    assert_eq!(max_depth_with_branches(0, 3, false, true), 0);
}

#[test]
fn every_level_counts_when_not_replacing() {
    // 1 + 2 + ... + 2^17 = 2^18 - 1 <= 262244 < 2^19 - 1
    assert_eq!(max_depth_with_branches(MAX_PAINTED_LINE_COUNT, 2, false, false), 17);
    // 1 + 3 + 9 == 13
    assert_eq!(max_depth_with_branches(13, 3, false, false), 2);
    assert_eq!(max_depth_with_branches(12, 3, false, false), 1);
    assert_eq!(max_depth_with_branches(1, 3, false, false), 0);
    assert_eq!(max_depth_with_branches(0, 3, false, false), 0);
}

#[test]
fn mirroring_doubles_the_branches() {
    // four branches: 4^3 = 64 < 100 <= 256
    assert_eq!(max_depth_with_branches(100, 2, true, true), 3);
    assert_eq!(max_depth_with_branches(100, 4, false, true), 3);
}

#[test]
fn max_depth_keeps_the_painted_lines_within_budget() {
    for budget in 1..200usize {
        for branches in 0..6usize {
            for replace_line in [false, true] {
                let depth = max_depth_with_branches(budget, branches, false, replace_line);
                if branches >= 1 && depth < 40 {
                    assert!(painted(branches, depth, replace_line) <= budget);
                }
                if branches >= 2 {
                    let over = painted(branches, depth + 1, replace_line);
                    if replace_line {
                        assert!(budget <= 1 || over >= budget);
                    } else {
                        assert!(over > budget);
                    }
                }
            }
        }
    }
}

#[test]
fn cap_depth_keeps_smaller_depths() {
    assert_eq!(cap_depth(5, 2, false, true), 5);
    assert_eq!(cap_depth(40, 3, false, true), 18);
    assert_eq!(cap_depth(40, 2, true, true), 18);
    assert_eq!(cap_depth(40, 2, false, true), 40);
    assert_eq!(cap_depth(40, 3, false, false), 17);
    assert_eq!(cap_depth(0, 3, true, false), 0);
}

#[test]
fn only_the_deepest_level_is_painted_when_replacing() {
    assert!(level_is_painted(true, 4, 4));
    assert!(!level_is_painted(true, 0, 4));
    assert!(level_is_painted(true, 0, 0));
    assert!(level_is_painted(false, 0, 4));
    assert!(level_is_painted(false, 2, 4));
}

#[test]
fn depth_limit_is_monotonic() {
    for budget in 1..300usize {
        for branches in 0..5usize {
            for mirror in [false, true] {
                for replace_line in [false, true] {
                    let d = max_depth_with_branches(budget, branches, mirror, replace_line);
                    assert!(d <= max_depth_with_branches(budget + 1, branches, mirror, replace_line));
                    assert!(max_depth_with_branches(budget, branches + 1, mirror, replace_line) <= d);
                    assert!(max_depth_with_branches(budget, branches, true, replace_line)
                        <= max_depth_with_branches(budget, branches, false, replace_line));
                    assert!(max_depth_with_branches(budget, branches, mirror, false)
                        <= max_depth_with_branches(budget, branches, mirror, true));
                }
            }
        }
    }
}
