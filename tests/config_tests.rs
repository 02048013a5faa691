use batch_image_splitter::{LineKind, LinePos, SplitConfig};

fn pos(num: usize, den: usize) -> LinePos {
    LinePos::from_fraction(num, den).unwrap()
}

#[test]
fn new_spaces_lines_evenly() {
    let c = SplitConfig::new(3, 2);
    assert_eq!(c.rows, 3);
    assert_eq!(c.cols, 2);
    assert_eq!(c.h_lines, vec![pos(1, 3), pos(2, 3)]);
    assert_eq!(c.v_lines, vec![pos(1, 2)]);
    assert!(c.is_valid());
    assert!(c.is_committed());
}

#[test]
fn new_line_counts_and_order_for_many_sizes() {
    for rows in 1..12usize {
        for cols in 1..5usize {
            let c = SplitConfig::new(rows, cols);
            assert_eq!(c.h_lines.len(), rows - 1);
            assert_eq!(c.v_lines.len(), cols - 1);
            for w in c.h_lines.windows(2) {
                assert!(w[0].precedes(&w[1]));
            }
            for p in c.h_lines.iter().chain(c.v_lines.iter()) {
                assert!(p.num > 0 && p.num < p.den);
            }
        }
    }
}

#[test]
fn new_single_cell_has_no_lines() {
    let c = SplitConfig::new(1, 1);
    assert!(c.h_lines.is_empty());
    assert!(c.v_lines.is_empty());
    assert!(c.is_valid());
}

#[test]
fn new_with_zero_rows_is_degenerate() {
    let c = SplitConfig::new(0, 2);
    assert!(c.h_lines.is_empty());
    assert_eq!(c.v_lines.len(), 1);
    assert!(c.is_valid());
}

#[test]
fn default_is_one_cell() {
    let c = SplitConfig::default();
    assert_eq!((c.rows, c.cols), (1, 1));
    assert!(c.h_lines.is_empty() && c.v_lines.is_empty());
}

#[test]
fn reset_to_default_discards_custom_lines() {
    let mut c = SplitConfig::new(2, 2);
    c.move_line(LineKind::Horizontal, 0, pos(9, 10));
    c.rows = 4;
    c.reset_to_default();
    assert_eq!(c.h_lines, vec![pos(1, 4), pos(2, 4), pos(3, 4)]);
    assert_eq!(c.v_lines, vec![pos(1, 2)]);
}

#[test]
fn is_valid_detects_drift() {
    let mut c = SplitConfig::new(3, 3);
    c.rows = 5;
    assert!(!c.is_valid());
    c.rows = 3;
    c.cols = 0;
    assert!(!c.is_valid());
}

#[test]
fn add_line_inserts_in_order_and_returns_index() {
    let mut c = SplitConfig::new(3, 1);
    let idx = c.add_line(LineKind::Horizontal, pos(1, 2));
    assert_eq!(idx, 1);
    assert_eq!(c.h_lines, vec![pos(1, 3), pos(1, 2), pos(2, 3)]);
    assert_eq!(c.rows, 4);
    assert_eq!(c.cols, 1);
    let idx = c.add_line(LineKind::Vertical, pos(1, 10));
    assert_eq!(idx, 0);
    assert_eq!(c.v_lines, vec![pos(1, 10)]);
    assert_eq!(c.cols, 2);
}

#[test]
fn add_line_at_existing_place_selects_first_equal() {
    let mut c = SplitConfig::new(2, 1);
    let idx = c.add_line(LineKind::Horizontal, pos(2, 4));
    assert_eq!(idx, 0);
    assert_eq!(c.h_lines, vec![pos(1, 2), pos(2, 4)]);
    assert_eq!(c.rows, 3);
}

#[test]
fn add_line_sorts_lines_left_unsorted_by_a_drag() {
    let mut c = SplitConfig::new(3, 1);
    c.move_line(LineKind::Horizontal, 0, pos(9, 10));
    assert_eq!(c.h_lines, vec![pos(9, 10), pos(2, 3)]);
    let idx = c.add_line(LineKind::Horizontal, pos(1, 10));
    assert_eq!(idx, 0);
    assert_eq!(c.h_lines, vec![pos(1, 10), pos(2, 3), pos(9, 10)]);
}

#[test]
fn remove_lines_drops_listed_indices() {
    let mut c = SplitConfig::new(5, 4);
    c.remove_lines(LineKind::Horizontal, &vec![0, 2, 2, 17]);
    assert_eq!(c.h_lines, vec![pos(2, 5), pos(4, 5)]);
    assert_eq!(c.rows, 3);
    assert_eq!(c.v_lines.len(), 3);
    assert_eq!(c.cols, 4);
    c.remove_lines(LineKind::Vertical, &vec![2, 1, 0]);
    assert!(c.v_lines.is_empty());
    assert_eq!(c.cols, 1);
}

#[test]
fn move_line_keeps_counts_until_commit() {
    let mut c = SplitConfig::new(4, 1);
    c.move_line(LineKind::Horizontal, 0, pos(4, 5));
    assert_eq!(c.h_lines, vec![pos(4, 5), pos(2, 4), pos(3, 4)]);
    assert!(!c.is_committed());
    c.move_line(LineKind::Horizontal, 7, pos(0, 1));
    assert_eq!(c.h_lines, vec![pos(4, 5), pos(2, 4), pos(3, 4)]);
    c.rows = 9;
    c.commit(LineKind::Horizontal);
    assert_eq!(c.h_lines, vec![pos(2, 4), pos(3, 4), pos(4, 5)]);
    assert_eq!(c.rows, 4);
    assert!(c.is_committed());
}

#[test]
fn commit_keeps_order_of_equal_positions() {
    let mut c = SplitConfig::new(1, 1);
    c.h_lines = vec![pos(2, 4), pos(1, 3), pos(1, 2)];
    c.commit(LineKind::Horizontal);
    assert_eq!(c.h_lines, vec![pos(1, 3), pos(2, 4), pos(1, 2)]);
    assert_eq!(c.rows, 4);
}

#[test]
fn is_committed_rejects_out_of_range_position() {
    let mut c = SplitConfig::new(1, 1);
    c.v_lines = vec![LinePos { num: 3, den: 2 }];
    assert!(!c.is_committed());
    c.v_lines = vec![LinePos { num: 0, den: 0 }];
    assert!(!c.is_committed());
}

#[test]
fn line_pos_from_fraction_and_order() {
    assert!(LinePos::from_fraction(1, 0).is_none());
    assert!(LinePos::from_fraction(3, 2).is_none());
    assert_eq!(LinePos::from_fraction(0, 1), Some(LinePos { num: 0, den: 1 }));
    assert!(pos(1, 3).precedes(&pos(1, 2)));
    assert!(!pos(1, 2).precedes(&pos(2, 4)));
    assert!(pos(1, 2).at_or_before(&pos(2, 4)));
    assert!(!pos(2, 3).at_or_before(&pos(1, 2)));
    assert!(pos(usize::MAX - 1, usize::MAX).precedes(&pos(1, 1)));
}

#[test]
fn line_pos_pixel_is_floor() {
    assert_eq!(pos(1, 3).pixel_of(100), 33);
    assert_eq!(pos(1, 3).pixel_of(300), 100);
    assert_eq!(pos(3, 10).pixel_of(100), 30);
    assert_eq!(pos(1, 1).pixel_of(u32::MAX), u32::MAX);
    assert_eq!(pos(0, 1).pixel_of(77), 0);
    assert_eq!(pos(2, 3).pixel_of(u32::MAX), 2863311530);
}
