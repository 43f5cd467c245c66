use deco::comparison::{comparison_rows, ComparisonLineKind, Hunk};

fn kinds(lines: &[deco::comparison::ComparisonLine]) -> Vec<ComparisonLineKind> {
    lines.iter().map(|line| line.kind).collect()
}

#[test]
fn an_insertion_faces_a_gap() {
    let hunk = Hunk { head_start: 1, head_end: 1, working_start: 1, working_end: 2 };
    let (left, right) = comparison_rows("a\nb\n", "a\nx\nb\n", &vec![hunk]);
    assert_eq!(left.text, "a\n\nb");
    assert_eq!(right.text, "a\nx\nb");
    assert_eq!(
        kinds(&left.lines),
        [ComparisonLineKind::Context, ComparisonLineKind::Empty, ComparisonLineKind::Context]
    );
    assert_eq!(
        kinds(&right.lines),
        [ComparisonLineKind::Context, ComparisonLineKind::Added, ComparisonLineKind::Context]
    );
    assert_eq!(left.lines[2].number, Some(2));
    assert_eq!(right.lines[2].number, Some(3));
}

#[test]
fn a_run_is_as_long_as_its_longer_side() {
    let hunk = Hunk { head_start: 0, head_end: 2, working_start: 0, working_end: 1 };
    let (left, right) = comparison_rows("a\nb\n", "c\n", &vec![hunk]);
    assert_eq!(
        kinds(&left.lines),
        [ComparisonLineKind::Modified, ComparisonLineKind::Removed]
    );
    assert_eq!(
        kinds(&right.lines),
        [ComparisonLineKind::Modified, ComparisonLineKind::Empty]
    );
    assert_eq!(right.text, "c\n");
}

#[test]
fn identical_texts_are_all_context() {
    let (left, right) = comparison_rows("a\r\nb\r\n", "a\nb\n", &Vec::new());
    assert_eq!(left.text, "a\nb", "a line's own end is not shown");
    assert_eq!(left, right);
    assert_eq!(
        kinds(&left.lines),
        [ComparisonLineKind::Context, ComparisonLineKind::Context]
    );
}

#[test]
fn two_empty_texts_show_one_empty_row() {
    let (left, right) = comparison_rows("", "", &Vec::new());
    assert_eq!(left.text, "");
    assert_eq!(kinds(&left.lines), [ComparisonLineKind::Empty]);
    assert_eq!(kinds(&right.lines), [ComparisonLineKind::Empty]);
    assert_eq!(left.lines[0].number, None);
}

#[test]
fn every_line_is_shown_once_in_order() {
    let hunks = vec![
        Hunk { head_start: 1, head_end: 2, working_start: 1, working_end: 3 },
        Hunk { head_start: 3, head_end: 5, working_start: 4, working_end: 4 },
    ];
    let (left, right) = comparison_rows("a\nb\nc\nd\ne\nf\n", "a\nx\ny\nc\nf\n", &hunks);
    let numbers = |lines: &[deco::comparison::ComparisonLine]| -> Vec<usize> {
        lines.iter().filter_map(|line| line.number).collect()
    };
    assert_eq!(numbers(&left.lines), [1, 2, 3, 4, 5, 6]);
    assert_eq!(numbers(&right.lines), [1, 2, 3, 4, 5]);
    assert_eq!(left.lines.len(), right.lines.len());
}
