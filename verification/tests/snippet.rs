use deco::editing::{Change, Position, Range, Selection, SelectionSet};
use deco::snippet::ActiveSnippet;

fn range(from: (u32, u32), to: (u32, u32)) -> Range {
    Range::new(Position::new(from.0, from.1), Position::new(to.0, to.1))
}

fn fields() -> ActiveSnippet {
    ActiveSnippet {
        stops: vec![range((0, 5), (0, 8)), range((0, 10), (0, 15)), range((1, 2), (1, 2))],
        current: 0,
    }
}

fn change(at: Range, text: &str) -> Vec<Change> {
    vec![Change { range: at, text: text.to_owned() }]
}

#[test]
fn typing_in_the_current_field_moves_the_ones_behind_it() {
    let mut snippet = fields();
    assert!(snippet.apply(&change(range((0, 5), (0, 8)), "longer")));
    assert_eq!(snippet.stops[0], range((0, 5), (0, 11)));
    assert_eq!(snippet.stops[1], range((0, 13), (0, 18)));
    assert_eq!(snippet.stops[2], range((1, 2), (1, 2)), "a later line keeps its columns");
}

#[test]
fn a_line_break_in_the_field_moves_the_rest_of_its_line_down() {
    let mut snippet = fields();
    assert!(snippet.apply(&change(range((0, 5), (0, 8)), "a\nbc")));
    assert_eq!(snippet.stops[0], range((0, 5), (1, 2)));
    assert_eq!(snippet.stops[1], range((1, 4), (1, 9)));
    assert_eq!(snippet.stops[2], range((2, 2), (2, 2)));
}

#[test]
fn a_character_outside_the_basic_plane_is_two_columns() {
    let mut snippet = fields();
    assert!(snippet.apply(&change(range((0, 5), (0, 8)), "🎉")));
    assert_eq!(snippet.stops[0], range((0, 5), (0, 7)));
}

#[test]
fn an_edit_elsewhere_ends_the_tracking() {
    let mut snippet = fields();
    assert!(!snippet.apply(&change(range((0, 0), (0, 0)), "x")));
    assert!(!snippet.apply(&change(range((0, 10), (0, 11)), "x")));
    assert_eq!(snippet.stops, fields().stops, "what is no longer tracked is left alone");
}

#[test]
fn several_edits_at_once_end_the_tracking_and_none_do_not() {
    let mut snippet = fields();
    assert!(snippet.apply(&Vec::new()));
    let mut two = change(range((0, 5), (0, 5)), "x");
    two.append(&mut change(range((0, 6), (0, 6)), "y"));
    assert!(!snippet.apply(&two));
}

#[test]
fn only_one_selection_inside_the_field_is_in_it() {
    let snippet = fields();
    let at = |character: u32| Position::new(0, character);
    assert!(snippet.contains(&SelectionSet::caret(at(5))));
    assert!(snippet.contains(&SelectionSet::single(Selection::new(at(8), at(5)))));
    assert!(!snippet.contains(&SelectionSet::caret(at(9))));
    let several = SelectionSet {
        primary: Selection::caret(at(6)),
        others: vec![Selection::caret(at(7))],
    };
    assert!(!snippet.contains(&several));
}
