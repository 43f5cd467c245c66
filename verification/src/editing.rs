//! Positions, ranges, selections and edits in a text.

use vstd::prelude::*;

verus! {

/// A place in a text: a line, and UTF-16 code units into it, both counted from zero.
#[derive(Debug, Clone, Copy, PartialEq, Eq, Structural)]
pub struct Position {
    pub line: u32,
    pub character: u32,
}

/// Whether `a` comes before `b` in the text.
pub open spec fn precedes(a: Position, b: Position) -> bool {
    a.line < b.line || (a.line == b.line && a.character < b.character)
}

impl Position {
    /// The place at `line` and `character`.
    pub fn new(line: u32, character: u32) -> (r: Position)
        ensures
            r == (Position { line, character }),
    {
        Position { line, character }
    }

    /// Whether this place comes before `other`.
    pub fn before(&self, other: &Position) -> (r: bool)
        ensures
            r == precedes(*self, *other),
    {
        self.line < other.line || (self.line == other.line && self.character < other.character)
    }
}

/// A stretch of text, from `start` up to `end`.
#[derive(Debug, Clone, Copy, PartialEq, Eq, Structural)]
pub struct Range {
    pub start: Position,
    pub end: Position,
}

/// The stretch between two places, whichever comes first.
pub open spec fn range_between(a: Position, b: Position) -> Range {
    if precedes(b, a) {
        Range { start: b, end: a }
    } else {
        Range { start: a, end: b }
    }
}

impl Range {
    /// Whether the stretch does not end before it starts.
    pub open spec fn wf(&self) -> bool {
        !precedes(self.end, self.start)
    }

    /// The stretch between two places, whichever comes first.
    pub fn new(a: Position, b: Position) -> (r: Range)
        ensures
            r == range_between(a, b),
            r.wf(),
    {
        if b.before(&a) {
            Range { start: b, end: a }
        } else {
            Range { start: a, end: b }
        }
    }
}

/// A selection: where it was begun, and where the caret is.
#[derive(Debug, Clone, Copy, PartialEq, Eq, Structural)]
pub struct Selection {
    pub anchor: Position,
    pub active: Position,
}

impl Selection {
    /// The stretch that is selected, in contracts.
    pub open spec fn span(&self) -> Range {
        range_between(self.anchor, self.active)
    }

    /// A selection from `anchor` to `active`.
    pub fn new(anchor: Position, active: Position) -> (r: Selection)
        ensures
            r == (Selection { anchor, active }),
    {
        Selection { anchor, active }
    }

    /// A caret with nothing selected.
    pub fn caret(at: Position) -> (r: Selection)
        ensures
            r == (Selection { anchor: at, active: at }),
    {
        Selection { anchor: at, active: at }
    }

    /// The stretch that is selected.
    pub fn range(&self) -> (r: Range)
        ensures
            r == self.span(),
    {
        Range::new(self.anchor, self.active)
    }

    /// Whether nothing is selected.
    pub fn is_empty(&self) -> (r: bool)
        ensures
            r == (self.anchor == self.active),
    {
        self.anchor == self.active
    }
}

/// One or more selections, one of them the primary one.
#[derive(Debug)]
pub struct SelectionSet {
    pub primary: Selection,
    pub others: Vec<Selection>,
}

impl SelectionSet {
    /// Whether this is `selection` and no other.
    pub open spec fn is_single(&self, selection: Selection) -> bool {
        self.primary == selection && self.others@.len() == 0
    }

    /// Whether two sets hold the same selections.
    pub open spec fn same(&self, other: SelectionSet) -> bool {
        self.primary == other.primary && self.others@ == other.others@
    }

    /// Whether anything is selected by one of them, in contracts.
    pub open spec fn selects(&self) -> bool {
        ||| self.primary.anchor != self.primary.active
        ||| exists|i: int|
            0 <= i < self.others@.len() && (#[trigger] self.others@[i]).anchor
                != self.others@[i].active
    }

    /// One selection.
    pub fn single(selection: Selection) -> (r: SelectionSet)
        ensures
            r.is_single(selection),
    {
        SelectionSet { primary: selection, others: Vec::new() }
    }

    /// A caret with nothing selected.
    pub fn caret(at: Position) -> (r: SelectionSet)
        ensures
            r.is_single(Selection { anchor: at, active: at }),
    {
        SelectionSet::single(Selection::caret(at))
    }

    /// A copy.
    pub fn copy(&self) -> (r: SelectionSet)
        ensures
            r.same(*self),
    {
        let mut others: Vec<Selection> = Vec::new();
        let mut i: usize = 0;
        while i < self.others.len()
            invariant
                i <= self.others@.len(),
                others@ == self.others@.take(i as int),
            decreases self.others@.len() - i,
        {
            others.push(self.others[i]);
            i = i + 1;
            assert(others@ =~= self.others@.take(i as int));
        }
        assert(others@ =~= self.others@);
        SelectionSet { primary: self.primary, others }
    }

    /// Whether there is more than one.
    pub fn is_multi(&self) -> (r: bool)
        ensures
            r == (self.others@.len() > 0),
    {
        self.others.len() > 0
    }

    /// Whether anything is selected by one of them.
    pub fn any_selected(&self) -> (r: bool)
        ensures
            r == self.selects(),
    {
        if !self.primary.is_empty() {
            return true;
        }
        let mut i: usize = 0;
        while i < self.others.len()
            invariant
                i <= self.others@.len(),
                forall|j: int|
                    0 <= j < i ==> (#[trigger] self.others@[j]).anchor == self.others@[j].active,
            decreases self.others@.len() - i,
        {
            if !self.others[i].is_empty() {
                assert(self.others@[i as int].anchor != self.others@[i as int].active);
                return true;
            }
            i = i + 1;
        }
        false
    }
}

/// One replacement in a text.
#[derive(Debug)]
pub struct Change {
    /// What is replaced.
    pub range: Range,
    /// What it is replaced by.
    pub text: String,
}

/// One replacement that a language server computed.
#[derive(Debug, Clone)]
pub struct TextEdit {
    /// What is replaced.
    pub range: Range,
    /// What it is replaced by.
    pub new_text: String,
}

/// A [`TextEdit`], as a value in contracts.
#[verifier::ext_equal]
pub struct Replacement {
    pub range: Range,
    pub new_text: Seq<char>,
}

impl View for TextEdit {
    type V = Replacement;

    open spec fn view(&self) -> Replacement {
        Replacement { range: self.range, new_text: self.new_text@ }
    }
}

/// The replacements of a list of edits.
pub open spec fn replacements(list: Seq<TextEdit>) -> Seq<Replacement> {
    Seq::new(list.len(), |i: int| list[i]@)
}

/// Which way to walk.
#[derive(Debug, Clone, Copy, PartialEq, Eq, Structural)]
pub enum Direction {
    /// Towards the end.
    Next,
    /// Towards the start.
    Prev,
}

} // verus!
