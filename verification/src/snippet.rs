//! Document-local tracking for flat, independently editable snippet fields.

use vstd::prelude::*;
use crate::editing::{Change, Position, Range, SelectionSet};
#[allow(unused_imports)]
use crate::editing::precedes;
use crate::text::chars_of;
#[allow(unused_imports)]
use crate::text::utf16_width;

verus! {

/// The fields of an inserted snippet, and which of them is being filled in.
#[derive(Debug)]
pub struct ActiveSnippet {
    pub stops: Vec<Range>,
    pub current: usize,
}

/// A place that may lie beyond what a [`Position`] can hold.
#[verifier::ext_equal]
pub struct Place {
    pub line: int,
    pub character: int,
}

/// A position as a place.
pub open spec fn place(p: Position) -> Place {
    Place { line: p.line as int, character: p.character as int }
}

/// Whether a position can hold the place.
pub open spec fn fits(p: Place) -> bool {
    0 <= p.line <= u32::MAX && 0 <= p.character <= u32::MAX
}

/// The characters besides `\n` that end a line somewhere.
pub open spec fn is_odd_break(c: char) -> bool {
    ||| c == '\r'
    ||| c == '\u{b}'
    ||| c == '\u{c}'
    ||| c == '\u{85}'
    ||| c == '\u{2028}'
    ||| c == '\u{2029}'
}

/// Where text inserted at `start` ends.
pub open spec fn inserted_end(start: Place, text: Seq<char>) -> Place
    decreases text.len(),
{
    if text.len() == 0 {
        start
    } else {
        let before = inserted_end(start, text.drop_last());
        if text.last() == '\n' {
            Place { line: before.line + 1, character: 0 }
        } else {
            Place { character: before.character + utf16_width(text.last()), ..before }
        }
    }
}

/// Where a place at or behind the end of a replaced stretch lies afterwards.
pub open spec fn shifted(p: Place, replaced_end: Place, new_end: Place) -> Place {
    if p.line == replaced_end.line {
        Place {
            line: new_end.line,
            character: new_end.character + p.character - replaced_end.character,
        }
    } else {
        Place { line: new_end.line + p.line - replaced_end.line, character: p.character }
    }
}

/// Whether the snippet follows a change: it is confined to the current field and has no line
/// break but `\n`.
pub open spec fn follows(active: Range, change: Change) -> bool {
    &&& !precedes(change.range.start, active.start)
    &&& !precedes(active.end, change.range.end)
    &&& forall|i: int| 0 <= i < change.text@.len() ==> !is_odd_break(#[trigger] change.text@[i])
}

/// The places of a field after a change in the current field.
pub open spec fn moved_stop(
    stops: Seq<Range>,
    current: int,
    index: int,
    change: Change,
) -> (Place, Place) {
    let stop = stops[index];
    let new_end = inserted_end(place(change.range.start), change.text@);
    let old_end = place(change.range.end);
    if index == current {
        (place(stop.start), shifted(place(stop.end), old_end, new_end))
    } else if !precedes(stop.start, stops[current].end) {
        (
            shifted(place(stop.start), old_end, new_end),
            shifted(place(stop.end), old_end, new_end),
        )
    } else {
        (place(stop.start), place(stop.end))
    }
}

/// Whether every field can still be held after the change, on a line and at a character that a
/// position can count.
pub open spec fn trackable(stops: Seq<Range>, current: int, change: Change) -> bool {
    &&& forall|n: int|
        0 <= n <= change.text@.len() ==> fits(
            #[trigger] inserted_end(place(change.range.start), change.text@.take(n)),
        )
    &&& forall|i: int|
        0 <= i < stops.len() ==> fits((#[trigger] moved_stop(stops, current, i, change)).0)
            && fits(moved_stop(stops, current, i, change).1)
}

/// Whether `c` ends a line somewhere and is not `\n`.
fn odd_break(c: char) -> (r: bool)
    ensures
        r == is_odd_break(c),
{
    c == '\r' || c == '\u{b}' || c == '\u{c}' || c == '\u{85}' || c == '\u{2028}' || c
        == '\u{2029}'
}

/// Where a position at or behind the end of a replaced stretch lies afterwards.
fn shift(position: Position, replaced_end: Position, new_end: Position) -> (r: Position)
    requires
        !precedes(position, replaced_end),
        fits(shifted(place(position), place(replaced_end), place(new_end))),
    ensures
        place(r) == shifted(place(position), place(replaced_end), place(new_end)),
{
    if position.line == replaced_end.line {
        let extra: u32 = position.character - replaced_end.character;
        Position { line: new_end.line, character: new_end.character + extra }
    } else {
        let extra: u32 = position.line - replaced_end.line;
        Position { line: new_end.line + extra, character: position.character }
    }
}

impl ActiveSnippet {
    /// Whether there is a current field and no field ends before it starts.
    pub open spec fn wf(&self) -> bool {
        &&& self.current < self.stops@.len()
        &&& forall|i: int| 0 <= i < self.stops@.len() ==> (#[trigger] self.stops@[i]).wf()
    }

    /// Whether the selections are one selection inside the current field, in contracts.
    pub open spec fn holds(&self, selections: SelectionSet) -> bool {
        let active = self.stops@[self.current as int];
        &&& selections.others@.len() == 0
        &&& !precedes(selections.primary.span().start, active.start)
        &&& !precedes(active.end, selections.primary.span().end)
    }

    /// Whether the selections are one selection inside the current field.
    pub fn contains(&self, selections: &SelectionSet) -> (r: bool)
        requires
            self.current < self.stops@.len(),
        ensures
            r == self.holds(*selections),
    {
        let active: Range = self.stops[self.current];
        let range: Range = selections.primary.range();
        selections.others.len() == 0 && !range.start.before(&active.start) && !active.end.before(
            &range.end,
        )
    }

    /// Follows the changes of one step, and says whether the snippet is still tracked.
    ///
    /// Only a single change confined to the current field is followed. Other edits, and edits at
    /// several carets, cancel navigation rather than retaining stale coordinates.
    pub fn apply(&mut self, changes: &Vec<Change>) -> (r: bool)
        requires
            old(self).wf(),
            changes@.len() == 1 ==> changes@[0].range.wf() && (follows(
                old(self).stops@[old(self).current as int],
                changes@[0],
            ) ==> trackable(old(self).stops@, old(self).current as int, changes@[0])),
        ensures
            final(self).current == old(self).current,
            final(self).stops@.len() == old(self).stops@.len(),
            r == (changes@.len() == 0 || (changes@.len() == 1 && follows(
                old(self).stops@[old(self).current as int],
                changes@[0],
            ))),
            !r || changes@.len() == 0 ==> final(self).stops@ == old(self).stops@,
            r && changes@.len() == 1 ==> forall|i: int|
                0 <= i < old(self).stops@.len() ==> (
                    place((#[trigger] final(self).stops@[i]).start),
                    place(final(self).stops@[i].end),
                ) == moved_stop(old(self).stops@, old(self).current as int, i, changes@[0]),
    {
        if changes.len() == 0 {
            return true;
        }
        if changes.len() != 1 {
            return false;
        }
        let change: &Change = &changes[0];
        let chars: Vec<char> = chars_of(change.text.as_str());
        let active: Range = self.stops[self.current];
        let mut i: usize = 0;
        while i < chars.len()
            invariant
                i <= chars@.len(),
                chars@ == change.text@,
                changes@.len() == 1,
                *change == changes@[0],
                *self == *old(self),
                forall|j: int| 0 <= j < i ==> !is_odd_break(#[trigger] chars@[j]),
            decreases chars@.len() - i,
        {
            if odd_break(chars[i]) {
                assert(is_odd_break(change.text@[i as int]));
                return false;
            }
            i = i + 1;
        }
        if change.range.start.before(&active.start) || active.end.before(&change.range.end) {
            return false;
        }
        let ghost before = self.stops@;
        let ghost current = self.current as int;
        assert(follows(active, *change));
        let mut new_end: Position = change.range.start;
        let mut n: usize = 0;
        assert(chars@.take(0) =~= Seq::<char>::empty());
        while n < chars.len()
            invariant
                n <= chars@.len(),
                chars@ == change.text@,
                trackable(before, current, *change),
                place(new_end) == inserted_end(place(change.range.start), chars@.take(n as int)),
            decreases chars@.len() - n,
        {
            proof {
                assert(chars@.take(n + 1).drop_last() =~= chars@.take(n as int));
                assert(fits(inserted_end(place(change.range.start), chars@.take(n + 1))));
            }
            if chars[n] == '\n' {
                new_end = Position { line: new_end.line + 1, character: 0 };
            } else {
                let width: u32 = if (chars[n] as u32) >= 0x10000 {
                    2
                } else {
                    1
                };
                new_end = Position { character: new_end.character + width, line: new_end.line };
            }
            n = n + 1;
        }
        assert(chars@.take(chars@.len() as int) =~= change.text@);
        let mut k: usize = 0;
        while k < self.stops.len()
            invariant
                k <= self.stops@.len(),
                self.stops@.len() == before.len(),
                self.current == current,
                current < before.len(),
                active == before[current],
                !precedes(active.end, change.range.end),
                place(new_end) == inserted_end(place(change.range.start), change.text@),
                trackable(before, current, *change),
                forall|i: int| 0 <= i < before.len() ==> (#[trigger] before[i]).wf(),
                forall|i: int| k <= i < before.len() ==> self.stops@[i] == before[i],
                forall|i: int|
                    0 <= i < k ==> (
                        place((#[trigger] self.stops@[i]).start),
                        place(self.stops@[i].end),
                    ) == moved_stop(before, current, i, *change),
            decreases self.stops@.len() - k,
        {
            let stop: Range = self.stops[k];
            proof {
                assert(stop == before[k as int]);
                assert(stop.wf());
                assert(fits(moved_stop(before, current, k as int, *change).1));
            }
            if k == self.current {
                let end: Position = shift(stop.end, change.range.end, new_end);
                self.stops.set(k, Range { start: stop.start, end });
            } else if !stop.start.before(&active.end) {
                let start: Position = shift(stop.start, change.range.end, new_end);
                let end: Position = shift(stop.end, change.range.end, new_end);
                self.stops.set(k, Range { start, end });
            }
            k = k + 1;
        }
        true
    }
}

// ---------------------------------------------------------------------------
// Laws
// ---------------------------------------------------------------------------

/// Inserting and deleting nothing moves no place.
pub proof fn law_an_empty_change_moves_nothing(p: Place, at: Place)
    ensures
        shifted(p, at, inserted_end(at, Seq::empty())) == p,
{
}

/// A change in the current field leaves the fields before it where they are.
pub proof fn law_earlier_fields_stay(stops: Seq<Range>, current: int, index: int, change: Change)
    requires
        0 <= index < stops.len(),
        index != current,
        precedes(stops[index].start, stops[current].end),
    ensures
        moved_stop(stops, current, index, change) == (
            place(stops[index].start),
            place(stops[index].end),
        ),
{
}

} // verus!
