//! Where the fields of a snippet are while one of them is filled in.

use vstd::prelude::*;
#[allow(unused_imports)]
use crate::editing::{precedes, Change, Position, Range};
#[allow(unused_imports)]
use crate::snippet::{follows, inserted_end, moved_stop, place, shifted, Place};

verus! {

/// Whether `after` are the fields once one change in the current one was followed.
pub open spec fn fields_followed(
    before: Seq<Range>,
    after: Seq<Range>,
    current: int,
    change: Change,
) -> bool {
    &&& 0 <= current < before.len()
    &&& after.len() == before.len()
    &&& forall|i: int| 0 <= i < before.len() ==> !precedes((#[trigger] before[i]).end, before[i].start)
    &&& !precedes(change.range.end, change.range.start)
    &&& follows(before[current], change)
    &&& forall|i: int|
        0 <= i < before.len() ==> (
            place((#[trigger] after[i]).start),
            place(after[i].end),
        ) == moved_stop(before, current, i, change)
}

/// Whether two places are as far apart as two others: as many lines, and as many characters where
/// they are on one line. The second of each pair is the later one.
pub open spec fn as_far_apart(a: Position, b: Position, c: Position, d: Position) -> bool {
    &&& b.line - a.line == d.line - c.line
    &&& if a.line == b.line {
        b.character - a.character == d.character - c.character
    } else {
        b.character == d.character
    }
}

/// A change in the current field, of whatever text and of none, leaves the start of that field and
/// every field before it where they were, and keeps every later field as far behind the current
/// one as it was, and as long.
pub proof fn law_later_fields_move_along(
    before: Seq<Range>,
    after: Seq<Range>,
    current: int,
    change: Change,
    i: int,
)
    requires
        fields_followed(before, after, current, change),
        0 <= i < before.len(),
    ensures
        after[current].start == before[current].start,
        i != current && !precedes(before[i].start, before[current].end) ==> {
            &&& as_far_apart(
                before[current].end,
                before[i].start,
                after[current].end,
                after[i].start,
            )
            &&& as_far_apart(before[i].start, before[i].end, after[i].start, after[i].end)
        },
        i != current && precedes(before[i].start, before[current].end) ==> after[i] == before[i],
{
    assert(place(after[i].start) == moved_stop(before, current, i, change).0);
    assert(place(after[i].end) == moved_stop(before, current, i, change).1);
    assert(place(after[current].start) == moved_stop(before, current, current, change).0);
    assert(place(after[current].end) == moved_stop(before, current, current, change).1);
}

/// The place behind the first `n` characters of a text that starts at the origin.
pub open spec fn place_in(text: Seq<char>, n: int) -> Place {
    inserted_end(Place { line: 0, character: 0 }, text.take(n))
}

/// Text behind text ends where it would end alone, counted from where the first ends.
pub proof fn law_text_ends_where_its_parts_do(start: Place, a: Seq<char>, b: Seq<char>)
    ensures
        inserted_end(start, a + b) == inserted_end(inserted_end(start, a), b),
    decreases b.len(),
{
    if b.len() == 0 {
        assert(a + b =~= a);
    } else {
        law_text_ends_where_its_parts_do(start, a, b.drop_last());
        assert((a + b).drop_last() =~= a + b.drop_last());
    }
}

/// One character goes on by one, or by two where UTF-16 needs two code units for it; a line feed
/// starts the next line.
pub proof fn law_a_character_goes_on_by_its_width(start: Place, c: char)
    ensures
        inserted_end(start, Seq::empty()) == start,
        c == '\n' ==> inserted_end(start, seq![c]) == (Place {
            line: start.line + 1,
            character: 0,
        }),
        c != '\n' && (c as u32) < 0x10000 ==> inserted_end(start, seq![c]) == (Place {
            line: start.line,
            character: start.character + 1,
        }),
        c != '\n' && (c as u32) >= 0x10000 ==> inserted_end(start, seq![c]) == (Place {
            line: start.line,
            character: start.character + 2,
        }),
{
    assert(seq![c].drop_last() =~= Seq::<char>::empty());
    assert(inserted_end(start, seq![c].drop_last()) == start);
}

/// Text that starts elsewhere ends as far on.
pub(crate) proof fn lemma_shifted(p: Place, q: Place, text: Seq<char>)
    ensures
        shifted(inserted_end(p, text), p, q) == inserted_end(q, text),
        inserted_end(p, text).line >= p.line,
        inserted_end(p, text).line == p.line ==> inserted_end(p, text).character >= p.character,
        inserted_end(p, text).line > p.line ==> inserted_end(p, text).character
            == inserted_end(q, text).character,
        inserted_end(p, text).line - p.line == inserted_end(q, text).line - q.line,
    decreases text.len(),
{
    if text.len() > 0 {
        lemma_shifted(p, q, text.drop_last());
    }
}

/// A followed change keeps each field around the same characters: where a field starts or ends
/// behind the first `n` characters of the text, at or behind what was replaced, it does so behind
/// those characters of the changed text.
pub proof fn law_a_place_behind_a_change_keeps_its_character(
    text: Seq<char>,
    from: int,
    to: int,
    put: Seq<char>,
    n: int,
)
    requires
        0 <= from <= to <= n <= text.len(),
    ensures
        shifted(
            place_in(text, n),
            place_in(text, to),
            inserted_end(place_in(text, from), put),
        ) == place_in(text.take(from) + put + text.skip(to), n - (to - from) + put.len()),
{
    let origin = Place { line: 0, character: 0 };
    let between = text.subrange(to, n);
    let changed = text.take(from) + put + text.skip(to);
    let new_end = inserted_end(place_in(text, from), put);
    assert(text.take(n) =~= text.take(to) + between);
    law_text_ends_where_its_parts_do(origin, text.take(to), between);
    lemma_shifted(place_in(text, to), new_end, between);
    assert(changed.take(n - (to - from) + put.len()) =~= text.take(from) + put + between);
    law_text_ends_where_its_parts_do(origin, text.take(from), put);
    law_text_ends_where_its_parts_do(origin, text.take(from) + put, between);
}

/// A followed change keeps the current field around what was in it with the change made, and every
/// later field around the very characters it had.
pub proof fn law_fields_keep_their_characters(
    before: Seq<Range>,
    after: Seq<Range>,
    current: int,
    change: Change,
    text: Seq<char>,
    from: int,
    to: int,
    start: int,
    end: int,
    i: int,
)
    requires
        fields_followed(before, after, current, change),
        0 <= from <= to <= start <= end <= text.len(),
        place(change.range.start) == place_in(text, from),
        place(change.range.end) == place_in(text, to),
        0 <= i < before.len(),
        i != current,
        !precedes(before[i].start, before[current].end),
        place(before[i].start) == place_in(text, start),
        place(before[i].end) == place_in(text, end),
    ensures
        ({
            let changed = text.take(from) + change.text@ + text.skip(to);
            let on = change.text@.len() - (to - from);
            &&& place(after[i].start) == place_in(changed, start + on)
            &&& place(after[i].end) == place_in(changed, end + on)
            &&& changed.subrange(start + on, end + on) == text.subrange(start, end)
        }),
{
    law_a_place_behind_a_change_keeps_its_character(text, from, to, change.text@, start);
    law_a_place_behind_a_change_keeps_its_character(text, from, to, change.text@, end);
    assert(place(after[i].start) == moved_stop(before, current, i, change).0);
    assert(place(after[i].end) == moved_stop(before, current, i, change).1);
    let changed = text.take(from) + change.text@ + text.skip(to);
    let on = change.text@.len() - (to - from);
    assert(changed.subrange(start + on, end + on) =~= text.subrange(start, end));
}

/// The current field ends behind the characters it ended behind, once the change is made.
pub proof fn law_the_current_field_grows_with_its_text(
    before: Seq<Range>,
    after: Seq<Range>,
    current: int,
    change: Change,
    text: Seq<char>,
    from: int,
    to: int,
    end: int,
)
    requires
        fields_followed(before, after, current, change),
        0 <= from <= to <= end <= text.len(),
        place(change.range.start) == place_in(text, from),
        place(change.range.end) == place_in(text, to),
        place(before[current].end) == place_in(text, end),
    ensures
        place(after[current].end) == place_in(
            text.take(from) + change.text@ + text.skip(to),
            end + change.text@.len() - (to - from),
        ),
{
    law_a_place_behind_a_change_keeps_its_character(text, from, to, change.text@, end);
    assert(place(after[current].end) == moved_stop(before, current, current, change).1);
}

/// A change is followed exactly where it stays inside the current field and brings no line break
/// but a line feed.
pub proof fn law_only_changes_inside_the_field_are_followed(field: Range, change: Change)
    ensures
        follows(field, change) <==> {
            &&& field.start.line < change.range.start.line || (field.start.line
                == change.range.start.line && field.start.character
                <= change.range.start.character)
            &&& change.range.end.line < field.end.line || (change.range.end.line == field.end.line
                && change.range.end.character <= field.end.character)
            &&& !change.text@.contains('\r')
            &&& !change.text@.contains('\u{b}')
            &&& !change.text@.contains('\u{c}')
            &&& !change.text@.contains('\u{85}')
            &&& !change.text@.contains('\u{2028}')
            &&& !change.text@.contains('\u{2029}')
        },
{
    let text = change.text@;
    assert forall|i: int| 0 <= i < text.len() implies text.contains(#[trigger] text[i]) by {}
    if follows(field, change) {
        assert forall|c: char| crate::snippet::is_odd_break(c) implies !#[trigger] text.contains(
            c,
        ) by {
            if text.contains(c) {
                let i = choose|i: int| 0 <= i < text.len() && text[i] == c;
                assert(!crate::snippet::is_odd_break(text[i]));
            }
        }
    }
}

} // verus!
