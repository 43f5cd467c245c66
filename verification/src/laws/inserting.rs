//! What inserting a snippet does, and what its variables stand for.

use vstd::prelude::*;
#[allow(unused_imports)]
use crate::editing::{range_between, Change, Position, Range, SelectionSet};
#[allow(unused_imports)]
use crate::laws::fields::{lemma_shifted, place_in};
#[allow(unused_imports)]
use crate::laws::replacing::{brought_inside, law_a_range_is_replaced};
#[allow(unused_imports)]
use crate::session::edits::{
    clamped, last_dot, offset_place, offset_stop, position_of, range_replaced, snippet_inserted,
    snippet_moved, stem_of, stop_selected, Edited, Snippet,
};
#[allow(unused_imports)]
use crate::session::layout::refreshed;
#[allow(unused_imports)]
use crate::session::state::{Focus, Session};
#[allow(unused_imports)]
use crate::snippet::{inserted_end, place, ActiveSnippet, Place};

verus! {

/// A field of a snippet is around the same characters once the snippet stands in a text: a place
/// behind the first `n` characters of the snippet is then behind them, from where it was put.
pub proof fn law_fields_stand_where_the_snippet_does(
    text: Seq<char>,
    n: int,
    start: Position,
    at: Position,
)
    requires
        0 <= n <= text.len(),
        place(at) == place_in(text, n),
    ensures
        offset_place(start, at) == inserted_end(place(start), text.take(n)),
{
    lemma_shifted(Place { line: 0, character: 0 }, place(start), text.take(n));
}

/// Inserting a snippet puts its text in place of the range, as one step, and selects its first
/// field, or puts the caret behind it where it has none. Nothing is inserted into a comparison, nor
/// while the keyboard is elsewhere.
pub proof fn law_inserting_a_snippet_selects_its_first_field<
    B,
    S,
    M,
    C: Fn(&B, Position) -> Position,
    K: Fn(&B, &Option<ActiveSnippet>, &Vec<Change>, &SelectionSet, Option<u64>, Position) -> Edited<
        B,
    >,
>(
    clamp: C,
    commit: K,
    before: Session<B, S, M>,
    after: Session<B, S, M>,
    range: Range,
    snippet: Snippet,
) -> (r: (Vec<Change>, Edited<B>, Position, Position))
    requires
        snippet_inserted(clamp, commit, before, after, range, snippet),
    ensures
        before.groups.comparison is Some || before.chrome.focus != Focus::Editor ==> after
            == before,
        before.groups.comparison is None && before.chrome.focus == Focus::Editor ==> {
            &&& r.0@.len() == 1
            &&& r.0@[0].text@ == snippet.text@
            &&& brought_inside(clamp, before.active.document.body, range, r.0@[0].range)
            &&& commit.ensures(
                (
                    &before.active.document.body,
                    &before.active.document.snippet,
                    &r.0,
                    &before.active.view.selections,
                    None,
                    r.2,
                ),
                r.1,
            )
            &&& after.active.document.body == r.1.text.body
            &&& after.active.document.dirty
            &&& clamp.ensures((&before.active.document.body, range.start), r.3)
            &&& after.active.view.selections.others@.len() == 0
            &&& snippet.stops@.len() == 0 ==> after.active.view.selections.primary.anchor
                == r.1.cursor && after.active.view.selections.primary.active == r.1.cursor
                && after.active.document.snippet is None
            &&& snippet.stops@.len() > 0 ==> {
                let first = snippet.stops@[0];
                let field = range_between(
                    position_of(offset_place(r.3, first.start)),
                    position_of(offset_place(r.3, first.end)),
                );
                &&& after.active.view.selections.primary.anchor == field.start
                &&& after.active.view.selections.primary.active == field.end
                &&& snippet.stops@.len() == 1 ==> after.active.document.snippet is None
            }
        },
{
    if before.groups.comparison is Some || before.chrome.focus != Focus::Editor {
        (arbitrary(), arbitrary(), arbitrary(), arbitrary())
    } else {
        let (start, end, put, shown) = choose|
            start: Position,
            end: Position,
            put: Session<B, S, M>,
            shown: Session<B, S, M>,
        |
            {
                &&& #[trigger] clamped(clamp, before.active.document.body, range.start, start)
                &&& #[trigger] range_replaced(
                    clamp,
                    commit,
                    before,
                    put,
                    range,
                    snippet.text@,
                    end,
                )
                &&& #[trigger] refreshed(put, shown)
                &&& if snippet.stops@.len() == 0 {
                    after == shown
                } else {
                    exists|active: ActiveSnippet, mid: Session<B, S, M>|
                        {
                            &&& active.current == 0
                            &&& active.stops@ == Seq::new(
                                snippet.stops@.len(),
                                |i: int| offset_stop(start, snippet.stops@[i]),
                            )
                            &&& #[trigger] stop_selected(shown, mid, active)
                            &&& refreshed(mid, after)
                        }
                }
            };
        let (changes, edited, caret) = law_a_range_is_replaced(
            clamp,
            commit,
            before,
            put,
            range,
            snippet.text@,
            end,
        );
        (changes, edited, caret, start)
    }
}

/// Going to the next field selects the one behind the current one, and going back the one before it;
/// with the last one, the snippet ends.
pub proof fn law_fields_are_selected_in_turn<B, S, M>(
    before: Session<B, S, M>,
    after: Session<B, S, M>,
    previous: bool,
)
    requires
        snippet_moved(before, after, previous),
        before.chrome.focus == Focus::Editor,
        before.active.document.snippet is Some,
        ({
            let snippet = before.active.document.snippet->Some_0;
            if previous {
                0 < snippet.current < snippet.stops@.len()
            } else {
                snippet.current + 1 < snippet.stops@.len()
            }
        }),
    ensures
        ({
            let snippet = before.active.document.snippet->Some_0;
            let next: int = if previous {
                snippet.current - 1
            } else {
                snippet.current + 1
            };
            &&& after.active.view.selections.primary.anchor == snippet.stops@[next].start
            &&& after.active.view.selections.primary.active == snippet.stops@[next].end
            &&& after.active.view.selections.others@.len() == 0
            &&& after.active.document.body == before.active.document.body
            &&& next == snippet.stops@.len() - 1 ==> after.active.document.snippet is None
            &&& next < snippet.stops@.len() - 1 ==> after.active.document.snippet is Some
                && after.active.document.snippet->Some_0.current == next
                && after.active.document.snippet->Some_0.stops == snippet.stops
        }),
{
    let snippet = before.active.document.snippet->Some_0;
    assert(snippet.stops@.len() == snippet.stops.len());
}

proof fn lemma_last_dot(name: Seq<char>)
    ensures
        -1 <= last_dot(name) < name.len(),
        last_dot(name) >= 0 ==> name[last_dot(name)] == '.',
        forall|i: int| last_dot(name) < i < name.len() ==> #[trigger] name[i] != '.',
    decreases name.len(),
{
    if name.len() > 0 && name.last() != '.' {
        let rest = name.drop_last();
        lemma_last_dot(rest);
        assert forall|i: int| last_dot(name) < i < name.len() implies #[trigger] name[i] != '.' by {
            if i < rest.len() {
                assert(rest[i] == name[i]);
            }
        }
    }
}

/// A file name without its extension is what is before its last dot, unless that dot is its first
/// character; a name without a dot is all of it.
pub proof fn law_a_stem_and_an_extension_make_the_name(base: Seq<char>, extension: Seq<char>)
    requires
        forall|i: int| 0 <= i < extension.len() ==> #[trigger] extension[i] != '.',
    ensures
        base.len() > 0 ==> stem_of(base + seq!['.'] + extension) == base,
        stem_of(seq!['.'] + extension) == seq!['.'] + extension,
        stem_of(extension) == extension,
{
    let name = base + seq!['.'] + extension;
    lemma_last_dot(name);
    let n = base.len() as int;
    let d = last_dot(name);
    assert(name[n] == '.');
    if d > n {
        assert(name[d] == extension[d - n - 1]);
    }
    if d < n {
        assert(name[n] != '.');
    }
    assert(name.take(n) =~= base);
    let hidden = seq!['.'] + extension;
    lemma_last_dot(hidden);
    let h = last_dot(hidden);
    if h > 0 {
        assert(hidden[h] == extension[h - 1]);
    }
    lemma_last_dot(extension);
    let e = last_dot(extension);
    if e >= 0 {
        assert(extension[e] != '.');
    }
}

} // verus!
