//! Edits to documents: one replacement, a server's batch of them, and snippets.

use vstd::prelude::*;
#[allow(unused_imports)]
use vstd::multiset::Multiset;
#[allow(unused_imports)]
use vstd::seq_lib::lemma_fold_right_permutation;
use crate::editing::{Change, Position, Range, Selection, SelectionSet, TextEdit};
#[allow(unused_imports)]
use crate::editing::range_between;
use crate::path::PathBuf;
#[allow(unused_imports)]
use crate::path::Part;
#[allow(unused_imports)]
use crate::session::documents::tab_exactly;
#[allow(unused_imports)]
use crate::session::layout::refreshed;
use crate::session::finding::Reader;
#[allow(unused_imports)]
use crate::session::finding::reads;
use crate::session::outcome::Outcome;
use crate::session::state::{clone_path, Document, Focus, Session, Tab};
#[allow(unused_imports)]
use crate::session::state::Viewport;
use crate::session::tabs::TextState;
#[allow(unused_imports)]
use crate::session::tabs::with_text;
use crate::snippet::ActiveSnippet;
#[allow(unused_imports)]
use crate::snippet::{fits, inserted_end, place, Place};
use crate::text::{chars_of, decimal, same, text_of};
#[allow(unused_imports)]
use crate::text::{decimal_of, view_of};

verus! {

/// Why a batch of server-computed edits could not be applied.
#[derive(Debug, Clone, Copy, PartialEq, Eq, Structural)]
pub enum EditError {
    /// Two of the edits covered the same text.
    ///
    /// Overlapping edits have no well-defined result. The entire batch is refused without
    /// changing the document.
    Overlapping,
}

impl EditError {
    /// What the error says.
    pub fn message(&self) -> (r: String)
        ensures
            r@ == "the server sent overlapping edits, which have no well-defined result"@,
    {
        "the server sent overlapping edits, which have no well-defined result".to_owned()
    }
}

/// What became of a text that was edited.
#[derive(Debug)]
pub struct Edited<B> {
    /// The text, with the edit as one step of its history.
    pub text: TextState<B>,
    /// The caret's place, inside the new text.
    pub cursor: Position,
}

/// What edits a text: how a place is brought inside it, which edits do nothing, which changes
/// cover the same text, and how changes are made as one step of its history, given the snippet
/// that is followed and the selections before it, the group it belongs to, and where the caret
/// should be after it.
pub struct Engine<C, N, O, K> {
    pub clamp: C,
    pub noop: N,
    pub overlaps: O,
    pub commit: K,
}

/// Whether the engine can be asked about anything.
pub open spec fn ready<
    B,
    C: Fn(&B, Position) -> Position,
    N: Fn(&TextEdit) -> bool,
    O: Fn(&Vec<Change>) -> bool,
    K: Fn(&B, &Option<ActiveSnippet>, &Vec<Change>, &SelectionSet, Option<u64>, Position) -> Edited<
        B,
    >,
>(engine: Engine<C, N, O, K>) -> bool {
    &&& forall|body: &B, at: Position| engine.clamp.requires((body, at))
    &&& forall|edit: &TextEdit| engine.noop.requires((edit,))
    &&& forall|changes: &Vec<Change>| engine.overlaps.requires((changes,))
    &&& forall|
        body: &B,
        snippet: &Option<ActiveSnippet>,
        changes: &Vec<Change>,
        selections: &SelectionSet,
        group: Option<u64>,
        caret: Position,
    |
        engine.commit.requires((body, snippet, changes, selections, group, caret))
}

/// The position of a place that one can hold.
pub open spec fn position_of(p: Place) -> Position {
    Position { line: p.line as u32, character: p.character as u32 }
}

/// Whether a place of the text is brought inside it as `to`.
pub open spec fn clamped<B, C: Fn(&B, Position) -> Position>(
    clamp: C,
    body: B,
    at: Position,
    to: Position,
) -> bool {
    clamp.ensures((&body, at), to)
}

/// Whether a range of the text, once inside it, is `range`.
pub open spec fn range_clamped<B, C: Fn(&B, Position) -> Position>(
    clamp: C,
    body: B,
    given: Range,
    range: Range,
) -> bool {
    exists|start: Position, end: Position|
        #[trigger] clamped(clamp, body, given.start, start) && #[trigger] clamped(
            clamp,
            body,
            given.end,
            end,
        ) && range == range_between(start, end)
}

/// Whether the edits come to these changes: those that do nothing are left out, and the others
/// are brought inside the text.
pub open spec fn changes_of<
    B,
    C: Fn(&B, Position) -> Position,
    N: Fn(&TextEdit) -> bool,
>(clamp: C, noop: N, body: B, edits: Seq<TextEdit>, changes: Seq<Change>) -> bool
    decreases edits.len(),
{
    if edits.len() == 0 {
        changes.len() == 0
    } else {
        let edit = edits.last();
        ||| noop.ensures((&edit,), true) && changes_of(
            clamp,
            noop,
            body,
            edits.drop_last(),
            changes,
        )
        ||| {
            &&& noop.ensures((&edit,), false)
            &&& changes.len() > 0
            &&& changes.last().text@ == edit.new_text@
            &&& range_clamped(clamp, body, edit.range, changes.last().range)
            &&& changes_of(clamp, noop, body, edits.drop_last(), changes.drop_last())
        }
    }
}

/// Whether preparing the edits comes to `result`: nothing to do, changes that can be made, or two
/// that cover the same text.
pub open spec fn builds<
    B,
    C: Fn(&B, Position) -> Position,
    N: Fn(&TextEdit) -> bool,
    O: Fn(&Vec<Change>) -> bool,
    K,
>(
    engine: Engine<C, N, O, K>,
    body: B,
    edits: Seq<TextEdit>,
    result: Result<Option<Vec<Change>>, EditError>,
) -> bool {
    match result {
        Ok(None) => changes_of(engine.clamp, engine.noop, body, edits, Seq::empty()),
        Ok(Some(changes)) => {
            &&& changes@.len() > 0
            &&& changes_of(engine.clamp, engine.noop, body, edits, changes@)
            &&& engine.overlaps.ensures((&changes,), false)
        },
        Err(_) => exists|changes: Vec<Change>|
            {
                &&& changes@.len() > 0
                &&& changes_of(engine.clamp, engine.noop, body, edits, changes@)
                &&& #[trigger] engine.overlaps.ensures((&changes,), true)
            },
    }
}

/// The caret of a selection set that is about to be edited at.
pub open spec fn caret_of(selections: SelectionSet) -> Position {
    selections.primary.active
}

/// Whether `after` is `before` with its text edited: it is no longer what is on disk, and the one
/// caret is to be brought on screen.
pub open spec fn tab_edited<B, S>(before: Tab<B, S>, after: Tab<B, S>, edited: Edited<B>) -> bool {
    let view = after.view;
    &&& after == (Tab {
        document: Document { dirty: true, ..with_text(before.document, edited.text) },
        view,
        ..before
    })
    &&& view == (Viewport { selections: view.selections, reveal: true, ..before.view })
    &&& view.selections.is_single(
        Selection { anchor: edited.cursor, active: edited.cursor },
    )
}

/// Whether making the changes in the tab, as part of a group, makes `n` replacements. The caret
/// stays where it was, inside the new text.
pub open spec fn commits_changes<
    B,
    S,
    K: Fn(&B, &Option<ActiveSnippet>, &Vec<Change>, &SelectionSet, Option<u64>, Position) -> Edited<
        B,
    >,
>(
    commit: K,
    before: Tab<B, S>,
    after: Tab<B, S>,
    changes: Vec<Change>,
    group: Option<u64>,
    n: usize,
) -> bool {
    exists|edited: Edited<B>|
        {
            &&& #[trigger] commit.ensures(
                (
                    &before.document.body,
                    &before.document.snippet,
                    &changes,
                    &before.view.selections,
                    group,
                    caret_of(before.view.selections),
                ),
                edited,
            )
            &&& tab_edited(before, after, edited)
            &&& n == changes@.len()
        }
}

/// Whether applying the edits to the tab comes to `result`.
pub open spec fn applies_edits<
    B,
    S,
    C: Fn(&B, Position) -> Position,
    N: Fn(&TextEdit) -> bool,
    O: Fn(&Vec<Change>) -> bool,
    K: Fn(&B, &Option<ActiveSnippet>, &Vec<Change>, &SelectionSet, Option<u64>, Position) -> Edited<
        B,
    >,
>(
    engine: Engine<C, N, O, K>,
    before: Tab<B, S>,
    after: Tab<B, S>,
    edits: Seq<TextEdit>,
    result: Result<usize, EditError>,
) -> bool {
    exists|built: Result<Option<Vec<Change>>, EditError>|
        #[trigger] builds(engine, before.document.body, edits, built) && match built {
            Err(error) => after == before && result == Err::<usize, EditError>(error),
            Ok(None) => after == before && result == Ok::<usize, EditError>(0),
            Ok(Some(changes)) => result matches Ok(n) && commits_changes(
                engine.commit,
                before,
                after,
                changes,
                None,
                n,
            ),
        }
}

/// Whether applying the edits to the active document comes to `result`.
pub open spec fn edits_active<
    B,
    S,
    M,
    C: Fn(&B, Position) -> Position,
    N: Fn(&TextEdit) -> bool,
    O: Fn(&Vec<Change>) -> bool,
    K: Fn(&B, &Option<ActiveSnippet>, &Vec<Change>, &SelectionSet, Option<u64>, Position) -> Edited<
        B,
    >,
>(
    engine: Engine<C, N, O, K>,
    before: Session<B, S, M>,
    after: Session<B, S, M>,
    edits: Seq<TextEdit>,
    result: Result<usize, EditError>,
) -> bool {
    exists|tab: Tab<B, S>|
        #[trigger] applies_edits(engine, before.active, tab, edits, result) && {
            let mid = Session { active: tab, ..before };
            if result matches Ok(n) && n > 0 {
                refreshed(mid, after)
            } else {
                after == mid
            }
        }
}

/// Whether applying the edits to whichever tab holds `path` comes to `result`; nothing where none
/// does. What the key bindings depend on follows the document on screen alone.
pub open spec fn edits_path<
    B,
    S,
    M,
    C: Fn(&B, Position) -> Position,
    N: Fn(&TextEdit) -> bool,
    O: Fn(&Vec<Change>) -> bool,
    K: Fn(&B, &Option<ActiveSnippet>, &Vec<Change>, &SelectionSet, Option<u64>, Position) -> Edited<
        B,
    >,
>(
    engine: Engine<C, N, O, K>,
    before: Session<B, S, M>,
    after: Session<B, S, M>,
    path: Seq<Part>,
    edits: Seq<TextEdit>,
    result: Option<Result<usize, EditError>>,
) -> bool {
    let i = tab_exactly(before, path);
    if i == before.left@.len() {
        result matches Some(result) && edits_active(engine, before, after, edits, result)
    } else if i < before.tabs().len() {
        &&& result matches Some(result) && applies_edits(
            engine,
            before.tabs()[i],
            after.tabs()[i],
            edits,
            result,
        )
        &&& after.tabs() == before.tabs().update(i, after.tabs()[i])
        &&& after.left@.len() == before.left@.len()
        &&& after == (Session {
            left: after.left,
            active: after.active,
            right: after.right,
            ..before
        })
    } else {
        after == before && result is None
    }
}

/// Whether `after` is `before` with a range of the active document replaced by `text`, as one
/// step, and the caret behind it; nothing derived is brought up to date yet. No snippet survives.
pub open spec fn range_replaced<
    B,
    S,
    M,
    C: Fn(&B, Position) -> Position,
    K: Fn(&B, &Option<ActiveSnippet>, &Vec<Change>, &SelectionSet, Option<u64>, Position) -> Edited<
        B,
    >,
>(
    clamp: C,
    commit: K,
    before: Session<B, S, M>,
    after: Session<B, S, M>,
    given: Range,
    text: Seq<char>,
    end: Position,
) -> bool {
    exists|changes: Vec<Change>, edited: Edited<B>|
        {
            &&& changes@.len() == 1
            &&& changes@[0].text@ == text
            &&& range_clamped(clamp, before.active.document.body, given, changes@[0].range)
            &&& #[trigger] commit.ensures(
                (
                    &before.active.document.body,
                    &before.active.document.snippet,
                    &changes,
                    &before.active.view.selections,
                    None,
                    position_of(inserted_end(place(changes@[0].range.start), text)),
                ),
                edited,
            )
            &&& end == edited.cursor
            &&& after == (Session { active: after.active, ..before })
            &&& tab_edited(
                before.active,
                after.active,
                Edited { text: TextState { snippet: None, ..edited.text }, ..edited },
            )
        }
}

/// Whether text put in place of a range ends where a position can say.
pub open spec fn end_fits<B, C: Fn(&B, Position) -> Position>(
    clamp: C,
    body: B,
    given: Range,
    text: Seq<char>,
) -> bool {
    forall|range: Range|
        #[trigger] range_clamped(clamp, body, given, range) ==> fits(
            inserted_end(place(range.start), text),
        )
}

proof fn lemma_end_line(start: Place, text: Seq<char>, n: int)
    requires
        0 <= n <= text.len(),
        start.line >= 0,
        start.character >= 0,
    ensures
        0 <= inserted_end(start, text.take(n)).line <= start.line + n,
        0 <= inserted_end(start, text.take(n)).character <= start.character + 2 * n,
    decreases n,
{
    if n > 0 {
        lemma_end_line(start, text, n - 1);
        assert(text.take(n).drop_last() =~= text.take(n - 1));
    } else {
        assert(text.take(0) =~= Seq::<char>::empty());
    }
}

/// Where text inserted at a place ends.
fn end_of(start: Position, text: &str) -> (r: Position)
    requires
        fits(inserted_end(place(start), text@)),
    ensures
        r == position_of(inserted_end(place(start), text@)),
{
    let chars: Vec<char> = chars_of(text);
    let mut line: u128 = start.line as u128;
    let mut character: u128 = start.character as u128;
    let mut i: usize = 0;
    assert(chars@.take(0) =~= Seq::<char>::empty());
    while i < chars.len()
        invariant
            i <= chars@.len(),
            chars@ == text@,
            line == inserted_end(place(start), text@.take(i as int)).line,
            character == inserted_end(place(start), text@.take(i as int)).character,
        decreases chars@.len() - i,
    {
        proof {
            assert(text@.take(i + 1).drop_last() =~= text@.take(i as int));
            lemma_end_line(place(start), text@, i as int);
        }
        if chars[i] == '\n' {
            line = line + 1;
            character = 0;
        } else if (chars[i] as u32) >= 0x10000 {
            character = character + 2;
        } else {
            character = character + 1;
        }
        i = i + 1;
    }
    assert(text@.take(i as int) =~= text@);
    Position::new(line as u32, character as u32)
}

/// A range of a text, inside it.
fn clamp_range<B, C: Fn(&B, Position) -> Position>(clamp: &C, body: &B, given: Range) -> (r: Range)
    requires
        forall|body: &B, at: Position| clamp.requires((body, at)),
    ensures
        range_clamped(*clamp, *body, given, r),
{
    let start: Position = clamp(body, given.start);
    let end: Position = clamp(body, given.end);
    assert(clamped(*clamp, *body, given.start, start));
    assert(clamped(*clamp, *body, given.end, end));
    Range::new(start, end)
}

/// Prepares a batch of edits to a document, without changing it.
pub fn build_transaction<
    B,
    C: Fn(&B, Position) -> Position,
    N: Fn(&TextEdit) -> bool,
    O: Fn(&Vec<Change>) -> bool,
    K,
>(body: &B, edits: &Vec<TextEdit>, engine: &Engine<C, N, O, K>) -> (r: Result<
    Option<Vec<Change>>,
    EditError,
>)
    requires
        forall|body: &B, at: Position| engine.clamp.requires((body, at)),
        forall|edit: &TextEdit| engine.noop.requires((edit,)),
        forall|changes: &Vec<Change>| engine.overlaps.requires((changes,)),
    ensures
        builds(*engine, *body, edits@, r),
{
    let mut changes: Vec<Change> = Vec::new();
    let mut i: usize = 0;
    while i < edits.len()
        invariant
            i <= edits@.len(),
            forall|body: &B, at: Position| engine.clamp.requires((body, at)),
            forall|edit: &TextEdit| engine.noop.requires((edit,)),
            changes_of(engine.clamp, engine.noop, *body, edits@.take(i as int), changes@),
        decreases edits@.len() - i,
    {
        let ghost now = changes@;
        proof {
            assert(edits@.take(i + 1).drop_last() =~= edits@.take(i as int));
            assert(edits@.take(i + 1).last() == edits@[i as int]);
        }
        let noop: bool = (engine.noop)(&edits[i]);
        if !noop {
            let range: Range = clamp_range(&engine.clamp, body, edits[i].range);
            changes.push(Change { range, text: edits[i].new_text.clone() });
            assert(changes@.drop_last() =~= now);
        }
        i = i + 1;
    }
    assert(edits@.take(i as int) =~= edits@);
    if changes.len() == 0 {
        assert(changes@ =~= Seq::<Change>::empty());
        return Ok(None);
    }
    let overlapping: bool = (engine.overlaps)(&changes);
    if overlapping {
        assert(engine.overlaps.ensures((&changes,), true));
        Err(EditError::Overlapping)
    } else {
        Ok(Some(changes))
    }
}

impl<B, S> Tab<B, S> {
    /// Takes what became of the text, with the caret where it is then.
    pub fn take_edited(&mut self, edited: Edited<B>)
        ensures
            tab_edited(*old(self), *final(self), edited),
    {
        self.document.set_text(edited.text);
        self.document.dirty = true;
        self.view.selections = SelectionSet::caret(edited.cursor);
        self.view.reveal = true;
    }

    /// Makes the changes as one step, as part of a group if there is one, and says how many
    /// replacements that were.
    pub fn commit<
        K: Fn(&B, &Option<ActiveSnippet>, &Vec<Change>, &SelectionSet, Option<u64>, Position) -> Edited<
            B,
        >,
    >(&mut self, changes: &Vec<Change>, group: Option<u64>, commit: &K) -> (r: usize)
        requires
            forall|
                body: &B,
                snippet: &Option<ActiveSnippet>,
                changes: &Vec<Change>,
                selections: &SelectionSet,
                group: Option<u64>,
                caret: Position,
            |
                commit.requires((body, snippet, changes, selections, group, caret)),
        ensures
            commits_changes(*commit, *old(self), *final(self), *changes, group, r),
    {
        let ghost before = *self;
        let caret: Position = self.view.selections.primary.active;
        let edited: Edited<B> = commit(
            &self.document.body,
            &self.document.snippet,
            changes,
            &self.view.selections,
            group,
            caret,
        );
        let ghost made = edited;
        assert(commit.ensures(
            (
                &before.document.body,
                &before.document.snippet,
                changes,
                &before.view.selections,
                group,
                caret_of(before.view.selections),
            ),
            made,
        ));
        self.take_edited(edited);
        changes.len()
    }

    /// Applies a batch of edits as one step, or refuses it.
    pub fn apply_edits<
        C: Fn(&B, Position) -> Position,
        N: Fn(&TextEdit) -> bool,
        O: Fn(&Vec<Change>) -> bool,
        K: Fn(&B, &Option<ActiveSnippet>, &Vec<Change>, &SelectionSet, Option<u64>, Position) -> Edited<
            B,
        >,
    >(&mut self, edits: &Vec<TextEdit>, engine: &Engine<C, N, O, K>) -> (r: Result<
        usize,
        EditError,
    >)
        requires
            ready::<B, C, N, O, K>(*engine),
        ensures
            applies_edits(*engine, *old(self), *final(self), edits@, r),
    {
        let built: Result<Option<Vec<Change>>, EditError> = build_transaction(
            &self.document.body,
            edits,
            engine,
        );
        let ghost made = built;
        assert(builds(*engine, self.document.body, edits@, made));
        match built {
            Err(error) => Err(error),
            Ok(None) => Ok(0),
            Ok(Some(changes)) => {
                let n: usize = self.commit(&changes, None, &engine.commit);
                Ok(n)
            },
        }
    }
}

impl<B, S, M> Session<B, S, M> {
    /// Applies a batch of edits to the active document as one step, and says how many were
    /// applied.
    pub fn apply_edits<
        C: Fn(&B, Position) -> Position,
        N: Fn(&TextEdit) -> bool,
        O: Fn(&Vec<Change>) -> bool,
        K: Fn(&B, &Option<ActiveSnippet>, &Vec<Change>, &SelectionSet, Option<u64>, Position) -> Edited<
            B,
        >,
    >(&mut self, edits: &Vec<TextEdit>, engine: &Engine<C, N, O, K>) -> (r: Result<
        usize,
        EditError,
    >)
        requires
            ready::<B, C, N, O, K>(*engine),
        ensures
            edits_active(*engine, *old(self), *final(self), edits@, r),
    {
        let r: Result<usize, EditError> = self.active.apply_edits(edits, engine);
        assert(applies_edits(*engine, old(self).active, self.active, edits@, r));
        if let Ok(n) = &r {
            if *n > 0 {
                self.refresh_context();
            }
        }
        r
    }

    /// Applies a batch of edits to whichever tab holds `path`. `None` where none does: the file
    /// is then to be changed on disk.
    pub fn apply_edits_to_path<
        C: Fn(&B, Position) -> Position,
        N: Fn(&TextEdit) -> bool,
        O: Fn(&Vec<Change>) -> bool,
        K: Fn(&B, &Option<ActiveSnippet>, &Vec<Change>, &SelectionSet, Option<u64>, Position) -> Edited<
            B,
        >,
    >(&mut self, path: &PathBuf, edits: &Vec<TextEdit>, engine: &Engine<C, N, O, K>) -> (r: Option<
        Result<usize, EditError>,
    >)
        requires
            old(self).tabs().len() <= usize::MAX,
            ready::<B, C, N, O, K>(*engine),
        ensures
            edits_path(*engine, *old(self), *final(self), path@, edits@, r),
    {
        let i: usize = self.index_exactly(path);
        if i == self.active_tab() {
            return Some(self.apply_edits(edits, engine));
        }
        if i >= self.tab_count() {
            return None;
        }
        let tab: &mut Tab<B, S> = self.tab_at_mut(i);
        let r: Result<usize, EditError> = tab.apply_edits(edits, engine);
        Some(r)
    }

    /// Replaces a range by `text` as one step, and leaves the caret behind it.
    fn put_text<
        C: Fn(&B, Position) -> Position,
        K: Fn(&B, &Option<ActiveSnippet>, &Vec<Change>, &SelectionSet, Option<u64>, Position) -> Edited<
            B,
        >,
    >(&mut self, given: Range, text: &str, clamp: &C, commit: &K) -> (r: Position)
        requires
            forall|body: &B, at: Position| clamp.requires((body, at)),
            forall|
                body: &B,
                snippet: &Option<ActiveSnippet>,
                changes: &Vec<Change>,
                selections: &SelectionSet,
                group: Option<u64>,
                caret: Position,
            |
                commit.requires((body, snippet, changes, selections, group, caret)),
            end_fits(*clamp, old(self).active.document.body, given, text@),
        ensures
            range_replaced(*clamp, *commit, *old(self), *final(self), given, text@, r),
    {
        let ghost before = *self;
        let range: Range = clamp_range(clamp, &self.active.document.body, given);
        let end: Position = end_of(range.start, text);
        let mut changes: Vec<Change> = Vec::new();
        changes.push(Change { range, text: text.to_owned() });
        let mut edited: Edited<B> = commit(
            &self.active.document.body,
            &self.active.document.snippet,
            &changes,
            &self.active.view.selections,
            None,
            end,
        );
        let ghost made = edited;
        assert(commit.ensures(
            (
                &before.active.document.body,
                &before.active.document.snippet,
                &changes,
                &before.active.view.selections,
                None,
                position_of(inserted_end(place(changes@[0].range.start), text@)),
            ),
            made,
        ));
        edited.text.snippet = None;
        let cursor: Position = edited.cursor;
        self.active.take_edited(edited);
        cursor
    }

    /// Replaces a range of the active document by `text` as one step, and leaves the caret behind
    /// it, which is the place that is returned.
    pub fn replace_range<
        C: Fn(&B, Position) -> Position,
        N,
        O,
        K: Fn(&B, &Option<ActiveSnippet>, &Vec<Change>, &SelectionSet, Option<u64>, Position) -> Edited<
            B,
        >,
    >(&mut self, range: Range, text: &str, engine: &Engine<C, N, O, K>) -> (r: Position)
        requires
            forall|body: &B, at: Position| engine.clamp.requires((body, at)),
            forall|
                body: &B,
                snippet: &Option<ActiveSnippet>,
                changes: &Vec<Change>,
                selections: &SelectionSet,
                group: Option<u64>,
                caret: Position,
            |
                engine.commit.requires((body, snippet, changes, selections, group, caret)),
            end_fits(engine.clamp, old(self).active.document.body, range, text@),
        ensures
            exists|mid: Session<B, S, M>|
                range_replaced(
                    engine.clamp,
                    engine.commit,
                    *old(self),
                    mid,
                    range,
                    text@,
                    r,
                ) && #[trigger] refreshed(mid, *final(self)),
    {
        let r: Position = self.put_text(range, text, &engine.clamp, &engine.commit);
        let ghost mid = *self;
        assert(range_replaced(
            engine.clamp,
            engine.commit,
            *old(self),
            mid,
            range,
            text@,
            r,
        ));
        self.refresh_context();
        assert(refreshed(mid, *self));
        r
    }
}

// ---------------------------------------------------------------------------
// Snippets
// ---------------------------------------------------------------------------

/// A snippet: its text, and the fields in it, counted from its start.
#[derive(Debug)]
pub struct Snippet {
    pub text: String,
    pub stops: Vec<Range>,
}

/// Where a place of the snippet is once it stands at `start`.
pub open spec fn offset_place(start: Position, at: Position) -> Place {
    Place {
        line: start.line + at.line,
        character: if at.line == 0 {
            at.character + start.character
        } else {
            at.character as int
        },
    }
}

/// Whether the fields, once the snippet stands at `start`, are where positions can say.
pub open spec fn offsets_fit(start: Position, stops: Seq<Range>) -> bool {
    forall|i: int|
        0 <= i < stops.len() ==> fits(offset_place(start, (#[trigger] stops[i]).start)) && fits(
            offset_place(start, stops[i].end),
        )
}

/// A field, once the snippet stands at `start`.
pub open spec fn offset_stop(start: Position, stop: Range) -> Range {
    range_between(
        position_of(offset_place(start, stop.start)),
        position_of(offset_place(start, stop.end)),
    )
}

/// Whether `after` is `before` with the current field selected, and brought on screen. The last
/// field ends the snippet. Nothing derived is brought up to date yet.
pub open spec fn stop_selected<B, S, M>(
    before: Session<B, S, M>,
    after: Session<B, S, M>,
    snippet: ActiveSnippet,
) -> bool {
    let stop = snippet.stops@[snippet.current as int];
    let view = after.active.view;
    &&& after == (Session {
        active: Tab {
            document: Document {
                snippet: after.active.document.snippet,
                ..before.active.document
            },
            view,
            ..before.active
        },
        ..before
    })
    &&& view == (Viewport { selections: view.selections, reveal: true, ..before.active.view })
    &&& view.selections.is_single(Selection { anchor: stop.start, active: stop.end })
    &&& if snippet.current + 1 == snippet.stops@.len() {
        after.active.document.snippet is None
    } else {
        after.active.document.snippet == Some(snippet)
    }
}

/// The field after or before the current one; the first and the last have none beyond them.
pub open spec fn field_beside(current: int, count: int, previous: bool) -> int {
    if previous {
        if current == 0 {
            0
        } else {
            current - 1
        }
    } else if current + 1 < count {
        current + 1
    } else {
        count - 1
    }
}

/// Whether `after` is `before` with the next or the previous field of its snippet selected.
/// Nothing happens while the keyboard is not in the text, nor without a snippet.
pub open spec fn snippet_moved<B, S, M>(
    before: Session<B, S, M>,
    after: Session<B, S, M>,
    previous: bool,
) -> bool {
    match before.active.document.snippet {
        None => after == before,
        Some(snippet) => if before.chrome.focus != Focus::Editor || snippet.current
            >= snippet.stops@.len() {
            after == before
        } else {
            stop_selected(
                before,
                after,
                ActiveSnippet {
                    current: field_beside(
                        snippet.current as int,
                        snippet.stops@.len() as int,
                        previous,
                    ) as usize,
                    ..snippet
                },
            )
        },
    }
}

/// Whether `after` is `before` with the snippet in place of a range: its first field is selected,
/// or the caret is behind it where it has none. A comparison takes none, and neither does the
/// text while the keyboard is elsewhere.
pub open spec fn snippet_inserted<
    B,
    S,
    M,
    C: Fn(&B, Position) -> Position,
    K: Fn(&B, &Option<ActiveSnippet>, &Vec<Change>, &SelectionSet, Option<u64>, Position) -> Edited<
        B,
    >,
>(
    clamp: C,
    commit: K,
    before: Session<B, S, M>,
    after: Session<B, S, M>,
    range: Range,
    snippet: Snippet,
) -> bool {
    if before.groups.comparison is Some || before.chrome.focus != Focus::Editor {
        after == before
    } else {
        exists|start: Position, end: Position, put: Session<B, S, M>, shown: Session<B, S, M>|
            {
                &&& #[trigger] clamped(clamp, before.active.document.body, range.start, start)
                &&& #[trigger] range_replaced(
                    clamp,
                    commit,
                    before,
                    put,
                    range,
                    snippet.text@,
                    end,
                )
                &&& #[trigger] refreshed(put, shown)
                &&& if snippet.stops@.len() == 0 {
                    after == shown
                } else {
                    exists|active: ActiveSnippet, mid: Session<B, S, M>|
                        {
                            &&& active.current == 0
                            &&& active.stops@ == Seq::new(
                                snippet.stops@.len(),
                                |i: int| offset_stop(start, snippet.stops@[i]),
                            )
                            &&& #[trigger] stop_selected(shown, mid, active)
                            &&& refreshed(mid, after)
                        }
                }
            }
    }
}

/// Where a place of the snippet is once it stands at `start`.
fn offset(start: Position, at: Position) -> (r: Position)
    requires
        fits(offset_place(start, at)),
    ensures
        r == position_of(offset_place(start, at)),
{
    Position::new(
        start.line + at.line,
        if at.line == 0 {
            at.character + start.character
        } else {
            at.character
        },
    )
}

/// The fields, once the snippet stands at `start`.
fn offset_stops(start: Position, stops: &Vec<Range>) -> (r: Vec<Range>)
    requires
        offsets_fit(start, stops@),
    ensures
        r@ == Seq::new(stops@.len(), |i: int| offset_stop(start, stops@[i])),
{
    let mut r: Vec<Range> = Vec::new();
    let mut i: usize = 0;
    while i < stops.len()
        invariant
            i <= stops@.len(),
            offsets_fit(start, stops@),
            r@.len() == i,
            forall|j: int| 0 <= j < i ==> r@[j] == offset_stop(start, stops@[j]),
        decreases stops@.len() - i,
    {
        let stop: Range = stops[i];
        assert(stop == stops@[i as int]);
        r.push(Range::new(offset(start, stop.start), offset(start, stop.end)));
        i = i + 1;
    }
    assert(r@ =~= Seq::new(stops@.len(), |k: int| offset_stop(start, stops@[k])));
    r
}

/// What a snippet's variable stands for: about the file's name and the caret's line, and texts of
/// the document. A variable that is not known here stands for nothing.
pub open spec fn variable_of(
    name: Seq<char>,
    path: Option<PathBuf>,
    line: u32,
    texts: DocumentTexts,
) -> Option<Seq<char>> {
    if name == "TM_FILENAME"@ {
        Some(file_name_text(path))
    } else if name == "TM_FILENAME_BASE"@ {
        Some(stem_of(file_name_text(path)))
    } else if name == "TM_LINE_INDEX"@ {
        Some(decimal_of(line as nat))
    } else if name == "TM_LINE_NUMBER"@ {
        Some(decimal_of((line + 1) as nat))
    } else if name == "TM_CURRENT_LINE"@ {
        Some(or_empty(texts.line))
    } else if name == "TM_CURRENT_WORD"@ {
        Some(or_empty(texts.word))
    } else if name == "TM_SELECTED_TEXT"@ {
        Some(texts.selected@)
    } else {
        None
    }
}

/// A text, and the empty one where there is none.
pub open spec fn or_empty(text: Option<String>) -> Seq<char> {
    match text {
        Some(text) => text@,
        None => Seq::empty(),
    }
}

/// The last component of a path, and nothing where that is no name.
pub open spec fn file_name_text(path: Option<PathBuf>) -> Seq<char> {
    match path {
        Some(path) => if path@.len() > 0 {
            match path@.last() {
                Part::Name(name) => name,
                _ => Seq::empty(),
            }
        } else {
            Seq::empty()
        },
        None => Seq::empty(),
    }
}

/// Where the last dot of a name is; none where it is below zero.
pub open spec fn last_dot(name: Seq<char>) -> int
    decreases name.len(),
{
    if name.len() == 0 {
        -1
    } else if name.last() == '.' {
        name.len() - 1
    } else {
        last_dot(name.drop_last())
    }
}

/// A file name without its extension. A dot at its start begins none.
pub open spec fn stem_of(name: Seq<char>) -> Seq<char> {
    if last_dot(name) > 0 {
        name.take(last_dot(name))
    } else {
        name
    }
}

/// Texts of the active document that a snippet may ask for.
#[derive(Debug)]
pub struct DocumentTexts {
    /// The line that the caret is on.
    pub line: Option<String>,
    /// The word that the caret is on.
    pub word: Option<String>,
    /// What is selected.
    pub selected: String,
}

/// Where a snippet is expanded, as far as its variables ask for it.
#[derive(Debug)]
pub struct Variables {
    /// The document's path.
    pub path: Option<PathBuf>,
    /// The line that the caret is on.
    pub line: u32,
    pub texts: DocumentTexts,
}

/// Whether the variables are those of a tab's document, at the caret.
pub open spec fn variables_read<
    B,
    S,
    C: Fn(&B, Position) -> Position,
    L: Fn(&B, u32) -> Option<String>,
    T: Fn(&B, Range) -> String,
    W: Fn(&B, Position) -> Option<Range>,
>(tab: Tab<B, S>, clamp: C, line: L, reader: Reader<T, W>, variables: Variables) -> bool {
    let body = &tab.document.body;
    let primary = tab.view.selections.primary;
    &&& variables.path == tab.document.path
    &&& line.ensures((body, variables.line), variables.texts.line)
    &&& reader.text_in.ensures((body, primary.span()), variables.texts.selected)
    &&& exists|cursor: Position, word: Option<Range>|
        {
            &&& #[trigger] clamp.ensures((body, primary.active), cursor)
            &&& cursor.line == variables.line
            &&& #[trigger] reader.word_at.ensures((body, cursor), word)
            &&& match word {
                Some(range) => variables.texts.word matches Some(text) && reader.text_in.ensures(
                    (body, range),
                    text,
                ),
                None => variables.texts.word is None,
            }
        }
}

/// A file name without its extension.
fn stem(name: &str) -> (r: String)
    ensures
        r@ == stem_of(name@),
{
    let chars: Vec<char> = chars_of(name);
    let mut n: usize = chars.len();
    assert(chars@.take(n as int) =~= chars@);
    while n > 0 && chars[n - 1] != '.'
        invariant
            n <= chars@.len(),
            chars@ == name@,
            last_dot(name@) == last_dot(name@.take(n as int)),
        decreases n,
    {
        assert(name@.take(n as int).drop_last() =~= name@.take(n - 1));
        n = n - 1;
    }
    if n > 1 {
        assert(last_dot(name@) == n - 1);
        let r: String = text_of(&chars, 0, n - 1);
        assert(r@ =~= name@.take(n - 1));
        r
    } else {
        name.to_owned()
    }
}

impl Variables {
    /// What the variable of that name stands for.
    pub fn value(&self, name: &str) -> (r: Option<String>)
        ensures
            view_of(r) == variable_of(name@, self.path, self.line, self.texts),
    {
        let file: String = match &self.path {
            Some(path) => match path.file_name() {
                Some(name) => name,
                None => String::new(),
            },
            None => String::new(),
        };
        assert(file@ =~= file_name_text(self.path));
        if same(name, "TM_FILENAME") {
            Some(file)
        } else if same(name, "TM_FILENAME_BASE") {
            Some(stem(file.as_str()))
        } else if same(name, "TM_LINE_INDEX") {
            Some(decimal(self.line as u64))
        } else if same(name, "TM_LINE_NUMBER") {
            Some(decimal(self.line as u64 + 1))
        } else if same(name, "TM_CURRENT_LINE") {
            Some(text_or_empty(&self.texts.line))
        } else if same(name, "TM_CURRENT_WORD") {
            Some(text_or_empty(&self.texts.word))
        } else if same(name, "TM_SELECTED_TEXT") {
            Some(self.texts.selected.clone())
        } else {
            None
        }
    }
}

impl<B, S> Tab<B, S> {
    /// What a snippet's variables stand for at the caret.
    fn variables<
        C: Fn(&B, Position) -> Position,
        L: Fn(&B, u32) -> Option<String>,
        T: Fn(&B, Range) -> String,
        W: Fn(&B, Position) -> Option<Range>,
    >(&self, clamp: &C, line: &L, reader: &Reader<T, W>) -> (r: Variables)
        requires
            forall|body: &B, at: Position| clamp.requires((body, at)),
            forall|body: &B, n: u32| line.requires((body, n)),
            reads::<B, T, W>(*reader),
        ensures
            variables_read(*self, *clamp, *line, *reader, r),
    {
        let body: &B = &self.document.body;
        let primary: Selection = self.view.selections.primary;
        let cursor: Position = clamp(body, primary.active);
        let word: Option<Range> = (reader.word_at)(body, cursor);
        let texts: DocumentTexts = DocumentTexts {
            line: line(body, cursor.line),
            word: match word {
                Some(range) => Some((reader.text_in)(body, range)),
                None => None,
            },
            selected: (reader.text_in)(body, primary.range()),
        };
        let r: Variables = Variables {
            path: clone_path(&self.document.path),
            line: cursor.line,
            texts,
        };
        assert(clamp.ensures((&self.document.body, primary.active), cursor));
        assert(reader.word_at.ensures((&self.document.body, cursor), word));
        r
    }
}

impl<B, S, M> Session<B, S, M> {
    /// Expands a snippet's source, with what its variables stand for in the active document.
    /// `parse` reads the source and asks for the variables it meets.
    pub fn expand_snippet<
        C: Fn(&B, Position) -> Position,
        L: Fn(&B, u32) -> Option<String>,
        T: Fn(&B, Range) -> String,
        W: Fn(&B, Position) -> Option<Range>,
        P: Fn(&str, &Variables) -> Option<Snippet>,
    >(&self, source: &str, clamp: &C, line: &L, reader: &Reader<T, W>, parse: &P) -> (r: Option<
        Snippet,
    >)
        requires
            forall|body: &B, at: Position| clamp.requires((body, at)),
            forall|body: &B, n: u32| line.requires((body, n)),
            reads::<B, T, W>(*reader),
            forall|variables: &Variables| parse.requires((source, variables)),
        ensures
            exists|variables: Variables| #[trigger]
                variables_read(self.active, *clamp, *line, *reader, variables) && parse.ensures(
                    (source, &variables),
                    r,
                ),
    {
        let variables: Variables = self.active.variables(clamp, line, reader);
        parse(source, &variables)
    }

    /// Selects the current field of a snippet, which ends with its last one.
    fn select_snippet_stop(&mut self, snippet: ActiveSnippet)
        requires
            snippet.current < snippet.stops@.len(),
        ensures
            stop_selected(*old(self), *final(self), snippet),
    {
        let stop: Range = snippet.stops[snippet.current];
        self.active.view.selections = SelectionSet::single(Selection::new(stop.start, stop.end));
        self.active.view.reveal = true;
        let count: usize = snippet.stops.len();
        if snippet.current == count - 1 {
            self.active.document.snippet = None;
        } else {
            self.active.document.snippet = Some(snippet);
        }
    }

    /// Selects the next or the previous field of the snippet.
    pub fn move_snippet(&mut self, previous: bool) -> (r: Outcome)
        ensures
            r is Handled,
            snippet_moved(*old(self), *final(self), previous),
    {
        if self.chrome.focus != Focus::Editor {
            return Outcome::Handled;
        }
        match self.active.document.snippet.take() {
            None => {},
            Some(snippet) => {
                let mut snippet: ActiveSnippet = snippet;
                let count: usize = snippet.stops.len();
                if snippet.current >= count {
                    self.active.document.snippet = Some(snippet);
                    return Outcome::Handled;
                }
                if previous {
                    if snippet.current > 0 {
                        snippet.current = snippet.current - 1;
                    }
                } else if snippet.current + 1 < count {
                    snippet.current = snippet.current + 1;
                }
                self.select_snippet_stop(snippet);
            },
        }
        Outcome::Handled
    }

    /// Puts a snippet in place of a range and selects its first field.
    pub fn insert_snippet<
        C: Fn(&B, Position) -> Position,
        N,
        O,
        K: Fn(&B, &Option<ActiveSnippet>, &Vec<Change>, &SelectionSet, Option<u64>, Position) -> Edited<
            B,
        >,
    >(&mut self, range: Range, snippet: &Snippet, engine: &Engine<C, N, O, K>)
        requires
            forall|body: &B, at: Position| engine.clamp.requires((body, at)),
            forall|
                body: &B,
                snippet: &Option<ActiveSnippet>,
                changes: &Vec<Change>,
                selections: &SelectionSet,
                group: Option<u64>,
                caret: Position,
            |
                engine.commit.requires((body, snippet, changes, selections, group, caret)),
            end_fits(engine.clamp, old(self).active.document.body, range, snippet.text@),
            forall|start: Position|
                #[trigger] clamped(
                    engine.clamp,
                    old(self).active.document.body,
                    range.start,
                    start,
                ) ==> offsets_fit(start, snippet.stops@),
        ensures
            snippet_inserted(
                engine.clamp,
                engine.commit,
                *old(self),
                *final(self),
                range,
                *snippet,
            ),
    {
        if self.groups.comparison.is_some() || self.chrome.focus != Focus::Editor {
            return;
        }
        let ghost before = *self;
        let start: Position = (engine.clamp)(&self.active.document.body, range.start);
        assert(clamped(engine.clamp, before.active.document.body, range.start, start));
        let end: Position = self.put_text(
            range,
            snippet.text.as_str(),
            &engine.clamp,
            &engine.commit,
        );
        let ghost put = *self;
        assert(range_replaced(
            engine.clamp,
            engine.commit,
            before,
            put,
            range,
            snippet.text@,
            end,
        ));
        self.refresh_context();
        let ghost shown = *self;
        assert(refreshed(put, shown));
        if snippet.stops.len() == 0 {
            return;
        }
        let active: ActiveSnippet = ActiveSnippet {
            stops: offset_stops(start, &snippet.stops),
            current: 0,
        };
        let ghost made = active;
        self.select_snippet_stop(active);
        let ghost mid = *self;
        assert(stop_selected(shown, mid, made));
        self.refresh_context();
    }
}

/// A copy of a text, and the empty one where there is none.
fn text_or_empty(text: &Option<String>) -> (r: String)
    ensures
        r@ == or_empty(*text),
{
    match text {
        Some(text) => text.clone(),
        None => String::new(),
    }
}

// ---------------------------------------------------------------------------
// Laws
// ---------------------------------------------------------------------------

/// A batch that is refused changes nothing.
pub proof fn law_a_refused_batch_changes_nothing<
    B,
    S,
    C: Fn(&B, Position) -> Position,
    N: Fn(&TextEdit) -> bool,
    O: Fn(&Vec<Change>) -> bool,
    K: Fn(&B, &Option<ActiveSnippet>, &Vec<Change>, &SelectionSet, Option<u64>, Position) -> Edited<
        B,
    >,
>(
    engine: Engine<C, N, O, K>,
    before: Tab<B, S>,
    after: Tab<B, S>,
    edits: Seq<TextEdit>,
    error: EditError,
)
    requires
        applies_edits(engine, before, after, edits, Err(error)),
    ensures
        after == before,
{
}

/// An empty batch changes nothing, so it leaves a saved document saved.
pub proof fn law_an_empty_batch_changes_nothing<
    B,
    S,
    C: Fn(&B, Position) -> Position,
    N: Fn(&TextEdit) -> bool,
    O: Fn(&Vec<Change>) -> bool,
    K: Fn(&B, &Option<ActiveSnippet>, &Vec<Change>, &SelectionSet, Option<u64>, Position) -> Edited<
        B,
    >,
>(
    engine: Engine<C, N, O, K>,
    before: Tab<B, S>,
    after: Tab<B, S>,
    result: Result<usize, EditError>,
)
    requires
        applies_edits(engine, before, after, Seq::empty(), result),
    ensures
        after == before,
        result == Ok::<usize, EditError>(0),
{
}

/// The changes, without their order.
pub open spec fn bag_of(changes: Seq<Change>) -> Multiset<(Range, Seq<char>)>
    decreases changes.len(),
{
    if changes.len() == 0 {
        Multiset::empty()
    } else {
        bag_of(changes.drop_last()).insert((changes.last().range, changes.last().text@))
    }
}

/// Whether a place of the text is always brought inside it as `inside` says, and an edit always
/// does nothing as `idle` says.
pub open spec fn reads_edits<B, C: Fn(&B, Position) -> Position, N: Fn(&TextEdit) -> bool>(
    clamp: C,
    noop: N,
    body: B,
    inside: spec_fn(Position) -> Position,
    idle: spec_fn(TextEdit) -> bool,
) -> bool {
    &&& forall|at: Position, to: Position| #[trigger]
        clamped(clamp, body, at, to) ==> to == inside(at)
    &&& forall|edit: TextEdit, answer: bool| #[trigger]
        noop.ensures((&edit,), answer) ==> answer == idle(edit)
}

/// Whether no two of the changes start at the same place.
pub open spec fn one_each(bag: Multiset<(Range, Seq<char>)>) -> bool {
    forall|p: (Range, Seq<char>), q: (Range, Seq<char>)|
        #[trigger] bag.count(p) > 0 && #[trigger] bag.count(q) > 0 && p.0.start == q.0.start
            ==> p == q && bag.count(p) == 1
}

/// The range of an edit, inside the text.
pub open spec fn range_inside(inside: spec_fn(Position) -> Position, edit: TextEdit) -> Range {
    range_between(inside(edit.range.start), inside(edit.range.end))
}

/// Whether no two of the edits that do something start at the same place of the text.
pub open spec fn starts_differ(
    edits: Seq<TextEdit>,
    inside: spec_fn(Position) -> Position,
    idle: spec_fn(TextEdit) -> bool,
) -> bool {
    forall|i: int, j: int|
        0 <= i < j < edits.len() && !idle(#[trigger] edits[i]) && !idle(#[trigger] edits[j])
            ==> range_inside(inside, edits[i]).start != range_inside(inside, edits[j]).start
}

/// Whether the engine goes by changes that start at different places and not by their order: which
/// of them overlap is as `overlapping` says, and what they make of a text as `made` says.
pub open spec fn takes_any_order<
    B,
    C,
    N,
    O: Fn(&Vec<Change>) -> bool,
    K: Fn(&B, &Option<ActiveSnippet>, &Vec<Change>, &SelectionSet, Option<u64>, Position) -> Edited<
        B,
    >,
>(
    engine: Engine<C, N, O, K>,
    overlapping: spec_fn(Multiset<(Range, Seq<char>)>) -> bool,
    made: spec_fn(
        B,
        Option<ActiveSnippet>,
        Multiset<(Range, Seq<char>)>,
        SelectionSet,
        Option<u64>,
        Position,
    ) -> Edited<B>,
) -> bool {
    &&& forall|changes: Vec<Change>, answer: bool| #[trigger]
        engine.overlaps.ensures((&changes,), answer) && one_each(bag_of(changes@)) ==> answer
            == overlapping(bag_of(changes@))
    &&& forall|
        body: B,
        snippet: Option<ActiveSnippet>,
        changes: Vec<Change>,
        selections: SelectionSet,
        group: Option<u64>,
        caret: Position,
        edited: Edited<B>,
    | #[trigger]
        engine.commit.ensures((&body, &snippet, &changes, &selections, group, caret), edited)
            && one_each(bag_of(changes@)) ==> edited == made(
            body,
            snippet,
            bag_of(changes@),
            selections,
            group,
            caret,
        )
}

/// A bag of changes with that of one more edit, unless the edit does nothing.
spec fn with_edit(
    inside: spec_fn(Position) -> Position,
    idle: spec_fn(TextEdit) -> bool,
    edit: TextEdit,
    bag: Multiset<(Range, Seq<char>)>,
) -> Multiset<(Range, Seq<char>)> {
    if idle(edit) {
        bag
    } else {
        bag.insert((range_inside(inside, edit), edit.new_text@))
    }
}

proof fn lemma_bag_of_edits<B, C: Fn(&B, Position) -> Position, N: Fn(&TextEdit) -> bool>(
    clamp: C,
    noop: N,
    body: B,
    inside: spec_fn(Position) -> Position,
    idle: spec_fn(TextEdit) -> bool,
    edits: Seq<TextEdit>,
    changes: Seq<Change>,
    bag: Multiset<(Range, Seq<char>)>,
)
    requires
        reads_edits(clamp, noop, body, inside, idle),
        changes_of(clamp, noop, body, edits, changes),
    ensures
        edits.fold_right(
            |edit: TextEdit, b: Multiset<(Range, Seq<char>)>| with_edit(inside, idle, edit, b),
            bag,
        ) == bag.add(bag_of(changes)),
    decreases edits.len(),
{
    let f = |edit: TextEdit, b: Multiset<(Range, Seq<char>)>| with_edit(inside, idle, edit, b);
    if edits.len() == 0 {
        assert(bag.add(bag_of(changes)) =~= bag);
    } else {
        let edit = edits.last();
        let next = f(edit, bag);
        if idle(edit) {
            lemma_bag_of_edits(clamp, noop, body, inside, idle, edits.drop_last(), changes, next);
        } else {
            lemma_bag_of_edits(
                clamp,
                noop,
                body,
                inside,
                idle,
                edits.drop_last(),
                changes.drop_last(),
                next,
            );
            assert(next.add(bag_of(changes.drop_last())) =~= bag.add(bag_of(changes)));
        }
    }
}

/// Edits that start at different places come to changes that do.
proof fn lemma_one_each<B, C: Fn(&B, Position) -> Position, N: Fn(&TextEdit) -> bool>(
    clamp: C,
    noop: N,
    body: B,
    inside: spec_fn(Position) -> Position,
    idle: spec_fn(TextEdit) -> bool,
    edits: Seq<TextEdit>,
    changes: Seq<Change>,
)
    requires
        reads_edits(clamp, noop, body, inside, idle),
        changes_of(clamp, noop, body, edits, changes),
        starts_differ(edits, inside, idle),
    ensures
        one_each(bag_of(changes)),
        forall|p: (Range, Seq<char>)| #[trigger]
            bag_of(changes).count(p) > 0 ==> exists|i: int|
                0 <= i < edits.len() && !idle(#[trigger] edits[i]) && range_inside(
                    inside,
                    edits[i],
                ) == p.0,
    decreases edits.len(),
{
    if edits.len() > 0 {
        let edit = edits.last();
        let rest = edits.drop_last();
        assert forall|i: int, j: int|
            0 <= i < j < rest.len() && !idle(#[trigger] rest[i]) && !idle(
                #[trigger] rest[j],
            ) implies range_inside(inside, rest[i]).start != range_inside(
            inside,
            rest[j],
        ).start by {
            assert(rest[i] == edits[i]);
            assert(rest[j] == edits[j]);
        }
        let earlier = if idle(edit) {
            changes
        } else {
            changes.drop_last()
        };
        lemma_one_each(clamp, noop, body, inside, idle, rest, earlier);
        let bag = bag_of(earlier);
        let new = (range_inside(inside, edit), edit.new_text@);
        assert forall|p: (Range, Seq<char>)| #[trigger] bag.count(p) > 0 implies exists|i: int|
            0 <= i < edits.len() && !idle(#[trigger] edits[i]) && range_inside(inside, edits[i])
                == p.0 by {
            let i = choose|i: int|
                0 <= i < rest.len() && !idle(#[trigger] rest[i]) && range_inside(inside, rest[i])
                    == p.0;
            assert(edits[i] == rest[i]);
        }
        if !idle(edit) {
            assert(edits[edits.len() - 1] == edit);
            assert(bag_of(changes) == bag.insert(new));
            assert forall|p: (Range, Seq<char>)| #[trigger] bag.count(p) > 0 implies p.0.start
                != new.0.start by {
                let i = choose|i: int|
                    0 <= i < rest.len() && !idle(#[trigger] rest[i]) && range_inside(
                        inside,
                        rest[i],
                    ) == p.0;
                assert(edits[i] == rest[i]);
            }
            assert forall|p: (Range, Seq<char>), q: (Range, Seq<char>)|
                #[trigger] bag.insert(new).count(p) > 0 && #[trigger] bag.insert(new).count(q) > 0
                    && p.0.start == q.0.start implies p == q && bag.insert(new).count(p) == 1 by {
                if p != new {
                    assert(bag.count(p) > 0);
                }
                if q != new {
                    assert(bag.count(q) > 0);
                }
                assert(bag.count(new) == 0);
            }
            assert forall|p: (Range, Seq<char>)| #[trigger]
                bag_of(changes).count(p) > 0 implies exists|i: int|
                0 <= i < edits.len() && !idle(#[trigger] edits[i]) && range_inside(
                    inside,
                    edits[i],
                ) == p.0 by {
                if p == new {
                    assert(range_inside(inside, edits[edits.len() - 1]) == p.0);
                } else {
                    assert(bag.count(p) > 0);
                }
            }
        }
    }
}

proof fn lemma_bag_len(changes: Seq<Change>)
    ensures
        bag_of(changes).len() == changes.len(),
    decreases changes.len(),
{
    if changes.len() > 0 {
        lemma_bag_len(changes.drop_last());
    }
}

proof fn lemma_same_bag<B, C: Fn(&B, Position) -> Position, N: Fn(&TextEdit) -> bool>(
    clamp: C,
    noop: N,
    body: B,
    inside: spec_fn(Position) -> Position,
    idle: spec_fn(TextEdit) -> bool,
    first: Seq<TextEdit>,
    second: Seq<TextEdit>,
    a: Seq<Change>,
    b: Seq<Change>,
)
    requires
        reads_edits(clamp, noop, body, inside, idle),
        first.to_multiset() == second.to_multiset(),
        changes_of(clamp, noop, body, first, a),
        changes_of(clamp, noop, body, second, b),
    ensures
        bag_of(a) == bag_of(b),
        a.len() == b.len(),
{
    let f = |edit: TextEdit, b: Multiset<(Range, Seq<char>)>| with_edit(inside, idle, edit, b);
    let none = Multiset::<(Range, Seq<char>)>::empty();
    assert forall|x: TextEdit, y: TextEdit, v: Multiset<(Range, Seq<char>)>| #[trigger]
        f(x, f(y, v)) == f(y, f(x, v)) by {
        assert(f(x, f(y, v)) =~= f(y, f(x, v)));
    }
    lemma_fold_right_permutation(first, second, f, none);
    lemma_bag_of_edits(clamp, noop, body, inside, idle, first, a, none);
    lemma_bag_of_edits(clamp, noop, body, inside, idle, second, b, none);
    assert(none.add(bag_of(a)) =~= bag_of(a));
    assert(none.add(bag_of(b)) =~= bag_of(b));
    lemma_bag_len(a);
    lemma_bag_len(b);
}

/// The order in which edits that start at different places are listed makes no difference, to an
/// engine that does not go by the order of such changes: the same number is applied, or both
/// batches are refused, and the same text comes of them, with the caret at the same place.
pub proof fn law_the_order_of_edits_makes_no_difference<
    B,
    S,
    C: Fn(&B, Position) -> Position,
    N: Fn(&TextEdit) -> bool,
    O: Fn(&Vec<Change>) -> bool,
    K: Fn(&B, &Option<ActiveSnippet>, &Vec<Change>, &SelectionSet, Option<u64>, Position) -> Edited<
        B,
    >,
>(
    engine: Engine<C, N, O, K>,
    inside: spec_fn(Position) -> Position,
    idle: spec_fn(TextEdit) -> bool,
    overlapping: spec_fn(Multiset<(Range, Seq<char>)>) -> bool,
    made: spec_fn(
        B,
        Option<ActiveSnippet>,
        Multiset<(Range, Seq<char>)>,
        SelectionSet,
        Option<u64>,
        Position,
    ) -> Edited<B>,
    before: Tab<B, S>,
    first: Seq<TextEdit>,
    second: Seq<TextEdit>,
    after_first: Tab<B, S>,
    after_second: Tab<B, S>,
    result_first: Result<usize, EditError>,
    result_second: Result<usize, EditError>,
)
    requires
        reads_edits(engine.clamp, engine.noop, before.document.body, inside, idle),
        takes_any_order(engine, overlapping, made),
        starts_differ(first, inside, idle),
        first.to_multiset() == second.to_multiset(),
        applies_edits(engine, before, after_first, first, result_first),
        applies_edits(engine, before, after_second, second, result_second),
    ensures
        result_first == result_second,
        after_first.document == after_second.document,
        after_first.view.selections.primary == after_second.view.selections.primary,
        result_first matches Ok(n) && n == 0 ==> after_first == before,
        result_first is Err ==> after_first == before,
{
    let body = before.document.body;
    let a = choose|built: Result<Option<Vec<Change>>, EditError>|
        #[trigger] builds(engine, body, first, built) && match built {
            Err(error) => after_first == before && result_first == Err::<usize, EditError>(error),
            Ok(None) => after_first == before && result_first == Ok::<usize, EditError>(0),
            Ok(Some(changes)) => result_first matches Ok(n) && commits_changes(
                engine.commit,
                before,
                after_first,
                changes,
                None,
                n,
            ),
        };
    let b = choose|built: Result<Option<Vec<Change>>, EditError>|
        #[trigger] builds(engine, body, second, built) && match built {
            Err(error) => after_second == before && result_second == Err::<usize, EditError>(error),
            Ok(None) => after_second == before && result_second == Ok::<usize, EditError>(0),
            Ok(Some(changes)) => result_second matches Ok(n) && commits_changes(
                engine.commit,
                before,
                after_second,
                changes,
                None,
                n,
            ),
        };
    let x = built_changes(engine, body, first, a);
    let y = built_changes(engine, body, second, b);
    lemma_one_each(engine.clamp, engine.noop, body, inside, idle, first, x);
    lemma_same_bag(
        engine.clamp,
        engine.noop,
        body,
        inside,
        idle,
        first,
        second,
        x,
        y,
    );
}

/// Changes that the edits come to, where preparing them came to `built`.
spec fn built_changes<
    B,
    C: Fn(&B, Position) -> Position,
    N: Fn(&TextEdit) -> bool,
    O: Fn(&Vec<Change>) -> bool,
    K,
>(
    engine: Engine<C, N, O, K>,
    body: B,
    edits: Seq<TextEdit>,
    built: Result<Option<Vec<Change>>, EditError>,
) -> Seq<Change> {
    match built {
        Ok(None) => Seq::empty(),
        Ok(Some(changes)) => changes@,
        Err(_) => {
            let changes = choose|changes: Vec<Change>|
                {
                    &&& changes@.len() > 0
                    &&& changes_of(engine.clamp, engine.noop, body, edits, changes@)
                    &&& #[trigger] engine.overlaps.ensures((&changes,), true)
                };
            changes@
        },
    }
}

/// How many of the edits do something.
pub open spec fn acting(edits: Seq<TextEdit>, idle: spec_fn(TextEdit) -> bool) -> nat
    decreases edits.len(),
{
    if edits.len() == 0 {
        0
    } else {
        acting(edits.drop_last(), idle) + if idle(edits.last()) {
            0nat
        } else {
            1nat
        }
    }
}

proof fn lemma_acting<B, C: Fn(&B, Position) -> Position, N: Fn(&TextEdit) -> bool>(
    clamp: C,
    noop: N,
    body: B,
    inside: spec_fn(Position) -> Position,
    idle: spec_fn(TextEdit) -> bool,
    edits: Seq<TextEdit>,
    changes: Seq<Change>,
)
    requires
        reads_edits(clamp, noop, body, inside, idle),
        changes_of(clamp, noop, body, edits, changes),
    ensures
        changes.len() == acting(edits, idle),
    decreases edits.len(),
{
    if edits.len() > 0 {
        if idle(edits.last()) {
            lemma_acting(clamp, noop, body, inside, idle, edits.drop_last(), changes);
        } else {
            lemma_acting(clamp, noop, body, inside, idle, edits.drop_last(), changes.drop_last());
        }
    }
}

/// A batch that is applied counts every edit that does something, and no other.
pub proof fn law_every_edit_that_does_something_counts<
    B,
    S,
    C: Fn(&B, Position) -> Position,
    N: Fn(&TextEdit) -> bool,
    O: Fn(&Vec<Change>) -> bool,
    K: Fn(&B, &Option<ActiveSnippet>, &Vec<Change>, &SelectionSet, Option<u64>, Position) -> Edited<
        B,
    >,
>(
    engine: Engine<C, N, O, K>,
    inside: spec_fn(Position) -> Position,
    idle: spec_fn(TextEdit) -> bool,
    before: Tab<B, S>,
    after: Tab<B, S>,
    edits: Seq<TextEdit>,
    n: usize,
)
    requires
        reads_edits(engine.clamp, engine.noop, before.document.body, inside, idle),
        applies_edits(engine, before, after, edits, Ok(n)),
    ensures
        n == acting(edits, idle),
{
    let result = Ok::<usize, EditError>(n);
    let built = choose|built: Result<Option<Vec<Change>>, EditError>|
        #[trigger] builds(engine, before.document.body, edits, built) && match built {
            Err(error) => after == before && result == Err::<usize, EditError>(error),
            Ok(None) => after == before && result == Ok::<usize, EditError>(0),
            Ok(Some(changes)) => result matches Ok(n) && commits_changes(
                engine.commit,
                before,
                after,
                changes,
                None,
                n,
            ),
        };
    lemma_acting(
        engine.clamp,
        engine.noop,
        before.document.body,
        inside,
        idle,
        edits,
        built_changes(engine, before.document.body, edits, built),
    );
}

/// Going forward and back between two fields returns to the first of them.
pub proof fn law_fields_are_walked_both_ways(current: int, count: int)
    requires
        0 <= current,
        current + 1 < count,
    ensures
        field_beside(field_beside(current, count, false), count, true) == current,
        0 <= field_beside(current, count, false) < count,
        0 <= field_beside(current, count, true) < count,
{
}

/// Reaching the last field ends the snippet, so the next key means what it always does.
pub proof fn law_the_last_field_ends_the_snippet<B, S, M>(
    before: Session<B, S, M>,
    after: Session<B, S, M>,
    snippet: ActiveSnippet,
)
    requires
        stop_selected(before, after, snippet),
        snippet.current + 1 == snippet.stops@.len(),
    ensures
        after.active.document.snippet is None,
{
}

} // verus!
