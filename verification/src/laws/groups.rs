//! How the editor is split, where the keyboard goes, and what the regions around the text do.

use vstd::prelude::*;
#[allow(unused_imports)]
use crate::session::chrome::{focuses_region, side_bar_viewing};
#[allow(unused_imports)]
use crate::session::layout::{laid_out, regions_of};
#[allow(unused_imports)]
use crate::session::outcome::Outcome;
#[allow(unused_imports)]
use crate::session::run::{
    dispatches, given_back, lending, shows_panel, shows_side_bar, stands_for, toggled, Chord,
    Dispatched, Pressed, Resolution,
};
#[allow(unused_imports)]
use crate::session::routes::FindRoute;
#[allow(unused_imports)]
use crate::session::state::{Document, Focus, SearchOptions, Session, SideBarView};
#[allow(unused_imports)]
use crate::session::tabs::{closes_editor, focuses_group, splits};

verus! {

/// Splitting gives the document a second view that looks where the first one does, and moves the
/// keyboard to it. Neither a comparison nor a split editor is split.
pub proof fn law_splitting_gives_a_second_view<B, S, M>(
    before: Session<B, S, M>,
    after: Session<B, S, M>,
    outcome: Outcome,
)
    requires
        splits(before, after, outcome),
    ensures
        outcome is Message,
        before.groups.comparison is Some || before.groups.split_view is Some ==> after == before,
        before.groups.comparison is None && before.groups.split_view is None ==> {
            &&& after.groups.split_view is Some
            &&& after.groups.split_focused
            &&& after.groups.split_view->Some_0.selections.primary
                == before.active.view.selections.primary
            &&& after.groups.split_view->Some_0.scroll_top == before.active.view.scroll_top
            &&& after.active.document == before.active.document
            &&& after.left == before.left
            &&& after.right == before.right
        },
{
    reveal(laid_out);
}

/// Moving the keyboard to the other group brings that group's selections and scroll along, and
/// leaves this one's behind; the document stays.
pub proof fn law_each_group_keeps_its_place<B, S, M>(
    before: Session<B, S, M>,
    after: Session<B, S, M>,
    index: int,
    outcome: Outcome,
)
    requires
        focuses_group(before, after, index, outcome),
        before.groups.comparison is None,
        before.groups.split_view is Some,
        0 <= index,
    ensures
        index >= 2 ==> after == before && outcome is Message,
        index < 2 ==> outcome is Handled && after.groups.split_focused == (index == 1),
        index < 2 && before.groups.split_focused == (index == 1) ==> after == before,
        index < 2 && before.groups.split_focused != (index == 1) ==> {
            &&& after.groups.split_view is Some
            &&& after.active.view.selections == before.groups.split_view->Some_0.selections
            &&& after.active.view.scroll_top == before.groups.split_view->Some_0.scroll_top
            &&& after.groups.split_view->Some_0.selections == before.active.view.selections
            &&& after.groups.split_view->Some_0.scroll_top == before.active.view.scroll_top
            &&& after.active.document == before.active.document
        },
{
    reveal(laid_out);
}

/// In a comparison the keyboard goes to the side that is asked for, and there are two; without
/// either there is one group.
pub proof fn law_which_groups_there_are<B, S, M>(
    before: Session<B, S, M>,
    after: Session<B, S, M>,
    index: int,
    outcome: Outcome,
)
    requires
        focuses_group(before, after, index, outcome),
        0 <= index,
    ensures
        before.groups.comparison is Some && index < 2 ==> outcome is Handled
            && after.groups.comparison is Some && after.groups.comparison->Some_0.focused_right == (
        index == 1) && after.groups.comparison->Some_0.left
            == before.groups.comparison->Some_0.left && after.groups.comparison->Some_0.right
            == before.groups.comparison->Some_0.right,
        before.groups.comparison is Some && index >= 2 ==> outcome is Message && after == before,
        before.groups.comparison is None && before.groups.split_view is None && index >= 1
            ==> outcome is Message && after == before,
{
}

/// Closing the editor closes one thing: the comparison before the second group, and that before a
/// tab.
pub proof fn law_what_closing_closes_first<B, S, M>(
    before: Session<B, S, M>,
    after: Session<B, S, M>,
    blank: Document<B>,
    outcome: Outcome,
)
    requires
        closes_editor(before, after, blank, outcome),
        before.groups.comparison is Some || before.groups.split_view is Some,
    ensures
        after.groups.comparison is None,
        before.groups.comparison is Some ==> (after.groups.split_view is Some) == (
        before.groups.split_view is Some) && after.groups.split_focused
            == before.groups.split_focused,
        before.groups.comparison is None ==> after.groups.split_view is None
            && !after.groups.split_focused,
        after.active.document == before.active.document,
        after.active.view.selections == before.active.view.selections,
        after.left == before.left,
        after.right == before.right,
{
    reveal(laid_out);
}

/// While a command runs in a comparison, the side with the keyboard stands in for the document; that
/// is given back as it was, the side takes what the command made of it, and the other side scrolls
/// along.
pub proof fn law_a_command_runs_on_the_side_with_the_keyboard<B, S, M>(
    before: Session<B, S, M>,
    ran: Session<B, S, M>,
)
    requires
        before.groups.comparison is Some,
        ran.groups.lent == lending(before).groups.lent,
    ensures
        ({
            let comparison = before.groups.comparison->Some_0;
            let now = given_back(ran).groups.comparison->Some_0;
            &&& given_back(ran).groups.comparison is Some
            &&& given_back(ran).active.document == before.active.document
            &&& given_back(ran).active.view == before.active.view
            &&& now.focused_right == comparison.focused_right
            &&& comparison.focused_right ==> {
                &&& lending(before).active.document == comparison.right.document
                &&& lending(before).active.view == comparison.right.view
                &&& now.right.document == ran.active.document
                &&& now.right.view == ran.active.view
                &&& now.left.document == comparison.left.document
                &&& now.left.view.selections == comparison.left.view.selections
            }
            &&& !comparison.focused_right ==> {
                &&& lending(before).active.document == comparison.left.document
                &&& lending(before).active.view == comparison.left.view
                &&& now.left.document == ran.active.document
                &&& now.left.view == ran.active.view
                &&& now.right.document == comparison.right.document
                &&& now.right.view.selections == comparison.right.view.selections
            }
            &&& now.left.view.scroll_top == now.right.view.scroll_top
            &&& now.left.view.scroll_row == now.right.view.scroll_row
            &&& now.left.lines == comparison.left.lines
            &&& now.right.lines == comparison.right.lines
        }),
{
}

/// The side bar and the panel are shown or hidden as is asked, one without the other, and a region
/// that is hidden hands the keyboard back to the text; it is said where there is no room.
pub proof fn law_regions_are_shown_as_is_asked<B, S, M>(
    before: Session<B, S, M>,
    bar: Session<B, S, M>,
    panel: Session<B, S, M>,
    showing: bool,
    bar_outcome: Outcome,
    panel_outcome: Outcome,
)
    requires
        shows_side_bar(before, bar, showing, bar_outcome),
        shows_panel(before, panel, showing, panel_outcome),
    ensures
        bar.chrome.side_bar == showing,
        bar.chrome.panel == before.chrome.panel,
        panel.chrome.panel == showing,
        panel.chrome.side_bar == before.chrome.side_bar,
        bar.chrome.focus == if before.chrome.focus == Focus::SideBar && !showing {
            Focus::Editor
        } else {
            before.chrome.focus
        },
        panel.chrome.focus == if before.chrome.focus == Focus::Panel && !showing {
            Focus::Editor
        } else {
            before.chrome.focus
        },
        bar_outcome is Message <==> showing && regions_of(bar.chrome).side_bar is None,
        panel_outcome is Message <==> showing && regions_of(panel.chrome).panel is None,
        !(bar_outcome is Message) ==> bar_outcome is Handled,
        !(panel_outcome is Message) ==> panel_outcome is Handled,
{
    reveal(laid_out);
}

/// Asking for the keyboard in a region shows the region, and moves the keyboard there where there is
/// room; where there is none the keyboard stays, and that is said. There is always room for the
/// text.
pub proof fn law_the_keyboard_goes_to_the_region<B, S, M>(
    before: Session<B, S, M>,
    after: Session<B, S, M>,
    focus: Focus,
    outcome: Outcome,
)
    requires
        focuses_region(before, after, focus, outcome),
    ensures
        focus == Focus::SideBar ==> after.chrome.side_bar && after.chrome.panel
            == before.chrome.panel,
        focus == Focus::Panel ==> after.chrome.panel && after.chrome.side_bar
            == before.chrome.side_bar,
        focus == Focus::Editor ==> after.chrome.focus == Focus::Editor && outcome is Handled,
        outcome is Handled ==> after.chrome.focus == focus,
        !(outcome is Handled) ==> outcome is Message && after.chrome.focus == before.chrome.focus,
        focus == Focus::SideBar ==> (outcome is Handled <==> regions_of(after.chrome).side_bar
            is Some),
        focus == Focus::Panel ==> (outcome is Handled <==> regions_of(after.chrome).panel is Some),
        after.active.document == before.active.document,
{
    reveal(laid_out);
}

/// Asking for a view of the side bar shows the side bar with that view.
pub proof fn law_the_side_bar_shows_the_view<B, S, M>(s: Session<B, S, M>, view: SideBarView)
    ensures
        side_bar_viewing(s, view).chrome.side_bar,
        side_bar_viewing(s, view).chrome.side_bar_view == view,
        side_bar_viewing(s, view).chrome.focus == s.chrome.focus,
        side_bar_viewing(s, view).chrome.panel == s.chrome.panel,
{
    reveal(laid_out);
}

/// A key that is bound stands for its command and types nothing; one that is not types its
/// character, unless a key is held that makes it a command; one that begins a command does neither.
pub proof fn law_what_a_key_stands_for(
    resolution: Resolution,
    chord: Chord,
    pressed: Option<Pressed>,
)
    requires
        stands_for(resolution, chord, pressed),
    ensures
        resolution is Match ==> pressed is Some && pressed->Some_0.command == resolution->Match_0
            && pressed->Some_0.text is None,
        resolution is Pending ==> pressed is None,
        resolution is NoMatch && (chord.modifiers.ctrl || chord.modifiers.alt
            || chord.modifiers.meta || chord.key is Named) ==> pressed is None,
        resolution is NoMatch && chord.key is Char && !chord.modifiers.ctrl && !chord.modifiers.alt
            && !chord.modifiers.meta ==> pressed is Some && pressed->Some_0.command@ == "type"@
            && pressed->Some_0.text is Some && (!chord.modifiers.shift
            ==> pressed->Some_0.text->Some_0@ == seq![chord.key->Char_0]),
{
}

/// A command goes to the question that is put before it goes to the find bar, and to the find bar
/// before it is run; each only where it takes it.
pub proof fn law_what_takes_a_command<B, S, M>(
    before: Session<B, S, M>,
    after: Session<B, S, M>,
    command: Seq<char>,
    by_prompt: bool,
    by_find: bool,
    blank: Document<B>,
    dispatched: Dispatched,
)
    requires
        dispatches(before, after, command, by_prompt, by_find, blank, dispatched),
    ensures
        dispatched is Consumed <==> before.prompt is Some && by_prompt,
        dispatched is FindAgain <==> !(before.prompt is Some && by_prompt)
            && before.active.find.visible && by_find,
        dispatched is Consumed || dispatched is FindAgain ==> after.active == before.active
            && after.prompt == before.prompt && after.left == before.left && after.right
            == before.right,
{
}

/// Each key of the find bar toggles the option it is for, and no other.
pub proof fn law_each_option_has_its_key(options: SearchOptions)
    ensures
        ({
            let case = toggled(options, FindRoute::ToggleCase);
            &&& case.case_sensitive != options.case_sensitive
            &&& case.whole_word == options.whole_word
            &&& case.regex == options.regex
        }),
        ({
            let word = toggled(options, FindRoute::ToggleWord);
            &&& word.whole_word != options.whole_word
            &&& word.case_sensitive == options.case_sensitive
            &&& word.regex == options.regex
        }),
        ({
            let regex = toggled(options, FindRoute::ToggleRegex);
            &&& regex.regex != options.regex
            &&& regex.case_sensitive == options.case_sensitive
            &&& regex.whole_word == options.whole_word
        }),
{
}

} // verus!
