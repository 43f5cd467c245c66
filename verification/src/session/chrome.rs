//! Showing, hiding and focusing what surrounds the text.

use vstd::prelude::*;
#[allow(unused_imports)]
use crate::session::layout::{laid_out, law_laying_out_changes_sizes_alone, regions_of, revealing};
use crate::session::outcome::Outcome;
#[allow(unused_imports)]
use crate::session::state::{Chrome, Focus, Session, SideBarView};

verus! {

/// The session with the side bar shown or hidden. A region that is hidden does not keep the
/// keyboard.
pub open spec fn side_bar_shown<B, S, M>(s: Session<B, S, M>, showing: bool) -> Session<B, S, M> {
    let focus = if !showing && s.chrome.focus == Focus::SideBar {
        Focus::Editor
    } else {
        s.chrome.focus
    };
    revealing(
        laid_out(Session { chrome: Chrome { side_bar: showing, focus, ..s.chrome }, ..s }),
    )
}

/// The session with the panel shown or hidden.
pub open spec fn panel_shown<B, S, M>(s: Session<B, S, M>, showing: bool) -> Session<B, S, M> {
    let focus = if !showing && s.chrome.focus == Focus::Panel {
        Focus::Editor
    } else {
        s.chrome.focus
    };
    revealing(laid_out(Session { chrome: Chrome { panel: showing, focus, ..s.chrome }, ..s }))
}

/// Whether showing a region comes to `outcome`: it is said where there is no room for it.
pub open spec fn reports_region(wanted: bool, fits: bool, text: Seq<char>, outcome: Outcome) -> bool {
    if wanted && !fits {
        outcome.says(text)
    } else {
        outcome is Handled
    }
}

/// The session with the region shown, if it was not.
pub open spec fn region_shown<B, S, M>(s: Session<B, S, M>, focus: Focus) -> Session<B, S, M> {
    if focus == Focus::SideBar && !s.chrome.side_bar {
        side_bar_shown(s, true)
    } else if focus == Focus::Panel && !s.chrome.panel {
        panel_shown(s, true)
    } else {
        s
    }
}

/// Whether the region is on screen.
pub open spec fn on_screen(chrome: Chrome, focus: Focus) -> bool {
    match focus {
        Focus::Editor => true,
        Focus::SideBar => regions_of(chrome).side_bar is Some,
        Focus::Panel => regions_of(chrome).panel is Some,
    }
}

/// The session with the keyboard in the region, where there is room for it.
pub open spec fn region_focused<B, S, M>(s: Session<B, S, M>, focus: Focus) -> Session<B, S, M> {
    let shown = region_shown(s, focus);
    if on_screen(shown.chrome, focus) {
        Session { chrome: Chrome { focus, ..shown.chrome }, ..shown }
    } else {
        shown
    }
}

/// Whether focusing a region comes to `outcome`.
pub open spec fn focuses_region<B, S, M>(
    before: Session<B, S, M>,
    after: Session<B, S, M>,
    focus: Focus,
    outcome: Outcome,
) -> bool {
    &&& after == region_focused(before, focus)
    &&& if on_screen(region_shown(before, focus).chrome, focus) {
        outcome is Handled
    } else {
        outcome.says("no room for it in this window"@)
    }
}

/// The session with the side bar showing a view, as far as it is shown.
pub open spec fn side_bar_viewing<B, S, M>(s: Session<B, S, M>, view: SideBarView) -> Session<
    B,
    S,
    M,
> {
    let viewing = Session { chrome: Chrome { side_bar_view: view, ..s.chrome }, ..s };
    if s.chrome.side_bar {
        viewing
    } else {
        side_bar_shown(viewing, true)
    }
}

impl<B, S, M> Session<B, S, M> {
    /// Lays the window out again and brings the carets on screen.
    fn settle_window(&mut self)
        ensures
            *final(self) == revealing(laid_out(*old(self))),
    {
        self.lay_out();
        self.reveal_carets();
    }

    /// Shows or hides the side bar.
    pub fn show_side_bar(&mut self, showing: bool) -> (r: Outcome)
        ensures
            *final(self) == side_bar_shown(*old(self), showing),
            reports_region(
                showing,
                regions_of(final(self).chrome).side_bar is Some,
                "no room for the side bar in this window"@,
                r,
            ),
            final(self).chrome.side_bar == showing,
    {
        self.chrome.side_bar = showing;
        if !showing && self.chrome.focus == Focus::SideBar {
            self.chrome.focus = Focus::Editor;
        }
        proof {
            law_laying_out_changes_sizes_alone(*self);
        }
        let fits: bool = self.regions().side_bar.is_some();
        self.settle_window();
        if showing && !fits {
            return Outcome::Message("no room for the side bar in this window".to_owned());
        }
        Outcome::Handled
    }

    /// Shows or hides the panel.
    pub fn show_panel(&mut self, showing: bool) -> (r: Outcome)
        ensures
            *final(self) == panel_shown(*old(self), showing),
            reports_region(
                showing,
                regions_of(final(self).chrome).panel is Some,
                "no room for the panel in this window"@,
                r,
            ),
            final(self).chrome.panel == showing,
    {
        self.chrome.panel = showing;
        if !showing && self.chrome.focus == Focus::Panel {
            self.chrome.focus = Focus::Editor;
        }
        proof {
            law_laying_out_changes_sizes_alone(*self);
        }
        let fits: bool = self.regions().panel.is_some();
        self.settle_window();
        if showing && !fits {
            return Outcome::Message("no room for the panel in this window".to_owned());
        }
        Outcome::Handled
    }

    /// Shows the side bar where it is hidden, and hides it where it is shown.
    pub fn toggle_side_bar(&mut self) -> (r: Outcome)
        ensures
            *final(self) == side_bar_shown(*old(self), !old(self).chrome.side_bar),
            reports_region(
                !old(self).chrome.side_bar,
                regions_of(final(self).chrome).side_bar is Some,
                "no room for the side bar in this window"@,
                r,
            ),
    {
        self.show_side_bar(!self.chrome.side_bar)
    }

    /// Shows the panel where it is hidden, and hides it where it is shown.
    pub fn toggle_panel(&mut self) -> (r: Outcome)
        ensures
            *final(self) == panel_shown(*old(self), !old(self).chrome.panel),
            reports_region(
                !old(self).chrome.panel,
                regions_of(final(self).chrome).panel is Some,
                "no room for the panel in this window"@,
                r,
            ),
    {
        self.show_panel(!self.chrome.panel)
    }

    /// Gives a region the keyboard, showing it first where it is hidden.
    pub fn focus_region(&mut self, focus: Focus) -> (r: Outcome)
        ensures
            focuses_region(*old(self), *final(self), focus, r),
    {
        if focus == Focus::SideBar && !self.chrome.side_bar {
            self.show_side_bar(true);
        } else if focus == Focus::Panel && !self.chrome.panel {
            self.show_panel(true);
        }
        let showing: bool = match focus {
            Focus::Editor => true,
            Focus::SideBar => self.regions().side_bar.is_some(),
            Focus::Panel => self.regions().panel.is_some(),
        };
        if !showing {
            return Outcome::Message("no room for it in this window".to_owned());
        }
        self.chrome.focus = focus;
        Outcome::Handled
    }

    /// Shows a view in the side bar and gives it the keyboard.
    pub fn show_side_bar_view(&mut self, view: SideBarView) -> (r: Outcome)
        ensures
            focuses_region(
                side_bar_viewing(*old(self), view),
                *final(self),
                Focus::SideBar,
                r,
            ),
    {
        self.chrome.side_bar_view = view;
        if !self.chrome.side_bar {
            self.show_side_bar(true);
        }
        self.focus_region(Focus::SideBar)
    }

    /// Which view the side bar is showing.
    pub fn side_bar_view(&self) -> (r: SideBarView)
        ensures
            r == self.chrome.side_bar_view,
    {
        self.chrome.side_bar_view
    }
}

// ---------------------------------------------------------------------------
// Laws
// ---------------------------------------------------------------------------

/// Hiding the side bar takes the keyboard out of it, and hiding the panel takes it out of that.
pub proof fn law_a_hidden_region_has_no_keyboard<B, S, M>(s: Session<B, S, M>)
    ensures
        side_bar_shown(s, false).chrome.focus != Focus::SideBar,
        panel_shown(s, false).chrome.focus != Focus::Panel,
{
    assert forall|x: Session<B, S, M>| true implies (#[trigger] laid_out(x)).chrome
        == x.chrome by {
        law_laying_out_changes_sizes_alone(x);
    }
}

/// The keyboard goes only to a region that is on screen: where there is no room, it stays.
pub proof fn law_the_keyboard_goes_where_there_is_room<B, S, M>(s: Session<B, S, M>, focus: Focus)
    ensures
        region_focused(s, focus).chrome.focus == focus || region_focused(s, focus).chrome.focus
            == s.chrome.focus,
        region_focused(s, focus).chrome.focus != s.chrome.focus ==> on_screen(
            region_focused(s, focus).chrome,
            focus,
        ),
{
    assert forall|x: Session<B, S, M>| true implies (#[trigger] laid_out(x)).chrome
        == x.chrome by {
        law_laying_out_changes_sizes_alone(x);
    }
}

/// Showing a region touches no document.
pub proof fn law_regions_touch_no_document<B, S, M>(s: Session<B, S, M>, showing: bool)
    ensures
        side_bar_shown(s, showing).left == s.left,
        side_bar_shown(s, showing).right == s.right,
        side_bar_shown(s, showing).active.document == s.active.document,
        panel_shown(s, showing).left == s.left,
        panel_shown(s, showing).right == s.right,
        panel_shown(s, showing).active.document == s.active.document,
{
    assert forall|x: Session<B, S, M>| true implies {
        let y = #[trigger] laid_out(x);
        y.left == x.left && y.right == x.right && y.active.document == x.active.document
    } by {
        law_laying_out_changes_sizes_alone(x);
    }
}

} // verus!
