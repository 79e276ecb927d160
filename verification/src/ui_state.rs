//! Interface state that the rendering and input collaborators read and
//! drive: the input mode, the selection, and the lightweight widget
//! state holders.

use vstd::prelude::*;

verus! {

/// The two input modes: browsing the process list, or focused on one
/// process with keys forwarded to it.
#[derive(Debug, Clone, Copy, PartialEq, Eq, Structural)]
pub enum InputMode {
    Browse,
    Focus,
}

impl InputMode {
    /// The mode label shown in the status bar.
    pub fn label(&self) -> (r: &'static str)
        ensures
            *self is Browse ==> r@ == " BROWSE "@,
            *self is Focus ==> r@ == " FOCUS "@,
    {
        match self {
            InputMode::Browse => " BROWSE ",
            InputMode::Focus => " FOCUS ",
        }
    }
}

/// The interface state: which process is selected, the input mode, and
/// the interface-level flags.
pub struct App {
    pub selected_index: usize,
    pub mode: InputMode,
    pub show_help: bool,
    pub should_quit: bool,
    pub shutting_down: bool,
    pub no_shift_tab: bool,
}

impl App {
    /// Fresh interface state: first process selected, browsing, nothing
    /// shown or requested.
    pub fn new(no_shift_tab: bool) -> (r: App)
        ensures
            r.selected_index == 0,
            r.mode is Browse,
            !r.show_help,
            !r.should_quit,
            !r.shutting_down,
            r.no_shift_tab == no_shift_tab,
    {
        App {
            selected_index: 0,
            mode: InputMode::Browse,
            show_help: false,
            should_quit: false,
            shutting_down: false,
            no_shift_tab,
        }
    }

    /// Selects the next of `count` processes, wrapping around; with none
    /// registered the selection stays put.
    pub fn select_next(&mut self, count: usize)
        ensures
            count > 0 ==> final(self).selected_index as int == (old(self).selected_index + 1) % (
            count as int),
            count == 0 ==> final(self).selected_index == old(self).selected_index,
            final(self).mode == old(self).mode,
            final(self).show_help == old(self).show_help,
            final(self).should_quit == old(self).should_quit,
            final(self).shutting_down == old(self).shutting_down,
            final(self).no_shift_tab == old(self).no_shift_tab,
    {
        if count > 0 {
            let s = self.selected_index % count;
            self.selected_index = (s + 1) % count;
            proof {
                vstd::arithmetic::div_mod::lemma_add_mod_noop(
                    old(self).selected_index as int,
                    1,
                    count as int,
                );
                if count == 1 {
                    vstd::arithmetic::div_mod::lemma_mod_self_0(1);
                } else {
                    vstd::arithmetic::div_mod::lemma_small_mod(1nat, count as nat);
                }
                vstd::arithmetic::div_mod::lemma_mod_twice(
                    old(self).selected_index as int,
                    count as int,
                );
            }
        }
    }

    /// Selects the previous of `count` processes, wrapping around; with
    /// none registered the selection stays put.
    pub fn select_prev(&mut self, count: usize)
        ensures
            count > 0 ==> final(self).selected_index as int == (old(self).selected_index + count
                - 1) % (count as int),
            count == 0 ==> final(self).selected_index == old(self).selected_index,
            final(self).mode == old(self).mode,
            final(self).show_help == old(self).show_help,
            final(self).should_quit == old(self).should_quit,
            final(self).shutting_down == old(self).shutting_down,
            final(self).no_shift_tab == old(self).no_shift_tab,
    {
        if count > 0 {
            let s = self.selected_index % count;
            self.selected_index = if s == 0 {
                count - 1
            } else {
                s - 1
            };
            proof {
                let si = old(self).selected_index as int;
                let c = count as int;
                vstd::arithmetic::div_mod::lemma_add_mod_noop(si, c - 1, c);
                vstd::arithmetic::div_mod::lemma_mod_twice(si, c);
                vstd::arithmetic::div_mod::lemma_mod_self_0(c);
                vstd::arithmetic::div_mod::lemma_small_mod((c - 1) as nat, c as nat);
                vstd::arithmetic::div_mod::lemma_add_mod_noop(si % c, c - 1, c);
                if si % c == 0 {
                    vstd::arithmetic::div_mod::lemma_small_mod((c - 1) as nat, c as nat);
                } else {
                    vstd::arithmetic::div_mod::lemma_mod_multiples_vanish(1, si % c - 1, c);
                    vstd::arithmetic::div_mod::lemma_small_mod((si % c - 1) as nat, c as nat);
                }
            }
        }
    }

    /// Enters focus mode: keys go to the selected process.
    pub fn enter_focus(&mut self)
        ensures
            *final(self) == (App { mode: InputMode::Focus, ..*old(self) }),
    {
        self.mode = InputMode::Focus;
    }

    /// Returns to browse mode.
    pub fn exit_focus(&mut self)
        ensures
            *final(self) == (App { mode: InputMode::Browse, ..*old(self) }),
    {
        self.mode = InputMode::Browse;
    }

    /// Shows or hides the help popup.
    pub fn toggle_help(&mut self)
        ensures
            *final(self) == (App { show_help: !old(self).show_help, ..*old(self) }),
    {
        self.show_help = !self.show_help;
    }

    /// Requests shutdown.
    pub fn quit(&mut self)
        ensures
            *final(self) == (App { shutting_down: true, ..*old(self) }),
    {
        self.shutting_down = true;
    }
}

/// The help popup; what it displays is fixed.
pub struct HelpPopup;

impl HelpPopup {
    /// The help popup.
    pub fn new() -> (r: HelpPopup) {
        HelpPopup
    }
}

/// The status bar's state: the mode shown and whether the focus-exit
/// key hint is suppressed.
pub struct StatusBar {
    pub mode: InputMode,
    pub no_shift_tab: bool,
}

impl StatusBar {
    /// A status bar for the given mode.
    pub fn new(mode: InputMode, no_shift_tab: bool) -> (r: StatusBar)
        ensures
            r.mode == mode,
            r.no_shift_tab == no_shift_tab,
    {
        StatusBar { mode, no_shift_tab }
    }
}

} // verus!
