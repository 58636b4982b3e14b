//! What of a project is selected on the dashboard.
use crate::ledger::Ledger;
use crate::state::{RepositoryState, ThesisState};
use vstd::prelude::*;

verus! {

/// A dashboard: the project, the thesis that is selected, and whether its details are shown.
#[derive(Debug)]
pub struct DashboardApp {
    pub repo_state: RepositoryState,
    pub ledger: Ledger,
    pub selected: Option<usize>,
    pub show_details: bool,
}

/// A key of the dashboard.
#[derive(Clone, Copy, Debug, PartialEq, Eq, Structural)]
pub enum DashboardKey {
    Quit,
    Down,
    Up,
    Enter,
    Refresh,
    Other,
}

/// What a key asks of whoever runs the dashboard.
#[derive(Clone, Copy, Debug, PartialEq, Eq, Structural)]
pub enum KeyEffect {
    Quit,
    Refresh,
    Nothing,
}

/// The selection one down, of so many theses; from the last it goes to the first.
pub open spec fn below(selected: Option<usize>, count: nat) -> Option<usize> {
    if count == 0 {
        None
    } else {
        match selected {
            Some(i) if i + 1 < count => Some((i + 1) as usize),
            _ => Some(0),
        }
    }
}

/// The selection one up, of so many theses; from the first it goes to the last.
pub open spec fn above(selected: Option<usize>, count: nat) -> Option<usize> {
    if count == 0 {
        None
    } else {
        match selected {
            Some(i) if i > 0 => Some((i - 1) as usize),
            _ => Some((count - 1) as usize),
        }
    }
}

/// The selection of a project that has so many theses now.
pub open spec fn kept(selected: Option<usize>, count: nat) -> Option<usize> {
    if count == 0 {
        None
    } else if selected is None {
        Some(0)
    } else {
        selected
    }
}

impl DashboardApp {
    /// A dashboard on which the first thesis is selected.
    pub fn new(repo_state: RepositoryState, ledger: Ledger) -> (r: Self)
        ensures
            r == (DashboardApp {
                repo_state,
                ledger,
                selected: kept(None, repo_state.theses@.len()),
                show_details: false,
            }),
    {
        let selected: Option<usize> = if repo_state.theses.len() == 0 {
            None
        } else {
            Some(0)
        };
        DashboardApp { repo_state, ledger, selected, show_details: false }
    }

    /// Goes one down.
    pub fn next(&mut self)
        ensures
            *final(self) == (DashboardApp {
                selected: below(old(self).selected, old(self).repo_state.theses@.len()),
                ..*old(self)
            }),
    {
        let count: usize = self.repo_state.theses.len();
        self.selected = if count == 0 {
            None
        } else {
            match self.selected {
                Some(i) => if i < count - 1 {
                    Some(i + 1)
                } else {
                    Some(0)
                },
                None => Some(0),
            }
        };
    }

    /// Goes one up.
    pub fn previous(&mut self)
        ensures
            *final(self) == (DashboardApp {
                selected: above(old(self).selected, old(self).repo_state.theses@.len()),
                ..*old(self)
            }),
    {
        let count: usize = self.repo_state.theses.len();
        self.selected = if count == 0 {
            None
        } else {
            match self.selected {
                Some(i) => if i > 0 {
                    Some(i - 1)
                } else {
                    Some(count - 1)
                },
                None => Some(count - 1),
            }
        };
    }

    /// Shows details, or no longer shows them.
    pub fn toggle_detail(&mut self)
        ensures
            *final(self) == (DashboardApp {
                show_details: !old(self).show_details,
                ..*old(self)
            }),
    {
        self.show_details = !self.show_details;
    }

    /// Takes the project as it is now.
    pub fn refresh(&mut self, repo_state: RepositoryState, ledger: Ledger)
        ensures
            *final(self) == (DashboardApp {
                repo_state,
                ledger,
                selected: kept(old(self).selected, repo_state.theses@.len()),
                show_details: old(self).show_details,
            }),
    {
        let empty = repo_state.theses.len() == 0;
        self.repo_state = repo_state;
        self.ledger = ledger;
        if empty {
            self.selected = None;
        } else if self.selected.is_none() {
            self.selected = Some(0);
        }
    }

    /// The thesis that is selected.
    pub fn selected_thesis(&self) -> (r: Option<&ThesisState>)
        ensures
            match self.selected {
                Some(i) if i < self.repo_state.theses@.len() => r == Some(
                    &self.repo_state.theses@[i as int],
                ),
                _ => r is None,
            },
    {
        match self.selected {
            Some(i) => if i < self.repo_state.theses.len() {
                Some(&self.repo_state.theses[i])
            } else {
                None
            },
            None => None,
        }
    }

    /// Does what a key asks for, and says what is left to do.
    pub fn press(&mut self, key: DashboardKey) -> (r: KeyEffect)
        ensures
            r == (match key {
                DashboardKey::Quit => KeyEffect::Quit,
                DashboardKey::Refresh => KeyEffect::Refresh,
                _ => KeyEffect::Nothing,
            }),
            *final(self) == (match key {
                DashboardKey::Down => DashboardApp {
                    selected: below(old(self).selected, old(self).repo_state.theses@.len()),
                    ..*old(self)
                },
                DashboardKey::Up => DashboardApp {
                    selected: above(old(self).selected, old(self).repo_state.theses@.len()),
                    ..*old(self)
                },
                DashboardKey::Enter => DashboardApp {
                    show_details: !old(self).show_details,
                    ..*old(self)
                },
                _ => *old(self),
            }),
    {
        match key {
            DashboardKey::Quit => KeyEffect::Quit,
            DashboardKey::Refresh => KeyEffect::Refresh,
            DashboardKey::Down => {
                self.next();
                KeyEffect::Nothing
            },
            DashboardKey::Up => {
                self.previous();
                KeyEffect::Nothing
            },
            DashboardKey::Enter => {
                self.toggle_detail();
                KeyEffect::Nothing
            },
            DashboardKey::Other => KeyEffect::Nothing,
        }
    }
}

/// Going down and up again, or up and down, comes back to the thesis that was selected; and what
/// is selected stays one of the theses.
pub proof fn down_and_up_undo_each_other(i: usize, count: nat)
    requires
        i < count <= usize::MAX,
    ensures
        above(below(Some(i), count), count) == Some(i),
        below(above(Some(i), count), count) == Some(i),
        below(Some(i), count)->Some_0 < count,
        above(Some(i), count)->Some_0 < count,
{
}

} // verus!
