//! Keeping track of what has to be undone on the terminal.
use vstd::prelude::*;

verus! {

/// Whether the terminal was set up for the menu and has to be restored.
#[derive(Debug)]
pub struct TerminalGuard {
    active: bool,
}

/// Something to do to the terminal.
#[derive(Debug, Clone, Copy, PartialEq, Eq, Structural)]
pub enum TerminalStep {
    EnableRawMode,
    /// Switch to the alternate screen and hide the cursor.
    ShowMenuScreen,
    DisableRawMode,
    /// Show the cursor, reset the style and leave the alternate screen.
    RestoreScreen,
}

/// How to go on.
#[derive(Debug, Clone, Copy, PartialEq, Eq, Structural)]
pub enum Progress {
    /// Do this, then say how it went.
    Do(TerminalStep),
    /// All is done.
    Finished,
    /// The last step failed, and nothing is left to do.
    Failed,
    /// The last step failed: restore the terminal, then report it.
    Undo,
}

/// How setting up goes on after the step `done`, and whether the terminal has to be
/// restored then.
pub open spec fn entering(active: bool, done: Option<TerminalStep>, succeeded: bool) -> (
    bool,
    Progress,
) {
    match done {
        None => (active, Progress::Do(TerminalStep::EnableRawMode)),
        Some(TerminalStep::EnableRawMode) => if succeeded {
            (true, Progress::Do(TerminalStep::ShowMenuScreen))
        } else {
            (active, Progress::Failed)
        },
        Some(_) => (active, if succeeded {
            Progress::Finished
        } else {
            Progress::Undo
        }),
    }
}

/// How restoring goes on after the step `done`, and whether the terminal has to be
/// restored then.
pub open spec fn leaving(active: bool, done: Option<TerminalStep>, succeeded: bool) -> (
    bool,
    Progress,
) {
    match done {
        None => (active, if active {
            Progress::Do(TerminalStep::DisableRawMode)
        } else {
            Progress::Finished
        }),
        Some(_) if !succeeded => (active, Progress::Failed),
        Some(TerminalStep::DisableRawMode) => (active, Progress::Do(TerminalStep::RestoreScreen)),
        Some(_) => (false, Progress::Finished),
    }
}

impl TerminalGuard {
    /// The terminal has to be restored.
    pub closed spec fn is_active(self) -> bool {
        self.active
    }

    /// A guard for a terminal that was not touched yet.
    pub fn new() -> (guard: Self)
        ensures
            !guard.is_active(),
    {
        TerminalGuard { active: false }
    }

    /// Sets the terminal up, step by step. `done` is the step that was just tried,
    /// `succeeded` how it went. From the moment that raw mode is on the terminal
    /// has to be restored.
    pub fn enter(&mut self, done: Option<TerminalStep>, succeeded: bool) -> (progress: Progress)
        requires
            done matches Some(step) ==> step is EnableRawMode || step is ShowMenuScreen,
        ensures
            progress == (match done {
                None => Progress::Do(TerminalStep::EnableRawMode),
                Some(TerminalStep::EnableRawMode) => if succeeded {
                    Progress::Do(TerminalStep::ShowMenuScreen)
                } else {
                    Progress::Failed
                },
                _ => if succeeded {
                    Progress::Finished
                } else {
                    Progress::Undo
                },
            }),
            final(self).is_active() == (old(self).is_active() || done == Some(
                TerminalStep::EnableRawMode,
            ) && succeeded),
            (final(self).is_active(), progress) == entering(old(self).is_active(), done, succeeded),
    {
        match done {
            None => Progress::Do(TerminalStep::EnableRawMode),
            Some(TerminalStep::EnableRawMode) => {
                if succeeded {
                    self.active = true;
                    Progress::Do(TerminalStep::ShowMenuScreen)
                } else {
                    Progress::Failed
                }
            },
            _ => if succeeded {
                Progress::Finished
            } else {
                Progress::Undo
            },
        }
    }

    /// Restores the terminal, step by step, if it was set up. It counts as
    /// restored only once both steps succeeded.
    pub fn leave(&mut self, done: Option<TerminalStep>, succeeded: bool) -> (progress: Progress)
        requires
            done matches Some(step) ==> step is DisableRawMode || step is RestoreScreen,
        ensures
            progress == (match done {
                None => if old(self).is_active() {
                    Progress::Do(TerminalStep::DisableRawMode)
                } else {
                    Progress::Finished
                },
                Some(_) if !succeeded => Progress::Failed,
                Some(TerminalStep::DisableRawMode) => Progress::Do(TerminalStep::RestoreScreen),
                _ => Progress::Finished,
            }),
            final(self).is_active() == (old(self).is_active() && !(done == Some(
                TerminalStep::RestoreScreen,
            ) && succeeded)),
            (final(self).is_active(), progress) == leaving(old(self).is_active(), done, succeeded),
    {
        match done {
            None => if self.active {
                Progress::Do(TerminalStep::DisableRawMode)
            } else {
                Progress::Finished
            },
            Some(step) => {
                if !succeeded {
                    return Progress::Failed;
                }
                match step {
                    TerminalStep::DisableRawMode => Progress::Do(TerminalStep::RestoreScreen),
                    _ => {
                        self.active = false;
                        Progress::Finished
                    },
                }
            },
        }
    }
}

/// What setting up changed, restoring undoes. A terminal whose raw mode is on has to be
/// restored, whatever becomes of the second step, and it is restored in two steps: raw
/// mode first, the screen next. It has to be restored until both were done. A terminal
/// whose raw mode could not be switched on is left alone.
pub proof fn what_was_set_up_is_restored(shown: bool)
    ensures
        entering(false, None, true) == (false, Progress::Do(TerminalStep::EnableRawMode)),
        ({
            let refused = entering(false, Some(TerminalStep::EnableRawMode), false);
            &&& refused.1 is Failed
            &&& leaving(refused.0, None, true) == (false, Progress::Finished)
        }),
        ({
            let raw = entering(false, Some(TerminalStep::EnableRawMode), true);
            let ready = entering(raw.0, Some(TerminalStep::ShowMenuScreen), shown);
            let start = leaving(ready.0, None, true);
            let cooked = leaving(start.0, Some(TerminalStep::DisableRawMode), true);
            &&& raw == (true, Progress::Do(TerminalStep::ShowMenuScreen))
            &&& ready.1 is Finished <==> shown
            &&& ready.1 is Undo <==> !shown
            &&& start == (true, Progress::Do(TerminalStep::DisableRawMode))
            &&& cooked == (true, Progress::Do(TerminalStep::RestoreScreen))
            &&& leaving(cooked.0, Some(TerminalStep::RestoreScreen), true) == (
                false,
                Progress::Finished,
            )
        }),
{
}

/// A step of restoring that fails ends it, and the terminal still has to be restored.
pub proof fn what_is_not_restored_stays_to_be_restored(step: TerminalStep)
    ensures
        leaving(true, Some(step), false) == (true, Progress::Failed),
{
}

} // verus!
