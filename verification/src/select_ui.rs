//! The interactive selector's decision step: what one key event does to the
//! cursor, the filter string and the filtered list, and which action the
//! caller must take next. The caller owns the terminal: it reads key events,
//! renders the viewport after each step, and performs the selection.

use vstd::prelude::*;
use crate::error::Error;
use crate::projects::{filtered_names, Projects};
use crate::strutil::{clear_string, pop_char, push_char};
use vstd::string::StrSliceExecFns;

verus! {

/// One key event the terminal delivered.
#[derive(Debug, Clone, Copy)]
pub enum SelectorEvent {
    ArrowUp,
    ArrowDown,
    Char(char),
    Backspace,
    Enter,
    Escape,
    Other,
}

/// What the caller must do after a step.
#[derive(Debug, Clone, Copy, PartialEq, Eq, Structural)]
pub enum SelectorOutcome {
    /// The cursor moved; render the window again.
    Moved,
    /// The filter changed and the list was refiltered; render it again.
    Refiltered,
    /// The user chose the entry under the cursor.
    Selected,
    /// The user left the selector.
    Quit,
    /// The event means nothing here.
    Ignored,
}

/// The index is unchanged but for the cursor, which moved one row up,
/// staying put on the first row.
pub open spec fn moved_prev(old_p: Projects, new_p: Projects) -> bool {
    &&& new_p.filtered_items == old_p.filtered_items
    &&& new_p.selected_idx == (if old_p.selected_idx > 0 {
        old_p.selected_idx - 1
    } else {
        0int
    })
}

/// The index is unchanged but for the cursor, which moved one row down,
/// staying put on the last row (and on an empty list).
pub open spec fn moved_next(old_p: Projects, new_p: Projects) -> bool {
    &&& new_p.filtered_items == old_p.filtered_items
    &&& new_p.selected_idx == (if old_p.filtered_items@.len() > 0 && old_p.selected_idx + 1
        < old_p.filtered_items@.len() {
        old_p.selected_idx + 1
    } else {
        old_p.selected_idx as int
    })
}

/// The cursor reset to the top and the filtered list was recomputed for the
/// pattern `pat`.
pub open spec fn refiltered(old_p: Projects, new_p: Projects, pat: Seq<char>) -> bool {
    &&& new_p.selected_idx == 0
    &&& crate::projects::str_views(new_p.filtered_items@) == filtered_names(
        old_p.dir_items@,
        old_p.compound_projects@,
        pat,
    )
}

/// Everything stayed as it was.
pub open spec fn unchanged_projects(old_p: Projects, new_p: Projects) -> bool {
    &&& new_p.filtered_items == old_p.filtered_items
    &&& new_p.selected_idx == old_p.selected_idx
}

/// Performs one key event of the interactive selector: arrows (and `J`/`K`)
/// move the cursor; any other character extends the filter; backspace
/// shortens it and the delete-word character clears it, each refiltering
/// with the cursor reset to the top; enter selects and escape quits. The
/// index itself and the compound projects never change.
pub fn selector_step(projects: &mut Projects, filter_string: &mut String, key: SelectorEvent) -> (r:
    SelectorOutcome)
    requires
        old(projects).wf(),
    ensures
        final(projects).wf(),
        final(projects).dir_items == old(projects).dir_items,
        final(projects).compound_projects == old(projects).compound_projects,
        final(projects).buffer_rows == old(projects).buffer_rows,
        final(projects).cli_no_arg == old(projects).cli_no_arg,
        (match key {
            SelectorEvent::ArrowUp => r == SelectorOutcome::Moved && *final(filter_string) == *old(
                filter_string,
            ) && moved_prev(*old(projects), *final(projects)),
            SelectorEvent::ArrowDown => r == SelectorOutcome::Moved && *final(filter_string)
                == *old(filter_string) && moved_next(*old(projects), *final(projects)),
            SelectorEvent::Char(c) => {
                if c == '\u{007f}' {
                    r == SelectorOutcome::Refiltered && final(filter_string)@
                        == Seq::<char>::empty() && refiltered(
                        *old(projects),
                        *final(projects),
                        Seq::<char>::empty(),
                    )
                } else if c == 'J' {
                    r == SelectorOutcome::Moved && *final(filter_string) == *old(filter_string)
                        && moved_next(*old(projects), *final(projects))
                } else if c == 'K' {
                    r == SelectorOutcome::Moved && *final(filter_string) == *old(filter_string)
                        && moved_prev(*old(projects), *final(projects))
                } else {
                    r == SelectorOutcome::Refiltered && final(filter_string)@ == old(
                        filter_string,
                    )@.push(c) && refiltered(
                        *old(projects),
                        *final(projects),
                        old(filter_string)@.push(c),
                    )
                }
            },
            SelectorEvent::Backspace => {
                let shortened = if old(filter_string)@.len() > 0 {
                    old(filter_string)@.drop_last()
                } else {
                    old(filter_string)@
                };
                r == SelectorOutcome::Refiltered && final(filter_string)@ == shortened
                    && refiltered(*old(projects), *final(projects), shortened)
            },
            SelectorEvent::Enter => r == SelectorOutcome::Selected && *final(filter_string)
                == *old(filter_string) && unchanged_projects(*old(projects), *final(projects)),
            SelectorEvent::Escape => r == SelectorOutcome::Quit && *final(filter_string) == *old(
                filter_string,
            ) && unchanged_projects(*old(projects), *final(projects)),
            SelectorEvent::Other => r == SelectorOutcome::Ignored && *final(filter_string) == *old(
                filter_string,
            ) && unchanged_projects(*old(projects), *final(projects)),
        }),
{
    match key {
        SelectorEvent::ArrowUp => {
            projects.select_previous();
            SelectorOutcome::Moved
        },
        SelectorEvent::ArrowDown => {
            if projects.filtered_items.len() > 0 {
                projects.select_next();
            }
            SelectorOutcome::Moved
        },
        SelectorEvent::Char(c) => {
            if c == '\u{007f}' {
                clear_string(filter_string);
                projects.apply_filter(filter_string.as_str());
                SelectorOutcome::Refiltered
            } else if c == 'J' {
                if projects.filtered_items.len() > 0 {
                    projects.select_next();
                }
                SelectorOutcome::Moved
            } else if c == 'K' {
                projects.select_previous();
                SelectorOutcome::Moved
            } else {
                push_char(filter_string, c);
                projects.apply_filter(filter_string.as_str());
                SelectorOutcome::Refiltered
            }
        },
        SelectorEvent::Backspace => {
            if filter_string.as_str().unicode_len() > 0 {
                pop_char(filter_string);
            }
            projects.apply_filter(filter_string.as_str());
            SelectorOutcome::Refiltered
        },
        SelectorEvent::Enter => SelectorOutcome::Selected,
        SelectorEvent::Escape => SelectorOutcome::Quit,
        SelectorEvent::Other => SelectorOutcome::Ignored,
    }
}

/// The display name under the cursor, the one a selection opens; fails with
/// `NoProjectsFound` when the filtered list is empty.
pub fn select_project(projects: &Projects) -> (r: Result<String, Error>)
    requires
        projects.wf(),
    ensures
        (match r {
            Ok(name) => projects.filtered_items@.len() > 0 && name@
                == projects.filtered_items@[projects.selected_idx as int]@,
            Err(e) => projects.filtered_items@.len() == 0 && e is NoProjectsFound,
        }),
{
    if projects.filtered_items.len() == 0 {
        return Err(Error::NoProjectsFound);
    }
    Ok(projects.filtered_items[projects.selected_idx].clone())
}

} // verus!
