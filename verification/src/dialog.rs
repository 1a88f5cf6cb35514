//! The decisions of the autostart editor's window and of its entry
//! dialog.

use vstd::prelude::*;

use crate::run_hook::RunHook;
use crate::text::{chars_of, string_of, trim, trim_bounds};

verus! {

/// The dialog's title: editing when it is opened on any value, adding
/// otherwise.
pub fn dialog_title(name: Option<&str>, descr: Option<&str>, command: Option<&str>) -> (r: &'static str)
    ensures
        r@ == if name is Some || descr is Some || command is Some {
            "Edit application"@
        } else {
            "Add application"@
        },
{
    if name.is_some() || descr.is_some() || command.is_some() {
        "Edit application"
    } else {
        "Add application"
    }
}

/// OK can be pressed once both the name and the
/// command are filled in.
pub fn ok_sensitive(name: &str, command: &str) -> (r: bool)
    ensures
        r == (name@.len() > 0 && command@.len() > 0),
{
    !name.is_empty() && !command.is_empty()
}

/// The file chooser of the command starts on the command itself when it is
/// an absolute path.
pub fn browse_starts_at_command(command: &str) -> (r: bool)
    ensures
        r == (command@.len() > 0 && command@[0] == '/'),
{
    let v = chars_of(command);
    v.len() > 0 && v[0] == '/'
}

fn trimmed(s: &str) -> (r: String)
    ensures
        r@ == trim(s@),
{
    let v = chars_of(s);
    let n = v.len();
    assert(v@.subrange(0, n as int) =~= v@);
    let (a, b) = trim_bounds(&v, 0, n);
    string_of(&v, a, b)
}

/// The dialog's values: the three texts trimmed, and the trigger at the
/// combo's active row (the first one when none is active).
pub fn dialog_values(name: &str, descr: &str, command: &str, active: Option<u32>) -> (r: (
    String,
    String,
    String,
    RunHook,
))
    ensures
        r.0@ == trim(name@),
        r.1@ == trim(descr@),
        r.2@ == trim(command@),
        r.3 == RunHook::at(
            match active {
                Some(i) => i as i32,
                None => 0i32,
            } as int,
        ),
{
    let index: u32 = match active {
        Some(i) => i,
        None => 0,
    };
    (trimmed(name), trimmed(descr), trimmed(command), RunHook::from_value(index as i32))
}

/// The combo row that shows `run_hook`.
pub fn active_row(run_hook: RunHook) -> (r: u32)
    ensures
        r == run_hook.index(),
{
    run_hook.value() as u32
}

/// Whether a button press on the list opens the context menu: the right
/// button, pressed once.
pub fn opens_context_menu(button: u32, single_press: bool) -> (r: bool)
    ensures
        r == (button == 3 && single_press),
{
    button == 3 && single_press
}

/// The toolbar on a selection change: Remove asks for a selected entry every
/// copy of which can be removed, Edit only for a selected entry. The result
/// is `(remove, edit)`.
pub fn toolbar_sensitivity(selected: bool, removable: bool) -> (r: (bool, bool))
    ensures
        r == (selected && removable, selected),
{
    (selected && removable, selected)
}

} // verus!
