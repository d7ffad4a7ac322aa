//! The width of the terminal that the listing is printed on.

use vstd::prelude::*;
use crate::grid::width_unknown;

verus! {

/// The number of columns of the terminal, where the process has one.
///
/// Calls `terminal_size::terminal_size` and picks the width. Nothing is
/// claimed of the result: it depends on where the process runs.
#[verifier::external_body]
fn terminal_columns() -> (columns: Option<u16>) {
    match terminal_size::terminal_size() {
        Some((terminal_size::Width(columns), _)) => Some(columns),
        None => None,
    }
}

/// The width of the terminal in columns, or the complaint where the process
/// has no terminal.
pub fn get_terminal_width() -> (width: Result<u16, String>)
    ensures
        width is Err ==> width->Err_0@ == width_unknown(),
{
    width_or_complaint(terminal_columns())
}

/// What is made of the answer about the terminal: its width where there is
/// one, the complaint where there is none.
pub fn width_or_complaint(columns: Option<u16>) -> (width: Result<u16, String>)
    ensures
        columns is Some ==> width == Ok::<u16, String>(columns->0),
        columns is None ==> width is Err && width->Err_0@ == width_unknown(),
{
    match columns {
        Some(columns) => Ok(columns),
        None => Err("Unable to get terminal size".to_owned()),
    }
}

/// The width that the renderers take: `None` where there was a complaint.
pub fn known_width(width: &Result<u16, String>) -> (columns: Option<u16>)
    ensures
        columns == match *width {
            Ok(value) => Some(value),
            Err(_) => None,
        },
{
    match width {
        Ok(value) => Some(*value),
        Err(_) => None,
    }
}

} // verus!
