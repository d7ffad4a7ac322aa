//! Whether a file has extended attributes.

use vstd::prelude::*;

verus! {

/// Counts the extended attributes of the file at the path.
///
/// Calls `xattr::list` and counts the names it lists. Where the attributes
/// cannot be listed, the text of the error comes back. Nothing is claimed
/// of the result: it depends on what is on disk.
#[verifier::external_body]
fn count_attributes(path: &str) -> (listing: Result<usize, String>) {
    match xattr::list(path) {
        Ok(attributes) => Ok(attributes.count()),
        Err(error) => Err(error.to_string()),
    }
}

/// What a listing of attributes tells: whether there is at least one, and a
/// complaint where the attributes could not be listed. A file whose
/// attributes cannot be listed counts as having none.
pub fn attributes_found(listing: Result<usize, String>) -> (result: (bool, Option<String>))
    ensures
        match listing {
            Ok(count) => result.0 == (count > 0) && result.1 is None,
            Err(error) => !result.0 && result.1 is Some && result.1->0@ == "Error: "@ + error@,
        },
{
    match listing {
        Ok(count) => (count > 0, None),
        Err(error) => {
            let mut message = "Error: ".to_owned();
            message.append(error.as_str());
            (false, Some(message))
        },
    }
}

/// Whether the file at the path has extended attributes, and the complaint
/// to print where they could not be listed. A complaint never comes with
/// `true`.
pub fn check_extended_attributes(path: &str) -> (result: (bool, Option<String>))
    ensures
        result.1 is Some ==> !result.0,
{
    attributes_found(count_attributes(path))
}

} // verus!
