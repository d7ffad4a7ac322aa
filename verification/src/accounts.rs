//! Names of the accounts that own files.

use vstd::prelude::*;

verus! {

/// The name of the user with the given id in the system's user database.
///
/// Calls `users::get_user_by_uid` and `users::User::name`. The result is
/// `None` where the database holds no such user. Nothing is claimed of the
/// name: it depends on the machine.
#[verifier::external_body]
pub(crate) fn user_name(id: u32) -> (name: Option<String>) {
    match users::get_user_by_uid(id) {
        Some(user) => Some(user.name().to_string_lossy().into_owned()),
        None => None,
    }
}

/// The name of the group with the given id in the system's group database.
///
/// Calls `users::get_group_by_gid` and `users::Group::name`. The result is
/// `None` where the database holds no such group. Nothing is claimed of the
/// name: it depends on the machine.
#[verifier::external_body]
pub(crate) fn group_name(id: u32) -> (name: Option<String>) {
    match users::get_group_by_gid(id) {
        Some(group) => Some(group.name().to_string_lossy().into_owned()),
        None => None,
    }
}

} // verus!
