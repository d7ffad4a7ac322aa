//! Colours of names by the kind of file.

use vstd::prelude::*;
use colored::Colorize;

verus! {

/// The colour class of an entry.
#[derive(Clone, Copy, Debug, PartialEq, Eq, Structural)]
pub enum Tint {
    /// A directory: bold cyan.
    Directory,
    /// A symbolic link: purple.
    Link,
    /// A file that somebody may execute: red.
    Executable,
    /// Anything else: white.
    Plain,
}

/// The mode bits that let the owner, the group or others execute a file.
pub open spec fn executable_mode(mode: u32) -> bool {
    mode & 0o111 != 0
}

/// The colour class by kind: directory first, then link, then executable.
pub open spec fn tint_of(is_dir: bool, is_symbolic_link: bool, mode: u32) -> Tint {
    if is_dir {
        Tint::Directory
    } else if is_symbolic_link {
        Tint::Link
    } else if executable_mode(mode) {
        Tint::Executable
    } else {
        Tint::Plain
    }
}

/// The escape character that opens a terminal control sequence.
pub open spec fn escape() -> char {
    '\x1b'
}

/// The control sequence that switches a colour class on.
pub open spec fn tint_start(tint: Tint) -> Seq<char> {
    match tint {
        Tint::Directory => seq![escape(), '[', '1', ';', '3', '6', 'm'],
        Tint::Link => seq![escape(), '[', '3', '5', 'm'],
        Tint::Executable => seq![escape(), '[', '3', '1', 'm'],
        Tint::Plain => seq![escape(), '[', '3', '7', 'm'],
    }
}

/// The control sequence that switches every colour off.
pub open spec fn tint_end() -> Seq<char> {
    seq![escape(), '[', '0', 'm']
}

/// A name between the sequences that switch its colour class on and off.
pub open spec fn painted(name: Seq<char>, tint: Tint) -> Seq<char> {
    tint_start(tint) + name + tint_end()
}

/// What a name may look like once coloured: left as it is where colours are
/// switched off, else wrapped in the sequences of its class.
pub open spec fn is_painted(shown: Seq<char>, name: Seq<char>, tint: Tint) -> bool {
    shown == name || shown == painted(name, tint)
}

/// Colours a name bold cyan.
///
/// Calls `colored::Colorize::cyan` and `bold` and formats the result. For a
/// name without an escape character, colored writes either the name alone
/// (colours off) or `ESC[1;36m`, the name and `ESC[0m`. Which of the two
/// depends on the environment.
#[verifier::external_body]
fn paint_directory(name: &str) -> (shown: String)
    ensures
        !name@.contains(escape()) ==> is_painted(shown@, name@, Tint::Directory),
{
    name.cyan().bold().to_string()
}

/// Colours a name purple.
///
/// Calls `colored::Colorize::purple` and formats the result. For a name
/// without an escape character, colored writes either the name alone
/// (colours off) or `ESC[35m`, the name and `ESC[0m`.
#[verifier::external_body]
fn paint_link(name: &str) -> (shown: String)
    ensures
        !name@.contains(escape()) ==> is_painted(shown@, name@, Tint::Link),
{
    name.purple().to_string()
}

/// Colours a name red.
///
/// Calls `colored::Colorize::red` and formats the result. For a name without
/// an escape character, colored writes either the name alone (colours off)
/// or `ESC[31m`, the name and `ESC[0m`.
#[verifier::external_body]
fn paint_executable(name: &str) -> (shown: String)
    ensures
        !name@.contains(escape()) ==> is_painted(shown@, name@, Tint::Executable),
{
    name.red().to_string()
}

/// Colours a name white.
///
/// Calls `colored::Colorize::white` and formats the result. For a name
/// without an escape character, colored writes either the name alone
/// (colours off) or `ESC[37m`, the name and `ESC[0m`.
#[verifier::external_body]
fn paint_plain(name: &str) -> (shown: String)
    ensures
        !name@.contains(escape()) ==> is_painted(shown@, name@, Tint::Plain),
{
    name.white().to_string()
}

/// Colours a name by the kind of file it stands for: a directory bold cyan,
/// a symbolic link purple, a file with an execute bit red, the rest white.
pub fn color_print(name: &str, is_dir: bool, is_symbolic_link: bool, file_mode: u32) -> (shown:
    String)
    ensures
        !name@.contains(escape()) ==> is_painted(
            shown@,
            name@,
            tint_of(is_dir, is_symbolic_link, file_mode),
        ),
{
    if is_dir {
        paint_directory(name)
    } else if is_symbolic_link {
        paint_link(name)
    } else if file_mode & 0o111 != 0 {
        paint_executable(name)
    } else {
        paint_plain(name)
    }
}

} // verus!
