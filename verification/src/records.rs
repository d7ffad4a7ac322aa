//! The record of one file as it is displayed.

use vstd::prelude::*;
use crate::accounts::{group_name, user_name};
use crate::clock::{date_shaped, local_time_text};
use crate::paint::{color_print, escape, executable_mode, is_painted, tint_of};
use crate::parameters::Parameters;
use crate::text::{begins_with, starts_with_char};

verus! {

/// An instant, counted from the Unix epoch.
#[derive(Clone, Copy, Debug, PartialEq, Eq, Structural)]
pub struct Timestamp {
    pub seconds: i64,
    pub nanoseconds: u32,
}

impl Timestamp {
    /// The instant in nanoseconds since the epoch.
    pub open spec fn instant(self) -> int {
        self.seconds * 1_000_000_000 + self.nanoseconds
    }

    /// Whether this instant is no later than the other.
    pub fn not_after(&self, other: &Timestamp) -> (r: bool)
        ensures
            r == (self.instant() <= other.instant()),
    {
        let a: i128 = (self.seconds as i128) * 1_000_000_000 + (self.nanoseconds as i128);
        let b: i128 = (other.seconds as i128) * 1_000_000_000 + (other.nanoseconds as i128);
        a <= b
    }
}

/// What the file system tells of one file, as plain values.
#[derive(Clone, Debug)]
pub struct Metadata {
    pub is_dir: bool,
    pub is_symlink: bool,
    pub mode: u32,
    pub links: u64,
    pub uid: u32,
    pub gid: u32,
    pub len: u64,
    pub modified: Timestamp,
    pub blocks: u64,
    /// Where a symbolic link points; empty for anything else.
    pub link_target: String,
}

/// One file system object as a listing displays it.
#[derive(Clone, Debug)]
pub struct File {
    pub is_dir: bool,
    pub is_symbolic_link: bool,
    pub file_mode: u32,
    pub number_of_links: u64,
    pub owner_name: String,
    pub group_name: String,
    pub number_of_bytes: u64,
    pub last_modified: Timestamp,
    /// The name shown: the last component of the path, or `.` or `..`.
    pub path_name: String,
    pub extended_attributes: bool,
    pub blocks: u64,
    /// Where a symbolic link points.
    pub link_target: String,
    /// The modification time as the long format writes it.
    pub modified_text: String,
    /// The name with the colour of its kind.
    pub colored_name: String,
}

impl File {
    /// Whether the record repeats the metadata, carries the given name and
    /// flag, and has the given texts.
    pub open spec fn built_from(
        self,
        path: Seq<char>,
        metadata: Metadata,
        attributes: bool,
        owner: Seq<char>,
        group: Seq<char>,
        modified_text: Seq<char>,
        colored_name: Seq<char>,
    ) -> bool {
        &&& self.is_dir == metadata.is_dir
        &&& self.is_symbolic_link == metadata.is_symlink
        &&& self.file_mode == metadata.mode
        &&& self.number_of_links == metadata.links
        &&& self.owner_name@ == owner
        &&& self.group_name@ == group
        &&& self.number_of_bytes == metadata.len
        &&& self.last_modified == metadata.modified
        &&& self.path_name@ == path
        &&& self.extended_attributes == attributes
        &&& self.blocks == metadata.blocks
        &&& self.link_target@ == metadata.link_target@
        &&& self.modified_text@ == modified_text
        &&& self.colored_name@ == colored_name
    }

    /// Whether the coloured name is the name in the colour of the file's kind.
    pub open spec fn well_colored(self) -> bool {
        is_painted(
            self.colored_name@,
            self.path_name@,
            tint_of(self.is_dir, self.is_symbolic_link, self.file_mode),
        )
    }

    /// Whether the time text has the shape in which the long format writes
    /// a time.
    pub open spec fn well_dated(self) -> bool {
        date_shaped(self.modified_text@)
    }

    /// Puts a record together from the metadata and from the texts that were
    /// looked up for it. There is a record exactly when the owner, the group
    /// and the time text were all found.
    pub fn assemble(
        path: String,
        metadata: Metadata,
        attributes: bool,
        owner: Option<String>,
        group: Option<String>,
        modified_text: Option<String>,
        colored_name: String,
    ) -> (file: Option<File>)
        ensures
            file is Some <==> owner is Some && group is Some && modified_text is Some,
            file is Some ==> file->0.built_from(
                path@,
                metadata,
                attributes,
                owner->0@,
                group->0@,
                modified_text->0@,
                colored_name@,
            ),
    {
        match (owner, group, modified_text) {
            (Some(owner_name), Some(group_name), Some(modified_text)) => Some(
                File {
                    is_dir: metadata.is_dir,
                    is_symbolic_link: metadata.is_symlink,
                    file_mode: metadata.mode,
                    number_of_links: metadata.links,
                    owner_name,
                    group_name,
                    number_of_bytes: metadata.len,
                    last_modified: metadata.modified,
                    path_name: path,
                    extended_attributes: attributes,
                    blocks: metadata.blocks,
                    link_target: metadata.link_target,
                    modified_text,
                    colored_name,
                },
            ),
            _ => None,
        }
    }

    /// Makes the record of a file from its name and metadata.
    ///
    /// The owner and the group are looked up by their ids, the modification
    /// time is written in local time, and the name is coloured by the kind of
    /// file. There is no record where one of the ids is unknown or the time
    /// cannot be written.
    pub fn new(path: String, metadata: Metadata, attributes: bool) -> (file: Option<File>)
        ensures
            file is Some ==> exists|
                owner: Seq<char>,
                group: Seq<char>,
                modified_text: Seq<char>,
                colored_name: Seq<char>,
            |
                file->0.built_from(
                    path@,
                    metadata,
                    attributes,
                    owner,
                    group,
                    modified_text,
                    colored_name,
                ),
            file is Some && !path@.contains(escape()) ==> file->0.well_colored(),
            file is Some ==> file->0.well_dated(),
    {
        let owner = user_name(metadata.uid);
        let group = group_name(metadata.gid);
        let modified_text = local_time_text(
            metadata.modified.seconds,
            metadata.modified.nanoseconds,
            "%b %e %H:%M",
        );
        let colored_name = color_print(
            path.as_str(),
            metadata.is_dir,
            metadata.is_symlink,
            metadata.mode,
        );
        File::assemble(path, metadata, attributes, owner, group, modified_text, colored_name)
    }
}

impl File {
    /// A copy of the record.
    pub fn duplicate(&self) -> (copy: File)
        ensures
            copy == *self,
    {
        File {
            is_dir: self.is_dir,
            is_symbolic_link: self.is_symbolic_link,
            file_mode: self.file_mode,
            number_of_links: self.number_of_links,
            owner_name: self.owner_name.clone(),
            group_name: self.group_name.clone(),
            number_of_bytes: self.number_of_bytes,
            last_modified: self.last_modified,
            path_name: self.path_name.clone(),
            extended_attributes: self.extended_attributes,
            blocks: self.blocks,
            link_target: self.link_target.clone(),
            modified_text: self.modified_text.clone(),
            colored_name: self.colored_name.clone(),
        }
    }

    /// Whether two records agree in everything but the name and the
    /// coloured name.
    pub open spec fn same_but_name(self, other: File) -> bool {
        &&& self.is_dir == other.is_dir
        &&& self.is_symbolic_link == other.is_symbolic_link
        &&& self.file_mode == other.file_mode
        &&& self.number_of_links == other.number_of_links
        &&& self.owner_name == other.owner_name
        &&& self.group_name == other.group_name
        &&& self.number_of_bytes == other.number_of_bytes
        &&& self.last_modified == other.last_modified
        &&& self.extended_attributes == other.extended_attributes
        &&& self.blocks == other.blocks
        &&& self.link_target == other.link_target
        &&& self.modified_text == other.modified_text
    }

    /// The record under another name, in the colour of its kind; everything
    /// else is kept.
    pub fn renamed(self, name: &str) -> (file: File)
        ensures
            file.path_name@ == name@,
            !name@.contains(escape()) ==> file.well_colored(),
            file.same_but_name(self),
    {
        let colored_name = color_print(name, self.is_dir, self.is_symbolic_link, self.file_mode);
        File {
            is_dir: self.is_dir,
            is_symbolic_link: self.is_symbolic_link,
            file_mode: self.file_mode,
            number_of_links: self.number_of_links,
            owner_name: self.owner_name,
            group_name: self.group_name,
            number_of_bytes: self.number_of_bytes,
            last_modified: self.last_modified,
            path_name: name.to_owned(),
            extended_attributes: self.extended_attributes,
            blocks: self.blocks,
            link_target: self.link_target,
            modified_text: self.modified_text,
            colored_name,
        }
    }

    /// Whether the name begins with a dot.
    pub open spec fn is_dot_file(self) -> bool {
        begins_with(self.path_name@, '.')
    }
}

/// The files that a listing shows: all of them where dot files are asked for,
/// else those whose name does not begin with a dot.
pub open spec fn visible(files: Seq<File>, parameters: Parameters) -> Seq<File> {
    if parameters.include_dot_files {
        files
    } else {
        files.filter(|file: File| !file.is_dot_file())
    }
}

/// Whether every record shows its name in the colour of its kind, or plain
/// where colours are switched off.
pub open spec fn all_well_colored(files: Seq<File>) -> bool {
    forall|i: int| 0 <= i < files.len() ==> (#[trigger] files[i]).well_colored()
}

/// What is shown of well coloured files is well coloured.
pub proof fn lemma_visible_well_colored(files: Seq<File>, parameters: Parameters)
    requires
        all_well_colored(files),
    ensures
        all_well_colored(visible(files, parameters)),
{
    let shown = visible(files, parameters);
    assert forall|i: int| 0 <= i < shown.len() implies (#[trigger] shown[i]).well_colored() by {
        if !parameters.include_dot_files {
            let test = |file: File| !file.is_dot_file();
            assert(files.filter(test).contains(shown[i]));
            files.lemma_filter_contains_rev(test, shown[i]);
            let k = choose|k: int| 0 <= k < files.len() && files[k] == shown[i];
            assert(files[k].well_colored());
        }
    }
}

/// Drops the dot files unless they are asked for.
pub fn retain_visible(files: Vec<File>, parameters: &Parameters) -> (shown: Vec<File>)
    ensures
        shown@ == visible(files@, *parameters),
{
    if parameters.include_dot_files {
        return files;
    }
    let mut shown: Vec<File> = Vec::new();
    let mut i: usize = 0;
    proof {
        assert(files@.take(0) =~= Seq::empty());
    }
    while i < files.len()
        invariant
            i <= files.len(),
            shown@ == files@.take(i as int).filter(|file: File| !file.is_dot_file()),
        decreases files.len() - i,
    {
        proof {
            assert(files@.take(i + 1) =~= files@.take(i as int).push(files@[i as int]));
            files@.take(i as int).lemma_filter_push(
                files@[i as int],
                |file: File| !file.is_dot_file(),
            );
        }
        if !starts_with_char(files[i].path_name.as_str(), '.') {
            shown.push(files[i].duplicate());
        }
        i += 1;
    }
    proof {
        assert(files@.take(i as int) =~= files@);
    }
    shown
}

/// Whether somebody may execute the file.
pub fn is_executable(file: &File) -> (r: bool)
    ensures
        r == executable_mode(file.file_mode),
{
    file.file_mode & 0o111 != 0
}

/// Where a symbolic link points.
pub fn get_symbolic_link(file: &File) -> (target: String)
    ensures
        target@ == file.link_target@,
{
    file.link_target.clone()
}

} // verus!
