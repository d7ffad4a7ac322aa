//! The whole command: from the arguments and what is on disk to the text
//! that is printed.

use vstd::prelude::*;
use crate::arguments::{
    gap_after,
    handle_single_files,
    handle_unexisting_files,
    missing_line,
    missing_report,
    negated,
    push_gap_after,
    single_files,
    single_files_text,
};
use crate::disk::{found_places, places_of, targets_of, FileSystem, PathEntry, Place, Target};
use crate::listing::{
    files_at,
    folders_text,
    handle_folders,
    handle_multiple_arguments,
    print_section_body,
    read_target,
    readable,
    section_body,
};
use crate::parameters::{parameters_of, parse_parameters, path_arguments, Parameters};
use crate::ranking::{
    alphabetically_rank_strings,
    lemma_ranked_len,
    lemma_ranked_maps,
    name_key,
    name_rank,
    own_key,
    rank,
    ranked_by,
    ranked_names,
    reverse_alphabetically_rank_strings,
    KeyOf,
    RankKey,
    Ranked,
    Ranking,
};
use crate::records::{File, Timestamp};
use crate::text::{newline, push_newline, texts};
use crate::traversal::{directory_traversal, entries_of, subdirectories};

verus! {

/// A path with the time at which it was last modified.
pub struct Stamped {
    pub path: String,
    pub time: Timestamp,
}

impl Ranked for Stamped {
    open spec fn rank_key(&self) -> RankKey {
        RankKey { name: name_key(self.path@), instant: self.time.instant() }
    }

    fn name_bytes(&self) -> (bytes: &[u8]) {
        self.path.as_str().as_bytes()
    }

    fn modified(&self) -> (time: Timestamp) {
        self.time
    }
}

/// The path of a stamped path.
pub open spec fn stamped_path() -> spec_fn(Stamped) -> Seq<char> {
    |stamped: Stamped| stamped.path@
}

impl FileSystem {
    /// When the path was last modified; the epoch where nothing is there.
    pub open spec fn stamp(self, path: Seq<char>) -> Timestamp {
        if self.knows(path) {
            self.modified(path)
        } else {
            Timestamp { seconds: 0, nanoseconds: 0 }
        }
    }

    /// What a path among the arguments is ordered by: its bytes, and the
    /// time at which it was last modified.
    pub open spec fn path_rank(self) -> KeyOf<Seq<char>> {
        |path: Seq<char>| RankKey { name: name_key(path), instant: self.stamp(path).instant() }
    }

    /// Looks up when a path was last modified.
    pub fn stamp_of(&self, path: &str) -> (time: Timestamp)
        ensures
            time == self.stamp(path@),
    {
        match self.find(path) {
            Some(at) => self.roots[at].file.last_modified,
            None => Timestamp { seconds: 0, nanoseconds: 0 },
        }
    }
}

/// Orders the paths by the time at which the file system says they were
/// last modified.
fn rank_paths_by_time(fs: &FileSystem, files: &mut Vec<String>, ranking: Ranking)
    ensures
        texts(final(files)@) == ranked_by(texts(old(files)@), fs.path_rank(), ranking),
{
    let mut stamped: Vec<Stamped> = Vec::new();
    let mut i: usize = 0;
    while i < files.len()
        invariant
            i <= files.len(),
            stamped.len() == i,
            *files == *old(files),
            forall|k: int|
                0 <= k < i ==> (#[trigger] stamped@[k]).path@ == files@[k]@ && stamped@[k].time
                    == fs.stamp(files@[k]@),
        decreases files.len() - i,
    {
        let time = fs.stamp_of(files[i].as_str());
        stamped.push(Stamped { path: files[i].clone(), time });
        i += 1;
    }
    proof {
        assert(stamped@.map_values(stamped_path()) =~= texts(files@));
        lemma_ranked_maps(
            stamped@,
            stamped_path(),
            own_key::<Stamped>(),
            fs.path_rank(),
            ranking,
        );
    }
    rank(&mut stamped, ranking);
    let mut ordered: Vec<String> = Vec::new();
    let mut j: usize = 0;
    while j < stamped.len()
        invariant
            j <= stamped.len(),
            ordered.len() == j,
            forall|k: int| 0 <= k < j ==> (#[trigger] ordered@[k])@ == stamped@[k].path@,
        decreases stamped.len() - j,
    {
        ordered.push(stamped[j].path.clone());
        j += 1;
    }
    proof {
        assert(texts(ordered@) =~= stamped@.map_values(stamped_path()));
    }
    *files = ordered;
}

/// Orders the paths by modification time, the most recent first.
pub fn rank_path_by_last_modified_date(fs: &FileSystem, files: &mut Vec<String>)
    ensures
        texts(final(files)@) == ranked_by(
            texts(old(files)@),
            fs.path_rank(),
            Ranking::NewestFirst,
        ),
{
    rank_paths_by_time(fs, files, Ranking::NewestFirst);
}

/// Orders the paths by modification time, the oldest first.
pub fn reverse_rank_path_by_last_modified_date(fs: &FileSystem, files: &mut Vec<String>)
    ensures
        texts(final(files)@) == ranked_by(
            texts(old(files)@),
            fs.path_rank(),
            Ranking::OldestFirst,
        ),
{
    rank_paths_by_time(fs, files, Ranking::OldestFirst);
}

/// The arguments in the order in which they are listed: by name, or by the
/// time at which they were last modified, the most recent first; the other
/// way round where the order is reversed.
pub open spec fn ordered_arguments(fs: FileSystem, parameters: Parameters, args: Seq<Seq<char>>) -> Seq<
    Seq<char>,
> {
    if parameters.reverse_order {
        if parameters.last_modified_order {
            ranked_by(args, fs.path_rank(), Ranking::OldestFirst)
        } else {
            ranked_names(args, Ranking::NameDescending)
        }
    } else if parameters.last_modified_order {
        ranked_by(args, fs.path_rank(), Ranking::NewestFirst)
    } else {
        ranked_names(args, Ranking::NameAscending)
    }
}

/// Puts the arguments, where they stand, in the order in which they are
/// listed.
pub fn order_arguments(fs: &FileSystem, parameters: &Parameters, args: &mut Vec<String>)
    ensures
        texts(final(args)@) == ordered_arguments(*fs, *parameters, texts(old(args)@)),
        final(args).len() == old(args).len(),
{
    proof {
        lemma_ranked_len(texts(args@), fs.path_rank(), Ranking::OldestFirst);
        lemma_ranked_len(texts(args@), fs.path_rank(), Ranking::NewestFirst);
        lemma_ranked_len(texts(args@), name_rank(), Ranking::NameDescending);
        lemma_ranked_len(texts(args@), name_rank(), Ranking::NameAscending);
    }
    if parameters.reverse_order {
        if parameters.last_modified_order {
            reverse_rank_path_by_last_modified_date(fs, args);
        } else {
            reverse_alphabetically_rank_strings(args);
        }
    } else if parameters.last_modified_order {
        rank_path_by_last_modified_date(fs, args);
    } else {
        alphabetically_rank_strings(args);
    }
}

/// Puts the arguments in the order in which they are listed.
pub fn check_parameters(fs: &FileSystem, parameters: &Parameters, args: Vec<String>) -> (ordered:
    Vec<String>)
    ensures
        texts(ordered@) == ordered_arguments(*fs, *parameters, texts(args@)),
{
    let mut args = args;
    order_arguments(fs, parameters, &mut args);
    args
}

/// Whether a place names a directory.
pub open spec fn is_directory(place: Place) -> bool {
    place.entry is Some && place.entry->0.file.is_dir
}

/// The directories that a recursive listing shows under headers, for the
/// first `upto` places: each directory that was named, where more than one
/// path was named, followed at once by every subdirectory under it.
pub open spec fn walked(places: Seq<Place>, upto: int, parameters: Parameters) -> Seq<PathEntry>
    decreases upto,
{
    if upto <= 0 {
        Seq::empty()
    } else {
        let before = walked(places, upto - 1, parameters);
        let place = places[upto - 1];
        if is_directory(place) {
            if places.len() > 1 {
                before + seq![place.entry->0] + subdirectories(place.entry->0, parameters)
            } else {
                before + subdirectories(place.entry->0, parameters)
            }
        } else {
            before
        }
    }
}

/// The records of the first `upto` places that exist and are no directory.
pub open spec fn strays(places: Seq<Place>, upto: int) -> Seq<File>
    decreases upto,
{
    if upto <= 0 {
        Seq::empty()
    } else {
        let before = strays(places, upto - 1);
        let place = places[upto - 1];
        if place.entry is Some && !is_directory(place) {
            before.push(place.entry->0.file)
        } else {
            before
        }
    }
}

/// Collects the directories of a recursive listing, and the records of what
/// is no directory.
pub fn assemble_vectors<'a>(
    targets: &Vec<Target<'a>>,
    directories: &mut Vec<&'a PathEntry>,
    single_files: &mut Vec<File>,
    parameters: &Parameters,
)
    ensures
        entries_of(final(directories)@) == entries_of(old(directories)@) + walked(
            places_of(targets@),
            targets.len() as int,
            *parameters,
        ),
        final(single_files)@ == old(single_files)@ + strays(
            places_of(targets@),
            targets.len() as int,
        ),
{
    let number_of_arguments = targets.len();
    let ghost places = places_of(targets@);
    let ghost first_directories = entries_of(directories@);
    let ghost first_files = single_files@;
    let mut i: usize = 0;
    proof {
        assert(entries_of(directories@) =~= first_directories + walked(places, 0, *parameters));
        assert(single_files@ =~= first_files + strays(places, 0));
    }
    while i < targets.len()
        invariant
            i <= targets.len(),
            number_of_arguments == targets.len(),
            places == places_of(targets@),
            entries_of(directories@) == first_directories + walked(places, i as int, *parameters),
            single_files@ == first_files + strays(places, i as int),
        decreases targets.len() - i,
    {
        proof {
            assert(places[i as int] == targets@[i as int].place());
        }
        let ghost before = entries_of(directories@);
        let ghost files_before = single_files@;
        match targets[i].entry {
            Some(entry) => {
                if entry.file.is_dir {
                    if number_of_arguments > 1 {
                        directories.push(entry);
                    }
                    let mut below = directory_traversal(entry, parameters);
                    let ghost deeper = entries_of(below@);
                    directories.append(&mut below);
                    proof {
                        if number_of_arguments > 1 {
                            assert(entries_of(directories@) =~= before + seq![*entry] + deeper);
                        } else {
                            assert(entries_of(directories@) =~= before + deeper);
                        }
                        assert(entries_of(directories@) =~= first_directories + walked(
                            places,
                            i + 1,
                            *parameters,
                        ));
                    }
                } else {
                    single_files.push(entry.file.duplicate());
                    proof {
                        assert(single_files@ =~= first_files + strays(places, i + 1));
                    }
                }
            },
            None => {},
        }
        i += 1;
    }
}

/// What a recursive listing of a single directory shows first: the files of
/// the directory itself, without a header, or the complaint.
pub open spec fn root_text(
    fs: FileSystem,
    place: Place,
    extra: Seq<File>,
    parameters: Parameters,
    terminal_width: Option<u16>,
) -> Seq<char> {
    if readable(place) {
        section_body(files_at(fs, place, parameters) + extra, parameters, terminal_width)
    } else {
        missing_line(place.path) + newline()
    }
}

/// Lists the files of the single directory of a recursive listing.
pub fn include_root_files(
    fs: &FileSystem,
    single_files: &mut Vec<File>,
    folder: &Target,
    parameters: &Parameters,
    terminal_width: Option<u16>,
) -> (out: String)
    ensures
        out@ == root_text(*fs, folder.place(), old(single_files)@, *parameters, terminal_width),
{
    match read_target(fs, folder, parameters) {
        Ok(files) => {
            let mut files = files;
            files.append(single_files);
            print_section_body(files, parameters, terminal_width)
        },
        Err(error_message) => {
            let mut out = error_message;
            push_newline(&mut out);
            out
        },
    }
}

/// What a recursive listing prints for paths that exist.
///
/// The plain files come first: one as its bare name, several in columns.
/// The other paths follow in the order that the switches ask for. A single
/// directory shows its own files without a header. After that every
/// directory found by walking is shown under a header with its path, with
/// one blank line between the parts.
pub open spec fn recursive_text(
    fs: FileSystem,
    args: Seq<Seq<char>>,
    parameters: Parameters,
    terminal_width: Option<u16>,
) -> Seq<char> {
    let rest = ordered_arguments(fs, parameters, args.filter(negated(fs.is_plain_file())));
    let places = fs.places(rest);
    let directories = walked(places, places.len() as int, parameters);
    single_files_text(fs, args, parameters, terminal_width) + (if rest.len() != 0 {
        gap_after(single_files(fs, args, parameters).len() as int)
    } else {
        Seq::empty()
    }) + (if rest.len() == 1 {
        root_text(
            fs,
            places[0],
            strays(places, places.len() as int),
            parameters,
            terminal_width,
        ) + if directories.len() != 0 {
            newline()
        } else {
            Seq::empty()
        }
    } else {
        Seq::empty()
    }) + folders_text(fs, found_places(directories), true, parameters, terminal_width)
}

/// Lists the paths and every directory under them. Of the arguments the
/// paths that are no plain files are left, in the order in which they were
/// listed.
pub fn handle_recursivity(
    fs: &FileSystem,
    args: &mut Vec<String>,
    parameters: &Parameters,
    terminal_width: Option<u16>,
) -> (out: String)
    ensures
        out@ == recursive_text(*fs, texts(old(args)@), *parameters, terminal_width),
        texts(final(args)@) == ordered_arguments(
            *fs,
            *parameters,
            texts(old(args)@).filter(negated(fs.is_plain_file())),
        ),
{
    let mut directories: Vec<&PathEntry> = Vec::new();
    let mut single_files: Vec<File> = Vec::new();
    let given = args.len();
    let shown = handle_single_files(fs, args, parameters, terminal_width);
    let mut out = shown.1;
    let count = given - args.len();
    order_arguments(fs, parameters, args);
    if !args.is_empty() {
        push_gap_after(&mut out, count);
    }
    let targets = fs.resolve(args);
    let ghost places = places_of(targets@);
    assemble_vectors(&targets, &mut directories, &mut single_files, parameters);
    proof {
        assert(entries_of(directories@) =~= walked(places, places.len() as int, *parameters));
        assert(single_files@ =~= strays(places, places.len() as int));
    }
    if targets.len() == 1 {
        proof {
            assert(places[0] == targets@[0].place());
        }
        let root = include_root_files(
            fs,
            &mut single_files,
            &targets[0],
            parameters,
            terminal_width,
        );
        out.append(root.as_str());
        if !directories.is_empty() {
            push_newline(&mut out);
        }
    }
    let found = targets_of(&directories);
    proof {
        assert(places_of(found@) =~= found_places(entries_of(directories@)));
    }
    let sections = handle_multiple_arguments(fs, &found, parameters, terminal_width);
    out.append(sections.as_str());
    out
}

/// What the command prints.
///
/// The first argument is the name of the program. Every path at which
/// nothing exists is reported first. A recursive listing follows where it is
/// asked for. Otherwise the plain files are shown, one as its bare name and
/// several in columns, and after one blank line the directories in the order
/// that the switches ask for: a single one alone as it is, several under
/// headers.
pub open spec fn command_text(fs: FileSystem, args: Seq<Seq<char>>, terminal_width: Option<u16>) -> Seq<
    char,
> {
    let given = args.drop_first();
    let parameters = parameters_of(given);
    let existing = path_arguments(given).filter(fs.is_known());
    let files = single_files(fs, existing, parameters);
    let rest = ordered_arguments(fs, parameters, existing.filter(negated(fs.is_plain_file())));
    missing_report(fs, path_arguments(given)) + if parameters.recursive_listing {
        recursive_text(fs, existing, parameters, terminal_width)
    } else {
        single_files_text(fs, existing, parameters, terminal_width) + if rest.len() == 0 {
            Seq::empty()
        } else if files.len() == 0 {
            folders_text(fs, fs.places(rest), false, parameters, terminal_width)
        } else {
            gap_after(files.len() as int) + folders_text(
                fs,
                fs.places(rest),
                true,
                parameters,
                terminal_width,
            )
        }
    }
}

/// Runs the command on the arguments of the process and on what is on disk,
/// and gives the text to print.
pub fn handle_command(fs: &FileSystem, args: Vec<String>, terminal_width: Option<u16>) -> (out: String)
    requires
        args.len() > 0,
    ensures
        out@ == command_text(*fs, texts(args@), terminal_width),
{
    let mut args = args;
    let ghost typed = texts(args@);
    args.remove(0);
    proof {
        assert(texts(args@) =~= typed.drop_first());
    }
    let parameters = parse_parameters(&mut args);
    let mut out = handle_unexisting_files(fs, &mut args);
    if parameters.recursive_listing {
        let listing = handle_recursivity(fs, &mut args, &parameters, terminal_width);
        out.append(listing.as_str());
        return out;
    }
    let given = args.len();
    let shown = handle_single_files(fs, &mut args, &parameters, terminal_width);
    out.append(shown.1.as_str());
    let count = given - args.len();
    let args = check_parameters(fs, &parameters, args);
    if !args.is_empty() {
        if shown.0 {
            let listing = handle_folders(fs, args, false, &parameters, terminal_width);
            out.append(listing.as_str());
        } else {
            push_gap_after(&mut out, count);
            let listing = handle_folders(fs, args, true, &parameters, terminal_width);
            out.append(listing.as_str());
        }
    }
    out
}

/// The text depends on nothing but the arguments, what is on disk and the
/// width of the terminal: run twice on the same, the command prints the same.
pub proof fn lemma_command_repeats(
    fs: FileSystem,
    args: Seq<Seq<char>>,
    terminal_width: Option<u16>,
    first: Seq<char>,
    second: Seq<char>,
)
    requires
        first == command_text(fs, args, terminal_width),
        second == command_text(fs, args, terminal_width),
    ensures
        first == second,
{
}

} // verus!
