//! Listing directories: the files of one directory, and the sections that
//! several directories make.

use vstd::prelude::*;
use crate::arguments::{missing_line, missing_message};
use crate::disk::{dot, dot_dot, places_of, FileSystem, PathEntry, Place, Target};
use crate::grid::{print_shown, shown_text, simple_print, simple_text};
use crate::long_format::{long_format_print, long_text};
use crate::parameters::Parameters;
use crate::ranking::{
    bytes_le,
    file_rank_redirect,
    lemma_ranked_behind,
    name_key,
    own_key,
    ranked,
    ranked_by,
    ranking_of,
    ranks_before,
    Ranking,
};
use crate::records::{retain_visible, visible, File};
use crate::text::{newline, push_newline, texts};
use crate::traversal::children;

verus! {

/// The records of the entries of a directory, in the order in which they
/// were read.
pub open spec fn entry_files(entries: Seq<PathEntry>) -> Seq<File> {
    Seq::new(entries.len(), |i: int| entries[i].file)
}

/// The records that a listing of a directory starts from: where dot files
/// are asked for, the current directory and its parent; then the entries.
pub open spec fn gathered(fs: FileSystem, entries: Seq<PathEntry>, parameters: Parameters) -> Seq<
    File,
> {
    if parameters.include_dot_files {
        seq![fs.current, fs.parent] + entry_files(entries)
    } else {
        entry_files(entries)
    }
}

/// The records of a directory in the order in which they are listed.
pub open spec fn listed(fs: FileSystem, entries: Seq<PathEntry>, parameters: Parameters) -> Seq<
    File,
> {
    ranked(gathered(fs, entries, parameters), ranking_of(parameters))
}

/// Where dot files are asked for and the listing goes by name, the current
/// directory and its parent come first, as `.` and `..`, as long as no entry
/// has a name that stands before `..` in byte order; the entries follow in
/// their own order, the dot files among them.
pub proof fn lemma_dot_records_lead(fs: FileSystem, entries: Seq<PathEntry>, parameters: Parameters)
    requires
        fs.well_named(),
        parameters.include_dot_files,
        !parameters.reverse_order,
        !parameters.last_modified_order,
        forall|i: int|
            0 <= i < entries.len() ==> bytes_le(
                name_key(dot_dot()),
                name_key((#[trigger] entries[i]).file.path_name@),
            ),
    ensures
        listed(fs, entries, parameters) == seq![fs.current, fs.parent] + ranked(
            entry_files(entries),
            Ranking::NameAscending,
        ),
        listed(fs, entries, parameters)[0].path_name@ == dot(),
        listed(fs, entries, parameters)[1].path_name@ == dot_dot(),
{
    let head = seq![fs.current, fs.parent];
    let key = own_key::<File>();
    let order = Ranking::NameAscending;
    lemma_dot_before_dot_dot();
    assert(ranked_by(head, key, order) == head) by {
        let one = seq![fs.current];
        assert(head.drop_last() =~= one);
        assert(one.drop_last() =~= Seq::<File>::empty());
        assert(ranked_by(one.drop_last(), key, order) =~= Seq::<File>::empty());
        assert(ranked_by(one, key, order) =~= one);
        assert(one.push(fs.parent) =~= head);
    }
    let files = entry_files(entries);
    assert forall|i: int| 0 <= i < files.len() implies ranks_before(
        order,
        key(head.last()),
        key(#[trigger] files[i]),
    ) by {
        assert(files[i] == entries[i].file);
    }
    lemma_ranked_behind(head, files, key, order);
}

/// In byte order `.` stands before `..`.
pub proof fn lemma_dot_before_dot_dot()
    ensures
        bytes_le(name_key(dot()), name_key(dot_dot())),
{
    vstd::utf8::is_ascii_chars_encode_utf8(dot());
    vstd::utf8::is_ascii_chars_encode_utf8(dot_dot());
    let a = name_key(dot());
    let b = name_key(dot_dot());
    assert(a.len() == 1 && b.len() == 2);
    assert(a[0] == b[0]);
    assert(a.drop_first().len() == 0);
    assert(bytes_le(a.drop_first(), b.drop_first()));
}

/// Appends the records of the current directory and of its parent.
pub fn insert_dot_files_in_vector(fs: &FileSystem, files: &mut Vec<File>)
    ensures
        final(files)@ == old(files)@ + seq![fs.current, fs.parent],
{
    files.push(fs.current.duplicate());
    files.push(fs.parent.duplicate());
    assert(files@ =~= old(files)@ + seq![fs.current, fs.parent]);
}

/// Appends the records that a listing of the directory starts from.
pub fn insert_path_in_vector(
    fs: &FileSystem,
    paths: &Vec<PathEntry>,
    files: &mut Vec<File>,
    parameters: &Parameters,
)
    ensures
        final(files)@ == old(files)@ + gathered(*fs, paths@, *parameters),
{
    if parameters.include_dot_files {
        insert_dot_files_in_vector(fs, files);
    }
    let ghost head = files@;
    let mut i: usize = 0;
    while i < paths.len()
        invariant
            i <= paths.len(),
            files@ == head + entry_files(paths@).take(i as int),
        decreases paths.len() - i,
    {
        files.push(paths[i].file.duplicate());
        proof {
            assert(files@ =~= head + entry_files(paths@).take(i + 1));
        }
        i += 1;
    }
    proof {
        assert(entry_files(paths@).take(i as int) =~= entry_files(paths@));
        assert(files@ =~= old(files)@ + gathered(*fs, paths@, *parameters));
    }
}

/// The records of a directory in the order in which they are listed.
pub fn create_files_vector(fs: &FileSystem, paths: &Vec<PathEntry>, parameters: &Parameters) -> (files:
    Vec<File>)
    ensures
        files@ == listed(*fs, paths@, *parameters),
{
    let mut files: Vec<File> = Vec::new();
    insert_path_in_vector(fs, paths, &mut files, parameters);
    proof {
        assert(files@ =~= gathered(*fs, paths@, *parameters));
    }
    file_rank_redirect(&mut files, parameters);
    files
}

/// Whether a place can be read as a directory: something is there, and its
/// entries were read.
pub open spec fn readable(place: Place) -> bool {
    place.entry is Some && place.entry->0.entries is Some
}

/// The records of the directory at a place that can be read.
pub open spec fn files_at(fs: FileSystem, place: Place, parameters: Parameters) -> Seq<File> {
    listed(fs, children(place.entry->0), parameters)
}

/// Reads the directory at a target: its records in the order in which they
/// are listed, or the complaint where it cannot be read.
pub fn read_target(fs: &FileSystem, target: &Target, parameters: &Parameters) -> (result: Result<
    Vec<File>,
    String,
>)
    ensures
        result is Ok <==> readable(target.place()),
        result is Ok ==> result->Ok_0@ == files_at(*fs, target.place(), *parameters),
        result is Err ==> result->Err_0@ == missing_line(target.path@),
{
    match target.entry {
        Some(entry) => match &entry.entries {
            Some(entries) => Ok(create_files_vector(fs, entries, parameters)),
            None => Err(missing_message(target.path.as_str())),
        },
        None => Err(missing_message(target.path.as_str())),
    }
}

/// Reads the directory at a path: its records in the order in which they are
/// listed, or the complaint where nothing is there or it cannot be read.
pub fn one_argument(fs: &FileSystem, target_path: &str, parameters: &Parameters) -> (result: Result<
    Vec<File>,
    String,
>)
    ensures
        result is Ok <==> readable(fs.place_of(target_path@)),
        result is Ok ==> result->Ok_0@ == files_at(*fs, fs.place_of(target_path@), *parameters),
        result is Err ==> result->Err_0@ == missing_line(target_path@),
{
    let target = fs.locate(target_path);
    read_target(fs, &target, parameters)
}

/// The listing of files in the format that the switches ask for.
pub open spec fn listing_text(files: Seq<File>, parameters: Parameters, terminal_width: Option<u16>) -> Seq<
    char,
> {
    if parameters.long_format {
        long_text(files, parameters, false)
    } else {
        simple_text(files, parameters, terminal_width)
    }
}

/// Prints files in the format that the switches ask for.
pub fn print_format_redirect(files: Vec<File>, parameters: &Parameters, terminal_width: Option<u16>) -> (out:
    String)
    ensures
        out@ == listing_text(files@, *parameters, terminal_width),
{
    if parameters.long_format {
        long_format_print(files, parameters, false)
    } else {
        simple_print(files, parameters, terminal_width)
    }
}

/// Whether a place names something that is no directory.
pub open spec fn plain(place: Place) -> bool {
    place.entry is Some && !place.entry->0.file.is_dir
}

/// What is printed for a place that is the only one: the path of a plain
/// file, the listing of a directory, or the complaint.
pub open spec fn single_text(
    fs: FileSystem,
    place: Place,
    parameters: Parameters,
    terminal_width: Option<u16>,
) -> Seq<char> {
    if plain(place) {
        place.path + newline()
    } else if readable(place) {
        listing_text(files_at(fs, place, parameters), parameters, terminal_width)
    } else {
        missing_line(place.path) + newline()
    }
}

/// Lists a target that is the only one, without a header.
pub fn handle_single_arguments(
    fs: &FileSystem,
    target: &Target,
    parameters: &Parameters,
    terminal_width: Option<u16>,
) -> (out: String)
    ensures
        out@ == single_text(*fs, target.place(), *parameters, terminal_width),
{
    if is_plain(target) {
        let mut out = target.path.clone();
        push_newline(&mut out);
        out
    } else {
        match read_target(fs, target, parameters) {
            Ok(files) => print_format_redirect(files, parameters, terminal_width),
            Err(error_message) => {
                let mut out = error_message;
                push_newline(&mut out);
                out
            },
        }
    }
}

/// Tests whether a target names something that is no directory.
pub fn is_plain(target: &Target) -> (r: bool)
    ensures
        r == plain(target.place()),
{
    match target.entry {
        Some(entry) => !entry.file.is_dir,
        None => false,
    }
}

/// The listing of a directory as a section shows it under its header: the
/// listing closed by a line break where it lacks one, and nothing at all for
/// a short listing without entries.
pub open spec fn section_body(files: Seq<File>, parameters: Parameters, terminal_width: Option<u16>) -> Seq<
    char,
> {
    if parameters.long_format {
        long_text(files, parameters, false)
    } else {
        let shown = visible(files, parameters);
        if shown.len() == 1 {
            shown_text(shown, terminal_width) + newline()
        } else if shown.len() == 0 && terminal_width is Some {
            Seq::empty()
        } else {
            shown_text(shown, terminal_width)
        }
    }
}

/// Prints the listing of a directory as a section shows it under its header.
pub fn print_section_body(files: Vec<File>, parameters: &Parameters, terminal_width: Option<u16>) -> (out:
    String)
    ensures
        out@ == section_body(files@, *parameters, terminal_width),
{
    if parameters.long_format {
        long_format_print(files, parameters, false)
    } else {
        let shown = retain_visible(files, parameters);
        if shown.len() == 1 {
            let mut out = print_shown(&shown, terminal_width);
            push_newline(&mut out);
            out
        } else if shown.len() == 0 && terminal_width.is_some() {
            String::new()
        } else {
            print_shown(&shown, terminal_width)
        }
    }
}

/// The header of a section: the path, a colon and a line break.
pub open spec fn header(path: Seq<char>) -> Seq<char> {
    path + seq![':'] + newline()
}

/// What is printed for one place among several: the path of a plain file,
/// the section of a directory with its header, or the complaint.
pub open spec fn item_text(
    fs: FileSystem,
    place: Place,
    parameters: Parameters,
    terminal_width: Option<u16>,
) -> Seq<char> {
    if plain(place) {
        place.path + newline()
    } else if readable(place) {
        header(place.path) + section_body(
            files_at(fs, place, parameters),
            parameters,
            terminal_width,
        )
    } else {
        missing_line(place.path) + newline()
    }
}

/// Whether a blank line follows the item at `index`: it is not the last, and
/// it is no complaint.
pub open spec fn gap_follows(places: Seq<Place>, index: int) -> bool {
    index != places.len() - 1 && (plain(places[index]) || readable(places[index]))
}

/// What is printed for the first `upto` of several places: one item each, a
/// blank line between an item and the next.
pub open spec fn items_text(
    fs: FileSystem,
    places: Seq<Place>,
    upto: int,
    parameters: Parameters,
    terminal_width: Option<u16>,
) -> Seq<char>
    decreases upto,
{
    if upto <= 0 {
        Seq::empty()
    } else {
        items_text(fs, places, upto - 1, parameters, terminal_width) + item_text(
            fs,
            places[upto - 1],
            parameters,
            terminal_width,
        ) + if gap_follows(places, upto - 1) {
            newline()
        } else {
            Seq::empty()
        }
    }
}

/// Prints one target among several.
fn print_item(
    fs: &FileSystem,
    target: &Target,
    parameters: &Parameters,
    terminal_width: Option<u16>,
) -> (out: String)
    ensures
        out@ == item_text(*fs, target.place(), *parameters, terminal_width),
{
    if is_plain(target) {
        let mut out = target.path.clone();
        push_newline(&mut out);
        out
    } else {
        match read_target(fs, target, parameters) {
            Ok(files) => {
                let mut out = target.path.clone();
                proof {
                    reveal_strlit(":");
                    assert(":"@ =~= seq![':']);
                }
                out.append(":");
                push_newline(&mut out);
                let body = print_section_body(files, parameters, terminal_width);
                out.append(body.as_str());
                proof {
                    assert(out@ =~= header(target.path@) + body@);
                }
                out
            },
            Err(error_message) => {
                let mut out = error_message;
                push_newline(&mut out);
                out
            },
        }
    }
}

/// Lists several targets one after the other: each directory under a header
/// with its path, and one blank line between an item and the next.
pub fn handle_multiple_arguments(
    fs: &FileSystem,
    targets: &Vec<Target>,
    parameters: &Parameters,
    terminal_width: Option<u16>,
) -> (out: String)
    ensures
        out@ == items_text(
            *fs,
            places_of(targets@),
            targets.len() as int,
            *parameters,
            terminal_width,
        ),
{
    let mut out = String::new();
    let mut counter: usize = 0;
    let ghost places = places_of(targets@);
    while counter != targets.len()
        invariant
            counter <= targets.len(),
            places == places_of(targets@),
            out@ == items_text(*fs, places, counter as int, *parameters, terminal_width),
        decreases targets.len() - counter,
    {
        let target = &targets[counter];
        proof {
            assert(places[counter as int] == target.place());
        }
        let readable = is_plain(target) || is_readable(target);
        let text = print_item(fs, target, parameters, terminal_width);
        out.append(text.as_str());
        if counter != targets.len() - 1 && readable {
            push_newline(&mut out);
        }
        counter += 1;
    }
    out
}

/// Tests whether the directory at a target was read.
pub fn is_readable(target: &Target) -> (r: bool)
    ensures
        r == readable(target.place()),
{
    match target.entry {
        Some(entry) => entry.entries.is_some(),
        None => false,
    }
}

/// What is printed for the places that are left once the plain files are
/// out: several, or one where a header is asked for, go one after the other
/// under headers; one alone is listed without a header.
pub open spec fn folders_text(
    fs: FileSystem,
    places: Seq<Place>,
    multiple_arguments: bool,
    parameters: Parameters,
    terminal_width: Option<u16>,
) -> Seq<char> {
    if places.len() > 1 || multiple_arguments {
        items_text(fs, places, places.len() as int, parameters, terminal_width)
    } else if places.len() == 1 {
        single_text(fs, places[0], parameters, terminal_width)
    } else {
        Seq::empty()
    }
}

/// Lists the targets that are left once the plain files are out.
pub fn list_targets(
    fs: &FileSystem,
    targets: &Vec<Target>,
    multiple_arguments: bool,
    parameters: &Parameters,
    terminal_width: Option<u16>,
) -> (out: String)
    ensures
        out@ == folders_text(
            *fs,
            places_of(targets@),
            multiple_arguments,
            *parameters,
            terminal_width,
        ),
{
    if targets.len() > 1 || multiple_arguments {
        handle_multiple_arguments(fs, targets, parameters, terminal_width)
    } else if targets.len() == 1 {
        proof {
            assert(places_of(targets@)[0] == targets@[0].place());
        }
        handle_single_arguments(fs, &targets[0], parameters, terminal_width)
    } else {
        String::new()
    }
}

/// Lists the paths that are left once the plain files are out.
pub fn handle_folders(
    fs: &FileSystem,
    args: Vec<String>,
    multiple_arguments: bool,
    parameters: &Parameters,
    terminal_width: Option<u16>,
) -> (out: String)
    ensures
        out@ == folders_text(
            *fs,
            fs.places(texts(args@)),
            multiple_arguments,
            *parameters,
            terminal_width,
        ),
{
    let targets = fs.resolve(&args);
    list_targets(fs, &targets, multiple_arguments, parameters, terminal_width)
}

} // verus!
