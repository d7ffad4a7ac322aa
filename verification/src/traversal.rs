//! Walking the subdirectories of a directory for a recursive listing.

use vstd::prelude::*;
use crate::disk::PathEntry;
use crate::names::{last_component, path_name_of, separator};
use crate::parameters::Parameters;
use crate::ranking::{
    lemma_ranked_maps,
    lemma_ranked_same_items,
    name_key,
    own_key,
    rank,
    ranked_by,
    ranking_of,
    KeyOf,
    RankKey,
    Ranked,
    Ranking,
};
use crate::records::{File, Timestamp};
use crate::text::{starts_with_char, texts};

verus! {

/// A path is ordered by the name and the modification time of what it names.
impl<'a> Ranked for &'a PathEntry {
    open spec fn rank_key(&self) -> RankKey {
        RankKey { name: name_key(self.file.path_name@), instant: self.file.last_modified.instant() }
    }

    fn name_bytes(&self) -> (bytes: &[u8]) {
        self.file.path_name.as_str().as_bytes()
    }

    fn modified(&self) -> (time: Timestamp) {
        self.file.last_modified
    }
}

/// What a path is ordered by.
pub open spec fn entry_rank() -> KeyOf<PathEntry> {
    |entry: PathEntry|
        RankKey {
            name: name_key(entry.file.path_name@),
            instant: entry.file.last_modified.instant(),
        }
}

/// The entries of a directory that was read; none for anything else.
pub open spec fn children(entry: PathEntry) -> Seq<PathEntry> {
    match entry.entries {
        Some(entries) => entries@,
        None => Seq::empty(),
    }
}

/// The entries of a directory in the order that the switches ask for.
pub open spec fn ranked_children(entry: PathEntry, parameters: Parameters) -> Seq<PathEntry> {
    ranked_by(children(entry), entry_rank(), ranking_of(parameters))
}

/// Whether a recursive listing goes down into an entry: it is a directory
/// and its name does not begin with a dot.
pub open spec fn descends(entry: PathEntry) -> bool {
    entry.file.is_dir && !entry.file.is_dot_file()
}

/// Tests whether a recursive listing goes down into what a record stands
/// for: a directory whose name does not begin with a dot.
pub fn is_walked(file: &File) -> (r: bool)
    ensures
        r == (file.is_dir && !file.is_dot_file()),
{
    file.is_dir && !starts_with_char(file.path_name.as_str(), '.')
}

/// The subdirectories found under the first `upto` ranked entries of a
/// directory: each subdirectory, followed at once by all that is found under
/// it, before the next entry is looked at.
pub open spec fn found_below(entry: PathEntry, parameters: Parameters, upto: nat) -> Seq<PathEntry>
    decreases entry, upto,
{
    if upto == 0 || upto > ranked_children(entry, parameters).len() {
        Seq::empty()
    } else {
        let child = ranked_children(entry, parameters)[upto - 1];
        proof {
            lemma_ranked_same_items(children(entry), entry_rank(), ranking_of(parameters));
            assert(children(entry).contains(child));
        }
        let before = found_below(entry, parameters, (upto - 1) as nat);
        if descends(child) {
            before + seq![child] + found_below(
                child,
                parameters,
                ranked_children(child, parameters).len(),
            )
        } else {
            before
        }
    }
}

/// Every subdirectory under a directory, in the order in which a recursive
/// listing shows them: depth first, each directory before what it holds.
pub open spec fn subdirectories(entry: PathEntry, parameters: Parameters) -> Seq<PathEntry> {
    found_below(entry, parameters, ranked_children(entry, parameters).len())
}

/// What a reference points to.
pub open spec fn pointee<'a>() -> spec_fn(&'a PathEntry) -> PathEntry {
    |entry: &'a PathEntry| *entry
}

/// The paths that a list of references points to.
pub open spec fn entries_of<'a>(paths: Seq<&'a PathEntry>) -> Seq<PathEntry> {
    paths.map_values(pointee())
}

/// Orders the paths in the given order.
fn rank_paths(paths: &mut Vec<&PathEntry>, ranking: Ranking)
    ensures
        entries_of(final(paths)@) == ranked_by(entries_of(old(paths)@), entry_rank(), ranking),
{
    proof {
        lemma_ranked_maps(paths@, pointee(), own_key::<&PathEntry>(), entry_rank(), ranking);
    }
    rank(paths, ranking);
}

/// Orders the paths by the name of what they name.
pub fn alphabetically_rank_path_bufs(paths: &mut Vec<&PathEntry>)
    ensures
        entries_of(final(paths)@) == ranked_by(
            entries_of(old(paths)@),
            entry_rank(),
            Ranking::NameAscending,
        ),
{
    rank_paths(paths, Ranking::NameAscending);
}

/// Orders the paths by name, the last name first.
pub fn reverse_alphabetically_rank_path_bufs(paths: &mut Vec<&PathEntry>)
    ensures
        entries_of(final(paths)@) == ranked_by(
            entries_of(old(paths)@),
            entry_rank(),
            Ranking::NameDescending,
        ),
{
    rank_paths(paths, Ranking::NameDescending);
}

/// Orders the paths by modification time, the most recent first.
pub fn rank_path_bufs_by_last_modified_date(paths: &mut Vec<&PathEntry>)
    ensures
        entries_of(final(paths)@) == ranked_by(
            entries_of(old(paths)@),
            entry_rank(),
            Ranking::NewestFirst,
        ),
{
    rank_paths(paths, Ranking::NewestFirst);
}

/// Orders the paths by modification time, the oldest first.
pub fn reverse_rank_path_bufs_by_last_modified_date(paths: &mut Vec<&PathEntry>)
    ensures
        entries_of(final(paths)@) == ranked_by(
            entries_of(old(paths)@),
            entry_rank(),
            Ranking::OldestFirst,
        ),
{
    rank_paths(paths, Ranking::OldestFirst);
}

/// Orders the paths as the switches ask.
pub fn path_buf_rank_redirect(pathbufs: &mut Vec<&PathEntry>, parameters: &Parameters)
    ensures
        entries_of(final(pathbufs)@) == ranked_by(
            entries_of(old(pathbufs)@),
            entry_rank(),
            ranking_of(*parameters),
        ),
{
    if parameters.reverse_order {
        if parameters.last_modified_order {
            reverse_rank_path_bufs_by_last_modified_date(pathbufs);
        } else {
            reverse_alphabetically_rank_path_bufs(pathbufs);
        }
    } else {
        if parameters.last_modified_order {
            rank_path_bufs_by_last_modified_date(pathbufs);
        } else {
            alphabetically_rank_path_bufs(pathbufs);
        }
    }
}

/// The name of what a path names: its last component. It holds no
/// separator, and it is the name of the record where the entry is named by
/// its path.
pub fn get_path_name(path: &PathEntry) -> (name: String)
    ensures
        name@ == last_component(path.path@),
        !name@.contains(separator()),
        path.named_by_path() ==> name@ == path.file.path_name@,
{
    path_name_of(path.path.as_str())
}

/// The texts of the paths, in their order.
pub open spec fn path_texts(paths: Seq<PathEntry>) -> Seq<Seq<char>> {
    Seq::new(paths.len(), |i: int| paths[i].path@)
}

/// Writes the paths out as strings.
pub fn convert_path_buf_vector_to_string_vector(pathbufs: &Vec<&PathEntry>) -> (filenames: Vec<String>)
    ensures
        texts(filenames@) == path_texts(entries_of(pathbufs@)),
{
    let mut filenames: Vec<String> = Vec::new();
    let mut i: usize = 0;
    while i < pathbufs.len()
        invariant
            i <= pathbufs.len(),
            filenames.len() == i,
            forall|k: int| 0 <= k < i ==> (#[trigger] filenames@[k])@ == pathbufs@[k].path@,
        decreases pathbufs.len() - i,
    {
        filenames.push(pathbufs[i].path.clone());
        i += 1;
    }
    proof {
        assert(texts(filenames@) =~= path_texts(entries_of(pathbufs@)));
    }
    filenames
}

/// References to the entries of a directory, in the order in which they were
/// read.
fn children_of<'a>(path: &'a PathEntry) -> (found: Vec<&'a PathEntry>)
    ensures
        entries_of(found@) == children(*path),
{
    let mut found: Vec<&'a PathEntry> = Vec::new();
    match &path.entries {
        Some(entries) => {
            let mut i: usize = 0;
            while i < entries.len()
                invariant
                    i <= entries.len(),
                    found.len() == i,
                    forall|k: int| 0 <= k < i ==> *(#[trigger] found@[k]) == entries@[k],
                decreases entries.len() - i,
            {
                found.push(&entries[i]);
                i += 1;
            }
            proof {
                assert(entries_of(found@) =~= entries@);
            }
        },
        None => {
            proof {
                assert(entries_of(found@) =~= Seq::empty());
            }
        },
    }
    found
}

/// Collects every subdirectory under a directory for a recursive listing.
///
/// The entries of the directory are put in the order that the switches ask
/// for. Each entry that is a directory and whose name does not begin with a
/// dot is collected, followed at once by the subdirectories under it.
pub fn directory_traversal<'a>(path: &'a PathEntry, parameters: &Parameters) -> (directories: Vec<
    &'a PathEntry,
>)
    ensures
        entries_of(directories@) == subdirectories(*path, *parameters),
    decreases path,
{
    let mut directories: Vec<&'a PathEntry> = Vec::new();
    let mut directory = children_of(path);
    path_buf_rank_redirect(&mut directory, parameters);
    let ghost sorted = ranked_children(*path, *parameters);
    let mut i: usize = 0;
    proof {
        assert(entries_of(directories@) =~= found_below(*path, *parameters, 0));
    }
    while i < directory.len()
        invariant
            i <= directory.len(),
            sorted == ranked_children(*path, *parameters),
            entries_of(directory@) == sorted,
            entries_of(directories@) == found_below(*path, *parameters, i as nat),
        decreases directory.len() - i,
    {
        let entry = directory[i];
        proof {
            assert(sorted[i as int] == *entry);
            lemma_child_is_smaller(*path, *parameters, i as int);
        }
        if is_walked(&entry.file) {
            let ghost before = entries_of(directories@);
            directories.push(entry);
            let mut below = directory_traversal(entry, parameters);
            let ghost deeper = entries_of(below@);
            directories.append(&mut below);
            proof {
                assert(entries_of(directories@) =~= before + seq![*entry] + deeper);
            }
        }
        i += 1;
    }
    directories
}

/// Each ranked entry of a directory is one of its entries, and so a smaller
/// tree than the directory.
proof fn lemma_child_is_smaller(entry: PathEntry, parameters: Parameters, i: int)
    requires
        0 <= i < ranked_children(entry, parameters).len(),
    ensures
        children(entry).contains(ranked_children(entry, parameters)[i]),
        decreases_to!(entry => ranked_children(entry, parameters)[i]),
{
    lemma_ranked_same_items(children(entry), entry_rank(), ranking_of(parameters));
    let child = ranked_children(entry, parameters)[i];
    assert(children(entry).contains(child));
    let m = choose|m: int| 0 <= m < children(entry).len() && children(entry)[m] == child;
    assert(entry.entries->0@[m] == child);
}

/// Whether `target` lies under `entry` at the end of a chain of `steps + 1`
/// directories, each an entry of the one before and each one that a
/// recursive listing goes down into.
pub open spec fn reaches(entry: PathEntry, target: PathEntry, steps: nat) -> bool
    decreases steps,
{
    exists|i: int|
        0 <= i < children(entry).len() && descends(#[trigger] children(entry)[i]) && (if steps
            == 0 {
            children(entry)[i] == target
        } else {
            reaches(children(entry)[i], target, (steps - 1) as nat)
        })
}

/// What is found under the first entries of a directory is still found
/// when more entries are looked at.
proof fn lemma_found_below_grows(
    entry: PathEntry,
    parameters: Parameters,
    fewer: nat,
    more: nat,
    target: PathEntry,
)
    requires
        fewer <= more <= ranked_children(entry, parameters).len(),
        found_below(entry, parameters, fewer).contains(target),
    ensures
        found_below(entry, parameters, more).contains(target),
    decreases more,
{
    if fewer < more {
        lemma_found_below_grows(entry, parameters, fewer, (more - 1) as nat, target);
        let before = found_below(entry, parameters, (more - 1) as nat);
        let i = choose|i: int| 0 <= i < before.len() && before[i] == target;
        assert(found_below(entry, parameters, more)[i] == target);
    }
}

/// The walk is complete: every directory that lies under the directory at
/// the end of a chain of directories that a recursive listing goes down
/// into is among the subdirectories.
pub proof fn lemma_walk_is_complete(
    entry: PathEntry,
    parameters: Parameters,
    target: PathEntry,
    steps: nat,
)
    requires
        reaches(entry, target, steps),
    ensures
        subdirectories(entry, parameters).contains(target),
    decreases steps,
{
    let i = choose|i: int|
        0 <= i < children(entry).len() && descends(#[trigger] children(entry)[i]) && (if steps
            == 0 {
            children(entry)[i] == target
        } else {
            reaches(children(entry)[i], target, (steps - 1) as nat)
        });
    let child = children(entry)[i];
    let sorted = ranked_children(entry, parameters);
    lemma_ranked_same_items(children(entry), entry_rank(), ranking_of(parameters));
    assert(sorted.contains(child));
    let k = choose|k: int| 0 <= k < sorted.len() && sorted[k] == child;
    let before = found_below(entry, parameters, k as nat);
    let deeper = subdirectories(child, parameters);
    let upto = found_below(entry, parameters, (k + 1) as nat);
    assert(upto == before + seq![child] + deeper);
    if steps == 0 {
        assert(upto[before.len() as int] == target);
    } else {
        lemma_walk_is_complete(child, parameters, target, (steps - 1) as nat);
        let j = choose|j: int| 0 <= j < deeper.len() && deeper[j] == target;
        assert(upto[before.len() + 1 + j] == target);
    }
    lemma_found_below_grows(entry, parameters, (k + 1) as nat, sorted.len(), target);
}

/// Whatever is found under the first `upto` entries is a directory that a
/// recursive listing goes down into, and lies under the directory.
proof fn lemma_found_below_is_sound(
    entry: PathEntry,
    parameters: Parameters,
    upto: nat,
    k: int,
)
    requires
        upto <= ranked_children(entry, parameters).len(),
        0 <= k < found_below(entry, parameters, upto).len(),
    ensures
        descends(found_below(entry, parameters, upto)[k]),
        exists|steps: nat| reaches(entry, found_below(entry, parameters, upto)[k], steps),
    decreases entry, upto,
{
    let target = found_below(entry, parameters, upto)[k];
    let child = ranked_children(entry, parameters)[upto - 1];
    let before = found_below(entry, parameters, (upto - 1) as nat);
    lemma_child_is_smaller(entry, parameters, upto - 1);
    if k < before.len() {
        lemma_found_below_is_sound(entry, parameters, (upto - 1) as nat, k);
        assert(before[k] == target);
    } else {
        assert(descends(child));
        let m = choose|m: int| 0 <= m < children(entry).len() && children(entry)[m] == child;
        if k == before.len() {
            assert(target == child);
            assert(reaches(entry, target, 0)) by {
                assert(descends(children(entry)[m]));
            }
        } else {
            let deeper = subdirectories(child, parameters);
            let j = k - before.len() - 1;
            assert(target == deeper[j]);
            lemma_found_below_is_sound(
                child,
                parameters,
                ranked_children(child, parameters).len(),
                j,
            );
            let steps = choose|steps: nat| reaches(child, target, steps);
            assert(reaches(entry, target, steps + 1)) by {
                assert(descends(children(entry)[m]));
                assert(reaches(children(entry)[m], target, ((steps + 1) - 1) as nat));
            }
        }
    }
}

/// The walk is sound: every subdirectory that it finds is a directory whose
/// name does not begin with a dot, so no plain file is among them, and it
/// lies under the directory at the end of a chain of such directories.
pub proof fn lemma_walk_is_sound(entry: PathEntry, parameters: Parameters, k: int)
    requires
        0 <= k < subdirectories(entry, parameters).len(),
    ensures
        subdirectories(entry, parameters)[k].file.is_dir,
        !subdirectories(entry, parameters)[k].file.is_dot_file(),
        exists|steps: nat| reaches(entry, subdirectories(entry, parameters)[k], steps),
{
    lemma_found_below_is_sound(
        entry,
        parameters,
        ranked_children(entry, parameters).len(),
        k,
    );
}

/// The walk takes each entry of a directory once: what is found grows, for
/// each entry that is gone down into, by that entry and by what is found
/// under it, and by nothing for the others.
pub proof fn lemma_walk_counts(entry: PathEntry, parameters: Parameters, upto: nat)
    requires
        0 < upto <= ranked_children(entry, parameters).len(),
    ensures
        found_below(entry, parameters, upto).len() == found_below(
            entry,
            parameters,
            (upto - 1) as nat,
        ).len() + if descends(ranked_children(entry, parameters)[upto - 1]) {
            1 + subdirectories(ranked_children(entry, parameters)[upto - 1], parameters).len()
        } else {
            0
        },
{
}

} // verus!
