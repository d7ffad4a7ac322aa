//! What is on disk, as a value that the listing reads.

use vstd::prelude::*;
use crate::names::{last_component, path_name_of, separator};
use crate::records::{File, Metadata, Timestamp};
use crate::text::{same_text, texts};

verus! {

/// A path that exists, with the record of what it names and, for a directory
/// that was read, what it holds.
pub struct PathEntry {
    /// The path as it was typed, or the path of the directory it was found in
    /// joined with its name.
    pub path: String,
    /// The record of the object itself.
    pub file: File,
    /// The entries of a directory in the order in which they were read;
    /// `None` for what is no directory or could not be read.
    pub entries: Option<Vec<PathEntry>>,
}

/// The part of the file system that an invocation looks at: every path named
/// on the command line that exists, and the records of the current directory
/// and of its parent.
pub struct FileSystem {
    pub roots: Vec<PathEntry>,
    /// The record shown as `.`.
    pub current: File,
    /// The record shown as `..`.
    pub parent: File,
}

/// The name of the current directory in a listing.
pub open spec fn dot() -> Seq<char> {
    seq!['.']
}

/// The name of the parent directory in a listing.
pub open spec fn dot_dot() -> Seq<char> {
    seq!['.', '.']
}

impl PathEntry {
    /// Whether the record is named by the last component of the path.
    pub open spec fn named_by_path(self) -> bool {
        self.file.path_name@ == last_component(self.path@)
    }

    /// Makes the entry of a path from its metadata and, for a directory that
    /// was read, its entries. The record is named by the last component of
    /// the path. There is no entry where there is no record.
    pub fn new(
        path: String,
        metadata: Metadata,
        attributes: bool,
        entries: Option<Vec<PathEntry>>,
    ) -> (entry: Option<PathEntry>)
        ensures
            entry is Some ==> {
                &&& entry->0.path == path
                &&& entry->0.entries == entries
                &&& entry->0.named_by_path()
                &&& !entry->0.file.path_name@.contains(separator())
                &&& entry->0.file.well_dated()
                &&& exists|
                    owner: Seq<char>,
                    group: Seq<char>,
                    modified_text: Seq<char>,
                    colored_name: Seq<char>,
                |
                    entry->0.file.built_from(
                        last_component(path@),
                        metadata,
                        attributes,
                        owner,
                        group,
                        modified_text,
                        colored_name,
                    )
            },
    {
        let name = path_name_of(path.as_str());
        match File::new(name, metadata, attributes) {
            Some(file) => Some(PathEntry { path, file, entries }),
            None => None,
        }
    }
}

impl FileSystem {
    /// Whether the records of the current directory and of its parent carry
    /// the names `.` and `..`.
    pub open spec fn well_named(self) -> bool {
        self.current.path_name@ == dot() && self.parent.path_name@ == dot_dot()
    }

    /// Puts a file system together. The records of the current directory
    /// and of its parent are given the names `.` and `..`, in the colour of
    /// their kind, whatever names they came with.
    pub fn new(roots: Vec<PathEntry>, current: File, parent: File) -> (fs: FileSystem)
        ensures
            fs.roots == roots,
            fs.well_named(),
            fs.current.well_colored(),
            fs.parent.well_colored(),
            fs.current.same_but_name(current),
            fs.parent.same_but_name(parent),
    {
        proof {
            reveal_strlit(".");
            reveal_strlit("..");
            assert("."@ =~= dot());
            assert(".."@ =~= dot_dot());
            assert(!dot().contains(crate::paint::escape())) by {
                if dot().contains(crate::paint::escape()) {
                    let i = choose|i: int| 0 <= i < dot().len() && dot()[i] == crate::paint::escape();
                    assert(dot()[0] == '.');
                }
            }
            assert(!dot_dot().contains(crate::paint::escape())) by {
                if dot_dot().contains(crate::paint::escape()) {
                    let i = choose|i: int|
                        0 <= i < dot_dot().len() && dot_dot()[i] == crate::paint::escape();
                    assert(dot_dot()[0] == '.' && dot_dot()[1] == '.');
                }
            }
        }
        FileSystem { roots, current: current.renamed("."), parent: parent.renamed("..") }
    }

    /// The paths that are known to exist, in the order of `roots`.
    pub open spec fn root_paths(self) -> Seq<Seq<char>> {
        Seq::new(self.roots@.len(), |i: int| self.roots@[i].path@)
    }

    /// Whether something exists at the path.
    pub open spec fn knows(self, path: Seq<char>) -> bool {
        self.root_paths().contains(path)
    }

    /// Where the path stands among the roots: the first place that holds it.
    pub open spec fn place(self, path: Seq<char>) -> Option<int> {
        self.root_paths().index_of_first(path)
    }

    /// What is at the path. Only meant for a path that is known.
    pub open spec fn entry(self, path: Seq<char>) -> PathEntry {
        self.roots@[self.place(path)->0]
    }

    /// Whether the path names something that is no directory.
    pub open spec fn holds_file(self, path: Seq<char>) -> bool {
        self.knows(path) && !self.entry(path).file.is_dir
    }

    /// The test for paths at which something exists.
    pub open spec fn is_known(self) -> spec_fn(Seq<char>) -> bool {
        |path: Seq<char>| self.knows(path)
    }

    /// The test for paths that name something that is no directory.
    pub open spec fn is_plain_file(self) -> spec_fn(Seq<char>) -> bool {
        |path: Seq<char>| self.holds_file(path)
    }

    /// When the path was last modified.
    pub open spec fn modified(self, path: Seq<char>) -> Timestamp {
        self.entry(path).file.last_modified
    }

    /// A known path has a place among the roots, and the first such place
    /// holds it.
    pub proof fn lemma_place(self, path: Seq<char>)
        ensures
            self.knows(path) <==> self.place(path) is Some,
            self.place(path) is Some ==> {
                &&& 0 <= self.place(path)->0 < self.roots@.len()
                &&& self.roots@[self.place(path)->0].path@ == path
                &&& forall|j: int|
                    0 <= j < self.place(path)->0 ==> (#[trigger] self.roots@[j]).path@ != path
            },
    {
        let paths = self.root_paths();
        paths.index_of_first_ensures(path);
        if self.place(path) is Some {
            let at = self.place(path)->0;
            assert(paths[at] == self.roots@[at].path@);
            assert forall|j: int| 0 <= j < at implies (#[trigger] self.roots@[j]).path@ != path by {
                assert(paths[j] == self.roots@[j].path@);
            }
        }
    }

    /// Finds the first root with the given path.
    pub fn find(&self, path: &str) -> (found: Option<usize>)
        ensures
            found is Some <==> self.knows(path@),
            found is Some ==> found->0 as int == self.place(path@)->0 && found->0 < self.roots.len(),
    {
        let mut i: usize = 0;
        let ghost paths = self.root_paths();
        while i < self.roots.len()
            invariant
                i <= self.roots.len(),
                paths == self.root_paths(),
                forall|j: int| 0 <= j < i ==> paths[j] != path@,
            decreases self.roots.len() - i,
        {
            if same_text(self.roots[i].path.as_str(), path) {
                proof {
                    assert(paths[i as int] == path@);
                    self.lemma_place(path@);
                    let at = self.place(path@)->0;
                    if at < i {
                        assert(paths[at] == path@);
                    }
                    if at > i {
                        assert(self.roots@[i as int].path@ == path@);
                    }
                }
                return Some(i);
            }
            proof {
                assert(paths[i as int] == self.roots@[i as int].path@);
            }
            i += 1;
        }
        proof {
            self.lemma_place(path@);
        }
        None
    }
}

/// Whether the path names something that exists and is no directory.
pub fn is_file(fs: &FileSystem, target_path: &str) -> (r: bool)
    ensures
        r == fs.holds_file(target_path@),
{
    match fs.find(target_path) {
        Some(at) => !fs.roots[at].file.is_dir,
        None => false,
    }
}

/// Whether anything exists at the path.
pub fn file_exists(fs: &FileSystem, target_path: &str) -> (r: bool)
    ensures
        r == fs.knows(target_path@),
{
    fs.find(target_path).is_some()
}

/// The records of the given paths, each of which exists.
pub fn convert_string_vector_to_file_vector(fs: &FileSystem, strings: Vec<String>) -> (files: Vec<
    File,
>)
    requires
        forall|i: int| 0 <= i < strings.len() ==> fs.knows(#[trigger] strings@[i]@),
    ensures
        files.len() == strings.len(),
        forall|i: int| 0 <= i < strings.len() ==> #[trigger] files@[i] == fs.entry(strings@[i]@).file,
{
    let mut files: Vec<File> = Vec::new();
    let mut i: usize = 0;
    while i < strings.len()
        invariant
            i <= strings.len(),
            files.len() == i,
            forall|k: int| 0 <= k < strings.len() ==> fs.knows(#[trigger] strings@[k]@),
            forall|k: int| 0 <= k < i ==> #[trigger] files@[k] == fs.entry(strings@[k]@).file,
        decreases strings.len() - i,
    {
        match fs.find(strings[i].as_str()) {
            Some(at) => {
                files.push(fs.roots[at].file.duplicate());
            },
            None => {
                proof {
                    assert(fs.knows(strings@[i as int]@));
                }
            },
        }
        i += 1;
    }
    files
}

/// A path to list, with what was found at it: `None` where nothing exists.
pub struct Target<'a> {
    pub path: String,
    pub entry: Option<&'a PathEntry>,
}

/// A path to list and what is at it, as the listing reads them.
pub struct Place {
    pub path: Seq<char>,
    pub entry: Option<PathEntry>,
}

impl<'a> Target<'a> {
    /// The path and what is at it.
    pub open spec fn place(self) -> Place {
        Place {
            path: self.path@,
            entry: match self.entry {
                Some(entry) => Some(*entry),
                None => None,
            },
        }
    }
}

/// The places of a list of targets.
pub open spec fn places_of<'a>(targets: Seq<Target<'a>>) -> Seq<Place> {
    Seq::new(targets.len(), |i: int| targets[i].place())
}

impl FileSystem {
    /// The path with what the file system holds at it.
    pub open spec fn place_of(self, path: Seq<char>) -> Place {
        Place {
            path,
            entry: if self.knows(path) {
                Some(self.entry(path))
            } else {
                None
            },
        }
    }

    /// The paths with what the file system holds at each.
    pub open spec fn places(self, paths: Seq<Seq<char>>) -> Seq<Place> {
        Seq::new(paths.len(), |i: int| self.place_of(paths[i]))
    }

    /// Looks a path up.
    pub fn locate<'a>(&'a self, path: &str) -> (target: Target<'a>)
        ensures
            target.place() == self.place_of(path@),
    {
        match self.find(path) {
            Some(at) => Target { path: path.to_owned(), entry: Some(&self.roots[at]) },
            None => Target { path: path.to_owned(), entry: None },
        }
    }

    /// Looks every path up.
    pub fn resolve<'a>(&'a self, paths: &Vec<String>) -> (targets: Vec<Target<'a>>)
        ensures
            places_of(targets@) == self.places(texts(paths@)),
    {
        let mut targets: Vec<Target<'a>> = Vec::new();
        let mut i: usize = 0;
        while i < paths.len()
            invariant
                i <= paths.len(),
                targets.len() == i,
                forall|k: int|
                    0 <= k < i ==> (#[trigger] targets@[k]).place() == self.place_of(paths@[k]@),
            decreases paths.len() - i,
        {
            targets.push(self.locate(paths[i].as_str()));
            i += 1;
        }
        proof {
            assert(places_of(targets@) =~= self.places(texts(paths@)));
        }
        targets
    }
}

/// The place of a directory that was found while walking.
pub open spec fn found_place(entry: PathEntry) -> Place {
    Place { path: entry.path@, entry: Some(entry) }
}

/// The places of directories that were found while walking.
pub open spec fn found_places(entries: Seq<PathEntry>) -> Seq<Place> {
    Seq::new(entries.len(), |i: int| found_place(entries[i]))
}

/// Makes targets of directories that were found while walking.
pub fn targets_of<'a>(entries: &Vec<&'a PathEntry>) -> (targets: Vec<Target<'a>>)
    ensures
        targets.len() == entries.len(),
        forall|k: int|
            0 <= k < entries.len() ==> (#[trigger] targets@[k]).place() == found_place(*entries@[k]),
{
    let mut targets: Vec<Target<'a>> = Vec::new();
    let mut i: usize = 0;
    while i < entries.len()
        invariant
            i <= entries.len(),
            targets.len() == i,
            forall|k: int|
                0 <= k < i ==> (#[trigger] targets@[k]).place() == found_place(*entries@[k]),
        decreases entries.len() - i,
    {
        targets.push(Target { path: entries[i].path.clone(), entry: Some(entries[i]) });
        i += 1;
    }
    targets
}

} // verus!
