use dirlist::command::{
    assemble_vectors, check_parameters, handle_command, handle_recursivity, include_root_files,
    order_arguments,
    rank_path_by_last_modified_date, reverse_rank_path_by_last_modified_date,
};
use dirlist::disk::{targets_of, FileSystem, PathEntry, Target};
use dirlist::listing::{
    create_files_vector, handle_folders, handle_multiple_arguments, handle_single_arguments,
    insert_dot_files_in_vector, insert_path_in_vector, is_plain, is_readable, one_argument,
    print_format_redirect, print_section_body, read_target,
};
use dirlist::parameters::Parameters;
use dirlist::records::{File, Timestamp};
use dirlist::traversal::{
    alphabetically_rank_path_bufs, convert_path_buf_vector_to_string_vector, directory_traversal,
    get_path_name, is_walked, path_buf_rank_redirect, rank_path_bufs_by_last_modified_date,
    reverse_alphabetically_rank_path_bufs, reverse_rank_path_bufs_by_last_modified_date,
};

fn command_file(name: &str, is_dir: bool, seconds: i64) -> File {
    File {
        is_dir,
        is_symbolic_link: false,
        file_mode: if is_dir { 0o40755 } else { 0o100644 },
        number_of_links: 1,
        owner_name: "ann".to_string(),
        group_name: "staff".to_string(),
        number_of_bytes: 5,
        last_modified: Timestamp { seconds, nanoseconds: 0 },
        path_name: name.to_string(),
        extended_attributes: false,
        blocks: 8,
        link_target: String::new(),
        modified_text: "May 30 18:22".to_string(),
        colored_name: name.to_string(),
    }
}

fn command_plain(path: &str, name: &str, seconds: i64) -> PathEntry {
    PathEntry { path: path.to_string(), file: command_file(name, false, seconds), entries: None }
}

fn command_dir(path: &str, name: &str, seconds: i64, entries: Vec<PathEntry>) -> PathEntry {
    PathEntry {
        path: path.to_string(),
        file: command_file(name, true, seconds),
        entries: Some(entries),
    }
}

fn command_strings(names: &[&str]) -> Vec<String> {
    names.iter().map(|n| n.to_string()).collect()
}

fn command_tree() -> PathEntry {
    command_dir(
        "root",
        "root",
        50,
        vec![
            command_plain("root/f.txt", "f.txt", 40),
            command_dir("root/b", "b", 30, Vec::new()),
            command_dir(
                "root/a",
                "a",
                10,
                vec![command_dir("root/a/c", "c", 20, Vec::new())],
            ),
        ],
    )
}

fn command_disk(roots: Vec<PathEntry>) -> FileSystem {
    FileSystem { roots, current: command_file(".", true, 0), parent: command_file("..", true, 0) }
}

fn command_switches(letters: &str) -> Parameters {
    let mut p = Parameters::new();
    p.include_dot_files = letters.contains('a');
    p.long_format = letters.contains('l');
    p.reverse_order = letters.contains('r');
    p.last_modified_order = letters.contains('t');
    p.recursive_listing = letters.contains('R');
    p
}

fn command_paths(entries: &Vec<&PathEntry>) -> Vec<String> {
    entries.iter().map(|e| e.path.clone()).collect()
}

#[test]
fn walk_is_depth_first_and_each_directory_comes_before_its_own() {
    let root = command_tree();
    let found = directory_traversal(&root, &Parameters::new());
    assert_eq!(command_paths(&found), command_strings(&["root/a", "root/a/c", "root/b"]));
}

#[test]
fn walk_follows_the_order_of_the_switches() {
    let root = command_tree();
    let found = directory_traversal(&root, &command_switches("r"));
    assert_eq!(command_paths(&found), command_strings(&["root/b", "root/a", "root/a/c"]));
    let found = directory_traversal(&root, &command_switches("t"));
    assert_eq!(command_paths(&found), command_strings(&["root/b", "root/a", "root/a/c"]));
    let found = directory_traversal(&root, &command_switches("rt"));
    assert_eq!(command_paths(&found), command_strings(&["root/a", "root/a/c", "root/b"]));
}

#[test]
fn walk_skips_dot_directories_even_when_dot_files_are_shown() {
    let root = command_dir(
        "top",
        "top",
        0,
        vec![
            command_dir(".git", ".git", 0, vec![command_dir(".git/objects", "objects", 0, Vec::new())]),
            command_dir("top/src", "src", 0, Vec::new()),
        ],
    );
    let found = directory_traversal(&root, &command_switches("a"));
    assert_eq!(command_paths(&found), command_strings(&["top/src"]));
}

#[test]
fn walk_of_what_was_not_read_finds_nothing() {
    let unread = PathEntry {
        path: "locked".to_string(),
        file: command_file("locked", true, 0),
        entries: None,
    };
    assert!(directory_traversal(&unread, &Parameters::new()).is_empty());
    let plain = command_plain("f", "f", 0);
    assert!(directory_traversal(&plain, &Parameters::new()).is_empty());
}

#[test]
fn only_directories_without_a_leading_dot_are_walked() {
    assert!(is_walked(&command_file("src", true, 0)));
    assert!(!is_walked(&command_file(".git", true, 0)));
    assert!(!is_walked(&command_file("src", false, 0)));
}

#[test]
fn paths_rank_by_the_name_of_what_they_name() {
    let a = command_plain("z/a", "a", 3);
    let b = command_plain("y/b", "b", 1);
    let c = command_plain("x/c", "c", 2);
    let mut paths = vec![&c, &a, &b];
    alphabetically_rank_path_bufs(&mut paths);
    assert_eq!(command_paths(&paths), command_strings(&["z/a", "y/b", "x/c"]));
    reverse_alphabetically_rank_path_bufs(&mut paths);
    assert_eq!(command_paths(&paths), command_strings(&["x/c", "y/b", "z/a"]));
    rank_path_bufs_by_last_modified_date(&mut paths);
    assert_eq!(command_paths(&paths), command_strings(&["z/a", "x/c", "y/b"]));
    reverse_rank_path_bufs_by_last_modified_date(&mut paths);
    assert_eq!(command_paths(&paths), command_strings(&["y/b", "x/c", "z/a"]));
    path_buf_rank_redirect(&mut paths, &command_switches("t"));
    assert_eq!(command_paths(&paths), command_strings(&["z/a", "x/c", "y/b"]));
    path_buf_rank_redirect(&mut paths, &Parameters::new());
    assert_eq!(command_paths(&paths), command_strings(&["z/a", "y/b", "x/c"]));
}

#[test]
fn paths_are_written_out_as_strings() {
    let a = command_plain("z/a", "a", 3);
    let b = command_plain("y/b", "b", 1);
    assert_eq!(
        convert_path_buf_vector_to_string_vector(&vec![&a, &b, &a]),
        command_strings(&["z/a", "y/b", "z/a"])
    );
    assert_eq!(get_path_name(&a), "a");
}

#[test]
fn dot_records_are_those_of_the_file_system() {
    let fs = command_disk(Vec::new());
    let mut files = vec![command_file("first", false, 0)];
    insert_dot_files_in_vector(&fs, &mut files);
    let names: Vec<String> = files.into_iter().map(|f| f.path_name).collect();
    assert_eq!(names, command_strings(&["first", ".", ".."]));
}

#[test]
fn records_are_gathered_in_the_order_read() {
    let fs = command_disk(Vec::new());
    let entries = vec![command_plain("d/b", "b", 0), command_plain("d/a", "a", 0)];
    let mut files = Vec::new();
    insert_path_in_vector(&fs, &entries, &mut files, &Parameters::new());
    let names: Vec<String> = files.into_iter().map(|f| f.path_name).collect();
    assert_eq!(names, command_strings(&["b", "a"]));
    let mut files = Vec::new();
    insert_path_in_vector(&fs, &entries, &mut files, &command_switches("a"));
    let names: Vec<String> = files.into_iter().map(|f| f.path_name).collect();
    assert_eq!(names, command_strings(&[".", "..", "b", "a"]));
}

#[test]
fn listing_with_dot_files_puts_dot_and_dot_dot_first() {
    let fs = command_disk(Vec::new());
    let entries = vec![
        command_plain("d/b", "b", 0),
        command_plain("d/.hidden", ".hidden", 0),
        command_plain("d/a", "a", 0),
    ];
    let files = create_files_vector(&fs, &entries, &command_switches("a"));
    let names: Vec<String> = files.into_iter().map(|f| f.path_name).collect();
    assert_eq!(names, command_strings(&[".", "..", ".hidden", "a", "b"]));
    let files = create_files_vector(&fs, &entries, &Parameters::new());
    let names: Vec<String> = files.into_iter().map(|f| f.path_name).collect();
    assert_eq!(names, command_strings(&[".hidden", "a", "b"]));
}

#[test]
fn default_listing_of_a_directory_with_a_dot_file() {
    let fs = command_disk(vec![command_dir(
        "d",
        "d",
        0,
        vec![
            command_plain("d/.hidden", ".hidden", 0),
            command_plain("d/a", "a", 0),
            command_plain("d/b", "b", 0),
        ],
    )]);
    assert_eq!(handle_command(&fs, command_strings(&["ls", "d"]), Some(80)), "a b \n");
    assert_eq!(
        handle_command(&fs, command_strings(&["ls", "-a", "d"]), Some(80)),
        ".       ..      .hidden a       b       \n"
    );
}

#[test]
fn reading_a_directory_or_complaining() {
    let fs = command_disk(vec![
        command_tree(),
        PathEntry { path: "locked".to_string(), file: command_file("locked", true, 0), entries: None },
    ]);
    let files = one_argument(&fs, "root", &Parameters::new()).unwrap();
    let names: Vec<String> = files.into_iter().map(|f| f.path_name).collect();
    assert_eq!(names, command_strings(&["a", "b", "f.txt"]));
    assert_eq!(
        one_argument(&fs, "locked", &Parameters::new()).unwrap_err(),
        "ls: locked: No such file or directory"
    );
    assert_eq!(
        one_argument(&fs, "nowhere", &Parameters::new()).unwrap_err(),
        "ls: nowhere: No such file or directory"
    );
    let target = fs.locate("root");
    assert!(is_readable(&target) && !is_plain(&target));
    assert!(read_target(&fs, &target, &Parameters::new()).is_ok());
    let target = fs.locate("nowhere");
    assert!(!is_readable(&target) && !is_plain(&target));
}

#[test]
fn format_follows_the_long_switch() {
    let files = vec![command_file("a", false, 0), command_file("b", false, 0)];
    assert_eq!(print_format_redirect(files.clone(), &Parameters::new(), Some(80)), "a b \n");
    assert_eq!(
        print_format_redirect(files, &command_switches("l"), Some(80)),
        "total 16\n-rw-r--r--  1 ann  staff  5 May 30 18:22 a\n-rw-r--r--  1 ann  staff  5 May 30 18:22 b\n"
    );
}

#[test]
fn a_single_directory_is_listed_without_a_header() {
    let fs = command_disk(vec![command_tree()]);
    assert_eq!(
        handle_command(&fs, command_strings(&["ls", "root"]), Some(80)),
        "a     b     f.txt \n"
    );
    let target = fs.locate("root");
    assert_eq!(
        handle_single_arguments(&fs, &target, &Parameters::new(), Some(80)),
        "a     b     f.txt \n"
    );
}

#[test]
fn a_single_directory_with_one_entry_prints_the_name_alone() {
    let fs = command_disk(vec![command_dir("d", "d", 0, vec![command_plain("d/x", "x", 0)])]);
    assert_eq!(handle_command(&fs, command_strings(&["ls", "d"]), Some(80)), "x");
    assert_eq!(handle_command(&fs, command_strings(&["ls", "d"]), None), "x");
}

#[test]
fn no_arguments_list_the_current_directory() {
    let fs = command_disk(vec![command_dir(
        "./",
        ".",
        0,
        vec![command_plain("./b", "b", 0), command_plain("./a", "a", 0)],
    )]);
    assert_eq!(handle_command(&fs, command_strings(&["ls"]), Some(80)), "a b \n");
    assert_eq!(
        handle_command(&fs, command_strings(&["ls", "-r"]), Some(80)),
        "b a \n"
    );
}

#[test]
fn several_directories_get_headers_and_one_blank_line_between() {
    let fs = command_disk(vec![
        command_dir("one", "one", 0, vec![command_plain("one/a", "a", 0), command_plain("one/b", "b", 0)]),
        command_dir("two", "two", 0, vec![command_plain("two/c", "c", 0)]),
        command_dir("three", "three", 0, Vec::new()),
    ]);
    assert_eq!(
        handle_command(&fs, command_strings(&["ls", "one", "two", "three"]), Some(80)),
        "one:\na b \n\nthree:\n\ntwo:\nc\n"
    );
    assert_eq!(
        handle_command(&fs, command_strings(&["ls", "-r", "one", "two", "three"]), Some(80)),
        "two:\nc\n\nthree:\n\none:\nb a \n"
    );
}

#[test]
fn arguments_are_listed_in_the_order_of_the_switches() {
    let fs = command_disk(vec![
        command_dir("b", "b", 10, Vec::new()),
        command_dir("a", "a", 30, Vec::new()),
        command_dir("c", "c", 20, Vec::new()),
    ]);
    assert_eq!(
        check_parameters(&fs, &Parameters::new(), command_strings(&["b", "a", "c"])),
        command_strings(&["a", "b", "c"])
    );
    assert_eq!(
        check_parameters(&fs, &Parameters::new(), command_strings(&["b", "a"])),
        command_strings(&["a", "b"])
    );
    let mut where_they_stand = command_strings(&["c", "a", "b"]);
    order_arguments(&fs, &Parameters::new(), &mut where_they_stand);
    assert_eq!(where_they_stand, command_strings(&["a", "b", "c"]));
    assert_eq!(
        handle_command(&fs, command_strings(&["ls", "b", "a", "c"]), Some(80)),
        "a:\n\nb:\n\nc:\n"
    );
    assert_eq!(
        check_parameters(&fs, &command_switches("r"), command_strings(&["b", "a", "c"])),
        command_strings(&["c", "b", "a"])
    );
    assert_eq!(
        check_parameters(&fs, &command_switches("t"), command_strings(&["b", "a", "c"])),
        command_strings(&["a", "c", "b"])
    );
    assert_eq!(
        check_parameters(&fs, &command_switches("rt"), command_strings(&["b", "a", "c"])),
        command_strings(&["b", "c", "a"])
    );
    assert_eq!(
        handle_command(&fs, command_strings(&["ls", "-t", "b", "a", "c"]), Some(80)),
        "a:\n\nc:\n\nb:\n"
    );
}

#[test]
fn paths_rank_by_the_time_on_disk() {
    let fs = command_disk(vec![
        command_plain("old", "old", 1),
        command_plain("new", "new", 3),
        command_plain("mid", "mid", 2),
    ]);
    let mut paths = command_strings(&["old", "new", "mid", "unknown"]);
    rank_path_by_last_modified_date(&fs, &mut paths);
    assert_eq!(paths, command_strings(&["new", "mid", "old", "unknown"]));
    reverse_rank_path_by_last_modified_date(&fs, &mut paths);
    assert_eq!(paths, command_strings(&["unknown", "old", "mid", "new"]));
}

#[test]
fn plain_files_come_first_and_one_blank_line_parts_them_from_directories() {
    let fs = command_disk(vec![
        command_dir("src", "src", 0, vec![command_plain("src/x", "x", 0), command_plain("src/y", "y", 0)]),
        command_plain("b.txt", "b.txt", 0),
        command_plain("a.txt", "a.txt", 0),
    ]);
    assert_eq!(
        handle_command(&fs, command_strings(&["ls", "b.txt", "src", "a.txt"]), Some(80)),
        "a.txt b.txt \n\nsrc:\nx y \n"
    );
}

#[test]
fn one_missing_path_and_one_file() {
    let fs = command_disk(vec![command_plain("file.txt", "file.txt", 0)]);
    let out = handle_command(&fs, command_strings(&["ls", "nope", "file.txt"]), Some(80));
    assert_eq!(out, "ls: nope: No such file or directory\nfile.txt");
    assert_eq!(out.matches("No such file or directory").count(), 1);
}

#[test]
fn only_missing_paths_give_only_the_report() {
    let fs = command_disk(Vec::new());
    assert_eq!(
        handle_command(&fs, command_strings(&["ls", "b", "a"]), Some(80)),
        "ls: a: No such file or directory\nls: b: No such file or directory\n"
    );
    assert_eq!(
        handle_command(&fs, command_strings(&["ls", "-R", "b"]), Some(80)),
        "ls: b: No such file or directory\n"
    );
}

#[test]
fn a_directory_that_cannot_be_read_is_reported_and_the_rest_goes_on() {
    let fs = command_disk(vec![
        PathEntry { path: "locked".to_string(), file: command_file("locked", true, 0), entries: None },
        command_dir("open", "open", 0, vec![command_plain("open/a", "a", 0), command_plain("open/b", "b", 0)]),
    ]);
    assert_eq!(
        handle_command(&fs, command_strings(&["ls", "locked", "open"]), Some(80)),
        "ls: locked: No such file or directory\nopen:\na b \n"
    );
    assert_eq!(
        handle_command(&fs, command_strings(&["ls", "locked"]), Some(80)),
        "ls: locked: No such file or directory\n"
    );
}

#[test]
fn long_format_of_several_directories() {
    let fs = command_disk(vec![
        command_dir("one", "one", 0, vec![command_plain("one/a", "a", 0)]),
        command_dir("two", "two", 0, Vec::new()),
    ]);
    assert_eq!(
        handle_command(&fs, command_strings(&["ls", "-l", "one", "two"]), None),
        "one:\ntotal 8\n-rw-r--r--  1 ann  staff  5 May 30 18:22 a\n\ntwo:\ntotal 0\n"
    );
}

#[test]
fn sections_of_targets() {
    let fs = command_disk(Vec::new());
    let one = command_dir("one", "one", 0, vec![command_plain("one/a", "a", 0), command_plain("one/b", "b", 0)]);
    let file = command_plain("f", "f", 0);
    let targets = vec![
        Target { path: "f".to_string(), entry: Some(&file) },
        Target { path: "gone".to_string(), entry: None },
        Target { path: "one".to_string(), entry: Some(&one) },
    ];
    assert_eq!(
        handle_multiple_arguments(&fs, &targets, &Parameters::new(), Some(80)),
        "f\n\nls: gone: No such file or directory\none:\na b \n"
    );
    assert_eq!(handle_multiple_arguments(&fs, &Vec::new(), &Parameters::new(), Some(80)), "");
}

#[test]
fn section_body_closes_the_listing() {
    let p = Parameters::new();
    assert_eq!(print_section_body(vec![command_file("x", false, 0)], &p, Some(80)), "x\n");
    assert_eq!(print_section_body(Vec::new(), &p, Some(80)), "");
    assert_eq!(print_section_body(Vec::new(), &p, None), "Unable to get terminal size\n");
    assert_eq!(
        print_section_body(vec![command_file("x", false, 0), command_file("y", false, 0)], &p, Some(80)),
        "x y \n"
    );
    assert_eq!(print_section_body(Vec::new(), &command_switches("l"), Some(80)), "total 0\n");
}

#[test]
fn folders_alone_or_under_headers() {
    let fs = command_disk(vec![
        command_dir("one", "one", 0, vec![command_plain("one/a", "a", 0), command_plain("one/b", "b", 0)]),
    ]);
    let p = Parameters::new();
    assert_eq!(handle_folders(&fs, command_strings(&["one"]), false, &p, Some(80)), "a b \n");
    assert_eq!(handle_folders(&fs, command_strings(&["one"]), true, &p, Some(80)), "one:\na b \n");
    assert_eq!(handle_folders(&fs, Vec::new(), false, &p, Some(80)), "");
    assert_eq!(handle_folders(&fs, Vec::new(), true, &p, Some(80)), "");
}

#[test]
fn recursive_listing_of_one_directory() {
    let fs = command_disk(vec![command_tree()]);
    assert_eq!(
        handle_command(&fs, command_strings(&["ls", "-R", "root"]), Some(80)),
        "a     b     f.txt \n\nroot/a:\nc\n\nroot/a/c:\n\nroot/b:\n"
    );
}

#[test]
fn recursive_listing_of_several_paths_names_each_directory() {
    let fs = command_disk(vec![
        command_tree(),
        command_plain("z.txt", "z.txt", 0),
        command_dir("other", "other", 0, vec![command_plain("other/q", "q", 0), command_plain("other/p", "p", 0)]),
    ]);
    assert_eq!(
        handle_command(&fs, command_strings(&["ls", "-R", "root", "z.txt", "other"]), Some(80)),
        "z.txt\n\nother:\np q \n\nroot:\na     b     f.txt \n\nroot/a:\nc\n\nroot/a/c:\n\nroot/b:\n"
    );
    assert_eq!(
        handle_command(&fs, command_strings(&["ls", "-R", "-r", "other", "z.txt", "root"]), Some(80)),
        "z.txt\n\nroot:\nf.txt b     a     \n\nroot/b:\n\nroot/a:\nc\n\nroot/a/c:\n\nother:\nq p \n"
    );
}

#[test]
fn recursive_listing_of_a_directory_without_subdirectories() {
    let fs = command_disk(vec![command_dir(
        "flat",
        "flat",
        0,
        vec![command_plain("flat/a", "a", 0), command_plain("flat/b", "b", 0)],
    )]);
    let mut args = command_strings(&["flat"]);
    assert_eq!(handle_recursivity(&fs, &mut args, &command_switches("R"), Some(80)), "a b \n");
    assert_eq!(args, command_strings(&["flat"]));
}

#[test]
fn one_plain_file_before_a_directory_is_parted_by_one_blank_line() {
    let fs = command_disk(vec![
        command_plain("f.txt", "f.txt", 0),
        command_dir("d", "d", 0, vec![command_plain("d/x", "x", 0), command_plain("d/y", "y", 0)]),
    ]);
    assert_eq!(
        handle_command(&fs, command_strings(&["ls", "d", "f.txt"]), Some(80)),
        "f.txt\n\nd:\nx y \n"
    );
    assert_eq!(handle_command(&fs, command_strings(&["ls", "f.txt"]), None), "f.txt");
    assert_eq!(
        handle_command(&fs, command_strings(&["ls", "-R", "f.txt", "d"]), Some(80)),
        "f.txt\n\nx y \n"
    );
}

#[test]
fn directories_and_strays_are_collected() {
    let root = command_tree();
    let other = command_dir("other", "other", 0, Vec::new());
    let file = command_plain("f", "f", 0);
    let targets = vec![
        Target { path: "root".to_string(), entry: Some(&root) },
        Target { path: "f".to_string(), entry: Some(&file) },
        Target { path: "gone".to_string(), entry: None },
        Target { path: "other".to_string(), entry: Some(&other) },
    ];
    let mut directories = Vec::new();
    let mut strays = Vec::new();
    assemble_vectors(&targets, &mut directories, &mut strays, &Parameters::new());
    assert_eq!(
        command_paths(&directories),
        command_strings(&["root", "root/a", "root/a/c", "root/b", "other"])
    );
    let names: Vec<String> = strays.into_iter().map(|f| f.path_name).collect();
    assert_eq!(names, command_strings(&["f"]));

    let alone = vec![Target { path: "root".to_string(), entry: Some(&root) }];
    let mut directories = Vec::new();
    let mut strays = Vec::new();
    assemble_vectors(&alone, &mut directories, &mut strays, &Parameters::new());
    assert_eq!(command_paths(&directories), command_strings(&["root/a", "root/a/c", "root/b"]));
    assert!(strays.is_empty());
    let made = targets_of(&directories);
    assert_eq!(made.len(), 3);
    assert_eq!(made[1].path, "root/a/c");
}

#[test]
fn root_files_take_the_strays_along() {
    let fs = command_disk(Vec::new());
    let root = command_dir("d", "d", 0, vec![command_plain("d/a", "a", 0)]);
    let target = Target { path: "d".to_string(), entry: Some(&root) };
    let mut strays = vec![command_file("s", false, 0)];
    assert_eq!(
        include_root_files(&fs, &mut strays, &target, &Parameters::new(), Some(80)),
        "a s \n"
    );
    let gone = Target { path: "gone".to_string(), entry: None };
    assert_eq!(
        include_root_files(&fs, &mut Vec::new(), &gone, &Parameters::new(), Some(80)),
        "ls: gone: No such file or directory\n"
    );
}

#[test]
fn the_same_input_gives_the_same_text() {
    let fs = command_disk(vec![
        command_tree(),
        command_plain("z.txt", "z.txt", 0),
    ]);
    for flags in ["-l", "-R", "-lart", "-t", "-a"] {
        let args = command_strings(&["ls", flags, "root", "z.txt", "missing"]);
        let first = handle_command(&fs, args.clone(), Some(40));
        let second = handle_command(&fs, args, Some(40));
        assert_eq!(first, second);
        assert!(!first.is_empty());
    }
}
