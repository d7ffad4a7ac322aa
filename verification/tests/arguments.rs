use dirlist::arguments::{
    find_single_files, find_unexisting_files, handle_single_files, handle_unexisting_files,
    missing_message, push_gap_after, remove_single_files, remove_unexisting_files, return_index_for_object,
    simple_print_unexisting_files,
};
use dirlist::disk::{
    convert_string_vector_to_file_vector, file_exists, is_file, FileSystem, PathEntry,
};
use dirlist::parameters::{parse_parameters, Parameters};
use dirlist::records::{File, Timestamp};
use dirlist::text::{contains_char, same_text, starts_with_char};

fn arguments_file(name: &str, is_dir: bool) -> File {
    File {
        is_dir,
        is_symbolic_link: false,
        file_mode: 0o644,
        number_of_links: 1,
        owner_name: "ann".to_string(),
        group_name: "staff".to_string(),
        number_of_bytes: 5,
        last_modified: Timestamp { seconds: 0, nanoseconds: 0 },
        path_name: name.to_string(),
        extended_attributes: false,
        blocks: 8,
        link_target: String::new(),
        modified_text: "May 30 18:22".to_string(),
        colored_name: name.to_string(),
    }
}

fn arguments_strings(names: &[&str]) -> Vec<String> {
    names.iter().map(|n| n.to_string()).collect()
}

fn arguments_disk() -> FileSystem {
    FileSystem {
        roots: vec![
            PathEntry { path: "notes.txt".to_string(), file: arguments_file("notes.txt", false), entries: None },
            PathEntry { path: "src".to_string(), file: arguments_file("src", true), entries: Some(Vec::new()) },
            PathEntry { path: "a.txt".to_string(), file: arguments_file("a.txt", false), entries: None },
            PathEntry { path: "notes.txt".to_string(), file: arguments_file("shadowed", true), entries: None },
        ],
        current: arguments_file(".", true),
        parent: arguments_file("..", true),
    }
}

#[test]
fn no_flags_leave_every_switch_off() {
    let p = Parameters::new();
    assert!(!p.include_dot_files && !p.long_format && !p.reverse_order);
    assert!(!p.recursive_listing && !p.last_modified_order);
    let mut args = arguments_strings(&["a", "b"]);
    let p = parse_parameters(&mut args);
    assert!(!p.include_dot_files && !p.long_format && !p.reverse_order);
    assert!(!p.recursive_listing && !p.last_modified_order);
    assert_eq!(args, arguments_strings(&["a", "b"]));
}

#[test]
fn letters_of_one_token_switch_on_together() {
    let mut args = arguments_strings(&["-la", "dir"]);
    let p = parse_parameters(&mut args);
    assert!(p.include_dot_files && p.long_format);
    assert!(!p.reverse_order && !p.recursive_listing && !p.last_modified_order);
    assert_eq!(args, arguments_strings(&["dir"]));
}

#[test]
fn flag_tokens_may_stand_anywhere() {
    let mut args = arguments_strings(&["x", "-r", "y", "-t", "-R"]);
    let p = parse_parameters(&mut args);
    assert!(p.reverse_order && p.last_modified_order && p.recursive_listing);
    assert!(!p.include_dot_files && !p.long_format);
    assert_eq!(args, arguments_strings(&["x", "y"]));
}

#[test]
fn small_r_and_capital_r_are_different_switches() {
    let mut args = arguments_strings(&["-R"]);
    let p = parse_parameters(&mut args);
    assert!(p.recursive_listing && !p.reverse_order);
    let mut args = arguments_strings(&["-r"]);
    let p = parse_parameters(&mut args);
    assert!(!p.recursive_listing && p.reverse_order);
}

#[test]
fn unknown_letters_are_ignored() {
    let mut args = arguments_strings(&["-xyzl", "--", "-"]);
    let p = parse_parameters(&mut args);
    assert!(p.long_format);
    assert!(!p.include_dot_files && !p.reverse_order && !p.recursive_listing);
    assert!(!p.last_modified_order);
    assert_eq!(args, arguments_strings(&["./"]));
}

#[test]
fn letters_in_a_path_switch_nothing_on() {
    let mut args = arguments_strings(&["alert", "a-l"]);
    let p = parse_parameters(&mut args);
    assert!(!p.include_dot_files && !p.long_format && !p.reverse_order);
    assert!(!p.last_modified_order);
    assert_eq!(args, arguments_strings(&["alert", "a-l"]));
}

#[test]
fn no_path_means_the_current_directory() {
    let mut args: Vec<String> = Vec::new();
    parse_parameters(&mut args);
    assert_eq!(args, arguments_strings(&["./"]));
    let mut args = arguments_strings(&["-l"]);
    parse_parameters(&mut args);
    assert_eq!(args, arguments_strings(&["./"]));
}

#[test]
fn an_empty_argument_is_a_path() {
    let mut args = arguments_strings(&["", "-a"]);
    let p = parse_parameters(&mut args);
    assert!(p.include_dot_files);
    assert_eq!(args, arguments_strings(&[""]));
}

#[test]
fn text_helpers() {
    assert!(starts_with_char("-a", '-'));
    assert!(!starts_with_char("a-", '-'));
    assert!(!starts_with_char("", '-'));
    assert!(contains_char("héllo", 'é'));
    assert!(!contains_char("hello", 'R'));
    assert!(same_text("abc", "abc"));
    assert!(!same_text("abc", "abd"));
    assert!(!same_text("abc", "ab"));
    assert!(same_text("", ""));
}

#[test]
fn existence_is_what_the_file_system_holds() {
    let fs = arguments_disk();
    assert!(file_exists(&fs, "notes.txt"));
    assert!(file_exists(&fs, "src"));
    assert!(!file_exists(&fs, "nope"));
    assert!(!file_exists(&fs, "src/"));
    assert!(!file_exists(&fs, ""));
}

#[test]
fn a_plain_file_exists_and_is_no_directory() {
    let fs = arguments_disk();
    assert!(is_file(&fs, "a.txt"));
    assert!(!is_file(&fs, "src"));
    assert!(!is_file(&fs, "nope"));
}

#[test]
fn the_first_root_with_a_path_counts() {
    let fs = arguments_disk();
    assert_eq!(fs.find("notes.txt"), Some(0));
    assert_eq!(fs.find("a.txt"), Some(2));
    assert_eq!(fs.find("missing"), None);
    assert!(is_file(&fs, "notes.txt"));
}

#[test]
fn records_of_paths() {
    let fs = arguments_disk();
    let files = convert_string_vector_to_file_vector(&fs, arguments_strings(&["src", "a.txt", "src"]));
    let names: Vec<String> = files.into_iter().map(|f| f.path_name).collect();
    assert_eq!(names, arguments_strings(&["src", "a.txt", "src"]));
}

#[test]
fn index_of_the_first_equal_argument() {
    let mut args = arguments_strings(&["x", "y", "x", "z"]);
    assert_eq!(return_index_for_object(&mut args, &"x".to_string()), 0);
    assert_eq!(return_index_for_object(&mut args, &"y".to_string()), 1);
    assert_eq!(return_index_for_object(&mut args, &"z".to_string()), 3);
    assert_eq!(args, arguments_strings(&["x", "y", "x", "z"]));
}

#[test]
fn missing_paths_are_found_in_their_order() {
    let fs = arguments_disk();
    let args = arguments_strings(&["zz", "src", "aa", "a.txt", "zz"]);
    assert_eq!(find_unexisting_files(&fs, &args), arguments_strings(&["zz", "aa", "zz"]));
}

#[test]
fn removal_takes_first_occurrences() {
    let mut args = arguments_strings(&["x", "keep", "y", "x", "last"]);
    remove_unexisting_files(&mut args, &arguments_strings(&["x", "y", "x"]));
    assert_eq!(args, arguments_strings(&["keep", "last"]));
    let mut args = arguments_strings(&["x", "keep", "x"]);
    remove_single_files(&mut args, &arguments_strings(&["x"]));
    assert_eq!(args, arguments_strings(&["keep", "x"]));
}

#[test]
fn message_for_a_missing_path() {
    assert_eq!(missing_message("nope"), "ls: nope: No such file or directory");
    assert_eq!(missing_message(""), "ls: : No such file or directory");
}

#[test]
fn report_has_one_line_per_path() {
    assert_eq!(
        simple_print_unexisting_files(&arguments_strings(&["b", "a"])),
        "ls: b: No such file or directory\nls: a: No such file or directory\n"
    );
    assert_eq!(simple_print_unexisting_files(&Vec::new()), "");
}

#[test]
fn missing_paths_are_reported_in_byte_order_and_dropped() {
    let fs = arguments_disk();
    let mut args = arguments_strings(&["zz", "src", "aa", "a.txt", "zz"]);
    let report = handle_unexisting_files(&fs, &mut args);
    assert_eq!(
        report,
        "ls: aa: No such file or directory\nls: zz: No such file or directory\nls: zz: No such file or directory\n"
    );
    assert_eq!(args, arguments_strings(&["src", "a.txt"]));
}

#[test]
fn nothing_missing_gives_no_report() {
    let fs = arguments_disk();
    let mut args = arguments_strings(&["src", "a.txt"]);
    assert_eq!(handle_unexisting_files(&fs, &mut args), "");
    assert_eq!(args, arguments_strings(&["src", "a.txt"]));
}

#[test]
fn plain_files_are_found_in_their_order() {
    let fs = arguments_disk();
    let args = arguments_strings(&["notes.txt", "src", "nope", "a.txt"]);
    assert_eq!(find_single_files(&fs, &args), arguments_strings(&["notes.txt", "a.txt"]));
}

#[test]
fn plain_files_are_shown_by_name_and_taken_out() {
    let fs = arguments_disk();
    let mut args = arguments_strings(&["notes.txt", "src", "a.txt"]);
    let (none, text) = handle_single_files(&fs, &mut args, &Parameters::new(), Some(80));
    assert!(!none);
    assert_eq!(text, "a.txt     notes.txt \n");
    assert_eq!(args, arguments_strings(&["src"]));
}

#[test]
fn plain_files_are_shown_downwards_when_reversed() {
    let fs = arguments_disk();
    let mut args = arguments_strings(&["a.txt", "notes.txt"]);
    let mut reversed = Parameters::new();
    reversed.reverse_order = true;
    let (none, text) = handle_single_files(&fs, &mut args, &reversed, Some(80));
    assert!(!none);
    assert_eq!(text, "notes.txt a.txt     \n");
    assert!(args.is_empty());
}

#[test]
fn no_plain_file_prints_nothing() {
    let fs = arguments_disk();
    let mut args = arguments_strings(&["src"]);
    let (none, text) = handle_single_files(&fs, &mut args, &Parameters::new(), None);
    assert!(none);
    assert_eq!(text, "");
    assert_eq!(args, arguments_strings(&["src"]));
}

#[test]
fn several_plain_files_without_a_terminal_give_the_complaint() {
    let fs = arguments_disk();
    let mut args = arguments_strings(&["a.txt", "notes.txt"]);
    let (none, text) = handle_single_files(&fs, &mut args, &Parameters::new(), None);
    assert!(!none);
    assert_eq!(text, "Unable to get terminal size\n");
}

#[test]
fn one_plain_file_is_its_bare_name() {
    let fs = arguments_disk();
    let mut args = arguments_strings(&["src", "a.txt"]);
    let (none, text) = handle_single_files(&fs, &mut args, &Parameters::new(), Some(80));
    assert!(!none);
    assert_eq!(text, "a.txt");
    assert_eq!(args, arguments_strings(&["src"]));
}

#[test]
fn one_plain_file_needs_no_terminal() {
    let fs = arguments_disk();
    let mut args = arguments_strings(&["a.txt"]);
    let (none, text) = handle_single_files(&fs, &mut args, &Parameters::new(), None);
    assert!(!none);
    assert_eq!(text, "a.txt");
    assert!(args.is_empty());
}

#[test]
fn the_gap_after_plain_files() {
    let mut out = String::from("x");
    push_gap_after(&mut out, 0);
    assert_eq!(out, "x");
    push_gap_after(&mut out, 1);
    assert_eq!(out, "x\n\n");
    push_gap_after(&mut out, 2);
    assert_eq!(out, "x\n\n\n");
    push_gap_after(&mut out, 7);
    assert_eq!(out, "x\n\n\n\n");
}
