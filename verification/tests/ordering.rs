use dirlist::parameters::Parameters;
use dirlist::ranking::{
    alphabetically_rank_files, alphabetically_rank_strings, bytes_not_after, choose_ranking,
    file_rank_redirect, rank_files_by_last_modified_date, reverse_alphabetically_rank_files,
    reverse_alphabetically_rank_strings, reverse_rank_files_by_last_modified_date, Ranking,
};
use dirlist::records::{File, Timestamp};

fn ordering_file(name: &str, seconds: i64, owner: &str) -> File {
    File {
        is_dir: false,
        is_symbolic_link: false,
        file_mode: 0o644,
        number_of_links: 1,
        owner_name: owner.to_string(),
        group_name: "staff".to_string(),
        number_of_bytes: 5,
        last_modified: Timestamp { seconds, nanoseconds: 0 },
        path_name: name.to_string(),
        extended_attributes: false,
        blocks: 8,
        link_target: String::new(),
        modified_text: "May 30 18:22".to_string(),
        colored_name: name.to_string(),
    }
}

fn ordering_names(files: &Vec<File>) -> Vec<String> {
    files.iter().map(|f| f.path_name.clone()).collect()
}

fn ordering_strings(names: &[&str]) -> Vec<String> {
    names.iter().map(|n| n.to_string()).collect()
}

fn ordering_switches(reverse: bool, time: bool) -> Parameters {
    let mut p = Parameters::new();
    p.reverse_order = reverse;
    p.last_modified_order = time;
    p
}

#[test]
fn strings_rank_in_byte_order() {
    let mut v = ordering_strings(&["pear", "Zebra", "apple", "apple pie", "10", "9"]);
    alphabetically_rank_strings(&mut v);
    assert_eq!(v, ordering_strings(&["10", "9", "Zebra", "apple", "apple pie", "pear"]));
}

#[test]
fn strings_rank_against_byte_order() {
    let mut v = ordering_strings(&["pear", "Zebra", "apple", "apple pie", "10", "9"]);
    reverse_alphabetically_rank_strings(&mut v);
    assert_eq!(v, ordering_strings(&["pear", "apple pie", "apple", "Zebra", "9", "10"]));
}

#[test]
fn ranking_agrees_with_the_standard_sort() {
    let mut v = ordering_strings(&["b", "é", "a", "", "ab", "B", "~", "aa", "z", "a"]);
    let mut expected = v.clone();
    expected.sort();
    alphabetically_rank_strings(&mut v);
    assert_eq!(v, expected);
}

#[test]
fn ranking_nothing_and_one_item() {
    let mut none: Vec<String> = Vec::new();
    alphabetically_rank_strings(&mut none);
    assert!(none.is_empty());
    let mut one = ordering_strings(&["only"]);
    reverse_alphabetically_rank_strings(&mut one);
    assert_eq!(one, ordering_strings(&["only"]));
}

#[test]
fn byte_order_of_prefixes_and_equals() {
    assert!(bytes_not_after(b"", b""));
    assert!(bytes_not_after(b"", b"a"));
    assert!(!bytes_not_after(b"a", b""));
    assert!(bytes_not_after(b"ab", b"abc"));
    assert!(!bytes_not_after(b"abc", b"ab"));
    assert!(bytes_not_after(b"abc", b"abc"));
    assert!(bytes_not_after(b"abc", b"abd"));
    assert!(!bytes_not_after(b"b", b"abc"));
}

#[test]
fn files_rank_by_name_both_ways() {
    let mut files = vec![
        ordering_file("b", 1, "x"),
        ordering_file("c", 2, "x"),
        ordering_file("a", 3, "x"),
    ];
    alphabetically_rank_files(&mut files);
    assert_eq!(ordering_names(&files), ordering_strings(&["a", "b", "c"]));
    reverse_alphabetically_rank_files(&mut files);
    assert_eq!(ordering_names(&files), ordering_strings(&["c", "b", "a"]));
}

#[test]
fn descending_is_the_exact_reverse_of_ascending() {
    let given = vec![
        ordering_file("delta", 1, "x"),
        ordering_file("alpha", 2, "x"),
        ordering_file("charlie", 3, "x"),
        ordering_file("bravo", 4, "x"),
    ];
    let mut up = given.clone();
    let mut down = given.clone();
    alphabetically_rank_files(&mut up);
    reverse_alphabetically_rank_files(&mut down);
    let mut reversed = ordering_names(&up);
    reversed.reverse();
    assert_eq!(ordering_names(&down), reversed);
}

#[test]
fn newest_file_comes_first() {
    let mut files = vec![
        ordering_file("old", 100, "x"),
        ordering_file("new", 300, "x"),
        ordering_file("mid", 200, "x"),
    ];
    rank_files_by_last_modified_date(&mut files);
    assert_eq!(ordering_names(&files), ordering_strings(&["new", "mid", "old"]));
}

#[test]
fn oldest_file_comes_first_when_reversed() {
    let mut files = vec![
        ordering_file("mid", 200, "x"),
        ordering_file("new", 300, "x"),
        ordering_file("old", 100, "x"),
    ];
    reverse_rank_files_by_last_modified_date(&mut files);
    assert_eq!(ordering_names(&files), ordering_strings(&["old", "mid", "new"]));
}

#[test]
fn nanoseconds_and_times_before_the_epoch_count() {
    let mut a = ordering_file("a", 5, "x");
    a.last_modified.nanoseconds = 1;
    let mut b = ordering_file("b", 5, "x");
    b.last_modified.nanoseconds = 2;
    let c = ordering_file("c", -7, "x");
    let mut files = vec![a, c, b];
    rank_files_by_last_modified_date(&mut files);
    assert_eq!(ordering_names(&files), ordering_strings(&["b", "a", "c"]));
}

#[test]
fn items_that_rank_alike_keep_their_order() {
    let mut files = vec![
        ordering_file("same", 1, "first"),
        ordering_file("other", 1, "second"),
        ordering_file("same", 1, "third"),
    ];
    alphabetically_rank_files(&mut files);
    let owners: Vec<String> = files.iter().map(|f| f.owner_name.clone()).collect();
    assert_eq!(owners, ordering_strings(&["second", "first", "third"]));
    reverse_alphabetically_rank_files(&mut files);
    let owners: Vec<String> = files.iter().map(|f| f.owner_name.clone()).collect();
    assert_eq!(owners, ordering_strings(&["first", "third", "second"]));
}

#[test]
fn the_switches_pick_one_of_four_orders() {
    assert_eq!(choose_ranking(&ordering_switches(false, false)), Ranking::NameAscending);
    assert_eq!(choose_ranking(&ordering_switches(false, true)), Ranking::NewestFirst);
    assert_eq!(choose_ranking(&ordering_switches(true, false)), Ranking::NameDescending);
    assert_eq!(choose_ranking(&ordering_switches(true, true)), Ranking::OldestFirst);
}

#[test]
fn files_rank_as_the_switches_ask() {
    let given = vec![
        ordering_file("b", 30, "x"),
        ordering_file("a", 10, "x"),
        ordering_file("c", 20, "x"),
    ];
    let mut files = given.clone();
    file_rank_redirect(&mut files, &ordering_switches(false, false));
    assert_eq!(ordering_names(&files), ordering_strings(&["a", "b", "c"]));
    let mut files = given.clone();
    file_rank_redirect(&mut files, &ordering_switches(true, false));
    assert_eq!(ordering_names(&files), ordering_strings(&["c", "b", "a"]));
    let mut files = given.clone();
    file_rank_redirect(&mut files, &ordering_switches(false, true));
    assert_eq!(ordering_names(&files), ordering_strings(&["b", "c", "a"]));
    let mut files = given.clone();
    file_rank_redirect(&mut files, &ordering_switches(true, true));
    assert_eq!(ordering_names(&files), ordering_strings(&["a", "c", "b"]));
}
