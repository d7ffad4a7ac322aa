use dirlist::grid::{
    assemble_file_matrix, assemble_file_matrix_single_files, get_column_length,
    get_column_length_single_files, get_matrix_size, grid, simple_print,
    simple_print_single_files, transpose_print_single_files, widest_label,
};
use dirlist::parameters::Parameters;
use dirlist::records::{retain_visible, File, Timestamp};

fn layout_file(name: &str, shown: &str) -> File {
    File {
        is_dir: false,
        is_symbolic_link: false,
        file_mode: 0o644,
        number_of_links: 1,
        owner_name: "ann".to_string(),
        group_name: "staff".to_string(),
        number_of_bytes: 5,
        last_modified: Timestamp { seconds: 0, nanoseconds: 0 },
        path_name: name.to_string(),
        extended_attributes: false,
        blocks: 8,
        link_target: String::new(),
        modified_text: "May 30 18:22".to_string(),
        colored_name: shown.to_string(),
    }
}

fn layout_strings(names: &[&str]) -> Vec<String> {
    names.iter().map(|n| n.to_string()).collect()
}

#[test]
fn matrix_size_when_everything_fits_in_one_row() {
    assert_eq!(get_matrix_size(5, 80, 10), (1, 5));
}

#[test]
fn matrix_size_with_a_short_last_column() {
    assert_eq!(get_matrix_size(10, 20, 6), (4, 3));
}

#[test]
fn matrix_size_drops_columns_that_would_stay_empty() {
    // Four columns fit, which gives three rows; three rows need only three columns.
    assert_eq!(get_matrix_size(7, 40, 10), (2, 4));
    assert_eq!(get_matrix_size(9, 40, 10), (3, 3));
}

#[test]
fn matrix_size_in_a_terminal_narrower_than_a_column() {
    assert_eq!(get_matrix_size(3, 5, 10), (3, 1));
    assert_eq!(get_matrix_size(3, 0, 10), (3, 1));
}

#[test]
fn matrix_size_for_a_single_name() {
    assert_eq!(get_matrix_size(1, 80, 4), (1, 1));
}

#[test]
fn column_length_is_one_more_than_the_longest_name() {
    assert_eq!(get_column_length_single_files(&layout_strings(&["a", "abcd", "ab"])), 5);
    assert_eq!(
        get_column_length(&vec![layout_file("readme.md", "x"), layout_file("a", "y")]),
        10
    );
}

#[test]
fn names_are_measured_in_bytes() {
    assert_eq!(widest_label(&layout_strings(&["é", "a"])), 2);
    assert_eq!(widest_label(&Vec::<String>::new()), 0);
}

#[test]
fn matrix_is_filled_column_by_column() {
    let names = layout_strings(&["a", "b", "c", "d", "e"]);
    let matrix = assemble_file_matrix_single_files(3, 2, &names);
    assert_eq!(
        matrix,
        vec![layout_strings(&["a", "b"]), layout_strings(&["c", "d"]), layout_strings(&["e"])]
    );
}

#[test]
fn reading_the_columns_in_turn_gives_back_the_order() {
    let names = layout_strings(&["0", "1", "2", "3", "4", "5", "6", "7", "8", "9"]);
    let size = get_matrix_size(names.len(), 20, 6);
    let matrix = assemble_file_matrix_single_files(size.1, size.0, &names);
    assert_eq!(matrix.len(), size.1);
    for column in 0..matrix.len() - 1 {
        assert_eq!(matrix[column].len(), size.0);
    }
    assert!(!matrix[matrix.len() - 1].is_empty());
    let flat: Vec<String> = matrix.into_iter().flatten().collect();
    assert_eq!(flat, names);
}

#[test]
fn columns_beyond_the_names_stay_empty() {
    let names = layout_strings(&["a", "b", "c"]);
    let matrix = assemble_file_matrix_single_files(3, 2, &names);
    assert_eq!(
        matrix,
        vec![layout_strings(&["a", "b"]), layout_strings(&["c"]), Vec::<String>::new()]
    );
}

#[test]
fn file_matrix_keeps_the_records() {
    let files = vec![layout_file("a", "A"), layout_file("b", "B"), layout_file("c", "C")];
    let matrix = assemble_file_matrix(2, 2, files);
    assert_eq!(matrix.len(), 2);
    assert_eq!(matrix[0][0].colored_name, "A");
    assert_eq!(matrix[0][1].colored_name, "B");
    assert_eq!(matrix[1][0].colored_name, "C");
}

#[test]
fn grid_in_a_wide_terminal_is_one_row() {
    let names = layout_strings(&["a", "bb", "ccc"]);
    assert_eq!(grid(&names, 80), "a   bb  ccc \n");
}

#[test]
fn grid_in_a_narrow_terminal_goes_down_the_columns_first() {
    let names = layout_strings(&["a", "bb", "ccc"]);
    assert_eq!(grid(&names, 8), "a   ccc \nbb  \n");
}

#[test]
fn grid_in_a_terminal_too_narrow_for_one_column() {
    let names = layout_strings(&["a", "bb", "ccc"]);
    assert_eq!(grid(&names, 2), "a   \nbb  \nccc \n");
}

#[test]
fn transposed_printing_pads_by_the_name_not_by_what_is_shown() {
    let matrix = vec![vec![layout_file("ab", "<ab>"), layout_file("c", "<c>")], vec![layout_file(
        "d", "<d>",
    )]];
    assert_eq!(dirlist::grid::transpose_print(&matrix, 2), "<ab> <d>  \n<c>  \n");
}

#[test]
fn transposed_printing_of_names() {
    let matrix = vec![layout_strings(&["a", "b"]), layout_strings(&["c"])];
    assert_eq!(transpose_print_single_files(&matrix, 1), "a c \nb \n");
}

#[test]
fn single_entry_is_its_coloured_name_alone() {
    let files = vec![layout_file("only", "\u{1b}[31monly\u{1b}[0m")];
    assert_eq!(simple_print(files, &Parameters::new(), Some(80)), "\u{1b}[31monly\u{1b}[0m");
}

#[test]
fn single_entry_needs_no_terminal() {
    let files = vec![layout_file("only", "only")];
    assert_eq!(simple_print(files, &Parameters::new(), None), "only");
}

#[test]
fn single_entry_left_after_hiding_dot_files() {
    let files = vec![layout_file(".git", ".git"), layout_file("src", "src")];
    assert_eq!(simple_print(files, &Parameters::new(), Some(80)), "src");
}

#[test]
fn dot_files_are_left_out_by_default() {
    let files = vec![layout_file(".hidden", ".hidden"), layout_file("a", "a"), layout_file(
        "b", "b",
    )];
    assert_eq!(simple_print(files, &Parameters::new(), Some(80)), "a b \n");
}

#[test]
fn dot_files_are_shown_when_asked_for() {
    let files = vec![layout_file(".hidden", ".hidden"), layout_file("a", "a"), layout_file(
        "b", "b",
    )];
    let mut all = Parameters::new();
    all.include_dot_files = true;
    assert_eq!(simple_print(files, &all, Some(80)), ".hidden a       b       \n");
}

#[test]
fn retain_visible_keeps_the_order() {
    let files = vec![
        layout_file(".a", ""),
        layout_file("b", ""),
        layout_file(".c", ""),
        layout_file("d.e", ""),
        layout_file("", ""),
    ];
    let kept: Vec<String> =
        retain_visible(files, &Parameters::new()).into_iter().map(|f| f.path_name).collect();
    assert_eq!(kept, layout_strings(&["b", "d.e", ""]));
}

#[test]
fn no_terminal_gives_only_the_complaint() {
    let files = vec![layout_file("a", "a"), layout_file("b", "b")];
    assert_eq!(simple_print(files, &Parameters::new(), None), "Unable to get terminal size\n");
    assert_eq!(
        simple_print_single_files(&layout_strings(&["a"]), None),
        "Unable to get terminal size\n"
    );
}

#[test]
fn no_entries_give_an_empty_line() {
    assert_eq!(simple_print(Vec::new(), &Parameters::new(), Some(80)), "\n");
    assert_eq!(
        simple_print(vec![layout_file(".x", ".x"), layout_file(".y", ".y")], &Parameters::new(), Some(80)),
        "\n"
    );
}

#[test]
fn a_grid_of_one_name_pads_it() {
    assert_eq!(simple_print_single_files(&layout_strings(&["file.txt"]), Some(80)), "file.txt \n");
}

#[test]
fn grid_uses_the_colours_but_measures_the_names() {
    let files = vec![layout_file("a", "\u{1b}[1;36ma\u{1b}[0m"), layout_file("bbb", "bbb")];
    assert_eq!(
        simple_print(files, &Parameters::new(), Some(80)),
        "\u{1b}[1;36ma\u{1b}[0m   bbb \n"
    );
}
