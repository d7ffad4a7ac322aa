//! The short format: names poured into columns and printed row by row.

use vstd::prelude::*;
use vstd::arithmetic::div_mod::lemma_fundamental_div_mod;
use crate::parameters::Parameters;
use crate::paint::{is_painted, painted, tint_of};
use crate::records::{all_well_colored, lemma_visible_well_colored, retain_visible, visible, File};
use crate::text::{newline, push_newline, push_spaces, spaces, texts, width_of};

verus! {

/// `a` divided by `b`, rounded up.
pub open spec fn ceil_div(a: int, b: int) -> int {
    if a % b == 0 {
        a / b
    } else {
        a / b + 1
    }
}

/// How many columns of the given width fit side by side; never fewer than one.
pub open spec fn columns_that_fit(terminal_width: int, column_length: int) -> int {
    if terminal_width / column_length == 0 {
        1
    } else {
        terminal_width / column_length
    }
}

/// The number of rows of the grid: enough for all entries in as many columns
/// as fit.
pub open spec fn grid_rows(count: int, terminal_width: int, column_length: int) -> int {
    ceil_div(count, columns_that_fit(terminal_width, column_length))
}

/// The number of columns of the grid: enough for all entries in columns of
/// `rows` each.
pub open spec fn grid_columns(count: int, rows: int) -> int {
    ceil_div(count, rows)
}

/// Rounding up a positive number divided by a positive number gives the
/// least count of groups of that size that hold it.
pub proof fn lemma_ceil_div_bounds(a: int, b: int)
    requires
        a > 0,
        b > 0,
    ensures
        1 <= ceil_div(a, b) <= a,
        (ceil_div(a, b) - 1) * b < a <= ceil_div(a, b) * b,
{
    lemma_fundamental_div_mod(a, b);
    let q = a / b;
    let r = a % b;
    assert(a == b * q + r);
    assert(0 <= r < b);
    assert(q >= 0) by (nonlinear_arith)
        requires
            a == b * q + r,
            a > 0,
            b > 0,
            r < b,
    ;
    assert(b * q >= q) by (nonlinear_arith)
        requires
            b >= 1,
            q >= 0,
    ;
    if r == 0 {
        assert(q >= 1) by (nonlinear_arith)
            requires
                a == b * q + r,
                r == 0,
                a > 0,
                b > 0,
        ;
        assert((q - 1) * b == b * q - b) by (nonlinear_arith);
        assert(q * b == b * q) by (nonlinear_arith);
    } else {
        assert(q * b == b * q) by (nonlinear_arith);
        assert((q + 1) * b == b * q + b) by (nonlinear_arith);
        if b == 1 {
            assert(false);
        }
        assert(b * q >= 2 * q) by (nonlinear_arith)
            requires
                b >= 2,
                q >= 0,
        ;
    }
}

/// The rows and columns of the grid for the given number of names.
///
/// As many columns as fit in the terminal give the number of rows; the
/// columns are then as few as hold all names in columns of that many rows.
pub fn get_matrix_size(number_of_files: usize, terminal_width: usize, column_length: usize) -> (size:
    (usize, usize))
    requires
        number_of_files > 0,
        column_length > 0,
    ensures
        size.0 == grid_rows(number_of_files as int, terminal_width as int, column_length as int),
        size.1 == grid_columns(number_of_files as int, size.0 as int),
        size.0 >= 1,
        size.1 >= 1,
{
    let mut initial_number_of_columns: usize = terminal_width / column_length;
    if initial_number_of_columns == 0 {
        initial_number_of_columns = 1;
    }
    proof {
        lemma_ceil_div_bounds(number_of_files as int, initial_number_of_columns as int);
    }
    let mut number_of_rows: usize = number_of_files / initial_number_of_columns;
    if number_of_files % initial_number_of_columns != 0 {
        number_of_rows += 1;
    }
    proof {
        lemma_ceil_div_bounds(number_of_files as int, number_of_rows as int);
    }
    let mut number_of_columns: usize = number_of_files / number_of_rows;
    if number_of_files % number_of_rows != 0 {
        number_of_columns += 1;
    }
    (number_of_rows, number_of_columns)
}

/// The grid holds every name, has no empty column, and is no wider than the
/// terminal allows.
pub proof fn lemma_grid_shape(count: int, terminal_width: int, column_length: int)
    requires
        count > 0,
        terminal_width >= 0,
        column_length > 0,
    ensures
        ({
            let rows = grid_rows(count, terminal_width, column_length);
            let columns = grid_columns(count, rows);
            &&& 1 <= rows <= count
            &&& 1 <= columns <= columns_that_fit(terminal_width, column_length)
            &&& (columns - 1) * rows < count <= columns * rows
        }),
{
    let fit = columns_that_fit(terminal_width, column_length);
    assert(terminal_width / column_length >= 0) by (nonlinear_arith)
        requires
            terminal_width >= 0,
            column_length > 0,
    ;
    lemma_ceil_div_bounds(count, fit);
    let rows = grid_rows(count, terminal_width, column_length);
    lemma_ceil_div_bounds(count, rows);
    let columns = grid_columns(count, rows);
    if columns > fit {
        assert((columns - 1) * rows >= fit * rows) by (nonlinear_arith)
            requires
                columns - 1 >= fit,
                rows >= 1,
        ;
        assert(fit * rows == rows * fit) by (nonlinear_arith);
    }
}

/// Something a grid can show: it has a name, by which its room is measured,
/// and a text that is printed for it.
pub trait Shown: Sized {
    /// The name of the item.
    spec fn label(&self) -> Seq<char>;

    /// The text printed for the item.
    spec fn display(&self) -> Seq<char>;

    /// The name of the item.
    fn label_text(&self) -> (s: &str)
        ensures
            s@ == self.label(),
    ;

    /// The text printed for the item.
    fn display_text(&self) -> (s: &str)
        ensures
            s@ == self.display(),
    ;

    /// A copy of the item.
    fn duplicate(&self) -> (copy: Self)
        ensures
            copy == *self,
    ;
}

/// A file is measured by its name and shown in its colour.
impl Shown for File {
    open spec fn label(&self) -> Seq<char> {
        self.path_name@
    }

    open spec fn display(&self) -> Seq<char> {
        self.colored_name@
    }

    fn label_text(&self) -> (s: &str) {
        self.path_name.as_str()
    }

    fn display_text(&self) -> (s: &str) {
        self.colored_name.as_str()
    }

    fn duplicate(&self) -> (copy: File) {
        File::duplicate(self)
    }
}

/// A bare name is shown as it is.
impl Shown for String {
    open spec fn label(&self) -> Seq<char> {
        self@
    }

    open spec fn display(&self) -> Seq<char> {
        self@
    }

    fn label_text(&self) -> (s: &str) {
        self.as_str()
    }

    fn display_text(&self) -> (s: &str) {
        self.as_str()
    }

    fn duplicate(&self) -> (copy: String) {
        self.clone()
    }
}

/// What the grid needs of an item: the name, by which its room is measured,
/// and the text that is printed for it.
pub struct Cell {
    pub label: Seq<char>,
    pub display: Seq<char>,
}

/// The cell that an item fills.
pub open spec fn cell_of<T: Shown>() -> spec_fn(T) -> Cell {
    |item: T| Cell { label: item.label(), display: item.display() }
}

/// The cells that the items fill, in their order.
pub open spec fn cells_of<T: Shown>(items: Seq<T>) -> Seq<Cell> {
    items.map_values(cell_of::<T>())
}

/// The cell of a bare name: it is printed as it is.
pub open spec fn name_cell() -> spec_fn(Seq<char>) -> Cell {
    |name: Seq<char>| Cell { label: name, display: name }
}

/// The cells of bare names, in their order.
pub open spec fn name_cells(names: Seq<Seq<char>>) -> Seq<Cell> {
    names.map_values(name_cell())
}

/// The room of the widest name; zero for no names.
pub open spec fn widest(cells: Seq<Cell>) -> nat
    decreases cells.len(),
{
    if cells.len() == 0 {
        0
    } else {
        let rest = widest(cells.drop_last());
        let last = width_of(cells.last().label);
        if last > rest {
            last
        } else {
            rest
        }
    }
}

/// No name is wider than the widest.
pub proof fn lemma_widest_bounds(cells: Seq<Cell>)
    ensures
        forall|i: int| 0 <= i < cells.len() ==> width_of((#[trigger] cells[i]).label) <= widest(cells),
    decreases cells.len(),
{
    if cells.len() > 0 {
        lemma_widest_bounds(cells.drop_last());
        assert forall|i: int| 0 <= i < cells.len() implies width_of((#[trigger] cells[i]).label)
            <= widest(cells) by {
            if i < cells.len() - 1 {
                assert(cells.drop_last()[i] == cells[i]);
            }
        }
    }
}

/// Measures the widest name.
pub fn widest_label<T: Shown>(items: &Vec<T>) -> (best: usize)
    ensures
        best == widest(cells_of(items@)),
{
    let mut best: usize = 0;
    let mut i: usize = 0;
    let ghost cells = cells_of(items@);
    proof {
        assert(cells.take(0) =~= Seq::empty());
    }
    while i < items.len()
        invariant
            i <= items.len(),
            cells == cells_of(items@),
            best == widest(cells.take(i as int)),
        decreases items.len() - i,
    {
        proof {
            assert(cells.take(i + 1).drop_last() =~= cells.take(i as int));
            assert(cells.take(i + 1).last() == cells[i as int]);
        }
        let width: usize = items[i].label_text().as_bytes().len();
        if width > best {
            best = width;
        }
        i += 1;
    }
    proof {
        assert(cells.take(i as int) =~= cells);
    }
    best
}

/// The width of a column for these files: one more than the longest name.
pub fn get_column_length(files: &Vec<File>) -> (length: usize)
    requires
        files.len() > 0,
        widest(cells_of(files@)) < usize::MAX,
    ensures
        length == widest(cells_of(files@)) + 1,
{
    widest_label(files) + 1
}

/// The width of a column for these names: one more than the longest name.
pub fn get_column_length_single_files(files: &Vec<String>) -> (length: usize)
    requires
        files.len() > 0,
        widest(name_cells(texts(files@))) < usize::MAX,
    ensures
        length == widest(name_cells(texts(files@))) + 1,
{
    proof {
        lemma_name_cells(files@);
    }
    widest_label(files) + 1
}

/// The cells of strings are the cells of their texts.
pub proof fn lemma_name_cells(names: Seq<String>)
    ensures
        cells_of(names) == name_cells(texts(names)),
{
    assert(cells_of(names) =~= name_cells(texts(names)));
}

/// The smaller of a position and the number of items.
pub open spec fn clip(position: int, count: int) -> int {
    if position < count {
        position
    } else {
        count
    }
}

/// The items of column `c` when the items are poured into columns of `rows`
/// each, one column after the other.
pub open spec fn column_of<T>(items: Seq<T>, rows: int, c: int) -> Seq<T> {
    items.subrange(
        clip(c * rows, items.len() as int),
        clip((c + 1) * rows, items.len() as int),
    )
}

/// The given number of columns of `rows` items each, filled one after the
/// other; a column is short or empty where the items run out.
pub open spec fn columns_of<T>(items: Seq<T>, rows: int, columns: int) -> Seq<Seq<T>> {
    Seq::new(if columns > 0 { columns as nat } else { 0 }, |c: int| column_of(items, rows, c))
}

/// The columns of a matrix as sequences.
pub open spec fn matrix_view<T>(matrix: Seq<Vec<T>>) -> Seq<Seq<T>> {
    Seq::new(matrix.len(), |c: int| matrix[c]@)
}

/// Pours the items into columns: the first `number_of_rows` items make the
/// first column, the next ones the second, and so on.
pub fn assemble_matrix<T: Shown>(
    number_of_columns: usize,
    number_of_rows: usize,
    items: &Vec<T>,
) -> (matrix: Vec<Vec<T>>)
    requires
        number_of_rows > 0,
    ensures
        matrix_view(matrix@) == columns_of(
            items@,
            number_of_rows as int,
            number_of_columns as int,
        ),
{
    let mut counter: usize = 0;
    let mut matrix: Vec<Vec<T>> = Vec::new();
    let ghost rows = number_of_rows as int;
    let ghost count = items.len() as int;
    let mut c: usize = 0;
    while c < number_of_columns
        invariant
            c <= number_of_columns,
            number_of_rows > 0,
            rows == number_of_rows,
            count == items.len(),
            counter == clip(c * rows, count),
            matrix.len() == c,
            forall|k: int| 0 <= k < c ==> (#[trigger] matrix[k])@ == column_of(items@, rows, k),
        decreases number_of_columns - c,
    {
        let mut column: Vec<T> = Vec::new();
        let ghost start = counter as int;
        while counter < items.len() && column.len() < number_of_rows
            invariant
                0 <= start <= counter <= items.len(),
                column.len() == counter - start,
                column.len() <= number_of_rows,
                column@ == items@.subrange(start, counter as int),
            decreases items.len() - counter,
        {
            column.push(items[counter].duplicate());
            counter += 1;
            proof {
                assert(column@ =~= items@.subrange(start, counter as int));
            }
        }
        proof {
            assert((c + 1) * rows == c * rows + rows) by (nonlinear_arith);
            assert(c * rows >= 0) by (nonlinear_arith)
                requires
                    c >= 0,
                    rows > 0,
            ;
            assert(counter == clip((c + 1) * rows, count));
            assert(column@ == column_of(items@, rows, c as int));
        }
        matrix.push(column);
        c += 1;
    }
    proof {
        assert(matrix_view(matrix@) =~= columns_of(items@, rows, number_of_columns as int));
    }
    matrix
}

/// Pours the files into columns of `number_of_rows` each.
pub fn assemble_file_matrix(number_of_columns: usize, number_of_rows: usize, files: Vec<File>) -> (matrix:
    Vec<Vec<File>>)
    requires
        number_of_rows > 0,
    ensures
        matrix_view(matrix@) == columns_of(
            files@,
            number_of_rows as int,
            number_of_columns as int,
        ),
{
    assemble_matrix(number_of_columns, number_of_rows, &files)
}

/// Pours the names into columns of `number_of_rows` each.
pub fn assemble_file_matrix_single_files(
    number_of_columns: usize,
    number_of_rows: usize,
    files: &Vec<String>,
) -> (matrix: Vec<Vec<String>>)
    requires
        number_of_rows > 0,
    ensures
        matrix_view(matrix@) == columns_of(
            files@,
            number_of_rows as int,
            number_of_columns as int,
        ),
{
    assemble_matrix(number_of_columns, number_of_rows, files)
}

/// What one cell of the grid holds: the text of the item, padded with blanks
/// to one more than the room of the widest name.
pub open spec fn cell_text(cell: Cell, widest: int) -> Seq<char> {
    cell.display + spaces(widest - width_of(cell.label) + 1)
}

/// Row `row` of the grid over the first `upto` columns: the cells of the
/// columns that reach down to that row, side by side.
pub open spec fn line_text(columns: Seq<Seq<Cell>>, row: int, upto: int, widest: int) -> Seq<char>
    decreases upto,
{
    if upto <= 0 {
        Seq::empty()
    } else {
        let before = line_text(columns, row, upto - 1, widest);
        if row < columns[upto - 1].len() {
            before + cell_text(columns[upto - 1][row], widest)
        } else {
            before
        }
    }
}

/// The first `upto` rows of the grid, each closed by a line break.
pub open spec fn lines_text(columns: Seq<Seq<Cell>>, upto: int, widest: int) -> Seq<char>
    decreases upto,
{
    if upto <= 0 {
        Seq::empty()
    } else {
        lines_text(columns, upto - 1, widest) + line_text(
            columns,
            upto - 1,
            columns.len() as int,
            widest,
        ) + newline()
    }
}

/// The length of the longest column; zero for no columns.
pub open spec fn tallest<T>(columns: Seq<Seq<T>>) -> nat
    decreases columns.len(),
{
    if columns.len() == 0 {
        0
    } else {
        let rest = tallest(columns.drop_last());
        if columns.last().len() > rest {
            columns.last().len()
        } else {
            rest
        }
    }
}

/// The text of a grid given by its columns: as many rows as the longest
/// column has, printed one under the other.
pub open spec fn grid_text(columns: Seq<Seq<Cell>>, widest: int) -> Seq<char> {
    lines_text(columns, tallest(columns) as int, widest)
}

/// The cells of a matrix, column by column.
pub open spec fn matrix_cells<T: Shown>(matrix: Seq<Vec<T>>) -> Seq<Seq<Cell>> {
    Seq::new(matrix.len(), |c: int| cells_of(matrix[c]@))
}

/// Measures the longest column.
fn tallest_column<T: Shown>(matrix: &Vec<Vec<T>>) -> (best: usize)
    ensures
        best == tallest(matrix_cells(matrix@)),
{
    let mut best: usize = 0;
    let mut i: usize = 0;
    let ghost columns = matrix_cells(matrix@);
    proof {
        assert(columns.take(0) =~= Seq::empty());
    }
    while i < matrix.len()
        invariant
            i <= matrix.len(),
            columns == matrix_cells(matrix@),
            best == tallest(columns.take(i as int)),
        decreases matrix.len() - i,
    {
        proof {
            assert(columns.take(i + 1).drop_last() =~= columns.take(i as int));
            assert(columns.take(i + 1).last() == cells_of(matrix@[i as int]@));
        }
        if matrix[i].len() > best {
            best = matrix[i].len();
        }
        i += 1;
    }
    proof {
        assert(columns.take(i as int) =~= columns);
    }
    best
}

/// Prints the grid row by row: each name in its colour, padded to the width
/// of a column, and a line break after each row.
pub fn transpose_text<T: Shown>(matrix: &Vec<Vec<T>>, widest: usize) -> (out: String)
    requires
        forall|c: int, r: int|
            0 <= c < matrix.len() && 0 <= r < matrix[c].len() ==> width_of(
                (#[trigger] matrix[c][r]).label(),
            ) <= widest,
    ensures
        out@ == grid_text(matrix_cells(matrix@), widest as int),
{
    let number_of_rows: usize = tallest_column(matrix);
    let ghost columns = matrix_cells(matrix@);
    let mut out = String::new();
    let mut row: usize = 0;
    while row < number_of_rows
        invariant
            row <= number_of_rows,
            columns == matrix_cells(matrix@),
            out@ == lines_text(columns, row as int, widest as int),
            forall|c: int, r: int|
                0 <= c < matrix.len() && 0 <= r < matrix[c].len() ==> width_of(
                    (#[trigger] matrix[c][r]).label(),
                ) <= widest,
        decreases number_of_rows - row,
    {
        let ghost above = out@;
        let mut column: usize = 0;
        while column < matrix.len()
            invariant
                column <= matrix.len(),
                columns == matrix_cells(matrix@),
                out@ == above + line_text(columns, row as int, column as int, widest as int),
                forall|c: int, r: int|
                    0 <= c < matrix.len() && 0 <= r < matrix[c].len() ==> width_of(
                        (#[trigger] matrix[c][r]).label(),
                    ) <= widest,
            decreases matrix.len() - column,
        {
            if row < matrix[column].len() {
                let item = &matrix[column][row];
                let width: usize = item.label_text().as_bytes().len();
                let ghost before = out@;
                proof {
                    assert(columns[column as int][row as int] == cell_of::<T>()(*item));
                    assert(width_of(matrix[column as int][row as int].label()) <= widest);
                }
                out.append(item.display_text());
                push_spaces(&mut out, widest - width);
                push_spaces(&mut out, 1);
                proof {
                    assert(spaces(widest - width) + spaces(1) =~= spaces(widest - width + 1));
                    assert(out@ =~= before + cell_text(cell_of::<T>()(*item), widest as int));
                }
            }
            column += 1;
        }
        push_newline(&mut out);
        row += 1;
    }
    out
}

/// Prints a grid of files row by row.
pub fn transpose_print(file_matrix: &Vec<Vec<File>>, widest: usize) -> (out: String)
    requires
        forall|c: int, r: int|
            0 <= c < file_matrix.len() && 0 <= r < file_matrix[c].len() ==> width_of(
                (#[trigger] file_matrix[c][r]).label(),
            ) <= widest,
    ensures
        out@ == grid_text(matrix_cells(file_matrix@), widest as int),
{
    transpose_text(file_matrix, widest)
}

/// Prints a grid of names row by row.
pub fn transpose_print_single_files(file_matrix: &Vec<Vec<String>>, widest: usize) -> (out: String)
    requires
        forall|c: int, r: int|
            0 <= c < file_matrix.len() && 0 <= r < file_matrix[c].len() ==> width_of(
                (#[trigger] file_matrix[c][r]).label(),
            ) <= widest,
    ensures
        out@ == grid_text(matrix_cells(file_matrix@), widest as int),
{
    transpose_text(file_matrix, widest)
}

/// The grid of the cells for a terminal of the given width: columns one
/// wider than the widest name, as many as fit, filled one after the other.
pub open spec fn grid_of(cells: Seq<Cell>, terminal_width: int) -> Seq<char> {
    let rows = grid_rows(cells.len() as int, terminal_width, widest(cells) as int + 1);
    let columns = grid_columns(cells.len() as int, rows);
    grid_text(columns_of(cells, rows, columns), widest(cells) as int)
}

/// Lays the items out in a grid for a terminal of the given width.
pub fn grid<T: Shown>(items: &Vec<T>, terminal_width: u16) -> (out: String)
    requires
        items.len() > 0,
    ensures
        out@ == grid_of(cells_of(items@), terminal_width as int),
{
    let widest: usize = widest_label(items);
    let ghost cells = cells_of(items@);
    let size: (usize, usize) = if widest < usize::MAX {
        get_matrix_size(items.len(), terminal_width as usize, widest + 1)
    } else {
        proof {
            let count = items.len() as int;
            let length = widest + 1;
            assert(terminal_width as int / length == 0) by (nonlinear_arith)
                requires
                    0 <= terminal_width < length,
            ;
            assert(count % count == 0 && count / count == 1) by (nonlinear_arith)
                requires
                    count > 0,
            ;
        }
        (items.len(), 1)
    };
    let matrix = assemble_matrix(size.1, size.0, items);
    proof {
        lemma_widest_bounds(cells);
        let poured = columns_of(items@, size.0 as int, size.1 as int);
        assert(matrix_view(matrix@).len() == matrix.len());
        assert forall|c: int, r: int|
            0 <= c < matrix.len() && 0 <= r < matrix[c].len() implies width_of(
            (#[trigger] matrix[c][r]).label(),
        ) <= widest by {
            let column = column_of(items@, size.0 as int, c);
            assert(matrix_view(matrix@)[c] == matrix[c]@);
            assert(poured[c] == column);
            assert(matrix[c]@ == column);
            let start = clip(c * size.0, items.len() as int);
            assert(c * size.0 >= 0) by (nonlinear_arith)
                requires
                    c >= 0,
                    size.0 >= 0,
            ;
            assert((c + 1) * size.0 == c * size.0 + size.0) by (nonlinear_arith);
            assert(column[r] == items@[start + r]);
            assert(cells[start + r].label == items@[start + r].label());
        }
        assert(matrix_cells(matrix@) =~= columns_of(cells, size.0 as int, size.1 as int)) by {
            assert forall|c: int| 0 <= c < matrix.len() implies #[trigger] matrix_cells(
                matrix@,
            )[c] == column_of(cells, size.0 as int, c) by {
                assert(matrix_view(matrix@)[c] == matrix[c]@);
                assert(poured[c] == column_of(items@, size.0 as int, c));
                assert(c * size.0 >= 0) by (nonlinear_arith)
                    requires
                        c >= 0,
                        size.0 >= 0,
                ;
                assert((c + 1) * size.0 == c * size.0 + size.0) by (nonlinear_arith);
                assert(cells_of(column_of(items@, size.0 as int, c)) =~= column_of(
                    cells,
                    size.0 as int,
                    c,
                ));
            }
        }
    }
    transpose_text(&matrix, widest)
}

/// What is said where the width of the terminal cannot be had.
pub open spec fn width_unknown() -> Seq<char> {
    "Unable to get terminal size"@
}

/// The short format of files that are all shown.
///
/// A single entry is its coloured name and nothing else. Without a terminal
/// width there is only the complaint; no entries give an empty line;
/// anything else is a grid.
pub open spec fn shown_text(shown: Seq<File>, terminal_width: Option<u16>) -> Seq<char> {
    if shown.len() == 1 {
        shown[0].colored_name@
    } else if terminal_width is None {
        width_unknown() + newline()
    } else if shown.len() == 0 {
        newline()
    } else {
        grid_of(cells_of(shown), terminal_width->0 as int)
    }
}

/// The short format of a directory's files: the dot files are dropped unless
/// asked for, and the rest is shown.
pub open spec fn simple_text(files: Seq<File>, parameters: Parameters, terminal_width: Option<u16>) -> Seq<
    char,
> {
    shown_text(visible(files, parameters), terminal_width)
}

/// Prints files that are all shown in the short format.
pub fn print_shown(shown: &Vec<File>, terminal_width: Option<u16>) -> (out: String)
    ensures
        out@ == shown_text(shown@, terminal_width),
{
    if shown.len() == 1 {
        return shown[0].colored_name.clone();
    }
    match terminal_width {
        None => {
            let mut out = "Unable to get terminal size".to_owned();
            push_newline(&mut out);
            out
        },
        Some(width) => {
            if shown.is_empty() {
                let mut out = String::new();
                push_newline(&mut out);
                assert(out@ =~= newline());
                out
            } else {
                grid(shown, width)
            }
        },
    }
}

/// Prints the files in the short format: names only, in columns.
///
/// `terminal_width` is the width of the terminal in columns, or `None`
/// where it has none.
pub fn simple_print(files: Vec<File>, parameters: &Parameters, terminal_width: Option<u16>) -> (out:
    String)
    ensures
        out@ == simple_text(files@, *parameters, terminal_width),
        visible(files@, *parameters).len() == 1 ==> out@ == visible(
            files@,
            *parameters,
        )[0].colored_name@,
        all_well_colored(files@) ==> all_well_colored(visible(files@, *parameters)),
        all_well_colored(files@) && visible(files@, *parameters).len() == 1 ==> is_painted(
            out@,
            visible(files@, *parameters)[0].path_name@,
            tint_of(
                visible(files@, *parameters)[0].is_dir,
                visible(files@, *parameters)[0].is_symbolic_link,
                visible(files@, *parameters)[0].file_mode,
            ),
        ),
{
    proof {
        if all_well_colored(files@) {
            lemma_visible_well_colored(files@, *parameters);
        }
    }
    let shown = retain_visible(files, parameters);
    print_shown(&shown, terminal_width)
}

/// In a grid of well coloured files every cell shows the name of its file,
/// plain where colours are switched off and else between the sequences that
/// switch the colour of its kind on and off; the padding follows.
pub proof fn lemma_cells_in_colour(files: Seq<File>, widest: int)
    requires
        all_well_colored(files),
    ensures
        cells_of(files).len() == files.len(),
        forall|i: int|
            0 <= i < files.len() ==> cell_text(#[trigger] cells_of(files)[i], widest) == files[i].path_name@
                + spaces(widest - width_of(files[i].path_name@) + 1) || cell_text(
                cells_of(files)[i],
                widest,
            ) == painted(
                files[i].path_name@,
                tint_of(files[i].is_dir, files[i].is_symbolic_link, files[i].file_mode),
            ) + spaces(widest - width_of(files[i].path_name@) + 1),
{
    assert forall|i: int| 0 <= i < files.len() implies cell_text(
        #[trigger] cells_of(files)[i],
        widest,
    ) == files[i].path_name@ + spaces(widest - width_of(files[i].path_name@) + 1) || cell_text(
        cells_of(files)[i],
        widest,
    ) == painted(
        files[i].path_name@,
        tint_of(files[i].is_dir, files[i].is_symbolic_link, files[i].file_mode),
    ) + spaces(widest - width_of(files[i].path_name@) + 1) by {
        assert(files[i].well_colored());
    }
}

/// The short format of a list of bare names: the complaint where the width
/// of the terminal cannot be had, else a grid.
pub open spec fn names_text(names: Seq<Seq<char>>, terminal_width: Option<u16>) -> Seq<char> {
    if terminal_width is None {
        width_unknown() + newline()
    } else {
        grid_of(name_cells(names), terminal_width->0 as int)
    }
}

/// Prints bare names in columns.
pub fn simple_print_single_files(files: &Vec<String>, terminal_width: Option<u16>) -> (out: String)
    requires
        files.len() > 0,
    ensures
        out@ == names_text(texts(files@), terminal_width),
{
    proof {
        lemma_name_cells(files@);
    }
    match terminal_width {
        None => {
            let mut out = "Unable to get terminal size".to_owned();
            push_newline(&mut out);
            out
        },
        Some(width) => grid(files, width),
    }
}

/// The first `columns` columns hold the items up to where they end, in order.
proof fn lemma_columns_prefix<T>(items: Seq<T>, rows: int, columns: int)
    requires
        rows > 0,
        columns >= 0,
    ensures
        columns_of(items, rows, columns).flatten() == items.take(
            clip(columns * rows, items.len() as int),
        ),
    decreases columns,
{
    if columns == 0 {
        assert(columns_of(items, rows, columns) =~= Seq::<Seq<T>>::empty());
        assert(columns * rows == 0) by (nonlinear_arith)
            requires
                columns == 0,
        ;
        assert(items.take(0) =~= Seq::<T>::empty());
    } else {
        let before = columns_of(items, rows, columns - 1);
        let last = column_of(items, rows, columns - 1);
        lemma_columns_prefix(items, rows, columns - 1);
        assert(columns_of(items, rows, columns) =~= before.push(last));
        before.lemma_flatten_push(last);
        assert((columns - 1) * rows >= 0) by (nonlinear_arith)
            requires
                columns >= 1,
                rows > 0,
        ;
        assert(columns * rows == (columns - 1) * rows + rows) by (nonlinear_arith);
        assert(before.flatten() + last =~= items.take(clip(columns * rows, items.len() as int)));
    }
}

/// Reading the columns one after the other, each from the top, gives back the
/// items in their order, as long as the columns have room for all of them.
pub proof fn lemma_columns_rebuild<T>(items: Seq<T>, rows: int, columns: int)
    requires
        rows > 0,
        columns >= 0,
        columns * rows >= items.len(),
    ensures
        columns_of(items, rows, columns).flatten() == items,
{
    lemma_columns_prefix(items, rows, columns);
    assert(items.take(items.len() as int) =~= items);
}

/// The grid that a listing makes is filled column by column: read that way it
/// gives back the entries in their order, every column but the last is full,
/// and the last is not empty.
pub proof fn lemma_grid_is_column_major<T>(items: Seq<T>, terminal_width: int, column_length: int)
    requires
        items.len() > 0,
        terminal_width >= 0,
        column_length > 0,
    ensures
        ({
            let rows = grid_rows(items.len() as int, terminal_width, column_length);
            let columns = grid_columns(items.len() as int, rows);
            let grid = columns_of(items, rows, columns);
            &&& grid.len() == columns
            &&& grid.flatten() == items
            &&& forall|c: int| 0 <= c < columns - 1 ==> (#[trigger] grid[c]).len() == rows
            &&& 1 <= grid[columns - 1].len() <= rows
        }),
{
    let count = items.len() as int;
    let rows = grid_rows(count, terminal_width, column_length);
    let columns = grid_columns(count, rows);
    let grid = columns_of(items, rows, columns);
    lemma_grid_shape(count, terminal_width, column_length);
    lemma_columns_rebuild(items, rows, columns);
    assert forall|c: int| 0 <= c < columns - 1 implies (#[trigger] grid[c]).len() == rows by {
        assert((c + 1) * rows <= (columns - 1) * rows) by (nonlinear_arith)
            requires
                c + 1 <= columns - 1,
                rows > 0,
        ;
        assert((c + 1) * rows == c * rows + rows) by (nonlinear_arith);
        assert(c * rows >= 0) by (nonlinear_arith)
            requires
                c >= 0,
                rows > 0,
        ;
    }
    assert(columns * rows == (columns - 1) * rows + rows) by (nonlinear_arith);
    assert((columns - 1) * rows >= 0) by (nonlinear_arith)
        requires
            columns >= 1,
            rows > 0,
    ;
}

} // verus!
