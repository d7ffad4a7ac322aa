//! The long format: one line per file with its kind, permissions, owner,
//! size and modification time.

use vstd::prelude::*;
use crate::parameters::Parameters;
use crate::paint::{painted, tint_of};
use crate::records::{all_well_colored, lemma_visible_well_colored, retain_visible, visible, File};
use crate::text::{decimal, decimal_width, newline, push_decimal, push_newline, push_spaces, spaces};

verus! {

/// The letter for the kind of file: `d` for a directory, `l` for a symbolic
/// link, `-` for anything else.
pub open spec fn kind_letter(file: File) -> char {
    if file.is_dir {
        'd'
    } else if file.is_symbolic_link {
        'l'
    } else {
        '-'
    }
}

/// The letter for the kind of file, as a string.
pub fn file_type(file: &File) -> (letter: String)
    ensures
        letter@ == seq![kind_letter(*file)],
{
    proof {
        reveal_strlit("d");
        reveal_strlit("l");
        reveal_strlit("-");
    }
    let letter = if file.is_dir {
        "d"
    } else if file.is_symbolic_link {
        "l"
    } else {
        "-"
    };
    assert(letter@ =~= seq![kind_letter(*file)]);
    letter.to_owned()
}

/// One letter of a permission: the letter where the bit is set, a dash where
/// it is not.
pub open spec fn permission_letter(mode: u32, mask: u32, letter: char) -> char {
    if mode & mask != 0 {
        letter
    } else {
        '-'
    }
}

/// The three letters for who may read, write and execute, by the given masks.
pub open spec fn triad(mode: u32, read: u32, write: u32, execute: u32) -> Seq<char> {
    seq![
        permission_letter(mode, read, 'r'),
        permission_letter(mode, write, 'w'),
        permission_letter(mode, execute, 'x'),
    ]
}

/// Writes the three permission letters for the given masks.
pub fn permission_bits(mode: u32, read: u32, write: u32, execute: u32) -> (letters: String)
    ensures
        letters@ == triad(mode, read, write, execute),
{
    proof {
        reveal_strlit("r");
        reveal_strlit("w");
        reveal_strlit("x");
        reveal_strlit("-");
    }
    let r = if mode & read != 0 {
        "r"
    } else {
        "-"
    };
    let w = if mode & write != 0 {
        "w"
    } else {
        "-"
    };
    let x = if mode & execute != 0 {
        "x"
    } else {
        "-"
    };
    let mut letters = r.to_owned();
    letters.append(w);
    letters.append(x);
    assert(letters@ =~= triad(mode, read, write, execute));
    letters
}

/// The mark for extended attributes: `@` and a blank where the file has
/// some, two blanks where it has none.
pub open spec fn attribute_mark(file: File) -> Seq<char> {
    if file.extended_attributes {
        seq!['@', ' ']
    } else {
        seq![' ', ' ']
    }
}

/// The first field of a line: the kind, the permissions of the owner, of the
/// group and of the others, and the mark for extended attributes.
pub open spec fn permissions_text(file: File) -> Seq<char> {
    seq![kind_letter(file)] + triad(file.file_mode, 0o400, 0o200, 0o100) + triad(
        file.file_mode,
        0o040,
        0o020,
        0o010,
    ) + triad(file.file_mode, 0o004, 0o002, 0o001) + attribute_mark(file)
}

/// Appends the kind and permissions of a file.
pub fn print_permissions(out: &mut String, file: &File)
    ensures
        final(out)@ == old(out)@ + permissions_text(*file),
{
    let mode = file.file_mode;
    let kind = file_type(file);
    out.append(kind.as_str());
    let owner = permission_bits(mode, 0o400, 0o200, 0o100);
    out.append(owner.as_str());
    let group = permission_bits(mode, 0o040, 0o020, 0o010);
    out.append(group.as_str());
    let others = permission_bits(mode, 0o004, 0o002, 0o001);
    out.append(others.as_str());
    proof {
        reveal_strlit("@ ");
        reveal_strlit("  ");
        assert("@ "@ =~= seq!['@', ' ']);
        assert("  "@ =~= seq![' ', ' ']);
    }
    if file.extended_attributes {
        out.append("@ ");
    } else {
        out.append("  ");
    }
    assert(out@ =~= old(out)@ + permissions_text(*file));
}

/// The width of the link-count field: the digits of the longest count.
pub open spec fn links_width(files: Seq<File>) -> nat
    decreases files.len(),
{
    if files.len() == 0 {
        1
    } else {
        let rest = links_width(files.drop_last());
        let last = decimal(files.last().number_of_links as nat).len();
        if last > rest {
            last
        } else {
            rest
        }
    }
}

/// The width of the size field: the digits of the longest size.
pub open spec fn sizes_width(files: Seq<File>) -> nat
    decreases files.len(),
{
    if files.len() == 0 {
        1
    } else {
        let rest = sizes_width(files.drop_last());
        let last = decimal(files.last().number_of_bytes as nat).len();
        if last > rest {
            last
        } else {
            rest
        }
    }
}

/// The sum of the blocks of all files.
pub open spec fn total_blocks(files: Seq<File>) -> nat
    decreases files.len(),
{
    if files.len() == 0 {
        0
    } else {
        total_blocks(files.drop_last()) + files.last().blocks as nat
    }
}

/// No link count is longer than the link-count field, and no size is longer
/// than the size field.
pub proof fn lemma_field_widths(files: Seq<File>)
    ensures
        forall|i: int|
            0 <= i < files.len() ==> decimal((#[trigger] files[i]).number_of_links as nat).len()
                <= links_width(files),
        forall|i: int|
            0 <= i < files.len() ==> decimal((#[trigger] files[i]).number_of_bytes as nat).len()
                <= sizes_width(files),
    decreases files.len(),
{
    if files.len() > 0 {
        lemma_field_widths(files.drop_last());
        assert forall|i: int| 0 <= i < files.len() implies decimal(
            (#[trigger] files[i]).number_of_links as nat,
        ).len() <= links_width(files) && decimal(files[i].number_of_bytes as nat).len()
            <= sizes_width(files) by {
            if i < files.len() - 1 {
                assert(files.drop_last()[i] == files[i]);
            }
        }
    }
}

/// Finds the width of the link-count field.
pub fn get_longest_number_of_links(files: &Vec<File>) -> (longest: usize)
    ensures
        longest == links_width(files@),
{
    let mut longest: usize = 1;
    let mut i: usize = 0;
    proof {
        assert(files@.take(0) =~= Seq::empty());
    }
    while i < files.len()
        invariant
            i <= files.len(),
            longest == links_width(files@.take(i as int)),
        decreases files.len() - i,
    {
        proof {
            assert(files@.take(i + 1).drop_last() =~= files@.take(i as int));
            assert(files@.take(i + 1).last() == files@[i as int]);
        }
        let width: usize = decimal_width(files[i].number_of_links);
        if width > longest {
            longest = width;
        }
        i += 1;
    }
    proof {
        assert(files@.take(i as int) =~= files@);
    }
    longest
}

/// Finds the width of the size field.
pub fn get_longest_file_size(files: &Vec<File>) -> (longest: usize)
    ensures
        longest == sizes_width(files@),
{
    let mut longest: usize = 1;
    let mut i: usize = 0;
    proof {
        assert(files@.take(0) =~= Seq::empty());
    }
    while i < files.len()
        invariant
            i <= files.len(),
            longest == sizes_width(files@.take(i as int)),
        decreases files.len() - i,
    {
        proof {
            assert(files@.take(i + 1).drop_last() =~= files@.take(i as int));
            assert(files@.take(i + 1).last() == files@[i as int]);
        }
        let width: usize = decimal_width(files[i].number_of_bytes);
        if width > longest {
            longest = width;
        }
        i += 1;
    }
    proof {
        assert(files@.take(i as int) =~= files@);
    }
    longest
}

/// Adds up the blocks of all files. The sum is kept in 128 bits, which hold
/// it whatever the files.
pub fn get_total_number_of_blocks(files: &Vec<File>) -> (total: u128)
    ensures
        total == total_blocks(files@),
{
    let mut total: u128 = 0;
    let mut i: usize = 0;
    proof {
        assert(files@.take(0) =~= Seq::empty());
    }
    while i < files.len()
        invariant
            i <= files.len(),
            total == total_blocks(files@.take(i as int)),
            total <= i * 0xffff_ffff_ffff_ffff,
        decreases files.len() - i,
    {
        proof {
            assert(files@.take(i + 1).drop_last() =~= files@.take(i as int));
            assert(files@.take(i + 1).last() == files@[i as int]);
        }
        total = total + files[i].blocks as u128;
        i += 1;
    }
    proof {
        assert(files@.take(i as int) =~= files@);
    }
    total
}

/// Appends the blanks that bring a field of `number_two` characters to
/// `number_one`.
pub fn print_spacing_difference(out: &mut String, number_one: usize, number_two: usize)
    requires
        number_two <= number_one,
    ensures
        final(out)@ == old(out)@ + spaces(number_one - number_two),
{
    push_spaces(out, number_one - number_two);
}

/// A number set flush right in a field of the given width.
pub open spec fn right_justified(number: nat, width: nat) -> Seq<char> {
    spaces(width - decimal(number).len()) + decimal(number)
}

/// What follows the name at the end of a line: for a symbolic link an arrow
/// and the target, and the line break.
pub open spec fn name_tail(file: File) -> Seq<char> {
    if file.is_symbolic_link {
        " -> "@ + file.link_target@ + newline()
    } else {
        newline()
    }
}

/// The name as the long format ends a line with it: in its colour, and for a
/// symbolic link followed by an arrow and the target.
pub open spec fn name_text(file: File) -> Seq<char> {
    file.colored_name@ + name_tail(file)
}

/// A well coloured file ends its line with its name, plain where colours
/// are switched off and else between the sequences that switch the colour
/// of its kind on and off.
pub proof fn lemma_name_in_colour(file: File)
    requires
        file.well_colored(),
    ensures
        name_text(file) == file.path_name@ + name_tail(file) || name_text(file) == painted(
            file.path_name@,
            tint_of(file.is_dir, file.is_symbolic_link, file.file_mode),
        ) + name_tail(file),
{
}

/// Appends the name of a file and ends the line.
pub fn print_file_name_long_format(out: &mut String, file: &File)
    ensures
        final(out)@ == old(out)@ + name_text(*file),
{
    out.append(file.colored_name.as_str());
    if file.is_symbolic_link {
        out.append(" -> ");
        out.append(file.link_target.as_str());
    }
    push_newline(out);
    assert(out@ =~= old(out)@ + name_text(*file));
}

/// Appends the modification time of a file and a blank.
pub fn print_date_long_format(out: &mut String, file: &File)
    ensures
        final(out)@ == old(out)@ + file.modified_text@ + seq![' '],
{
    out.append(file.modified_text.as_str());
    push_spaces(out, 1);
    assert(spaces(1) =~= seq![' ']);
}

/// One line of the long format: permissions, link count, owner, group, size,
/// modification time and name, the two numbers flush right in their fields.
pub open spec fn long_line(file: File, links: nat, sizes: nat) -> Seq<char> {
    permissions_text(file) + right_justified(file.number_of_links as nat, links) + seq![' ']
        + file.owner_name@ + seq![' ', ' '] + file.group_name@ + seq![' ', ' '] + right_justified(
        file.number_of_bytes as nat,
        sizes,
    ) + seq![' '] + file.modified_text@ + seq![' '] + name_text(file)
}

/// The lines of the first `upto` files.
pub open spec fn long_lines(files: Seq<File>, upto: int, links: nat, sizes: nat) -> Seq<char>
    decreases upto,
{
    if upto <= 0 {
        Seq::empty()
    } else {
        long_lines(files, upto - 1, links, sizes) + long_line(files[upto - 1], links, sizes)
    }
}

/// The line that gives the sum of the blocks.
pub open spec fn total_line(files: Seq<File>) -> Seq<char> {
    "total "@ + decimal(total_blocks(files)) + newline()
}

/// The long format of the files: unless they are files named on their own,
/// the line with the sum of blocks; then one line per file that is shown.
pub open spec fn long_text(files: Seq<File>, parameters: Parameters, single_files: bool) -> Seq<
    char,
> {
    let shown = visible(files, parameters);
    let lines = long_lines(shown, shown.len() as int, links_width(shown), sizes_width(shown));
    if single_files {
        lines
    } else {
        total_line(shown) + lines
    }
}

/// Appends the line of one file.
fn print_long_line(out: &mut String, file: &File, links: usize, sizes: usize)
    requires
        decimal(file.number_of_links as nat).len() <= links,
        decimal(file.number_of_bytes as nat).len() <= sizes,
    ensures
        final(out)@ == old(out)@ + long_line(*file, links as nat, sizes as nat),
{
    print_permissions(out, file);
    print_spacing_difference(out, links, decimal_width(file.number_of_links));
    push_decimal(out, file.number_of_links as u128);
    push_spaces(out, 1);
    out.append(file.owner_name.as_str());
    push_spaces(out, 2);
    out.append(file.group_name.as_str());
    push_spaces(out, 2);
    print_spacing_difference(out, sizes, decimal_width(file.number_of_bytes));
    push_decimal(out, file.number_of_bytes as u128);
    push_spaces(out, 1);
    print_date_long_format(out, file);
    print_file_name_long_format(out, file);
    proof {
        assert(spaces(1) =~= seq![' ']);
        assert(spaces(2) =~= seq![' ', ' ']);
        assert(out@ =~= old(out)@ + long_line(*file, links as nat, sizes as nat));
    }
}

/// Prints the files in the long format.
///
/// The dot files are dropped unless asked for. `single_files` says that the
/// files were named on their own rather than found in a directory; the sum
/// of blocks is then left out.
pub fn long_format_print(files: Vec<File>, parameters: &Parameters, single_files: bool) -> (out:
    String)
    ensures
        out@ == long_text(files@, *parameters, single_files),
        all_well_colored(files@) ==> all_well_colored(visible(files@, *parameters)),
{
    proof {
        if all_well_colored(files@) {
            lemma_visible_well_colored(files@, *parameters);
        }
    }
    let shown = retain_visible(files, parameters);
    let longest_number = get_longest_number_of_links(&shown);
    let longest_file_size = get_longest_file_size(&shown);
    let mut out = String::new();
    if !single_files {
        out.append("total ");
        push_decimal(&mut out, get_total_number_of_blocks(&shown));
        push_newline(&mut out);
    }
    let ghost head = out@;
    let mut i: usize = 0;
    proof {
        lemma_field_widths(shown@);
        assert(head =~= if single_files {
            Seq::empty()
        } else {
            total_line(shown@)
        });
    }
    while i < shown.len()
        invariant
            i <= shown.len(),
            longest_number == links_width(shown@),
            longest_file_size == sizes_width(shown@),
            out@ == head + long_lines(
                shown@,
                i as int,
                longest_number as nat,
                longest_file_size as nat,
            ),
            forall|k: int|
                0 <= k < shown.len() ==> decimal((#[trigger] shown[k]).number_of_links as nat).len()
                    <= links_width(shown@),
            forall|k: int|
                0 <= k < shown.len() ==> decimal((#[trigger] shown[k]).number_of_bytes as nat).len()
                    <= sizes_width(shown@),
        decreases shown.len() - i,
    {
        print_long_line(&mut out, &shown[i], longest_number, longest_file_size);
        i += 1;
    }
    out
}

/// Every line sets the link count in a field as wide as the longest count,
/// and the size in a field as wide as the longest size.
pub proof fn lemma_columns_align(files: Seq<File>, i: int)
    requires
        0 <= i < files.len(),
    ensures
        right_justified(files[i].number_of_links as nat, links_width(files)).len() == links_width(
            files,
        ),
        right_justified(files[i].number_of_bytes as nat, sizes_width(files)).len() == sizes_width(
            files,
        ),
{
    lemma_field_widths(files);
}

} // verus!
