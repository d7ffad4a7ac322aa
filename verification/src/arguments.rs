//! Sorting the arguments into paths that are missing, plain files and the
//! rest.

use vstd::prelude::*;
use crate::disk::{file_exists, is_file, FileSystem};
use crate::grid::{names_text, simple_print_single_files};
use crate::parameters::Parameters;
use crate::ranking::{
    alphabetically_rank_strings,
    lemma_ranked_len,
    name_rank,
    ranked_names,
    reverse_alphabetically_rank_strings,
    Ranking,
};
use crate::text::{newline, push_newline, same_text, texts};

verus! {

/// A list of texts without the first occurrence of `x`; the list itself
/// where `x` does not occur.
pub open spec fn without_first(s: Seq<Seq<char>>, x: Seq<char>) -> Seq<Seq<char>> {
    match s.index_of_first(x) {
        Some(i) => s.remove(i),
        None => s,
    }
}

/// A list of texts after the first occurrence of each of `xs` was taken out,
/// one after the other.
pub open spec fn without_each(s: Seq<Seq<char>>, xs: Seq<Seq<char>>) -> Seq<Seq<char>>
    decreases xs.len(),
{
    if xs.len() == 0 {
        s
    } else {
        without_first(without_each(s, xs.drop_last()), xs.last())
    }
}

/// Whether each of `xs` still occurs in the list when its turn comes to be
/// taken out.
pub open spec fn each_found(s: Seq<Seq<char>>, xs: Seq<Seq<char>>) -> bool
    decreases xs.len(),
{
    xs.len() == 0 || (each_found(s, xs.drop_last()) && without_each(s, xs.drop_last()).contains(
        xs.last(),
    ))
}

/// The opposite of a test on texts.
pub open spec fn negated(test: spec_fn(Seq<char>) -> bool) -> spec_fn(Seq<char>) -> bool {
    |x: Seq<char>| !test(x)
}

/// The position of the first argument that holds the given text.
pub fn return_index_for_object(args: &mut Vec<String>, object_to_find: &String) -> (index: usize)
    requires
        texts(old(args)@).contains(object_to_find@),
    ensures
        *final(args) == *old(args),
        texts(old(args)@).index_of_first(object_to_find@) == Some(index as int),
        index < old(args).len(),
{
    let ghost all = texts(args@);
    proof {
        all.index_of_first_ensures(object_to_find@);
    }
    let mut i: usize = 0;
    while i < args.len()
        invariant
            i <= args.len(),
            *args == *old(args),
            all == texts(args@),
            all.index_of_first(object_to_find@) is Some,
            i <= all.index_of_first(object_to_find@)->0 < all.len(),
            all[all.index_of_first(object_to_find@)->0] == object_to_find@,
            forall|j: int|
                0 <= j < all.index_of_first(object_to_find@)->0 ==> all[j] != object_to_find@,
        decreases args.len() - i,
    {
        if same_text(args[i].as_str(), object_to_find.as_str()) {
            proof {
                assert(all[i as int] == object_to_find@);
            }
            return i;
        }
        proof {
            assert(all[i as int] == args@[i as int]@);
        }
        i += 1;
    }
    proof {
        assert(false);
    }
    0
}

/// Takes the first occurrence of each listed text out of the arguments.
fn remove_listed(args: &mut Vec<String>, listed: &Vec<String>)
    requires
        each_found(texts(old(args)@), texts(listed@)),
    ensures
        texts(final(args)@) == without_each(texts(old(args)@), texts(listed@)),
{
    let ghost all = texts(args@);
    let ghost names = texts(listed@);
    let mut counter: usize = 0;
    proof {
        assert(names.take(0) =~= Seq::empty());
    }
    while counter != listed.len()
        invariant
            counter <= listed.len(),
            names == texts(listed@),
            each_found(all, names),
            texts(args@) == without_each(all, names.take(counter as int)),
        decreases listed.len() - counter,
    {
        proof {
            lemma_each_found_prefix(all, names, counter + 1);
            assert(names.take(counter + 1).drop_last() =~= names.take(counter as int));
            assert(names.take(counter + 1).last() == listed@[counter as int]@);
        }
        let ghost before = texts(args@);
        let index = return_index_for_object(args, &listed[counter]);
        args.remove(index);
        proof {
            assert(texts(args@) =~= before.remove(index as int));
        }
        counter += 1;
    }
    proof {
        assert(names.take(counter as int) =~= names);
    }
}

/// Where each of a list is found in its turn, so is each of a shorter list.
proof fn lemma_each_found_prefix(s: Seq<Seq<char>>, xs: Seq<Seq<char>>, upto: int)
    requires
        each_found(s, xs),
        0 <= upto <= xs.len(),
    ensures
        each_found(s, xs.take(upto)),
    decreases xs.len(),
{
    if upto == xs.len() {
        assert(xs.take(upto) =~= xs);
    } else {
        lemma_each_found_prefix(s, xs.drop_last(), upto);
        assert(xs.drop_last().take(upto) =~= xs.take(upto));
    }
}

/// The first occurrence of a text in a list stays the first when the list
/// grows at its end.
proof fn lemma_first_index_push(s: Seq<Seq<char>>, a: Seq<char>, x: Seq<char>)
    requires
        s.contains(x),
    ensures
        s.push(a).index_of_first(x) == s.index_of_first(x),
        without_first(s.push(a), x) == without_first(s, x).push(a),
{
    s.index_of_first_ensures(x);
    let longer = s.push(a);
    let at = s.index_of_first(x)->0;
    assert(longer[at] == x);
    longer.index_of_first_ensures(x);
    let found = longer.index_of_first(x)->0;
    if found < at {
        assert(s[found] == longer[found]);
    }
    if at < found {
        assert(longer[at] == s[at]);
    }
    assert(longer.remove(at) =~= s.remove(at).push(a));
}

/// A text that a list lacks is first found at the end of the list once it
/// is pushed there.
proof fn lemma_first_index_last(s: Seq<Seq<char>>, a: Seq<char>)
    requires
        !s.contains(a),
    ensures
        without_first(s.push(a), a) == s,
{
    let longer = s.push(a);
    assert(longer[s.len() as int] == a);
    longer.index_of_first_ensures(a);
    let found = longer.index_of_first(a)->0;
    if found < s.len() {
        assert(s[found] == a);
    }
    assert(longer.remove(found) =~= s);
}

/// Taking texts out of a list that grew at its end takes them out of the
/// list as it was, where each is found there.
proof fn lemma_without_each_push(s: Seq<Seq<char>>, a: Seq<char>, xs: Seq<Seq<char>>)
    requires
        each_found(s, xs),
    ensures
        each_found(s.push(a), xs),
        without_each(s.push(a), xs) == without_each(s, xs).push(a),
    decreases xs.len(),
{
    if xs.len() > 0 {
        lemma_without_each_push(s, a, xs.drop_last());
        let rest = without_each(s, xs.drop_last());
        lemma_first_index_push(rest, a, xs.last());
        rest.index_of_first_ensures(xs.last());
        assert(rest.push(a)[rest.index_of_first(xs.last())->0] == xs.last());
        assert(rest.push(a).contains(xs.last()));
    }
}

/// Taking out of a list, one by one, the texts that pass a test leaves the
/// texts that fail it, in their order; and each is found when its turn comes.
pub proof fn lemma_without_filtered(s: Seq<Seq<char>>, test: spec_fn(Seq<char>) -> bool)
    ensures
        each_found(s, s.filter(test)),
        without_each(s, s.filter(test)) == s.filter(negated(test)),
    decreases s.len(),
{
    reveal(Seq::filter);
    if s.len() > 0 {
        let t = s.drop_last();
        let a = s.last();
        lemma_without_filtered(t, test);
        assert(s =~= t.push(a));
        lemma_without_each_push(t, a, t.filter(test));
        let kept = t.filter(negated(test));
        if test(a) {
            assert(s.filter(test) == t.filter(test).push(a));
            assert(s.filter(test).drop_last() =~= t.filter(test));
            assert(!kept.contains(a)) by {
                if kept.contains(a) {
                    let i = choose|i: int| 0 <= i < kept.len() && kept[i] == a;
                    t.lemma_filter_pred(negated(test), i);
                }
            }
            lemma_first_index_last(kept, a);
            assert(kept.push(a)[kept.len() as int] == a);
        }
    }
}

/// The paths among the arguments at which nothing exists, in their order.
pub fn find_unexisting_files(fs: &FileSystem, args: &Vec<String>) -> (unexisting_files: Vec<String>)
    ensures
        texts(unexisting_files@) == texts(args@).filter(negated(fs.is_known())),
{
    let mut counter: usize = 0;
    let mut unexisting_files: Vec<String> = Vec::new();
    let ghost all = texts(args@);
    let ghost test = negated(fs.is_known());
    proof {
        assert(all.take(0) =~= Seq::empty());
        assert(texts(unexisting_files@) =~= all.take(0).filter(test));
    }
    while counter != args.len()
        invariant
            counter <= args.len(),
            all == texts(args@),
            test == negated(fs.is_known()),
            texts(unexisting_files@) == all.take(counter as int).filter(test),
        decreases args.len() - counter,
    {
        proof {
            assert(all.take(counter + 1) =~= all.take(counter as int).push(all[counter as int]));
            all.take(counter as int).lemma_filter_push(all[counter as int], test);
        }
        let ghost before = texts(unexisting_files@);
        if !file_exists(fs, args[counter].as_str()) {
            unexisting_files.push(args[counter].clone());
            proof {
                assert(texts(unexisting_files@) =~= before.push(all[counter as int]));
            }
        }
        counter += 1;
    }
    proof {
        assert(all.take(counter as int) =~= all);
    }
    unexisting_files
}

/// Takes the missing paths out of the arguments, the first occurrence of
/// each in its turn.
pub fn remove_unexisting_files(args: &mut Vec<String>, unexisting_files: &Vec<String>)
    requires
        each_found(texts(old(args)@), texts(unexisting_files@)),
    ensures
        texts(final(args)@) == without_each(texts(old(args)@), texts(unexisting_files@)),
{
    remove_listed(args, unexisting_files);
}

/// The line that reports a path at which nothing exists.
pub open spec fn missing_line(path: Seq<char>) -> Seq<char> {
    "ls: "@ + path + ": No such file or directory"@
}

/// The report of the first `upto` missing paths, one line each.
pub open spec fn missing_lines(paths: Seq<Seq<char>>, upto: int) -> Seq<char>
    decreases upto,
{
    if upto <= 0 {
        Seq::empty()
    } else {
        missing_lines(paths, upto - 1) + missing_line(paths[upto - 1]) + newline()
    }
}

/// Writes the report of one missing path.
pub fn missing_message(path: &str) -> (message: String)
    ensures
        message@ == missing_line(path@),
{
    let mut message = "ls: ".to_owned();
    message.append(path);
    message.append(": No such file or directory");
    message
}

/// Writes one line for each missing path.
pub fn simple_print_unexisting_files(unexisting_files: &Vec<String>) -> (report: String)
    ensures
        report@ == missing_lines(texts(unexisting_files@), unexisting_files.len() as int),
{
    let mut report = String::new();
    let mut i: usize = 0;
    let ghost paths = texts(unexisting_files@);
    while i < unexisting_files.len()
        invariant
            i <= unexisting_files.len(),
            paths == texts(unexisting_files@),
            report@ == missing_lines(paths, i as int),
        decreases unexisting_files.len() - i,
    {
        let line = missing_message(unexisting_files[i].as_str());
        report.append(line.as_str());
        push_newline(&mut report);
        proof {
            assert(paths[i as int] == unexisting_files@[i as int]@);
        }
        i += 1;
    }
    report
}

/// The missing paths among the arguments, in byte order.
pub open spec fn missing_paths(fs: FileSystem, args: Seq<Seq<char>>) -> Seq<Seq<char>> {
    ranked_names(args.filter(negated(fs.is_known())), Ranking::NameAscending)
}

/// The report of every argument at which nothing exists.
pub open spec fn missing_report(fs: FileSystem, args: Seq<Seq<char>>) -> Seq<char> {
    missing_lines(missing_paths(fs, args), missing_paths(fs, args).len() as int)
}

/// Takes the paths at which nothing exists out of the arguments and reports
/// them, one line each, in byte order.
pub fn handle_unexisting_files(fs: &FileSystem, args: &mut Vec<String>) -> (report: String)
    ensures
        texts(final(args)@) == texts(old(args)@).filter(fs.is_known()),
        report@ == missing_report(*fs, texts(old(args)@)),
{
    let mut unexisting_files = find_unexisting_files(fs, args);
    proof {
        let all = texts(args@);
        lemma_without_filtered(all, negated(fs.is_known()));
        assert(negated(negated(fs.is_known())) =~= fs.is_known());
        lemma_ranked_len(texts(unexisting_files@), name_rank(), Ranking::NameAscending);
    }
    remove_unexisting_files(args, &unexisting_files);
    alphabetically_rank_strings(&mut unexisting_files);
    simple_print_unexisting_files(&unexisting_files)
}

/// The plain files among the arguments, in their order.
pub fn find_single_files(fs: &FileSystem, args: &Vec<String>) -> (single_files: Vec<String>)
    ensures
        texts(single_files@) == texts(args@).filter(fs.is_plain_file()),
{
    let mut counter: usize = 0;
    let mut single_files: Vec<String> = Vec::new();
    let ghost all = texts(args@);
    let ghost test = fs.is_plain_file();
    proof {
        assert(all.take(0) =~= Seq::empty());
        assert(texts(single_files@) =~= all.take(0).filter(test));
    }
    while counter != args.len()
        invariant
            counter <= args.len(),
            all == texts(args@),
            test == fs.is_plain_file(),
            texts(single_files@) == all.take(counter as int).filter(test),
        decreases args.len() - counter,
    {
        proof {
            assert(all.take(counter + 1) =~= all.take(counter as int).push(all[counter as int]));
            all.take(counter as int).lemma_filter_push(all[counter as int], test);
        }
        let ghost before = texts(single_files@);
        if is_file(fs, args[counter].as_str()) {
            single_files.push(args[counter].clone());
            proof {
                assert(texts(single_files@) =~= before.push(all[counter as int]));
            }
        }
        counter += 1;
    }
    proof {
        assert(all.take(counter as int) =~= all);
    }
    single_files
}

/// Takes the plain files out of the arguments, the first occurrence of each
/// in its turn.
pub fn remove_single_files(args: &mut Vec<String>, single_files: &Vec<String>)
    requires
        each_found(texts(old(args)@), texts(single_files@)),
    ensures
        texts(final(args)@) == without_each(texts(old(args)@), texts(single_files@)),
{
    remove_listed(args, single_files);
}

/// The plain files among the arguments in the order in which they are
/// shown: by name, downwards where the order is reversed.
pub open spec fn single_files(fs: FileSystem, args: Seq<Seq<char>>, parameters: Parameters) -> Seq<
    Seq<char>,
> {
    ranked_names(
        args.filter(fs.is_plain_file()),
        if parameters.reverse_order {
            Ranking::NameDescending
        } else {
            Ranking::NameAscending
        },
    )
}

/// What is printed for the plain files among the arguments: nothing where
/// there is none, the bare name where there is one, and their names in
/// columns where there are more.
pub open spec fn single_files_text(
    fs: FileSystem,
    args: Seq<Seq<char>>,
    parameters: Parameters,
    terminal_width: Option<u16>,
) -> Seq<char> {
    let files = single_files(fs, args, parameters);
    if files.len() == 0 {
        Seq::empty()
    } else if files.len() == 1 {
        files[0]
    } else {
        names_text(files, terminal_width)
    }
}

/// What parts `count` plain files from what is listed after them: one blank
/// line, after the line break that a single bare name still lacks; nothing
/// where there is no plain file.
pub open spec fn gap_after(count: int) -> Seq<char> {
    if count <= 0 {
        Seq::empty()
    } else if count == 1 {
        newline() + newline()
    } else {
        newline()
    }
}

/// Appends what parts `count` plain files from what is listed after them.
pub fn push_gap_after(out: &mut String, count: usize)
    ensures
        final(out)@ == old(out)@ + gap_after(count as int),
{
    if count == 1 {
        push_newline(out);
        push_newline(out);
        assert(out@ =~= old(out)@ + gap_after(count as int));
    } else if count > 1 {
        push_newline(out);
    } else {
        assert(out@ =~= old(out)@ + gap_after(count as int));
    }
}

/// The texts that pass a test and the texts that fail it are together as
/// many as all.
pub proof fn lemma_filter_parts(s: Seq<Seq<char>>, test: spec_fn(Seq<char>) -> bool)
    ensures
        s.filter(test).len() + s.filter(negated(test)).len() == s.len(),
    decreases s.len(),
{
    reveal(Seq::filter);
    if s.len() > 0 {
        lemma_filter_parts(s.drop_last(), test);
    }
}

/// Takes the plain files out of the arguments and prints them: one as its
/// bare name, several in columns. The flag that comes back says that there
/// was no plain file; the arguments lose as many as there were.
pub fn handle_single_files(
    fs: &FileSystem,
    args: &mut Vec<String>,
    parameters: &Parameters,
    terminal_width: Option<u16>,
) -> (result: (bool, String))
    ensures
        texts(final(args)@) == texts(old(args)@).filter(negated(fs.is_plain_file())),
        result.0 == (single_files(*fs, texts(old(args)@), *parameters).len() == 0),
        result.1@ == single_files_text(*fs, texts(old(args)@), *parameters, terminal_width),
        old(args).len() - final(args).len() == single_files(
            *fs,
            texts(old(args)@),
            *parameters,
        ).len(),
{
    let mut single_files = find_single_files(fs, args);
    proof {
        lemma_without_filtered(texts(args@), fs.is_plain_file());
        lemma_filter_parts(texts(args@), fs.is_plain_file());
        lemma_ranked_len(texts(single_files@), name_rank(), Ranking::NameAscending);
        lemma_ranked_len(texts(single_files@), name_rank(), Ranking::NameDescending);
    }
    remove_single_files(args, &single_files);
    if parameters.reverse_order {
        reverse_alphabetically_rank_strings(&mut single_files);
    } else {
        alphabetically_rank_strings(&mut single_files);
    }
    if single_files.len() == 1 {
        proof {
            assert(texts(single_files@)[0] == single_files@[0]@);
        }
        (false, single_files[0].clone())
    } else if !single_files.is_empty() {
        (false, simple_print_single_files(&single_files, terminal_width))
    } else {
        (true, String::new())
    }
}

} // verus!
