//! The switches of one invocation and how they are read from the arguments.

use vstd::prelude::*;
use crate::text::{begins_with, contains_char, starts_with_char, texts};

verus! {

/// The switches of one invocation. Each is independent of the others.
pub struct Parameters {
    pub include_dot_files: bool,
    pub long_format: bool,
    pub reverse_order: bool,
    pub recursive_listing: bool,
    pub last_modified_order: bool,
}

impl Parameters {
    /// All switches off.
    pub fn new() -> (p: Parameters)
        ensures
            !p.include_dot_files,
            !p.long_format,
            !p.reverse_order,
            !p.recursive_listing,
            !p.last_modified_order,
    {
        Parameters {
            include_dot_files: false,
            long_format: false,
            reverse_order: false,
            recursive_listing: false,
            last_modified_order: false,
        }
    }
}

/// A token that names switches rather than a path: it begins with a dash.
pub open spec fn is_flag_token(t: Seq<char>) -> bool {
    begins_with(t, '-')
}

/// Whether some flag token among the arguments holds the given letter.
pub open spec fn flag_given(args: Seq<Seq<char>>, letter: char) -> bool {
    exists|i: int| 0 <= i < args.len() && is_flag_token(#[trigger] args[i]) && args[i].contains(letter)
}

/// The switches that the arguments ask for.
pub open spec fn parameters_of(args: Seq<Seq<char>>) -> Parameters {
    Parameters {
        include_dot_files: flag_given(args, 'a'),
        long_format: flag_given(args, 'l'),
        reverse_order: flag_given(args, 'r'),
        recursive_listing: flag_given(args, 'R'),
        last_modified_order: flag_given(args, 't'),
    }
}

/// The arguments that are not flag tokens, in their order.
pub open spec fn path_tokens(args: Seq<Seq<char>>) -> Seq<Seq<char>> {
    args.filter(|t: Seq<char>| !is_flag_token(t))
}

/// The paths an invocation works on: the non-flag arguments, or the current
/// directory when there is none.
pub open spec fn path_arguments(args: Seq<Seq<char>>) -> Seq<Seq<char>> {
    if path_tokens(args).len() == 0 {
        seq![seq!['.', '/']]
    } else {
        path_tokens(args)
    }
}

/// Reads the switches from every flag token and leaves only the paths in `args`.
///
/// A letter that stands for no switch is ignored. With no path left, the
/// current directory is listed.
pub fn parse_parameters(args: &mut Vec<String>) -> (parameters: Parameters)
    ensures
        parameters == parameters_of(texts(old(args)@)),
        parameters.include_dot_files == flag_given(texts(old(args)@), 'a'),
        parameters.long_format == flag_given(texts(old(args)@), 'l'),
        parameters.reverse_order == flag_given(texts(old(args)@), 'r'),
        parameters.last_modified_order == flag_given(texts(old(args)@), 't'),
        parameters.recursive_listing == flag_given(texts(old(args)@), 'R'),
        texts(final(args)@) == path_arguments(texts(old(args)@)),
{
    let mut parameters = Parameters::new();
    let mut kept: Vec<String> = Vec::new();
    let ghost given = texts(args@);
    let mut i: usize = 0;
    while i < args.len()
        invariant
            i <= args.len(),
            given == texts(args@),
            parameters.include_dot_files == flag_given(given.take(i as int), 'a'),
            parameters.long_format == flag_given(given.take(i as int), 'l'),
            parameters.reverse_order == flag_given(given.take(i as int), 'r'),
            parameters.last_modified_order == flag_given(given.take(i as int), 't'),
            parameters.recursive_listing == flag_given(given.take(i as int), 'R'),
            texts(kept@) == path_tokens(given.take(i as int)),
        decreases args.len() - i,
    {
        let token = args[i].as_str();
        let ghost before = given.take(i as int);
        let ghost after = given.take(i + 1);
        proof {
            assert(after == before.push(given[i as int]));
            assert(token@ == given[i as int]);
            assert(forall|j: int| 0 <= j < before.len() ==> before[j] == after[j]);
            assert(after[i as int] == token@);
        }
        if starts_with_char(token, '-') {
            if contains_char(token, 'a') {
                parameters.include_dot_files = true;
            }
            if contains_char(token, 'l') {
                parameters.long_format = true;
            }
            if contains_char(token, 'r') {
                parameters.reverse_order = true;
            }
            if contains_char(token, 't') {
                parameters.last_modified_order = true;
            }
            if contains_char(token, 'R') {
                parameters.recursive_listing = true;
            }
        } else {
            kept.push(args[i].clone());
        }
        proof {
            lemma_flag_given_push(before, token@, 'a');
            lemma_flag_given_push(before, token@, 'l');
            lemma_flag_given_push(before, token@, 'r');
            lemma_flag_given_push(before, token@, 't');
            lemma_flag_given_push(before, token@, 'R');
            before.lemma_filter_push(token@, |t: Seq<char>| !is_flag_token(t));
            assert(texts(kept@) =~= path_tokens(after));
        }
        i += 1;
    }
    proof {
        assert(given.take(i as int) == given);
    }
    if kept.is_empty() {
        let here = "./".to_owned();
        proof {
            reveal_strlit("./");
            assert(here@ =~= seq!['.', '/']);
        }
        kept.push(here);
        assert(texts(kept@) =~= seq![seq!['.', '/']]);
    }
    *args = kept;
    parameters
}

/// Adding one token to the arguments adds exactly its own letters.
proof fn lemma_flag_given_push(args: Seq<Seq<char>>, token: Seq<char>, letter: char)
    ensures
        flag_given(args.push(token), letter) == (flag_given(args, letter) || (is_flag_token(token)
            && token.contains(letter))),
{
    let longer = args.push(token);
    if flag_given(args, letter) {
        let i = choose|i: int| 0 <= i < args.len() && is_flag_token(#[trigger] args[i]) && args[i].contains(letter);
        assert(longer[i] == args[i]);
    }
    if is_flag_token(token) && token.contains(letter) {
        assert(longer[args.len() as int] == token);
    }
    if flag_given(longer, letter) {
        let i = choose|i: int| 0 <= i < longer.len() && is_flag_token(#[trigger] longer[i]) && longer[i].contains(letter);
        if i < args.len() {
            assert(longer[i] == args[i]);
        }
    }
}

} // verus!
