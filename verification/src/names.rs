//! The name under which a path is shown: its last component.

use vstd::prelude::*;

verus! {

/// The character that parts the components of a path.
pub open spec fn separator() -> char {
    '/'
}

/// A path without the separators at its end.
pub open spec fn trimmed(path: Seq<char>) -> Seq<char>
    decreases path.len(),
{
    if path.len() > 0 && path.last() == separator() {
        trimmed(path.drop_last())
    } else {
        path
    }
}

/// What follows the last separator of a text; the whole text where it holds
/// none.
pub open spec fn tail_of(path: Seq<char>) -> Seq<char>
    decreases path.len(),
{
    if path.len() == 0 || path.last() == separator() {
        Seq::empty()
    } else {
        tail_of(path.drop_last()).push(path.last())
    }
}

/// The last component of a path: what stands between its last separator and
/// its end, separators at the end left aside.
pub open spec fn last_component(path: Seq<char>) -> Seq<char> {
    tail_of(trimmed(path))
}

/// What follows the last separator holds no separator.
pub proof fn lemma_tail_has_no_separator(path: Seq<char>)
    ensures
        !tail_of(path).contains(separator()),
    decreases path.len(),
{
    if path.len() > 0 && path.last() != separator() {
        let before = tail_of(path.drop_last());
        lemma_tail_has_no_separator(path.drop_last());
        if before.push(path.last()).contains(separator()) {
            let i = choose|i: int|
                0 <= i < before.push(path.last()).len() && before.push(path.last())[i]
                    == separator();
            if i < before.len() {
                assert(before[i] == separator());
            }
        }
    }
}

/// A display name never holds a separator.
pub proof fn lemma_last_component_has_no_separator(path: Seq<char>)
    ensures
        !last_component(path).contains(separator()),
{
    lemma_tail_has_no_separator(trimmed(path));
}

/// The name under which a path is shown: its last component.
pub fn path_name_of(path: &str) -> (name: String)
    ensures
        name@ == last_component(path@),
        !name@.contains(separator()),
{
    let length: usize = path.unicode_len();
    let mut end: usize = length;
    proof {
        assert(path@.take(length as int) =~= path@);
    }
    while end > 0 && path.get_char(end - 1) == '/'
        invariant
            end <= length,
            length == path@.len(),
            trimmed(path@) == trimmed(path@.take(end as int)),
        decreases end,
    {
        proof {
            assert(path@.take(end as int).drop_last() =~= path@.take(end - 1));
        }
        end -= 1;
    }
    let ghost kept = path@.take(end as int);
    let mut start: usize = end;
    proof {
        assert(trimmed(kept) == kept);
        assert(path@.subrange(start as int, end as int) =~= Seq::<char>::empty());
    }
    while start > 0 && path.get_char(start - 1) != '/'
        invariant
            start <= end <= length,
            length == path@.len(),
            kept == path@.take(end as int),
            forall|k: int| start <= k < end ==> path@[k] != separator(),
        decreases start,
    {
        start -= 1;
    }
    proof {
        lemma_tail_is_suffix(kept, start as int);
        assert(kept.subrange(start as int, end as int) =~= path@.subrange(
            start as int,
            end as int,
        ));
        lemma_last_component_has_no_separator(path@);
    }
    path.substring_char(start, end).to_owned()
}

/// Where a text holds no separator from `start` on, and one just before
/// `start` or nothing, what follows its last separator is what stands from
/// `start` on.
proof fn lemma_tail_is_suffix(path: Seq<char>, start: int)
    requires
        0 <= start <= path.len(),
        forall|k: int| start <= k < path.len() ==> path[k] != separator(),
        start > 0 ==> path[start - 1] == separator(),
    ensures
        tail_of(path) == path.subrange(start, path.len() as int),
    decreases path.len(),
{
    if start == path.len() {
        assert(path.subrange(start, path.len() as int) =~= Seq::<char>::empty());
    } else {
        let shorter = path.drop_last();
        assert forall|k: int| start <= k < shorter.len() implies shorter[k] != separator() by {
            assert(shorter[k] == path[k]);
        }
        if start > 0 {
            assert(shorter[start - 1] == path[start - 1]);
        }
        lemma_tail_is_suffix(shorter, start);
        assert(shorter.subrange(start, shorter.len() as int).push(path.last()) =~= path.subrange(
            start,
            path.len() as int,
        ));
    }
}

} // verus!
