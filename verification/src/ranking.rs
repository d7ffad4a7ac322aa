//! The four orders of a listing, and a stable sort that follows them.

use vstd::prelude::*;
use crate::parameters::Parameters;
use crate::records::{File, Timestamp};
use crate::text::{lemma_same_bytes_same_text, text_of, texts};

verus! {

/// Lexicographic order of byte strings: `a` is `b` or comes before it.
pub open spec fn bytes_le(a: Seq<u8>, b: Seq<u8>) -> bool
    decreases a.len(),
{
    if a.len() == 0 {
        true
    } else if b.len() == 0 {
        false
    } else if a[0] != b[0] {
        a[0] < b[0]
    } else {
        bytes_le(a.drop_first(), b.drop_first())
    }
}

/// Of two byte strings one comes first.
pub proof fn lemma_bytes_le_total(a: Seq<u8>, b: Seq<u8>)
    ensures
        bytes_le(a, b) || bytes_le(b, a),
    decreases a.len(),
{
    if a.len() > 0 && b.len() > 0 && a[0] == b[0] {
        lemma_bytes_le_total(a.drop_first(), b.drop_first());
    }
}

/// Byte strings that come before each other are the same.
pub proof fn lemma_bytes_le_antisymmetric(a: Seq<u8>, b: Seq<u8>)
    requires
        bytes_le(a, b),
        bytes_le(b, a),
    ensures
        a == b,
    decreases a.len(),
{
    if a.len() > 0 {
        lemma_bytes_le_antisymmetric(a.drop_first(), b.drop_first());
        assert(a =~= seq![a[0]] + a.drop_first());
        assert(b =~= seq![b[0]] + b.drop_first());
    } else {
        assert(a =~= b);
    }
}

/// The order of byte strings is transitive.
pub proof fn lemma_bytes_le_transitive(a: Seq<u8>, b: Seq<u8>, c: Seq<u8>)
    requires
        bytes_le(a, b),
        bytes_le(b, c),
    ensures
        bytes_le(a, c),
    decreases a.len(),
{
    if a.len() > 0 && a[0] == b[0] && b[0] == c[0] {
        lemma_bytes_le_transitive(a.drop_first(), b.drop_first(), c.drop_first());
    }
}

/// Compares two byte strings lexicographically.
pub fn bytes_not_after(a: &[u8], b: &[u8]) -> (r: bool)
    ensures
        r == bytes_le(a@, b@),
{
    let mut i: usize = 0;
    proof {
        assert(a@.skip(0) =~= a@);
        assert(b@.skip(0) =~= b@);
    }
    while i < a.len() && i < b.len()
        invariant
            i <= a.len(),
            i <= b.len(),
            bytes_le(a@, b@) == bytes_le(a@.skip(i as int), b@.skip(i as int)),
        decreases a.len() - i,
    {
        proof {
            assert(a@.skip(i as int).drop_first() =~= a@.skip(i + 1));
            assert(b@.skip(i as int).drop_first() =~= b@.skip(i + 1));
        }
        if a[i] != b[i] {
            return a[i] < b[i];
        }
        i += 1;
    }
    i == a.len()
}

/// The order in which a listing shows its entries.
#[derive(Clone, Copy, Debug, PartialEq, Eq, Structural)]
pub enum Ranking {
    /// By name, in byte order.
    NameAscending,
    /// By name, against byte order.
    NameDescending,
    /// By modification time, the most recent first.
    NewestFirst,
    /// By modification time, the oldest first.
    OldestFirst,
}

/// The order that the switches ask for.
pub open spec fn ranking_of(parameters: Parameters) -> Ranking {
    if parameters.reverse_order {
        if parameters.last_modified_order {
            Ranking::OldestFirst
        } else {
            Ranking::NameDescending
        }
    } else {
        if parameters.last_modified_order {
            Ranking::NewestFirst
        } else {
            Ranking::NameAscending
        }
    }
}

/// Picks the order that the switches ask for.
pub fn choose_ranking(parameters: &Parameters) -> (ranking: Ranking)
    ensures
        ranking == ranking_of(*parameters),
{
    if parameters.reverse_order {
        if parameters.last_modified_order {
            Ranking::OldestFirst
        } else {
            Ranking::NameDescending
        }
    } else {
        if parameters.last_modified_order {
            Ranking::NewestFirst
        } else {
            Ranking::NameAscending
        }
    }
}

/// What an item is ordered by: the bytes of its name and its modification
/// time in nanoseconds since the epoch.
pub struct RankKey {
    pub name: Seq<u8>,
    pub instant: int,
}

/// Whether an item with key `a` may stand before one with key `b`.
pub open spec fn ranks_before(ranking: Ranking, a: RankKey, b: RankKey) -> bool {
    match ranking {
        Ranking::NameAscending => bytes_le(a.name, b.name),
        Ranking::NameDescending => bytes_le(b.name, a.name),
        Ranking::NewestFirst => a.instant >= b.instant,
        Ranking::OldestFirst => a.instant <= b.instant,
    }
}

/// Of two keys one may stand before the other.
pub proof fn lemma_ranks_total(ranking: Ranking, a: RankKey, b: RankKey)
    ensures
        ranks_before(ranking, a, b) || ranks_before(ranking, b, a),
{
    lemma_bytes_le_total(a.name, b.name);
}

/// Standing before is transitive.
pub proof fn lemma_ranks_transitive(ranking: Ranking, a: RankKey, b: RankKey, c: RankKey)
    requires
        ranks_before(ranking, a, b),
        ranks_before(ranking, b, c),
    ensures
        ranks_before(ranking, a, c),
{
    match ranking {
        Ranking::NameAscending => lemma_bytes_le_transitive(a.name, b.name, c.name),
        Ranking::NameDescending => lemma_bytes_le_transitive(c.name, b.name, a.name),
        _ => {},
    }
}

/// Something a listing can put in order.
pub trait Ranked: Sized {
    /// What the item is ordered by.
    spec fn rank_key(&self) -> RankKey;

    /// The bytes of the item's name.
    fn name_bytes(&self) -> (bytes: &[u8])
        ensures
            bytes@ == self.rank_key().name,
    ;

    /// The item's modification time.
    fn modified(&self) -> (time: Timestamp)
        ensures
            time.instant() == self.rank_key().instant,
    ;
}

/// Whether `a` may stand before `b` in the given order.
pub fn stands_before<T: Ranked>(ranking: Ranking, a: &T, b: &T) -> (r: bool)
    ensures
        r == ranks_before(ranking, a.rank_key(), b.rank_key()),
{
    match ranking {
        Ranking::NameAscending => bytes_not_after(a.name_bytes(), b.name_bytes()),
        Ranking::NameDescending => bytes_not_after(b.name_bytes(), a.name_bytes()),
        Ranking::NewestFirst => b.modified().not_after(&a.modified()),
        Ranking::OldestFirst => a.modified().not_after(&b.modified()),
    }
}

/// A way to tell what an item is ordered by.
pub type KeyOf<A> = spec_fn(A) -> RankKey;

/// A sequence in order, with one more item put behind everything that may
/// stand before it.
pub open spec fn inserted<A>(sorted: Seq<A>, item: A, key: KeyOf<A>, ranking: Ranking) -> Seq<A>
    decreases sorted.len(),
{
    if sorted.len() == 0 {
        seq![item]
    } else if ranks_before(ranking, key(sorted.last()), key(item)) {
        sorted.push(item)
    } else {
        inserted(sorted.drop_last(), item, key, ranking).push(sorted.last())
    }
}

/// The items in the given order of their keys; items that rank alike keep the
/// order in which they came.
pub open spec fn ranked_by<A>(items: Seq<A>, key: KeyOf<A>, ranking: Ranking) -> Seq<A>
    decreases items.len(),
{
    if items.len() == 0 {
        Seq::empty()
    } else {
        inserted(ranked_by(items.drop_last(), key, ranking), items.last(), key, ranking)
    }
}

/// Whether each item may stand before all that follow it.
pub open spec fn in_order<A>(items: Seq<A>, key: KeyOf<A>, ranking: Ranking) -> bool {
    forall|i: int, j: int|
        0 <= i < j < items.len() ==> ranks_before(
            ranking,
            key(#[trigger] items[i]),
            key(#[trigger] items[j]),
        )
}

/// The key that an item gives of itself.
pub open spec fn own_key<T: Ranked>() -> KeyOf<T> {
    |item: T| item.rank_key()
}

/// The items in the given order; items that rank alike keep the order in
/// which they came.
pub open spec fn ranked<T: Ranked>(items: Seq<T>, ranking: Ranking) -> Seq<T> {
    ranked_by(items, own_key::<T>(), ranking)
}

/// Where `inserted` puts the new item: behind the last item that may stand
/// before it.
pub open spec fn insertion_point<A>(sorted: Seq<A>, item: A, key: KeyOf<A>, ranking: Ranking) -> int
    decreases sorted.len(),
{
    if sorted.len() == 0 {
        0
    } else if ranks_before(ranking, key(sorted.last()), key(item)) {
        sorted.len() as int
    } else {
        insertion_point(sorted.drop_last(), item, key, ranking)
    }
}

/// `inserted` puts the item at the insertion point and moves nothing else.
pub proof fn lemma_inserted_at_point<A>(sorted: Seq<A>, item: A, key: KeyOf<A>, ranking: Ranking)
    ensures
        0 <= insertion_point(sorted, item, key, ranking) <= sorted.len(),
        inserted(sorted, item, key, ranking) == sorted.insert(
            insertion_point(sorted, item, key, ranking),
            item,
        ),
        insertion_point(sorted, item, key, ranking) > 0 ==> ranks_before(
            ranking,
            key(sorted[insertion_point(sorted, item, key, ranking) - 1]),
            key(item),
        ),
        forall|k: int|
            insertion_point(sorted, item, key, ranking) <= k < sorted.len() ==> !ranks_before(
                ranking,
                key(#[trigger] sorted[k]),
                key(item),
            ),
    decreases sorted.len(),
{
    if sorted.len() == 0 {
        assert(seq![item] =~= sorted.insert(0, item));
    } else if ranks_before(ranking, key(sorted.last()), key(item)) {
        assert(sorted.push(item) =~= sorted.insert(sorted.len() as int, item));
    } else {
        let shorter = sorted.drop_last();
        lemma_inserted_at_point(shorter, item, key, ranking);
        let point = insertion_point(shorter, item, key, ranking);
        assert(shorter.insert(point, item).push(sorted.last()) =~= sorted.insert(point, item));
        assert forall|k: int| point <= k < sorted.len() implies !ranks_before(
            ranking,
            key(#[trigger] sorted[k]),
            key(item),
        ) by {
            if k < shorter.len() {
                assert(sorted[k] == shorter[k]);
            }
        }
        if point > 0 {
            assert(sorted[point - 1] == shorter[point - 1]);
        }
    }
}

/// The place found by walking down from the end is the insertion point.
proof fn lemma_insertion_point_found<A>(
    sorted: Seq<A>,
    item: A,
    key: KeyOf<A>,
    ranking: Ranking,
    place: int,
)
    requires
        0 <= place <= sorted.len(),
        place > 0 ==> ranks_before(ranking, key(sorted[place - 1]), key(item)),
        forall|k: int|
            place <= k < sorted.len() ==> !ranks_before(
                ranking,
                key(#[trigger] sorted[k]),
                key(item),
            ),
    ensures
        insertion_point(sorted, item, key, ranking) == place,
    decreases sorted.len(),
{
    if sorted.len() > 0 && place < sorted.len() {
        let shorter = sorted.drop_last();
        assert(!ranks_before(
            ranking,
            key(sorted[sorted.len() - 1]),
            key(item),
        ));
        assert forall|k: int| place <= k < shorter.len() implies !ranks_before(
            ranking,
            key(#[trigger] shorter[k]),
            key(item),
        ) by {
            assert(shorter[k] == sorted[k]);
        }
        if place > 0 {
            assert(shorter[place - 1] == sorted[place - 1]);
        }
        lemma_insertion_point_found(shorter, item, key, ranking, place);
    }
}

/// Putting an item into a sequence in order leaves it in order.
pub proof fn lemma_inserted_in_order<A>(sorted: Seq<A>, item: A, key: KeyOf<A>, ranking: Ranking)
    requires
        in_order(sorted, key, ranking),
    ensures
        in_order(inserted(sorted, item, key, ranking), key, ranking),
{
    lemma_inserted_at_point(sorted, item, key, ranking);
    let point = insertion_point(sorted, item, key, ranking);
    let longer = sorted.insert(point, item);
    assert forall|i: int, j: int| 0 <= i < j < longer.len() implies ranks_before(
        ranking,
        key(#[trigger] longer[i]),
        key(#[trigger] longer[j]),
    ) by {
        if j < point {
            assert(longer[i] == sorted[i] && longer[j] == sorted[j]);
        } else if j == point {
            assert(longer[i] == sorted[i]);
            if i < point - 1 {
                lemma_ranks_transitive(
                    ranking,
                    key(sorted[i]),
                    key(sorted[point - 1]),
                    key(item),
                );
            }
        } else if i == point {
            assert(longer[j] == sorted[j - 1]);
            lemma_ranks_total(ranking, key(sorted[j - 1]), key(item));
        } else if i < point {
            assert(longer[i] == sorted[i] && longer[j] == sorted[j - 1]);
        } else {
            assert(longer[i] == sorted[i - 1] && longer[j] == sorted[j - 1]);
        }
    }
}

/// The ranked items are as many as were given.
pub proof fn lemma_ranked_len<A>(items: Seq<A>, key: KeyOf<A>, ranking: Ranking)
    ensures
        ranked_by(items, key, ranking).len() == items.len(),
    decreases items.len(),
{
    if items.len() > 0 {
        lemma_ranked_len(items.drop_last(), key, ranking);
        lemma_inserted_at_point(ranked_by(items.drop_last(), key, ranking), items.last(), key, ranking);
    }
}

/// In the ranked sequence each item may stand before all that follow it.
pub proof fn lemma_ranked_in_order<A>(items: Seq<A>, key: KeyOf<A>, ranking: Ranking)
    ensures
        in_order(ranked_by(items, key, ranking), key, ranking),
    decreases items.len(),
{
    if items.len() > 0 {
        lemma_ranked_in_order(items.drop_last(), key, ranking);
        lemma_inserted_in_order(ranked_by(items.drop_last(), key, ranking), items.last(), key, ranking);
    }
}

/// Ranking rearranges: every item is kept, as often as it was given.
pub proof fn lemma_ranked_permutes<A>(items: Seq<A>, key: KeyOf<A>, ranking: Ranking)
    ensures
        ranked_by(items, key, ranking).to_multiset() == items.to_multiset(),
    decreases items.len(),
{
    broadcast use vstd::seq_lib::group_to_multiset_ensures;

    if items.len() > 0 {
        let shorter = items.drop_last();
        lemma_ranked_permutes(shorter, key, ranking);
        lemma_inserted_at_point(ranked_by(shorter, key, ranking), items.last(), key, ranking);
        assert(items =~= shorter.push(items.last()));
        assert(ranked_by(items, key, ranking).to_multiset() =~= items.to_multiset());
    } else {
        assert(ranked_by(items, key, ranking) =~= items);
    }
}

/// Puts the items in the given order. Items that rank alike keep the order in
/// which they came.
pub fn rank<T: Ranked>(items: &mut Vec<T>, ranking: Ranking)
    ensures
        final(items)@ == ranked(old(items)@, ranking),
{
    let ghost given = items@;
    let ghost key = own_key::<T>();
    let mut i: usize = 0;
    proof {
        assert(items@.take(0) =~= ranked_by(given.take(0), key, ranking));
        assert(items@.skip(0) =~= given.skip(0));
    }
    while i < items.len()
        invariant
            i <= items.len(),
            items.len() == given.len(),
            key == own_key::<T>(),
            items@.take(i as int) == ranked_by(given.take(i as int), key, ranking),
            items@.skip(i as int) == given.skip(i as int),
        decreases items.len() - i,
    {
        let ghost before = items@;
        let ghost sorted = items@.take(i as int);
        let item = items.remove(i);
        proof {
            assert(item == given[i as int]) by {
                assert(before.skip(i as int)[0] == given.skip(i as int)[0]);
            }
            assert(items@.take(i as int) =~= sorted);
        }
        let mut j: usize = i;
        while j > 0 && !stands_before(ranking, &items[j - 1], &item)
            invariant
                j <= i,
                i < before.len(),
                key == own_key::<T>(),
                items@ == before.remove(i as int),
                items@.take(i as int) == sorted,
                forall|k: int|
                    j <= k < i ==> !ranks_before(ranking, key(#[trigger] sorted[k]), key(item)),
            decreases j,
        {
            proof {
                assert(sorted[j - 1] == items@[j - 1]);
            }
            j -= 1;
        }
        proof {
            if j > 0 {
                assert(sorted[j - 1] == items@[j - 1]);
            }
            lemma_insertion_point_found(sorted, item, key, ranking, j as int);
            lemma_inserted_at_point(sorted, item, key, ranking);
        }
        items.insert(j, item);
        proof {
            assert(given.take(i + 1).drop_last() =~= given.take(i as int));
            assert(given.take(i + 1).last() == given[i as int]);
            assert(items@.take(i + 1) =~= sorted.insert(j as int, item));
            assert(items@.skip(i + 1) =~= given.skip(i + 1)) by {
                let ghost rest = items@.skip(i + 1);
                assert forall|k: int| 0 <= k < given.len() - i - 1 implies #[trigger] rest[k]
                    == given.skip(i + 1)[k] by {
                    assert(before.skip(i as int)[k + 1] == given.skip(i as int)[k + 1]);
                }
            }
        }
        i += 1;
    }
    proof {
        assert(items@.take(i as int) =~= items@);
        assert(given.take(i as int) =~= given);
    }
}

/// The bytes of a text in UTF-8, by which names are ordered.
pub open spec fn name_key(name: Seq<char>) -> Seq<u8> {
    vstd::utf8::encode_utf8(name)
}

impl Ranked for File {
    open spec fn rank_key(&self) -> RankKey {
        RankKey { name: name_key(self.path_name@), instant: self.last_modified.instant() }
    }

    fn name_bytes(&self) -> (bytes: &[u8]) {
        self.path_name.as_str().as_bytes()
    }

    fn modified(&self) -> (time: Timestamp) {
        self.last_modified
    }
}

/// A bare name carries no time of its own: it ranks as the epoch.
impl Ranked for String {
    open spec fn rank_key(&self) -> RankKey {
        RankKey { name: name_key(self@), instant: 0 }
    }

    fn name_bytes(&self) -> (bytes: &[u8]) {
        self.as_str().as_bytes()
    }

    fn modified(&self) -> (time: Timestamp) {
        Timestamp { seconds: 0, nanoseconds: 0 }
    }
}

/// Orders the files by modification time, the most recent first.
pub fn rank_files_by_last_modified_date(files: &mut Vec<File>)
    ensures
        final(files)@ == ranked(old(files)@, Ranking::NewestFirst),
{
    rank(files, Ranking::NewestFirst);
}

/// Orders the files by modification time, the oldest first.
pub fn reverse_rank_files_by_last_modified_date(files: &mut Vec<File>)
    ensures
        final(files)@ == ranked(old(files)@, Ranking::OldestFirst),
{
    rank(files, Ranking::OldestFirst);
}

/// Orders the files by name.
pub fn alphabetically_rank_files(files: &mut Vec<File>)
    ensures
        final(files)@ == ranked(old(files)@, Ranking::NameAscending),
{
    rank(files, Ranking::NameAscending);
}

/// Orders the files by name, the last name first.
pub fn reverse_alphabetically_rank_files(files: &mut Vec<File>)
    ensures
        final(files)@ == ranked(old(files)@, Ranking::NameDescending),
{
    rank(files, Ranking::NameDescending);
}

/// What a bare name is ordered by: its bytes, and the epoch for its time.
pub open spec fn name_rank() -> KeyOf<Seq<char>> {
    |name: Seq<char>| RankKey { name: name_key(name), instant: 0 }
}

/// The names in the given order.
pub open spec fn ranked_names(names: Seq<Seq<char>>, ranking: Ranking) -> Seq<Seq<char>> {
    ranked_by(names, name_rank(), ranking)
}

/// Putting an item in commutes with a change of the items that keeps their
/// keys.
proof fn lemma_inserted_maps<A, B>(
    sorted: Seq<A>,
    item: A,
    f: spec_fn(A) -> B,
    key_a: KeyOf<A>,
    key_b: KeyOf<B>,
    ranking: Ranking,
)
    requires
        forall|i: int| 0 <= i < sorted.len() ==> key_a(#[trigger] sorted[i]) == key_b(f(sorted[i])),
        key_a(item) == key_b(f(item)),
    ensures
        inserted(sorted, item, key_a, ranking).map_values(f) == inserted(
            sorted.map_values(f),
            f(item),
            key_b,
            ranking,
        ),
    decreases sorted.len(),
{
    let mapped = sorted.map_values(f);
    if sorted.len() == 0 {
        assert(seq![item].map_values(f) =~= seq![f(item)]);
    } else {
        assert(mapped.last() == f(sorted.last()));
        assert(key_a(sorted[sorted.len() - 1]) == key_b(f(sorted[sorted.len() - 1])));
        if ranks_before(ranking, key_a(sorted.last()), key_a(item)) {
            assert(sorted.push(item).map_values(f) =~= mapped.push(f(item)));
        } else {
            let shorter = sorted.drop_last();
            assert forall|i: int| 0 <= i < shorter.len() implies key_a(#[trigger] shorter[i])
                == key_b(f(shorter[i])) by {
                assert(shorter[i] == sorted[i]);
            }
            lemma_inserted_maps(shorter, item, f, key_a, key_b, ranking);
            assert(mapped.drop_last() =~= shorter.map_values(f));
            assert(inserted(shorter, item, key_a, ranking).push(sorted.last()).map_values(f)
                =~= inserted(shorter, item, key_a, ranking).map_values(f).push(
                f(sorted.last()),
            ));
        }
    }
}

/// Ranking commutes with a change of the items that keeps their keys: the
/// order depends on the keys alone.
pub proof fn lemma_ranked_maps<A, B>(
    items: Seq<A>,
    f: spec_fn(A) -> B,
    key_a: KeyOf<A>,
    key_b: KeyOf<B>,
    ranking: Ranking,
)
    requires
        forall|i: int| 0 <= i < items.len() ==> key_a(#[trigger] items[i]) == key_b(f(items[i])),
    ensures
        ranked_by(items, key_a, ranking).map_values(f) == ranked_by(
            items.map_values(f),
            key_b,
            ranking,
        ),
    decreases items.len(),
{
    let mapped = items.map_values(f);
    if items.len() == 0 {
        assert(ranked_by(items, key_a, ranking).map_values(f) =~= ranked_by(
            mapped,
            key_b,
            ranking,
        ));
    } else {
        let shorter = items.drop_last();
        assert forall|i: int| 0 <= i < shorter.len() implies key_a(#[trigger] shorter[i]) == key_b(
            f(shorter[i]),
        ) by {
            assert(shorter[i] == items[i]);
        }
        lemma_ranked_maps(shorter, f, key_a, key_b, ranking);
        let sorted = ranked_by(shorter, key_a, ranking);
        lemma_ranked_same_items(shorter, key_a, ranking);
        assert forall|i: int| 0 <= i < sorted.len() implies key_a(#[trigger] sorted[i]) == key_b(
            f(sorted[i]),
        ) by {
            assert(shorter.contains(sorted[i]));
            let m = choose|m: int| 0 <= m < shorter.len() && shorter[m] == sorted[i];
            assert(key_a(shorter[m]) == key_b(f(shorter[m])));
        }
        assert(key_a(items[items.len() - 1]) == key_b(f(items[items.len() - 1])));
        lemma_inserted_maps(sorted, items.last(), f, key_a, key_b, ranking);
        assert(mapped.drop_last() =~= shorter.map_values(f));
        assert(mapped.last() == f(items.last()));
    }
}

/// Orders the strings in byte order.
pub fn alphabetically_rank_strings(strings: &mut Vec<String>)
    ensures
        final(strings)@ == ranked(old(strings)@, Ranking::NameAscending),
        texts(final(strings)@) == ranked_names(texts(old(strings)@), Ranking::NameAscending),
{
    proof {
        lemma_ranked_maps(
            strings@,
            text_of(),
            own_key::<String>(),
            name_rank(),
            Ranking::NameAscending,
        );
    }
    rank(strings, Ranking::NameAscending);
}

/// Orders the strings against byte order.
pub fn reverse_alphabetically_rank_strings(strings: &mut Vec<String>)
    ensures
        final(strings)@ == ranked(old(strings)@, Ranking::NameDescending),
        texts(final(strings)@) == ranked_names(texts(old(strings)@), Ranking::NameDescending),
{
    proof {
        lemma_ranked_maps(
            strings@,
            text_of(),
            own_key::<String>(),
            name_rank(),
            Ranking::NameDescending,
        );
    }
    rank(strings, Ranking::NameDescending);
}

/// Orders the files as the switches ask.
pub fn file_rank_redirect(files: &mut Vec<File>, parameters: &Parameters)
    ensures
        final(files)@ == ranked(old(files)@, ranking_of(*parameters)),
{
    if parameters.reverse_order {
        if parameters.last_modified_order {
            reverse_rank_files_by_last_modified_date(files);
        } else {
            reverse_alphabetically_rank_files(files);
        }
    } else {
        if parameters.last_modified_order {
            rank_files_by_last_modified_date(files);
        } else {
            alphabetically_rank_files(files);
        }
    }
}

/// The order that runs the other way.
pub open spec fn opposite(ranking: Ranking) -> Ranking {
    match ranking {
        Ranking::NameAscending => Ranking::NameDescending,
        Ranking::NameDescending => Ranking::NameAscending,
        Ranking::NewestFirst => Ranking::OldestFirst,
        Ranking::OldestFirst => Ranking::NewestFirst,
    }
}

/// Whether two keys rank alike: each may stand before the other.
pub open spec fn ranks_alike(ranking: Ranking, a: RankKey, b: RankKey) -> bool {
    ranks_before(ranking, a, b) && ranks_before(ranking, b, a)
}

/// Whether no two of the items rank alike.
pub open spec fn ranks_apart<A>(items: Seq<A>, key: KeyOf<A>, ranking: Ranking) -> bool {
    forall|i: int, j: int|
        0 <= i < j < items.len() ==> !ranks_alike(
            ranking,
            key(#[trigger] items[i]),
            key(#[trigger] items[j]),
        )
}

/// Every ranked item is one of the given items, and every given item is ranked.
pub proof fn lemma_ranked_same_items<A>(items: Seq<A>, key: KeyOf<A>, ranking: Ranking)
    ensures
        forall|k: int|
            0 <= k < ranked_by(items, key, ranking).len() ==> items.contains(
                #[trigger] ranked_by(items, key, ranking)[k],
            ),
        forall|k: int|
            0 <= k < items.len() ==> ranked_by(items, key, ranking).contains(#[trigger] items[k]),
{
    broadcast use vstd::seq_lib::group_to_multiset_ensures;

    lemma_ranked_permutes(items, key, ranking);
    let sorted = ranked_by(items, key, ranking);
    assert forall|k: int| 0 <= k < sorted.len() implies items.contains(#[trigger] sorted[k]) by {
        assert(sorted.contains(sorted[k]));
        assert(sorted.to_multiset().count(sorted[k]) > 0);
    }
    assert forall|k: int| 0 <= k < items.len() implies sorted.contains(#[trigger] items[k]) by {
        assert(items.contains(items[k]));
        assert(items.to_multiset().count(items[k]) > 0);
    }
}

/// The opposite order lets `a` stand before `b` where the order lets `b`
/// stand before `a`.
pub proof fn lemma_opposite_swaps(ranking: Ranking, a: RankKey, b: RankKey)
    ensures
        ranks_before(opposite(ranking), a, b) == ranks_before(ranking, b, a),
{
}

/// Putting an item into a sequence read backwards, under the opposite order,
/// gives what putting it into the sequence gives, read backwards.
proof fn lemma_inserted_mirrors<A>(up: Seq<A>, item: A, key: KeyOf<A>, ranking: Ranking)
    requires
        in_order(up, key, ranking),
        forall|k: int|
            0 <= k < up.len() ==> !ranks_alike(
                ranking,
                key(#[trigger] up[k]),
                key(item),
            ),
    ensures
        inserted(up.reverse(), item, key, opposite(ranking)) == inserted(up, item, key, ranking).reverse(),
{
    let down = up.reverse();
    let other = opposite(ranking);
    lemma_inserted_at_point(up, item, key, ranking);
    let point = insertion_point(up, item, key, ranking);
    let mirrored = up.len() - point;
    assert forall|k: int| mirrored <= k < down.len() implies !ranks_before(
        other,
        key(#[trigger] down[k]),
        key(item),
    ) by {
        let source = up.len() - 1 - k;
        assert(down[k] == up[source]);
        if source < point - 1 {
            assert(ranks_before(ranking, key(up[source]), key(up[point - 1])));
            lemma_ranks_transitive(
                ranking,
                key(up[source]),
                key(up[point - 1]),
                key(item),
            );
        }
        assert(ranks_before(ranking, key(up[source]), key(item)));
        assert(!ranks_alike(ranking, key(up[source]), key(item)));
        lemma_opposite_swaps(ranking, key(down[k]), key(item));
    }
    if mirrored > 0 {
        assert(down[mirrored - 1] == up[point]);
        lemma_ranks_total(ranking, key(up[point]), key(item));
        lemma_opposite_swaps(ranking, key(up[point]), key(item));
    }
    lemma_insertion_point_found(down, item, key, other, mirrored);
    lemma_inserted_at_point(down, item, key, other);
    assert(down.insert(mirrored, item) =~= up.insert(point, item).reverse());
}

/// Where no two items rank alike, the opposite order is the exact reverse:
/// by name downwards is by name upwards read backwards, and oldest first is
/// newest first read backwards.
pub proof fn lemma_opposite_is_reverse<A>(items: Seq<A>, key: KeyOf<A>, ranking: Ranking)
    requires
        ranks_apart(items, key, ranking),
    ensures
        ranked_by(items, key, opposite(ranking)) == ranked_by(items, key, ranking).reverse(),
    decreases items.len(),
{
    if items.len() == 0 {
        assert(ranked_by(items, key, opposite(ranking)) =~= ranked_by(items, key, ranking).reverse());
    } else {
        let shorter = items.drop_last();
        let item = items.last();
        assert(ranks_apart(shorter, key, ranking)) by {
            assert forall|i: int, j: int| 0 <= i < j < shorter.len() implies !ranks_alike(
                ranking,
                key(#[trigger] shorter[i]),
                key(#[trigger] shorter[j]),
            ) by {
                assert(shorter[i] == items[i] && shorter[j] == items[j]);
            }
        }
        lemma_opposite_is_reverse(shorter, key, ranking);
        let up = ranked_by(shorter, key, ranking);
        lemma_ranked_in_order(shorter, key, ranking);
        lemma_ranked_same_items(shorter, key, ranking);
        assert forall|k: int| 0 <= k < up.len() implies !ranks_alike(
            ranking,
            key(#[trigger] up[k]),
            key(item),
        ) by {
            assert(shorter.contains(up[k]));
            let m = choose|m: int| 0 <= m < shorter.len() && shorter[m] == up[k];
            assert(items[m] == up[k]);
            assert(items[items.len() - 1] == item);
        }
        lemma_inserted_mirrors(up, item, key, ranking);
    }
}

/// With the time order asked for, the first entry of the listing is the most
/// recently modified of all; with the reverse switch added, it is the oldest.
pub proof fn lemma_time_order_direction<A>(items: Seq<A>, key: KeyOf<A>, parameters: Parameters)
    requires
        parameters.last_modified_order,
        items.len() > 0,
    ensures
        ranked_by(items, key, ranking_of(parameters)).len() == items.len(),
        !parameters.reverse_order ==> forall|k: int|
            0 <= k < items.len() ==> key(ranked_by(items, key, ranking_of(parameters))[0]).instant
                >= key(#[trigger] items[k]).instant,
        parameters.reverse_order ==> forall|k: int|
            0 <= k < items.len() ==> key(ranked_by(items, key, ranking_of(parameters))[0]).instant
                <= key(#[trigger] items[k]).instant,
{
    let ranking = ranking_of(parameters);
    let sorted = ranked_by(items, key, ranking);
    lemma_ranked_len(items, key, ranking);
    lemma_ranked_in_order(items, key, ranking);
    lemma_ranked_same_items(items, key, ranking);
    assert forall|k: int| 0 <= k < items.len() implies ranks_before(
        ranking,
        key(sorted[0]),
        key(#[trigger] items[k]),
    ) by {
        assert(sorted.contains(items[k]));
        let m = choose|m: int| 0 <= m < sorted.len() && sorted[m] == items[k];
        if m > 0 {
            assert(ranks_before(ranking, key(sorted[0]), key(sorted[m])));
        }
    }
}

/// Files with different names never rank alike by name.
pub proof fn lemma_distinct_names_rank_apart(files: Seq<File>)
    requires
        forall|i: int, j: int|
            0 <= i < j < files.len() ==> (#[trigger] files[i]).path_name@ != (
            #[trigger] files[j]).path_name@,
    ensures
        ranks_apart(files, own_key::<File>(), Ranking::NameAscending),
{
    assert forall|i: int, j: int| 0 <= i < j < files.len() implies !ranks_alike(
        Ranking::NameAscending,
        own_key::<File>()(#[trigger] files[i]),
        own_key::<File>()(#[trigger] files[j]),
    ) by {
        let a = files[i].path_name@;
        let b = files[j].path_name@;
        if bytes_le(name_key(a), name_key(b)) && bytes_le(name_key(b), name_key(a)) {
            lemma_bytes_le_antisymmetric(name_key(a), name_key(b));
            lemma_same_bytes_same_text(a, b);
        }
    }
}

/// For files with different names, the listing by name downwards is the
/// listing by name upwards read backwards.
pub proof fn lemma_reversed_listing(files: Seq<File>)
    requires
        forall|i: int, j: int|
            0 <= i < j < files.len() ==> (#[trigger] files[i]).path_name@ != (
            #[trigger] files[j]).path_name@,
    ensures
        ranked(files, Ranking::NameDescending) == ranked(files, Ranking::NameAscending).reverse(),
{
    lemma_distinct_names_rank_apart(files);
    lemma_opposite_is_reverse(files, own_key::<File>(), Ranking::NameAscending);
}

/// Behind items that all may stand before a new item, the new item finds
/// its place among what follows them, as if they were not there.
pub proof fn lemma_inserted_behind<A>(
    head: Seq<A>,
    sorted: Seq<A>,
    item: A,
    key: KeyOf<A>,
    ranking: Ranking,
)
    requires
        head.len() > 0,
        ranks_before(ranking, key(head.last()), key(item)),
    ensures
        inserted(head + sorted, item, key, ranking) == head + inserted(sorted, item, key, ranking),
    decreases sorted.len(),
{
    let all = head + sorted;
    if sorted.len() == 0 {
        assert(all =~= head);
        assert(head.push(item) =~= head + seq![item]);
    } else {
        assert(all.last() == sorted.last());
        assert(all.drop_last() =~= head + sorted.drop_last());
        if ranks_before(ranking, key(sorted.last()), key(item)) {
            assert(all.push(item) =~= head + sorted.push(item));
        } else {
            lemma_inserted_behind(head, sorted.drop_last(), item, key, ranking);
            assert((head + inserted(sorted.drop_last(), item, key, ranking)).push(sorted.last())
                =~= head + inserted(sorted.drop_last(), item, key, ranking).push(sorted.last()));
        }
    }
}

/// Items that are in order, and behind which every other item may stand,
/// stay at the front when all are ranked; the others follow in their rank.
pub proof fn lemma_ranked_behind<A>(head: Seq<A>, rest: Seq<A>, key: KeyOf<A>, ranking: Ranking)
    requires
        head.len() > 0,
        ranked_by(head, key, ranking) == head,
        forall|i: int|
            0 <= i < rest.len() ==> ranks_before(ranking, key(head.last()), key(#[trigger] rest[i])),
    ensures
        ranked_by(head + rest, key, ranking) == head + ranked_by(rest, key, ranking),
    decreases rest.len(),
{
    let all = head + rest;
    if rest.len() == 0 {
        assert(all =~= head);
        assert(head + ranked_by(rest, key, ranking) =~= head);
    } else {
        let shorter = rest.drop_last();
        assert forall|i: int| 0 <= i < shorter.len() implies ranks_before(
            ranking,
            key(head.last()),
            key(#[trigger] shorter[i]),
        ) by {
            assert(shorter[i] == rest[i]);
        }
        lemma_ranked_behind(head, shorter, key, ranking);
        assert(all.drop_last() =~= head + shorter);
        assert(all.last() == rest.last());
        assert(ranks_before(ranking, key(head.last()), key(rest[rest.len() - 1])));
        lemma_inserted_behind(head, ranked_by(shorter, key, ranking), rest.last(), key, ranking);
    }
}

} // verus!
