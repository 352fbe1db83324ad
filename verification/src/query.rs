//! The query engine: which songs the rule index recommends for a set of songs.

use vstd::prelude::*;
use crate::canonical::{
    lemma_normalized, lemma_normalized_by_elements, normalize, normalized, strictly_sorted,
};
use crate::combos::{
    combinations, combinations_of, drawn_from, lemma_combination_canonical,
    lemma_combinations_complete, lemma_full_combination, next_combination, pending,
};
use crate::index::RuleIndex;
use crate::text::{holds_name, texts};

verus! {

/// The longest antecedent that is looked up, and the number of recommendations
/// at which the search stops.
pub const MAX_LENGTH: usize = 8;

/// Whether the search may stop: `found` has reached `MAX_LENGTH` songs.
pub open spec fn enough(found: Set<Seq<char>>) -> bool {
    found.len() >= MAX_LENGTH
}

/// `found`, with the consequents of `key` where the index has that antecedent.
pub open spec fn gather(
    index: Map<Seq<Seq<char>>, Set<Seq<char>>>,
    key: Seq<Seq<char>>,
    found: Set<Seq<char>>,
) -> Set<Seq<char>> {
    if index.dom().contains(key) {
        found.union(index[key])
    } else {
        found
    }
}

/// Looks the combinations up one after the other, and stops at the first point
/// where enough songs are found.
pub open spec fn scan_combinations(
    combos: Seq<Seq<Seq<char>>>,
    index: Map<Seq<Seq<char>>, Set<Seq<char>>>,
    found: Set<Seq<char>>,
) -> Set<Seq<char>>
    decreases combos.len(),
{
    if combos.len() == 0 || enough(found) {
        found
    } else {
        scan_combinations(combos.drop_first(), index, gather(index, combos[0], found))
    }
}

/// Goes through the combinations of `length` songs of `q`, then through the
/// shorter ones, longest first, until enough songs are found.
pub open spec fn scan_lengths(
    q: Seq<Seq<char>>,
    index: Map<Seq<Seq<char>>, Set<Seq<char>>>,
    length: nat,
    found: Set<Seq<char>>,
) -> Set<Seq<char>>
    decreases length,
{
    if length == 0 || enough(found) {
        found
    } else {
        scan_lengths(
            q,
            index,
            (length - 1) as nat,
            scan_combinations(combinations_of(q, length), index, found),
        )
    }
}

/// The longest combination that a query of `n` distinct songs is searched with.
pub open spec fn longest(n: nat) -> nat {
    if n < MAX_LENGTH {
        n
    } else {
        MAX_LENGTH as nat
    }
}

/// The songs recommended for `query` by `index`: the query is brought into
/// canonical form, and its combinations are looked up from the longest to the
/// shortest, the consequents of every antecedent found being gathered, until
/// `MAX_LENGTH` songs are reached or no combination is left.
pub open spec fn recommend(
    query: Seq<Seq<char>>,
    index: Map<Seq<Seq<char>>, Set<Seq<char>>>,
) -> Set<Seq<char>> {
    let q = normalized(query);
    scan_lengths(q, index, longest(q.len()), Set::empty())
}

/// Adds to `songs` each of `more` that it does not hold yet.
fn extend(songs: &mut Vec<String>, more: &Vec<String>)
    requires
        texts(old(songs)@).no_duplicates(),
    ensures
        texts(final(songs)@).no_duplicates(),
        texts(final(songs)@).to_set() == texts(old(songs)@).to_set().union(texts(more@).to_set()),
{
    let ghost before = texts(songs@);
    let mut i: usize = 0;
    assert(texts(more@).take(0).to_set() =~= Set::<Seq<char>>::empty());
    assert(before.to_set().union(Set::empty()) =~= before.to_set());
    while i < more.len()
        invariant
            i <= more.len(),
            texts(songs@).no_duplicates(),
            texts(songs@).to_set() == before.to_set().union(
                texts(more@).take(i as int).to_set(),
            ),
        decreases more.len() - i,
    {
        let ghost s = texts(songs@);
        let ghost taken = texts(more@).take(i as int);
        let ghost x = texts(more@)[i as int];
        proof {
            assert(texts(more@).take(i + 1) =~= taken.push(x));
            taken.lemma_push_to_set_commute(x);
        }
        if !holds_name(songs, more[i].as_str()) {
            songs.push(more[i].clone());
            proof {
                assert(texts(songs@) =~= s.push(x));
                s.lemma_push_to_set_commute(x);
                assert forall|a: int, b: int|
                    0 <= a < s.len() + 1 && 0 <= b < s.len() + 1 && a != b implies s.push(x)[a]
                    != s.push(x)[b] by {
                    if a < s.len() && b < s.len() {
                        assert(s[a] != s[b]);
                    } else if a < s.len() {
                        assert(s.contains(s[a]));
                    } else {
                        assert(s.contains(s[b]));
                    }
                }
                assert(s.to_set().insert(x) =~= before.to_set().union(taken.to_set().insert(x)));
            }
        } else {
            proof {
                assert(s.to_set().contains(x));
                assert(s.to_set() =~= before.to_set().union(taken.to_set().insert(x)));
            }
        }
        i += 1;
    }
    assert(texts(more@).take(more.len() as int) =~= texts(more@));
}

/// Recommends songs for `query`. The songs come back each once, in no
/// particular order.
pub fn recommend_songs(query: Vec<String>, rules_map: &RuleIndex) -> (songs: Vec<String>)
    ensures
        texts(songs@).to_set() == recommend(texts(query@), rules_map@),
        texts(songs@).no_duplicates(),
{
    let ghost target = recommend(texts(query@), rules_map@);
    let query = normalize(query);
    let ghost q = texts(query@);
    let mut response: Vec<String> = Vec::new();
    let mut length: usize = if query.len() < MAX_LENGTH {
        query.len()
    } else {
        MAX_LENGTH
    };
    assert(texts(response@).to_set() =~= Set::<Seq<char>>::empty());
    while length > 0 && response.len() < MAX_LENGTH
        invariant
            q == texts(query@),
            texts(response@).no_duplicates(),
            scan_lengths(q, rules_map@, length as nat, texts(response@).to_set()) == target,
        decreases length,
    {
        proof {
            texts(response@).unique_seq_to_set();
        }
        let mut it = combinations(&query, length);
        loop
            invariant
                length > 0,
                texts(response@).no_duplicates(),
                scan_lengths(
                    q,
                    rules_map@,
                    (length - 1) as nat,
                    scan_combinations(pending(it), rules_map@, texts(response@).to_set()),
                ) == target,
            ensures
                texts(response@).no_duplicates(),
                scan_lengths(q, rules_map@, (length - 1) as nat, texts(response@).to_set())
                    == target,
            decreases pending(it).len(),
        {
            proof {
                texts(response@).unique_seq_to_set();
            }
            if response.len() >= MAX_LENGTH {
                break;
            }
            match next_combination(&mut it) {
                None => {
                    break;
                },
                Some(combination) => {
                    // A combination of a canonical query is canonical as it
                    // comes (`lemma_combination_canonical`): it is the key.
                    match rules_map.get(&combination) {
                        Some(predictions) => {
                            extend(&mut response, predictions);
                        },
                        None => {},
                    }
                },
            }
        }
        length -= 1;
    }
    proof {
        texts(response@).unique_seq_to_set();
    }
    response
}

/// The recommendation depends on which songs the query names, not on their
/// order nor on how often each is named.
pub proof fn lemma_recommend_by_elements(
    p: Seq<Seq<char>>,
    q: Seq<Seq<char>>,
    index: Map<Seq<Seq<char>>, Set<Seq<char>>>,
)
    requires
        p.to_set() == q.to_set(),
    ensures
        recommend(p, index) == recommend(q, index),
{
    lemma_normalized_by_elements(p, q);
}

/// Where the index holds the whole query as an antecedent with at least
/// `MAX_LENGTH` consequents, those consequents are the recommendation: no
/// shorter antecedent is looked up.
pub proof fn lemma_recommend_first_match(
    query: Seq<Seq<char>>,
    index: Map<Seq<Seq<char>>, Set<Seq<char>>>,
)
    requires
        0 < normalized(query).len() <= MAX_LENGTH,
        index.dom().contains(normalized(query)),
        index[normalized(query)].finite(),
        index[normalized(query)].len() >= MAX_LENGTH,
    ensures
        recommend(query, index) == index[normalized(query)],
{
    let q = normalized(query);
    let none = Set::<Seq<char>>::empty();
    lemma_full_combination(q);
    let combos = combinations_of(q, q.len());
    assert(combos.drop_first() =~= Seq::<Seq<Seq<char>>>::empty());
    assert(none.union(index[q]) =~= index[q]);
    assert(gather(index, combos[0], none) == index[q]);
    assert(scan_combinations(combos.drop_first(), index, index[q]) == index[q]);
    assert(scan_combinations(combos, index, none) == index[q]);
    assert(scan_lengths(q, index, (q.len() - 1) as nat, index[q]) == index[q]);
}

/// Whether `song` is a consequent of an antecedent of the index that has
/// between one and `MAX_LENGTH` songs, all of them named by `query`.
pub open spec fn supported(
    song: Seq<char>,
    query: Seq<Seq<char>>,
    index: Map<Seq<Seq<char>>, Set<Seq<char>>>,
) -> bool {
    exists|key: Seq<Seq<char>>|
        #![trigger index.dom().contains(key)]
        index.dom().contains(key) && index[key].contains(song) && 0 < key.len() <= MAX_LENGTH
            && drawn_from(key, query) && strictly_sorted(key)
}

/// Every recommended song is the consequent of a rule whose antecedent the
/// query covers.
pub proof fn lemma_recommend_sound(
    query: Seq<Seq<char>>,
    index: Map<Seq<Seq<char>>, Set<Seq<char>>>,
    song: Seq<char>,
)
    requires
        recommend(query, index).contains(song),
    ensures
        supported(song, query, index),
{
    let q = normalized(query);
    lemma_normalized(query);
    lemma_scan_lengths_sound(q, index, longest(q.len()), Set::empty(), song);
    let key = choose|key: Seq<Seq<char>>|
        #![trigger index.dom().contains(key)]
        index.dom().contains(key) && index[key].contains(song) && 0 < key.len() <= MAX_LENGTH
            && drawn_from(key, q) && strictly_sorted(key);
    assert forall|i: int| 0 <= i < key.len() implies query.contains(#[trigger] key[i]) by {
        assert(q.contains(key[i]));
        assert(q.to_set().contains(key[i]));
        assert(query.to_set().contains(key[i]));
    }
    assert(index.dom().contains(key));
}

proof fn lemma_scan_lengths_sound(
    q: Seq<Seq<char>>,
    index: Map<Seq<Seq<char>>, Set<Seq<char>>>,
    length: nat,
    found: Set<Seq<char>>,
    song: Seq<char>,
)
    requires
        strictly_sorted(q),
        length <= MAX_LENGTH,
        scan_lengths(q, index, length, found).contains(song),
    ensures
        found.contains(song) || supported(song, q, index),
    decreases length,
{
    if length == 0 || enough(found) {
    } else {
        let next = scan_combinations(combinations_of(q, length), index, found);
        lemma_scan_lengths_sound(q, index, (length - 1) as nat, next, song);
        if next.contains(song) {
            assert(combinations_of(q, length).skip(0) =~= combinations_of(q, length));
            lemma_scan_combinations_sound(q, length, 0, index, found, song);
        }
    }
}

proof fn lemma_scan_combinations_sound(
    q: Seq<Seq<char>>,
    length: nat,
    from: int,
    index: Map<Seq<Seq<char>>, Set<Seq<char>>>,
    found: Set<Seq<char>>,
    song: Seq<char>,
)
    requires
        strictly_sorted(q),
        0 < length <= MAX_LENGTH,
        0 <= from <= combinations_of(q, length).len(),
        scan_combinations(combinations_of(q, length).skip(from), index, found).contains(song),
    ensures
        found.contains(song) || supported(song, q, index),
    decreases combinations_of(q, length).len() - from,
{
    let all = combinations_of(q, length);
    let combos = all.skip(from);
    if combos.len() == 0 || enough(found) {
    } else {
        let key = combos[0];
        assert(key == all[from]);
        assert(combos.drop_first() =~= all.skip(from + 1));
        let next = gather(index, key, found);
        lemma_scan_combinations_sound(q, length, from + 1, index, next, song);
        if next.contains(song) && !found.contains(song) {
            lemma_combination_canonical(q, length, from);
            assert(index.dom().contains(key));
            assert(index[key].contains(song));
        }
    }
}

/// Whether every antecedent of the index has finitely many consequents.
pub open spec fn finite_sets(index: Map<Seq<Seq<char>>, Set<Seq<char>>>) -> bool {
    forall|key: Seq<Seq<char>>|
        index.dom().contains(key) ==> (#[trigger] index[key]).finite()
}

/// Looking combinations up only ever adds songs.
proof fn lemma_scan_combinations_grows(
    combos: Seq<Seq<Seq<char>>>,
    index: Map<Seq<Seq<char>>, Set<Seq<char>>>,
    found: Set<Seq<char>>,
)
    requires
        finite_sets(index),
        found.finite(),
    ensures
        found.subset_of(scan_combinations(combos, index, found)),
        scan_combinations(combos, index, found).finite(),
    decreases combos.len(),
{
    if combos.len() == 0 || enough(found) {
    } else {
        lemma_scan_combinations_grows(combos.drop_first(), index, gather(index, combos[0], found));
    }
}

/// Going through the lengths only ever adds songs.
proof fn lemma_scan_lengths_grows(
    q: Seq<Seq<char>>,
    index: Map<Seq<Seq<char>>, Set<Seq<char>>>,
    length: nat,
    found: Set<Seq<char>>,
)
    requires
        finite_sets(index),
        found.finite(),
    ensures
        found.subset_of(scan_lengths(q, index, length, found)),
        scan_lengths(q, index, length, found).finite(),
    decreases length,
{
    if length == 0 || enough(found) {
    } else {
        let next = scan_combinations(combinations_of(q, length), index, found);
        lemma_scan_combinations_grows(combinations_of(q, length), index, found);
        lemma_scan_lengths_grows(q, index, (length - 1) as nat, next);
    }
}

/// A set with enough songs has enough whatever is added.
proof fn lemma_enough_stays(small: Set<Seq<char>>, large: Set<Seq<char>>)
    requires
        small.subset_of(large),
        large.finite(),
        enough(small),
    ensures
        enough(large),
{
    vstd::set_lib::lemma_len_subset(small, large);
}

/// Where a scan ends without enough songs, it has looked every combination up.
proof fn lemma_scan_combinations_all(
    combos: Seq<Seq<Seq<char>>>,
    index: Map<Seq<Seq<char>>, Set<Seq<char>>>,
    found: Set<Seq<char>>,
    i: int,
)
    requires
        finite_sets(index),
        found.finite(),
        !enough(scan_combinations(combos, index, found)),
        0 <= i < combos.len(),
        index.dom().contains(combos[i]),
    ensures
        index[combos[i]].subset_of(scan_combinations(combos, index, found)),
    decreases combos.len(),
{
    let next = gather(index, combos[0], found);
    let rest = combos.drop_first();
    lemma_scan_combinations_grows(rest, index, next);
    if i > 0 {
        assert(rest[i - 1] == combos[i]);
        lemma_scan_combinations_all(rest, index, next, i - 1);
    }
}

/// Where the search ends without enough songs, it has looked up every
/// combination of every length it went through.
proof fn lemma_scan_lengths_all(
    q: Seq<Seq<char>>,
    index: Map<Seq<Seq<char>>, Set<Seq<char>>>,
    length: nat,
    found: Set<Seq<char>>,
    k: nat,
    i: int,
)
    requires
        finite_sets(index),
        found.finite(),
        !enough(scan_lengths(q, index, length, found)),
        0 < k <= length,
        0 <= i < combinations_of(q, k).len(),
        index.dom().contains(combinations_of(q, k)[i]),
    ensures
        index[combinations_of(q, k)[i]].subset_of(scan_lengths(q, index, length, found)),
    decreases length,
{
    let combos = combinations_of(q, length);
    let next = scan_combinations(combos, index, found);
    lemma_scan_combinations_grows(combos, index, found);
    lemma_scan_lengths_grows(q, index, (length - 1) as nat, next);
    if k == length {
        if enough(next) {
            lemma_enough_stays(next, scan_lengths(q, index, (length - 1) as nat, next));
        }
        lemma_scan_combinations_all(combos, index, found, i);
    } else {
        lemma_scan_lengths_all(q, index, (length - 1) as nat, next, k, i);
    }
}

/// A recommendation of fewer than `MAX_LENGTH` songs leaves nothing out: it
/// holds the consequents of every antecedent of up to `MAX_LENGTH` songs
/// that the query covers.
pub proof fn lemma_recommend_complete(
    query: Seq<Seq<char>>,
    index: Map<Seq<Seq<char>>, Set<Seq<char>>>,
    song: Seq<char>,
)
    requires
        finite_sets(index),
        !enough(recommend(query, index)),
        supported(song, query, index),
    ensures
        recommend(query, index).contains(song),
{
    let q = normalized(query);
    lemma_normalized(query);
    let key = choose|key: Seq<Seq<char>>|
        #![trigger index.dom().contains(key)]
        index.dom().contains(key) && index[key].contains(song) && 0 < key.len() <= MAX_LENGTH
            && drawn_from(key, query) && strictly_sorted(key);
    assert forall|i: int| 0 <= i < key.len() implies q.contains(#[trigger] key[i]) by {
        assert(query.contains(key[i]));
        assert(query.to_set().contains(key[i]));
        assert(q.to_set().contains(key[i]));
    }
    let i = lemma_combinations_complete(q, key);
    crate::combos::lemma_combinations_need_room(q, key.len());
    lemma_scan_lengths_all(q, index, longest(q.len()), Set::empty(), key.len(), i);
}

} // verus!
