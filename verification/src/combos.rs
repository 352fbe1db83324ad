//! The combinations of a list of names, drawn one at a time from `itertools`.

use vstd::prelude::*;
use crate::canonical::strictly_sorted;
use crate::text::{lex_lt, texts};

verus! {

/// `itertools::Combinations`, the iterator that `Itertools::combinations`
/// returns. Nothing is known of what is inside it; `pending` names what it
/// will still yield.
#[verifier::external_type_specification]
#[verifier::external_body]
#[verifier::reject_recursive_types(I)]
pub struct ExCombinations<I: Iterator>(itertools::Combinations<I>);

/// The combinations that an iterator has yet to yield, in the order in which
/// it will yield them.
pub uninterp spec fn pending(it: itertools::Combinations<std::vec::IntoIter<String>>) -> Seq<
    Seq<Seq<char>>,
>;

/// The `k`-element combinations of `pool`: every way of picking `k` positions,
/// each written in the order of the pool, the combinations themselves ordered
/// by the positions they pick, first position first. Those that pick the head
/// of the pool therefore come before those that do not.
pub open spec fn combinations_of(pool: Seq<Seq<char>>, k: nat) -> Seq<Seq<Seq<char>>>
    decreases pool.len(),
{
    if k == 0 {
        seq![Seq::<Seq<char>>::empty()]
    } else if pool.len() < k {
        Seq::<Seq<Seq<char>>>::empty()
    } else {
        with_head(pool[0], combinations_of(pool.drop_first(), (k - 1) as nat)) + combinations_of(
            pool.drop_first(),
            k,
        )
    }
}

/// Each of `rest` with `head` put in front.
pub open spec fn with_head(head: Seq<char>, rest: Seq<Seq<Seq<char>>>) -> Seq<Seq<Seq<char>>> {
    Seq::new(rest.len(), |i: int| seq![head] + rest[i])
}

/// Every element of `c` occurs in `pool`.
pub open spec fn drawn_from(c: Seq<Seq<char>>, pool: Seq<Seq<char>>) -> bool {
    forall|i: int| 0 <= i < c.len() ==> pool.contains(#[trigger] c[i])
}

/// `Itertools::combinations` on the names of `pool`. The iterator it returns
/// will yield `combinations_of(pool, k)`: itertools starts from the first `k`
/// positions and steps to the next choice of positions by advancing the
/// rightmost one that can still move, which enumerates the choices in the
/// order that `combinations_of` describes.
#[verifier::external_body]
pub(crate) fn combinations(pool: &Vec<String>, k: usize) -> (it: itertools::Combinations<
    std::vec::IntoIter<String>,
>)
    ensures
        pending(it) == combinations_of(texts(pool@), k as nat),
{
    itertools::Itertools::combinations(pool.clone().into_iter(), k)
}

/// `Iterator::next` of `itertools::Combinations`: hands out the first pending
/// combination and leaves the others pending, or reports that none is left.
#[verifier::external_body]
pub(crate) fn next_combination(
    it: &mut itertools::Combinations<std::vec::IntoIter<String>>,
) -> (item: Option<Vec<String>>)
    ensures
        match item {
            Some(c) => pending(*old(it)).len() > 0 && texts(c@) == pending(*old(it))[0] && pending(
                *final(it),
            ) == pending(*old(it)).drop_first(),
            None => pending(*old(it)).len() == 0 && pending(*final(it)) == pending(*old(it)),
        },
{
    it.next()
}

/// A combination of a strictly sorted pool has `k` elements, all of them from
/// the pool, and is itself strictly sorted: it is already in canonical form.
pub proof fn lemma_combination_canonical(pool: Seq<Seq<char>>, k: nat, i: int)
    requires
        strictly_sorted(pool),
        0 <= i < combinations_of(pool, k).len(),
    ensures
        combinations_of(pool, k)[i].len() == k,
        drawn_from(combinations_of(pool, k)[i], pool),
        strictly_sorted(combinations_of(pool, k)[i]),
    decreases pool.len(),
{
    let c = combinations_of(pool, k)[i];
    if k == 0 {
        assert(c =~= Seq::<Seq<char>>::empty());
    } else {
        let tail = pool.drop_first();
        let picked = combinations_of(tail, (k - 1) as nat);
        let skipped = combinations_of(tail, k);
        assert(strictly_sorted(tail)) by {
            assert forall|a: int, b: int| 0 <= a < b < tail.len() implies lex_lt(tail[a], tail[b]) by {
                assert(lex_lt(pool[a + 1], pool[b + 1]));
            }
        }
        if i < picked.len() {
            lemma_combination_canonical(tail, (k - 1) as nat, i);
            let rest = picked[i];
            assert(c == seq![pool[0]] + rest);
            assert forall|j: int| 0 <= j < c.len() implies pool.contains(#[trigger] c[j]) by {
                if j == 0 {
                    assert(pool[0] == c[0]);
                } else {
                    assert(c[j] == rest[j - 1]);
                    assert(tail.contains(rest[j - 1]));
                    let t = choose|t: int| 0 <= t < tail.len() && tail[t] == rest[j - 1];
                    assert(pool[t + 1] == c[j]);
                }
            }
            assert forall|a: int, b: int| 0 <= a < b < c.len() implies lex_lt(
                c[a],
                c[b],
            ) by {
                assert(c[b] == rest[b - 1]);
                if a == 0 {
                    assert(tail.contains(rest[b - 1]));
                    let t = choose|t: int| 0 <= t < tail.len() && tail[t] == rest[b - 1];
                    assert(lex_lt(pool[0], pool[t + 1]));
                } else {
                    assert(c[a] == rest[a - 1]);
                    assert(lex_lt(rest[a - 1], rest[b - 1]));
                }
            }
        } else {
            lemma_combination_canonical(tail, k, i - picked.len());
            let d = skipped[i - picked.len()];
            assert(c == d);
            assert forall|j: int| 0 <= j < c.len() implies pool.contains(#[trigger] c[j]) by {
                assert(tail.contains(d[j]));
                let t = choose|t: int| 0 <= t < tail.len() && tail[t] == d[j];
                assert(pool[t + 1] == c[j]);
            }
        }
    }
}

/// The only combination that takes every element of the pool is the pool.
pub proof fn lemma_full_combination(pool: Seq<Seq<char>>)
    ensures
        combinations_of(pool, pool.len()) == seq![pool],
    decreases pool.len(),
{
    if pool.len() == 0 {
        assert(pool =~= Seq::<Seq<char>>::empty());
    } else {
        let tail = pool.drop_first();
        lemma_full_combination(tail);
        assert(combinations_of(tail, pool.len()) =~= Seq::<Seq<Seq<char>>>::empty());
        assert(seq![pool[0]] + tail =~= pool);
        assert(with_head(pool[0], seq![tail]) =~= seq![pool]);
        assert(combinations_of(pool, pool.len()) =~= seq![pool]);
    }
}

/// There are combinations of `k` elements only where the pool has that many.
pub proof fn lemma_combinations_need_room(pool: Seq<Seq<char>>, k: nat)
    requires
        combinations_of(pool, k).len() > 0,
    ensures
        k <= pool.len(),
{
}

/// Every strictly sorted choice of `key.len()` elements of a strictly sorted
/// pool is among the combinations of that length: none is left out.
pub proof fn lemma_combinations_complete(pool: Seq<Seq<char>>, key: Seq<Seq<char>>) -> (i: int)
    requires
        strictly_sorted(pool),
        strictly_sorted(key),
        drawn_from(key, pool),
    ensures
        0 <= i < combinations_of(pool, key.len()).len(),
        combinations_of(pool, key.len())[i] == key,
    decreases pool.len(),
{
    let k = key.len();
    if k == 0 {
        assert(key =~= Seq::<Seq<char>>::empty());
        0
    } else {
        assert(pool.contains(key[0]));
        let at = choose|t: int| 0 <= t < pool.len() && pool[t] == key[0];
        let tail = pool.drop_first();
        assert(strictly_sorted(tail)) by {
            assert forall|a: int, b: int| 0 <= a < b < tail.len() implies lex_lt(tail[a], tail[b]) by {
                assert(lex_lt(pool[a + 1], pool[b + 1]));
            }
        }
        let picked = combinations_of(tail, (k - 1) as nat);
        let skipped = combinations_of(tail, k);
        if at == 0 {
            let rest = key.drop_first();
            assert(strictly_sorted(rest)) by {
                assert forall|a: int, b: int| 0 <= a < b < rest.len() implies lex_lt(
                    rest[a],
                    rest[b],
                ) by {
                    assert(lex_lt(key[a + 1], key[b + 1]));
                }
            }
            assert forall|j: int| 0 <= j < rest.len() implies tail.contains(#[trigger] rest[j]) by {
                assert(rest[j] == key[j + 1]);
                assert(pool.contains(key[j + 1]));
                let t = choose|t: int| 0 <= t < pool.len() && pool[t] == key[j + 1];
                assert(lex_lt(key[0], key[j + 1]));
                crate::text::lemma_lex_irreflexive(key[0]);
                assert(t != 0);
                assert(tail[t - 1] == rest[j]);
            }
            let j = lemma_combinations_complete(tail, rest);
            lemma_combinations_need_room(tail, (k - 1) as nat);
            assert(seq![pool[0]] + rest =~= key);
            assert(with_head(pool[0], picked)[j] == key);
            j
        } else {
            assert forall|j: int| 0 <= j < key.len() implies tail.contains(#[trigger] key[j]) by {
                assert(pool.contains(key[j]));
                let t = choose|t: int| 0 <= t < pool.len() && pool[t] == key[j];
                if t == 0 {
                    // The head of the pool is below the first of the key,
                    // which is not above any other of the key.
                    assert(lex_lt(pool[0], pool[at]));
                    if j > 0 {
                        assert(lex_lt(key[0], key[j]));
                        crate::text::lemma_lex_asymmetric(key[0], key[j]);
                    } else {
                        crate::text::lemma_lex_irreflexive(key[0]);
                    }
                }
                assert(tail[t - 1] == key[j]);
            }
            let j = lemma_combinations_complete(tail, key);
            lemma_combinations_need_room(tail, k);
            assert(combinations_of(pool, k)[picked.len() + j] == key);
            picked.len() + j
        }
    }
}

} // verus!
