//! The canonical form of a list of song names: sorted, without repeats.

use vstd::prelude::*;
use crate::text::{lemma_lex_irreflexive, lemma_lex_total, lemma_lex_transitive, lex_lt, str_lt, texts};

verus! {

/// Each element is strictly below every later one: sorted, and free of repeats.
pub open spec fn strictly_sorted(s: Seq<Seq<char>>) -> bool {
    forall|i: int, j: int| #![trigger s[i], s[j]] 0 <= i < j < s.len() ==> lex_lt(s[i], s[j])
}

/// The canonical form of `q`: the strictly sorted sequence with the same
/// elements. `lemma_canonical_unique` shows that there is only one.
pub open spec fn normalized(q: Seq<Seq<char>>) -> Seq<Seq<char>> {
    choose|r: Seq<Seq<char>>| strictly_sorted(r) && r.to_set() == q.to_set()
}

/// A strictly sorted sequence holds no element twice.
pub proof fn lemma_sorted_no_duplicates(s: Seq<Seq<char>>)
    requires
        strictly_sorted(s),
    ensures
        s.no_duplicates(),
{
    assert forall|i: int, j: int| 0 <= i < s.len() && 0 <= j < s.len() && i != j implies s[i]
        != s[j] by {
        lemma_lex_irreflexive(s[i]);
        if i < j {
            assert(lex_lt(s[i], s[j]));
        } else {
            assert(lex_lt(s[j], s[i]));
        }
    }
}

/// Two strictly sorted sequences with the same elements are the same sequence.
pub proof fn lemma_canonical_unique(a: Seq<Seq<char>>, b: Seq<Seq<char>>)
    requires
        strictly_sorted(a),
        strictly_sorted(b),
        a.to_set() == b.to_set(),
    ensures
        a == b,
    decreases a.len(),
{
    if a.len() == 0 {
        if b.len() > 0 {
            assert(b.contains(b[0]));
            assert(b.to_set().contains(b[0]));
            assert(a.contains(b[0]));
        }
        assert(a =~= b);
    } else {
        assert(a.contains(a[0]));
        assert(a.to_set().contains(a[0]));
        assert(b.contains(a[0]));
        let jb = choose|j: int| 0 <= j < b.len() && b[j] == a[0];
        assert(b.contains(b[0]));
        assert(b.to_set().contains(b[0]));
        assert(a.contains(b[0]));
        let ja = choose|j: int| 0 <= j < a.len() && a[j] == b[0];
        // Each head is the least element of the common set.
        if jb > 0 {
            assert(lex_lt(b[0], b[jb]));
            if ja > 0 {
                assert(lex_lt(a[0], a[ja]));
                lemma_lex_transitive(a[0], b[0], a[0]);
            }
            lemma_lex_irreflexive(a[0]);
        }
        assert(a[0] == b[0]);
        let at = a.drop_first();
        let bt = b.drop_first();
        assert(strictly_sorted(at)) by {
            assert forall|i: int, j: int| 0 <= i < j < at.len() implies lex_lt(at[i], at[j]) by {
                assert(lex_lt(a[i + 1], a[j + 1]));
            }
        }
        assert(strictly_sorted(bt)) by {
            assert forall|i: int, j: int| 0 <= i < j < bt.len() implies lex_lt(bt[i], bt[j]) by {
                assert(lex_lt(b[i + 1], b[j + 1]));
            }
        }
        assert(at.to_set() =~= bt.to_set()) by {
            assert forall|x: Seq<char>| at.to_set().contains(x) <==> bt.to_set().contains(x) by {
                lemma_tail_membership(a, x);
                lemma_tail_membership(b, x);
                assert(a.to_set().contains(x) == b.to_set().contains(x));
            }
        }
        lemma_canonical_unique(at, bt);
        assert(a =~= seq![a[0]] + at);
        assert(b =~= seq![b[0]] + bt);
    }
}

/// In a strictly sorted sequence, the tail holds exactly the elements other
/// than the head.
proof fn lemma_tail_membership(s: Seq<Seq<char>>, x: Seq<char>)
    requires
        strictly_sorted(s),
        s.len() > 0,
    ensures
        s.drop_first().to_set().contains(x) <==> (s.to_set().contains(x) && x != s[0]),
{
    let t = s.drop_first();
    if t.contains(x) {
        let j = choose|j: int| 0 <= j < t.len() && t[j] == x;
        assert(s[j + 1] == x);
        assert(lex_lt(s[0], s[j + 1]));
        lemma_lex_irreflexive(s[0]);
        assert(s.contains(x));
    }
    if s.contains(x) && x != s[0] {
        let j = choose|j: int| 0 <= j < s.len() && s[j] == x;
        assert(t[j - 1] == x);
        assert(t.contains(x));
    }
}

/// The canonical form is strictly sorted and has the elements of the input,
/// whenever some strictly sorted sequence has them.
pub proof fn lemma_normalized_is(q: Seq<Seq<char>>, r: Seq<Seq<char>>)
    requires
        strictly_sorted(r),
        r.to_set() == q.to_set(),
    ensures
        normalized(q) == r,
{
    let n = normalized(q);
    assert(strictly_sorted(n) && n.to_set() == q.to_set());
    lemma_canonical_unique(n, r);
}

/// Every sequence has a canonical form: `normalized` is strictly sorted and
/// holds the elements of its argument.
pub proof fn lemma_normalized(q: Seq<Seq<char>>)
    ensures
        strictly_sorted(normalized(q)),
        normalized(q).to_set() == q.to_set(),
{
    let r = canonical_witness(q);
    assert(strictly_sorted(r) && r.to_set() == q.to_set());
}

/// A canonical form is its own canonical form.
pub proof fn lemma_normalized_idempotent(q: Seq<Seq<char>>)
    ensures
        normalized(normalized(q)) == normalized(q),
{
    lemma_normalized(q);
    let n = normalized(q);
    lemma_normalized_is(n, n);
}

/// Sequences with the same elements have the same canonical form, whatever
/// their order and however often an element repeats.
pub proof fn lemma_normalized_by_elements(p: Seq<Seq<char>>, q: Seq<Seq<char>>)
    requires
        p.to_set() == q.to_set(),
    ensures
        normalized(p) == normalized(q),
{
    lemma_normalized(p);
    lemma_normalized_is(q, normalized(p));
}

proof fn canonical_witness(q: Seq<Seq<char>>) -> (r: Seq<Seq<char>>)
    ensures
        strictly_sorted(r),
        r.to_set() == q.to_set(),
    decreases q.len(),
{
    if q.len() == 0 {
        q
    } else {
        let front = canonical_witness(q.drop_last());
        let r = insert_witness(front, q.last());
        q.drop_last().lemma_push_to_set_commute(q.last());
        assert(q.drop_last().push(q.last()) =~= q);
        r
    }
}

proof fn insert_witness(s: Seq<Seq<char>>, x: Seq<char>) -> (r: Seq<Seq<char>>)
    requires
        strictly_sorted(s),
    ensures
        strictly_sorted(r),
        r.to_set() == s.to_set().insert(x),
    decreases s.len(),
{
    if s.len() == 0 {
        lemma_insert_keeps_sorted(s, 0, x);
        s.insert(0, x)
    } else if s.last() == x {
        assert(s.contains(x));
        assert(s.to_set().insert(x) =~= s.to_set());
        s
    } else if lex_lt(s.last(), x) {
        assert forall|j: int| 0 <= j < s.len() implies lex_lt(#[trigger] s[j], x) by {
            if j < s.len() - 1 {
                assert(lex_lt(s[j], s[s.len() - 1]));
                lemma_lex_transitive(s[j], s.last(), x);
            }
        }
        lemma_insert_keeps_sorted(s, s.len() as int, x);
        s.insert(s.len() as int, x)
    } else {
        lemma_lex_total(s.last(), x);
        let front = s.drop_last();
        assert(strictly_sorted(front)) by {
            assert forall|i: int, j: int| 0 <= i < j < front.len() implies lex_lt(
                front[i],
                front[j],
            ) by {
                assert(lex_lt(s[i], s[j]));
            }
        }
        let r0 = insert_witness(front, x);
        assert forall|j: int| 0 <= j < r0.len() implies lex_lt(#[trigger] r0[j], s.last()) by {
            assert(r0.contains(r0[j]));
            assert(r0.to_set().contains(r0[j]));
            if r0[j] != x {
                assert(front.contains(r0[j]));
                let t = choose|t: int| 0 <= t < front.len() && front[t] == r0[j];
                assert(lex_lt(s[t], s[s.len() - 1]));
            }
        }
        lemma_insert_keeps_sorted(r0, r0.len() as int, s.last());
        front.lemma_push_to_set_commute(s.last());
        assert(front.push(s.last()) =~= s);
        let r = r0.insert(r0.len() as int, s.last());
        assert(r.to_set() =~= s.to_set().insert(x));
        r
    }
}

/// Inserting `x` at `p` keeps a sequence strictly sorted when everything
/// before `p` is below `x` and everything from `p` on is above it.
proof fn lemma_insert_keeps_sorted(s: Seq<Seq<char>>, p: int, x: Seq<char>)
    requires
        strictly_sorted(s),
        0 <= p <= s.len(),
        forall|j: int| 0 <= j < p ==> lex_lt(#[trigger] s[j], x),
        forall|j: int| p <= j < s.len() ==> lex_lt(x, #[trigger] s[j]),
    ensures
        strictly_sorted(s.insert(p, x)),
        s.insert(p, x).to_set() == s.to_set().insert(x),
{
    let t = s.insert(p, x);
    assert forall|i: int, j: int| 0 <= i < j < t.len() implies lex_lt(t[i], t[j]) by {
        if i < p {
            assert(t[i] == s[i]);
        } else if i > p {
            assert(t[i] == s[i - 1]);
        }
        if j < p {
            assert(t[j] == s[j]);
        } else if j > p {
            assert(t[j] == s[j - 1]);
        }
    }
    assert(t.to_set() =~= s.to_set().insert(x)) by {
        assert forall|y: Seq<char>| t.to_set().contains(y) <==> s.to_set().insert(x).contains(
            y,
        ) by {
            if t.contains(y) {
                let j = choose|j: int| 0 <= j < t.len() && t[j] == y;
                if j < p {
                    assert(s[j] == y);
                    assert(s.contains(y));
                } else if j > p {
                    assert(s[j - 1] == y);
                    assert(s.contains(y));
                }
            }
            if s.contains(y) {
                let j = choose|j: int| 0 <= j < s.len() && s[j] == y;
                if j < p {
                    assert(t[j] == y);
                } else {
                    assert(t[j + 1] == y);
                }
                assert(t.contains(y));
            }
            if y == x {
                assert(t[p] == y);
                assert(t.contains(y));
            }
        }
    }
}

/// Sorts `query` and removes repeated names.
pub fn normalize(query: Vec<String>) -> (out: Vec<String>)
    ensures
        texts(out@) == normalized(texts(query@)),
        strictly_sorted(texts(out@)),
        texts(out@).to_set() == texts(query@).to_set(),
{
    let mut out: Vec<String> = Vec::new();
    let mut query = query;
    let ghost all = texts(query@);
    let ghost mut done: Seq<Seq<char>> = Seq::empty();
    assert(texts(out@) =~= Seq::<Seq<char>>::empty());
    assert(done.to_set() =~= texts(out@).to_set());
    while query.len() > 0
        invariant
            strictly_sorted(texts(out@)),
            texts(out@).to_set() == done.to_set(),
            texts(query@) + done.reverse() == all,
        decreases query.len(),
    {
        let ghost before = texts(query@);
        let x = query.pop().unwrap();
        proof {
            assert(texts(query@) =~= before.drop_last());
            assert(x@ == before.last());
            let done2 = done.push(x@);
            assert(done2.reverse() =~= seq![x@] + done.reverse());
            assert(texts(query@) + done2.reverse() =~= all);
            done.lemma_push_to_set_commute(x@);
            done = done2;
        }
        let mut p: usize = 0;
        while p < out.len() && str_lt(out[p].as_str(), x.as_str())
            invariant
                p <= out.len(),
                forall|j: int| 0 <= j < p ==> lex_lt(#[trigger] texts(out@)[j], x@),
            decreases out.len() - p,
        {
            p += 1;
        }
        let ghost s = texts(out@);
        if p < out.len() && out[p] == x {
            proof {
                assert(s[p as int] == x@);
                assert(s.contains(x@));
                assert(s.to_set().insert(x@) =~= s.to_set());
            }
        } else {
            proof {
                assert forall|j: int| p <= j < s.len() implies lex_lt(x@, #[trigger] s[j]) by {
                    lemma_lex_total(s[p as int], x@);
                    if j > p {
                        assert(lex_lt(s[p as int], s[j]));
                        lemma_lex_transitive(x@, s[p as int], s[j]);
                    }
                }
                lemma_insert_keeps_sorted(s, p as int, x@);
            }
            out.insert(p, x);
            assert(texts(out@) =~= s.insert(p as int, x@));
        }
    }
    proof {
        assert(texts(query@) =~= Seq::<Seq<char>>::empty());
        assert(done.reverse() =~= all);
        assert(done.reverse().to_set() =~= done.to_set()) by {
            assert forall|y: Seq<char>| done.reverse().contains(y) <==> done.contains(y) by {
                if done.reverse().contains(y) {
                    let j = choose|j: int| 0 <= j < done.reverse().len() && done.reverse()[j] == y;
                    assert(done[done.len() - 1 - j] == y);
                }
                if done.contains(y) {
                    let j = choose|j: int| 0 <= j < done.len() && done[j] == y;
                    assert(done.reverse()[done.len() - 1 - j] == y);
                }
            }
        }
        lemma_normalized_is(all, texts(out@));
    }
    out
}

} // verus!
