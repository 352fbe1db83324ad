//! Splitting text into fields: at white space, and at a separator character.

use vstd::prelude::*;
use vstd::string::*;
use crate::text::{chars_of, texts};

verus! {

/// The characters with the Unicode property `White_Space`.
pub open spec fn is_whitespace(c: char) -> bool {
    let n = c as int;
    ||| 0x09 <= n <= 0x0D
    ||| n == 0x20
    ||| n == 0x85
    ||| n == 0xA0
    ||| n == 0x1680
    ||| 0x2000 <= n <= 0x200A
    ||| n == 0x2028
    ||| n == 0x2029
    ||| n == 0x202F
    ||| n == 0x205F
    ||| n == 0x3000
}

/// The number of characters before the first white space of `s`.
pub open spec fn run_length(s: Seq<char>) -> int
    decreases s.len(),
{
    if s.len() == 0 || is_whitespace(s[0]) {
        0
    } else {
        1 + run_length(s.drop_first())
    }
}

/// The fields of `s`: its longest stretches without white space, in order.
pub open spec fn fields(s: Seq<char>) -> Seq<Seq<char>>
    decreases s.len(),
    via fields_terminates
{
    if s.len() == 0 {
        Seq::empty()
    } else if is_whitespace(s[0]) {
        fields(s.drop_first())
    } else {
        seq![s.take(run_length(s))] + fields(s.skip(run_length(s)))
    }
}

#[via_fn]
proof fn fields_terminates(s: Seq<char>) {
    lemma_run_length_bounds(s);
}

/// The run of a sequence stays within it.
pub proof fn lemma_run_length_bounds(s: Seq<char>)
    ensures
        0 <= run_length(s) <= s.len(),
        s.len() > 0 && !is_whitespace(s[0]) ==> run_length(s) > 0,
    decreases s.len(),
{
    if s.len() > 0 && !is_whitespace(s[0]) {
        lemma_run_length_bounds(s.drop_first());
    }
}

/// A stretch of `n` characters without white space that ends the sequence or
/// is followed by white space is the run.
pub proof fn lemma_run_length_is(s: Seq<char>, n: int)
    requires
        0 <= n <= s.len(),
        forall|k: int| 0 <= k < n ==> !is_whitespace(#[trigger] s[k]),
        n == s.len() || is_whitespace(s[n]),
    ensures
        run_length(s) == n,
    decreases n,
{
    if n > 0 {
        let t = s.drop_first();
        assert forall|k: int| 0 <= k < n - 1 implies !is_whitespace(#[trigger] t[k]) by {
            assert(t[k] == s[k + 1]);
        }
        lemma_run_length_is(t, n - 1);
    }
}

/// No field is empty, and no field holds white space.
pub proof fn lemma_fields_are_words(s: Seq<char>, i: int)
    requires
        0 <= i < fields(s).len(),
    ensures
        fields(s)[i].len() > 0,
        forall|k: int| 0 <= k < fields(s)[i].len() ==> !is_whitespace(#[trigger] fields(s)[i][k]),
    decreases s.len(),
{
    if s.len() == 0 {
    } else if is_whitespace(s[0]) {
        lemma_fields_are_words(s.drop_first(), i);
    } else {
        lemma_run_length_bounds(s);
        let n = run_length(s);
        if i == 0 {
            lemma_run_is_word(s);
        } else {
            lemma_fields_are_words(s.skip(n), i - 1);
        }
    }
}

proof fn lemma_run_is_word(s: Seq<char>)
    ensures
        forall|k: int| 0 <= k < run_length(s) ==> !is_whitespace(#[trigger] s[k]),
    decreases s.len(),
{
    if s.len() > 0 && !is_whitespace(s[0]) {
        lemma_run_is_word(s.drop_first());
        assert forall|k: int| 0 <= k < run_length(s) implies !is_whitespace(#[trigger] s[k]) by {
            lemma_run_length_bounds(s);
            if k > 0 {
                assert(s[k] == s.drop_first()[k - 1]);
            }
        }
    }
}

/// Whether `c` is white space.
pub fn is_space(c: char) -> (r: bool)
    ensures
        r == is_whitespace(c),
{
    let n: u32 = c as u32;
    (0x09 <= n && n <= 0x0D) || n == 0x20 || n == 0x85 || n == 0xA0 || n == 0x1680 || (0x2000 <= n
        && n <= 0x200A) || n == 0x2028 || n == 0x2029 || n == 0x202F || n == 0x205F || n == 0x3000
}

/// Splits `s` at white space, as `str::split_whitespace` does.
pub fn split_whitespace(s: &str) -> (out: Vec<String>)
    ensures
        texts(out@) == fields(s@),
{
    let chars = chars_of(s);
    let mut out: Vec<String> = Vec::new();
    let mut i: usize = 0;
    assert(s@.skip(0) =~= s@);
    assert(texts(out@) =~= Seq::<Seq<char>>::empty());
    while i < chars.len()
        invariant
            chars@ == s@,
            i <= chars.len(),
            texts(out@) + fields(s@.skip(i as int)) == fields(s@),
        decreases chars.len() - i,
    {
        let ghost rest = s@.skip(i as int);
        assert(rest[0] == s@[i as int]);
        if is_space(chars[i]) {
            assert(rest.drop_first() =~= s@.skip(i + 1));
            i += 1;
        } else {
            let start = i;
            while i < chars.len() && !is_space(chars[i])
                invariant
                    chars@ == s@,
                    start <= i <= chars.len(),
                    forall|k: int| start <= k < i ==> !is_whitespace(#[trigger] s@[k]),
                decreases chars.len() - i,
            {
                i += 1;
            }
            let word = s.substring_char(start, i).to_owned();
            proof {
                let n = i - start;
                assert forall|k: int| 0 <= k < n implies !is_whitespace(#[trigger] rest[k]) by {
                    assert(rest[k] == s@[start + k]);
                }
                if n < rest.len() {
                    assert(rest[n] == s@[i as int]);
                }
                lemma_run_length_is(rest, n);
                assert(rest.take(n) =~= s@.subrange(start as int, i as int));
                assert(rest.skip(n) =~= s@.skip(i as int));
                let before = texts(out@);
                assert(before.push(word@) + fields(s@.skip(i as int)) =~= before + (seq![word@]
                    + fields(s@.skip(i as int))));
            }
            let ghost before = texts(out@);
            out.push(word);
            assert(texts(out@) =~= before.push(word@));
        }
    }
    assert(s@.skip(i as int) =~= Seq::<char>::empty());
    assert(texts(out@) + Seq::<Seq<char>>::empty() =~= texts(out@));
    out
}

/// The pieces of `s` between occurrences of `sep`: one more piece than there
/// are separators, so a piece may be empty.
pub open spec fn pieces(s: Seq<char>, sep: char) -> Seq<Seq<char>>
    decreases s.len(),
{
    if s.len() == 0 {
        seq![Seq::<char>::empty()]
    } else if s.last() == sep {
        pieces(s.drop_last(), sep).push(Seq::<char>::empty())
    } else {
        let front = pieces(s.drop_last(), sep);
        front.drop_last().push(front.last().push(s.last()))
    }
}

/// There is always at least one piece.
pub proof fn lemma_pieces_nonempty(s: Seq<char>, sep: char)
    ensures
        pieces(s, sep).len() > 0,
    decreases s.len(),
{
    if s.len() > 0 {
        lemma_pieces_nonempty(s.drop_last(), sep);
    }
}

/// Splits `s` at each `sep`, as `str::split` does with a character.
pub fn split_at_char(s: &str, sep: char) -> (out: Vec<String>)
    ensures
        texts(out@) == pieces(s@, sep),
{
    let chars = chars_of(s);
    let mut out: Vec<String> = Vec::new();
    let mut start: usize = 0;
    let mut i: usize = 0;
    assert(s@.take(0) =~= Seq::<char>::empty());
    assert(s@.subrange(0, 0) =~= Seq::<char>::empty());
    assert(texts(out@).push(Seq::<char>::empty()) =~= seq![Seq::<char>::empty()]);
    while i < chars.len()
        invariant
            chars@ == s@,
            start <= i <= chars.len(),
            texts(out@).push(s@.subrange(start as int, i as int)) == pieces(
                s@.take(i as int),
                sep,
            ),
        decreases chars.len() - i,
    {
        let ghost prefix = s@.take(i as int);
        let ghost next = s@.take(i + 1);
        let ghost before = texts(out@);
        let ghost current = s@.subrange(start as int, i as int);
        proof {
            assert(next.drop_last() =~= prefix);
            assert(next.last() == s@[i as int]);
            assert(before.push(current).drop_last() =~= before);
            assert(before.push(current).last() == current);
        }
        if chars[i] == sep {
            let piece = s.substring_char(start, i).to_owned();
            out.push(piece);
            assert(texts(out@) =~= before.push(current));
            start = i + 1;
            assert(s@.subrange(start as int, i + 1) =~= Seq::<char>::empty());
        } else {
            assert(s@.subrange(start as int, i + 1) =~= current.push(s@[i as int]));
        }
        i += 1;
    }
    let ghost before = texts(out@);
    let piece = s.substring_char(start, i).to_owned();
    out.push(piece);
    assert(texts(out@) =~= before.push(s@.subrange(start as int, i as int)));
    assert(s@.take(i as int) =~= s@);
    out
}

} // verus!
