//! Character-level helpers: Unicode whitespace, trimming and splitting into words.

use vstd::prelude::*;

verus! {

/// The characters with the Unicode `White_Space` property, which is what
/// `char::is_whitespace` tests.
pub open spec fn is_ws(c: char) -> bool {
    ||| ('\u{9}' <= c && c <= '\u{d}')
    ||| c == ' '
    ||| c == '\u{85}'
    ||| c == '\u{a0}'
    ||| c == '\u{1680}'
    ||| ('\u{2000}' <= c && c <= '\u{200a}')
    ||| c == '\u{2028}'
    ||| c == '\u{2029}'
    ||| c == '\u{202f}'
    ||| c == '\u{205f}'
    ||| c == '\u{3000}'
}

/// Tests whether `c` is a Unicode whitespace character.
pub fn is_whitespace(c: char) -> (r: bool)
    ensures
        r == is_ws(c),
{
    ('\u{9}' <= c && c <= '\u{d}') || c == ' ' || c == '\u{85}' || c == '\u{a0}' || c == '\u{1680}'
        || ('\u{2000}' <= c && c <= '\u{200a}') || c == '\u{2028}' || c == '\u{2029}' || c
        == '\u{202f}' || c == '\u{205f}' || c == '\u{3000}'
}

/// The characters of `s`, one per element.
pub fn chars_of(s: &str) -> (v: Vec<char>)
    ensures
        v@ == s@,
{
    let mut v: Vec<char> = Vec::new();
    for c in it: s.chars()
        invariant
            v@ == it.seq().take(it.index() as int),
            it.seq() == s@,
    {
        v.push(c);
    }
    v
}


/// The views of a sequence of strings.
pub open spec fn string_views(v: Seq<String>) -> Seq<Seq<char>> {
    v.map_values(|w: String| w@)
}

/// `s` with its trailing whitespace removed.
pub open spec fn trim_end(s: Seq<char>) -> Seq<char>
    decreases s.len(),
{
    if s.len() > 0 && is_ws(s.last()) {
        trim_end(s.drop_last())
    } else {
        s
    }
}

/// Every character of `s` is whitespace (so trimming `s` leaves nothing).
pub open spec fn all_ws(s: Seq<char>) -> bool {
    forall|k: int| 0 <= k < s.len() ==> is_ws(#[trigger] s[k])
}

/// The end of the run of non-whitespace characters that starts at `i`.
pub open spec fn word_end(s: Seq<char>, i: int) -> int
    decreases s.len() - i,
{
    if i < 0 || i >= s.len() || is_ws(s[i]) {
        i
    } else {
        word_end(s, i + 1)
    }
}

pub proof fn lemma_word_end_bounds(s: Seq<char>, i: int)
    requires
        0 <= i <= s.len(),
    ensures
        i <= word_end(s, i) <= s.len(),
        i < s.len() && !is_ws(s[i]) ==> word_end(s, i) > i,
        forall|k: int| i <= k < word_end(s, i) ==> !is_ws(#[trigger] s[k]),
        word_end(s, i) < s.len() ==> is_ws(s[word_end(s, i)]),
    decreases s.len() - i,
{
    if i < s.len() && !is_ws(s[i]) {
        lemma_word_end_bounds(s, i + 1);
    }
}

/// The words of `s` from position `i` on: the maximal runs of non-whitespace
/// characters, in order.
pub open spec fn words_from(s: Seq<char>, i: int) -> Seq<Seq<char>>
    decreases s.len() - i,
{
    if i < 0 || i >= s.len() {
        seq![]
    } else if is_ws(s[i]) {
        words_from(s, i + 1)
    } else {
        proof {
            lemma_word_end_bounds(s, i);
        }
        seq![s.subrange(i, word_end(s, i))] + words_from(s, word_end(s, i))
    }
}

/// The words of `s`, as `str::split_whitespace` yields them.
pub open spec fn split_words(s: Seq<char>) -> Seq<Seq<char>> {
    words_from(s, 0)
}

/// The characters of `s` that are not whitespace, in order.
pub open spec fn non_ws_chars(s: Seq<char>) -> Seq<char> {
    s.filter(|c: char| !is_ws(c))
}

proof fn lemma_non_ws_chars_of_word(w: Seq<char>)
    requires
        forall|k: int| 0 <= k < w.len() ==> !is_ws(#[trigger] w[k]),
    ensures
        non_ws_chars(w) == w,
    decreases w.len(),
{
    reveal(Seq::filter);
    if w.len() > 0 {
        lemma_non_ws_chars_of_word(w.drop_last());
        assert(w.drop_last().push(w.last()) =~= w);
    }
}

proof fn lemma_words_from_flatten(s: Seq<char>, i: int)
    requires
        0 <= i <= s.len(),
    ensures
        words_from(s, i).flatten() == non_ws_chars(s.subrange(i, s.len() as int)),
    decreases s.len() - i,
{
    broadcast use vstd::seq_lib::group_seq_properties;

    let p = |c: char| !is_ws(c);
    if i == s.len() {
        reveal(Seq::filter);
        assert(s.subrange(i, s.len() as int) =~= Seq::<char>::empty());
    } else if is_ws(s[i]) {
        lemma_words_from_flatten(s, i + 1);
        assert(s.subrange(i, s.len() as int) =~= seq![s[i]] + s.subrange(i + 1, s.len() as int));
        s.subrange(i + 1, s.len() as int).lemma_filter_prepend(s[i], p);
    } else {
        lemma_word_end_bounds(s, i);
        let e = word_end(s, i);
        let w = s.subrange(i, e);
        lemma_words_from_flatten(s, e);
        assert forall|k: int| 0 <= k < w.len() implies !is_ws(#[trigger] w[k]) by {
            assert(w[k] == s[i + k]);
        }
        lemma_non_ws_chars_of_word(w);
        let rest = s.subrange(e, s.len() as int);
        assert(s.subrange(i, s.len() as int) =~= w + rest);
        Seq::filter_distributes_over_add(w, rest, p);
        let ws = words_from(s, i);
        assert(ws == seq![w] + words_from(s, e));
        assert(ws.first() == w);
        assert(ws.drop_first() =~= words_from(s, e));
    }
}

/// A word of `s` as it stands in `s`: at position `i`, with whitespace or the
/// end of `s` on both sides.
pub open spec fn is_maximal_run_at(s: Seq<char>, w: Seq<char>, i: int) -> bool {
    &&& 0 <= i
    &&& i + w.len() <= s.len()
    &&& s.subrange(i, i + w.len()) == w
    &&& (i == 0 || is_ws(s[i - 1]))
    &&& (i + w.len() == s.len() || is_ws(s[i + w.len()]))
}

/// `w` stands somewhere in `s` between whitespace or the ends of `s`.
pub open spec fn occurs_as_run(s: Seq<char>, w: Seq<char>) -> bool {
    exists|j: int| is_maximal_run_at(s, w, j)
}

proof fn lemma_words_from_are_runs(s: Seq<char>, i: int)
    requires
        0 <= i <= s.len(),
        i == 0 || is_ws(s[i - 1]),
    ensures
        forall|k: int|
            0 <= k < words_from(s, i).len() ==> occurs_as_run(s, #[trigger] words_from(s, i)[k]),
    decreases s.len() - i,
{
    if i < s.len() {
        if is_ws(s[i]) {
            lemma_words_from_are_runs(s, i + 1);
            assert(words_from(s, i) == words_from(s, i + 1));
            assert forall|k: int| 0 <= k < words_from(s, i).len() implies occurs_as_run(s, #[trigger] words_from(s, i)[k]) by {
                assert(words_from(s, i)[k] == words_from(s, i + 1)[k]);
            }
        } else {
            lemma_word_end_bounds(s, i);
            let e = word_end(s, i);
            let w = s.subrange(i, e);
            assert(is_maximal_run_at(s, w, i));
            let rest = words_from(s, e);
            if e < s.len() {
                assert(words_from(s, e) == words_from(s, e + 1));
                lemma_words_from_are_runs(s, e + 1);
            }
            assert(words_from(s, i) == seq![w] + rest);
            assert forall|k: int| 0 <= k < words_from(s, i).len() implies occurs_as_run(s, #[trigger] words_from(s, i)[k]) by {
                if k == 0 {
                    assert(words_from(s, i)[k] == w);
                } else {
                    assert(words_from(s, i)[k] == rest[k - 1]);
                    assert(words_from(s, e + 1)[k - 1] == rest[k - 1]);
                }
            }
        }
    }
}

/// The words of `s` are its maximal runs of non-whitespace characters: each
/// stands in `s` between whitespace (or the ends of `s`), and together, in
/// order, they hold every non-whitespace character of `s` and nothing else.
pub proof fn lemma_split_words_meaning(s: Seq<char>)
    ensures
        split_words(s).flatten() == non_ws_chars(s),
        forall|k: int|
            0 <= k < split_words(s).len() ==> occurs_as_run(s, #[trigger] split_words(s)[k]),
        forall|k: int|
            0 <= k < split_words(s).len() ==> (#[trigger] split_words(s)[k]).len() > 0,
{
    lemma_words_from_flatten(s, 0);
    assert(s.subrange(0, s.len() as int) =~= s);
    lemma_words_from_are_runs(s, 0);
    lemma_words_nonempty(s, 0);
    assert forall|k: int| 0 <= k < split_words(s).len() implies occurs_as_run(s, #[trigger] split_words(s)[k]) by {
        assert(split_words(s)[k] == words_from(s, 0)[k]);
    }
    assert forall|k: int| 0 <= k < split_words(s).len() implies (
    #[trigger] split_words(s)[k]).len() > 0 by {
        assert(split_words(s)[k] == words_from(s, 0)[k]);
    }
}

proof fn lemma_words_nonempty(s: Seq<char>, i: int)
    requires
        0 <= i <= s.len(),
    ensures
        forall|k: int| 0 <= k < words_from(s, i).len() ==> (#[trigger] words_from(s, i)[k]).len() > 0,
    decreases s.len() - i,
{
    if i < s.len() {
        if is_ws(s[i]) {
            lemma_words_nonempty(s, i + 1);
            assert(words_from(s, i) == words_from(s, i + 1));
        } else {
            lemma_word_end_bounds(s, i);
            let e = word_end(s, i);
            lemma_words_nonempty(s, e);
            let rest = words_from(s, e);
            assert(words_from(s, i) == seq![s.subrange(i, e)] + rest);
            assert forall|k: int| 0 <= k < words_from(s, i).len() implies (#[trigger] words_from(
                s,
                i,
            )[k]).len() > 0 by {
                if k > 0 {
                    assert(words_from(s, i)[k] == rest[k - 1]);
                }
            }
        }
    }
}

/// `s` without its trailing whitespace (`str::trim_end`).
pub fn trim_end_str(s: &str) -> (r: String)
    ensures
        r@ == trim_end(s@),
{
    let v = chars_of(s);
    let mut k = v.len();
    assert(s@.take(k as int) =~= s@);
    while k > 0 && is_whitespace(v[k - 1])
        invariant
            k <= v@.len(),
            v@ == s@,
            trim_end(s@.take(k as int)) == trim_end(s@),
        decreases k,
    {
        assert(s@.take(k as int).drop_last() =~= s@.take(k - 1));
        k = k - 1;
    }
    assert(s@.take(k as int) =~= s@.subrange(0, k as int));
    s.substring_char(0, k).to_owned()
}

/// Tests whether `s` holds only whitespace (`s.trim().is_empty()`).
pub fn is_blank(s: &str) -> (r: bool)
    ensures
        r == all_ws(s@),
{
    let v = chars_of(s);
    let mut i: usize = 0;
    while i < v.len()
        invariant
            i <= v@.len(),
            v@ == s@,
            forall|k: int| 0 <= k < i ==> is_ws(#[trigger] s@[k]),
        decreases v.len() - i,
    {
        if !is_whitespace(v[i]) {
            return false;
        }
        i = i + 1;
    }
    true
}

/// The words of `s` (`str::split_whitespace`).
pub fn split_whitespace(s: &str) -> (r: Vec<String>)
    ensures
        string_views(r@) == split_words(s@),
        string_views(r@).flatten() == non_ws_chars(s@),
        forall|k: int|
            0 <= k < r@.len() ==> occurs_as_run(s@, #[trigger] r@[k]@),
{
    proof {
        lemma_split_words_meaning(s@);
    }
    let ghost words = split_words(s@);
    let v = chars_of(s);
    let n = v.len();
    let mut out: Vec<String> = Vec::new();
    let mut i: usize = 0;
    while i < n
        invariant
            i <= n,
            n == v@.len(),
            v@ == s@,
            string_views(out@) + words_from(s@, i as int) == split_words(s@),
        decreases n - i,
    {
        if is_whitespace(v[i]) {
            i = i + 1;
        } else {
            let mut j = i;
            while j < n && !is_whitespace(v[j])
                invariant
                    i <= j <= n,
                    n == v@.len(),
                    v@ == s@,
                    word_end(s@, i as int) == word_end(s@, j as int),
                decreases n - j,
            {
                j = j + 1;
            }
            proof {
                lemma_word_end_bounds(s@, i as int);
            }
            let w = s.substring_char(i, j).to_owned();
            let ghost before = string_views(out@);
            out.push(w);
            assert(string_views(out@) =~= before.push(s@.subrange(i as int, j as int)));
            assert(before.push(s@.subrange(i as int, j as int)) + words_from(s@, j as int)
                =~= before + words_from(s@, i as int));
            i = j;
        }
    }
    assert forall|k: int| 0 <= k < out@.len() implies occurs_as_run(s@, #[trigger] out@[k]@) by {
        assert(string_views(out@)[k] == out@[k]@);
        assert(words[k] == out@[k]@);
    }
    out
}

} // verus!
