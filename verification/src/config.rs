//! Reading the configuration file: its first line names the folder to back up,
//! and the words on the following lines are the file extensions to copy (all
//! files when there are none). The file is given as its lines, in order, each
//! `None` when it could not be read as text (such a line is skipped).

use vstd::prelude::*;

use crate::text::{
    all_ws, is_blank, is_ws, lemma_split_words_meaning, lemma_word_end_bounds, non_ws_chars,
    split_whitespace, split_words, string_views, trim_end, trim_end_str, word_end, words_from,
};

verus! {

/// The source folder named by the first line of the configuration: the line
/// without its trailing whitespace; `None` when the line holds only whitespace.
pub fn parse_source_line(line: &str) -> (r: Option<String>)
    ensures
        match r {
            Some(s) => !all_ws(line@) && s@ == trim_end(line@),
            None => all_ws(line@),
        },
{
    if is_blank(line) {
        None
    } else {
        Some(trim_end_str(line))
    }
}

/// The source folder named by a configuration file with the lines `lines`:
/// `None` when the file is empty, its first line unreadable or blank.
pub open spec fn config_source(lines: Seq<Option<String>>) -> Option<Seq<char>> {
    if lines.len() == 0 {
        None
    } else {
        match lines[0] {
            None => None,
            Some(l) => if all_ws(l@) {
                None
            } else {
                Some(trim_end(l@))
            },
        }
    }
}

/// The source folder named by the configuration file with the lines `lines`.
pub fn source_from_config(lines: &Vec<Option<String>>) -> (r: Option<String>)
    ensures
        match r {
            Some(s) => config_source(lines@) == Some(s@),
            None => config_source(lines@) is None,
        },
{
    if lines.len() == 0 {
        return None;
    }
    match &lines[0] {
        Some(l) => parse_source_line(l.as_str()),
        None => None,
    }
}

/// The readable lines among `lines`, in order.
pub open spec fn readable_lines(lines: Seq<Option<String>>) -> Seq<Seq<char>>
    decreases lines.len(),
{
    if lines.len() == 0 {
        seq![]
    } else {
        readable_lines(lines.drop_last()) + match lines.last() {
            Some(l) => seq![l@],
            None => seq![],
        }
    }
}

/// The extensions listed in the configuration file with the lines `lines`:
/// the words of its readable lines after the first.
pub open spec fn config_extensions(lines: Seq<Option<String>>) -> Seq<Seq<char>> {
    if lines.len() == 0 {
        seq![]
    } else {
        extensions_of(readable_lines(lines.skip(1)))
    }
}

/// The extensions listed in the configuration file with the lines `lines`.
pub fn extensions_from_config(lines: &Vec<Option<String>>) -> (r: Vec<String>)
    ensures
        string_views(r@) == config_extensions(lines@),
{
    let mut readable: Vec<String> = Vec::new();
    let mut i: usize = 1;
    if lines.len() == 0 {
        assert(string_views(readable@) =~= Seq::<Seq<char>>::empty());
        return extensions_from_lines(&readable);
    }
    assert(lines@.skip(1).take(0) =~= Seq::<Option<String>>::empty());
    assert(string_views(readable@) =~= readable_lines(lines@.skip(1).take(0)));
    while i < lines.len()
        invariant
            1 <= i <= lines@.len(),
            string_views(readable@) == readable_lines(lines@.skip(1).take(i - 1)),
        decreases lines.len() - i,
    {
        let ghost before = string_views(readable@);
        assert(lines@.skip(1).take(i as int).drop_last() =~= lines@.skip(1).take(i - 1));
        assert(lines@.skip(1).take(i as int).last() == lines@[i as int]);
        match &lines[i] {
            Some(l) => {
                readable.push(l.clone());
                assert(string_views(readable@) =~= before + seq![l@]);
            },
            None => {
                assert(before + seq![] =~= before);
            },
        }
        i = i + 1;
    }
    assert(lines@.skip(1).take(i - 1) =~= lines@.skip(1));
    extensions_from_lines(&readable)
}

/// The extensions listed on `lines`: the words of each line, line after line.
pub open spec fn extensions_of(lines: Seq<Seq<char>>) -> Seq<Seq<char>>
    decreases lines.len(),
{
    if lines.len() == 0 {
        seq![]
    } else {
        extensions_of(lines.drop_last()) + split_words(lines.last())
    }
}

/// The words of each line, line by line.
pub open spec fn words_per_line(lines: Seq<Seq<char>>) -> Seq<Seq<Seq<char>>> {
    lines.map_values(|l: Seq<char>| split_words(l))
}

/// The non-whitespace characters of each line, line by line.
pub open spec fn non_ws_per_line(lines: Seq<Seq<char>>) -> Seq<Seq<char>> {
    lines.map_values(|l: Seq<char>| non_ws_chars(l))
}

/// The extensions are all the words of all the lines, line after line and in
/// order within each line; so, put end to end, they are exactly the
/// non-whitespace characters of the lines, in order: no word is dropped and
/// nothing is added.
pub proof fn lemma_extensions_are_all_words(lines: Seq<Seq<char>>)
    ensures
        extensions_of(lines) == words_per_line(lines).flatten(),
        extensions_of(lines).flatten() == non_ws_per_line(lines).flatten(),
    decreases lines.len(),
{
    broadcast use vstd::seq_lib::group_seq_properties;

    if lines.len() == 0 {
        assert(words_per_line(lines) =~= Seq::<Seq<Seq<char>>>::empty());
        assert(non_ws_per_line(lines) =~= Seq::<Seq<char>>::empty());
    } else {
        let prev = lines.drop_last();
        lemma_extensions_are_all_words(prev);
        lemma_split_words_meaning(lines.last());
        assert(words_per_line(lines) =~= words_per_line(prev).push(split_words(lines.last())));
        assert(non_ws_per_line(lines) =~= non_ws_per_line(prev).push(non_ws_chars(lines.last())));
        words_per_line(prev).lemma_flatten_push(split_words(lines.last()));
        non_ws_per_line(prev).lemma_flatten_push(non_ws_chars(lines.last()));
        vstd::seq_lib::lemma_flatten_concat(extensions_of(prev), split_words(lines.last()));
    }
}

/// The extensions listed on the configuration lines after the first.
pub fn extensions_from_lines(lines: &Vec<String>) -> (r: Vec<String>)
    ensures
        string_views(r@) == extensions_of(string_views(lines@)),
        string_views(r@) == words_per_line(string_views(lines@)).flatten(),
        string_views(r@).flatten() == non_ws_per_line(string_views(lines@)).flatten(),
{
    proof {
        lemma_extensions_are_all_words(string_views(lines@));
    }
    let mut out: Vec<String> = Vec::new();
    let mut i: usize = 0;
    while i < lines.len()
        invariant
            i <= lines@.len(),
            string_views(out@) == extensions_of(string_views(lines@.take(i as int))),
        decreases lines.len() - i,
    {
        let mut words = split_whitespace(lines[i].as_str());
        let ghost before = string_views(out@);
        let ghost ws = string_views(words@);
        out.append(&mut words);
        assert(string_views(out@) =~= before + ws);
        assert(string_views(lines@.take(i + 1)).drop_last() =~= string_views(lines@.take(i as int)));
        i = i + 1;
    }
    assert(lines@.take(i as int) =~= lines@);
    out
}

/// A listed word: not empty, and free of whitespace.
pub open spec fn is_word(w: Seq<char>) -> bool {
    &&& w.len() > 0
    &&& forall|k: int| 0 <= k < w.len() ==> !is_ws(#[trigger] w[k])
}

pub proof fn lemma_words_from_are_words(s: Seq<char>, i: int)
    requires
        0 <= i <= s.len(),
    ensures
        forall|k: int| 0 <= k < words_from(s, i).len() ==> is_word(#[trigger] words_from(s, i)[k]),
    decreases s.len() - i,
{
    if i < s.len() {
        if is_ws(s[i]) {
            lemma_words_from_are_words(s, i + 1);
            assert(words_from(s, i) == words_from(s, i + 1));
        } else {
            lemma_word_end_bounds(s, i);
            let e = word_end(s, i);
            lemma_words_from_are_words(s, e);
            let w = s.subrange(i, e);
            assert forall|k: int| 0 <= k < w.len() implies !is_ws(#[trigger] w[k]) by {
                assert(w[k] == s[i + k]);
            }
            let rest = words_from(s, e);
            assert(words_from(s, i) == seq![w] + rest);
            assert forall|k: int| 0 <= k < words_from(s, i).len() implies is_word(
                #[trigger] words_from(s, i)[k],
            ) by {
                if k > 0 {
                    assert(words_from(s, i)[k] == rest[k - 1]);
                } else {
                    assert(words_from(s, i)[k] == w);
                    assert(is_word(w));
                }
            }
        }
    }
}

/// Every extension read from the configuration is a non-empty word without
/// whitespace.
pub proof fn lemma_extensions_are_words(lines: Seq<Seq<char>>)
    ensures
        forall|k: int|
            0 <= k < extensions_of(lines).len() ==> is_word(#[trigger] extensions_of(lines)[k]),
    decreases lines.len(),
{
    if lines.len() > 0 {
        lemma_extensions_are_words(lines.drop_last());
        lemma_words_from_are_words(lines.last(), 0);
        let a = extensions_of(lines.drop_last());
        let b = split_words(lines.last());
        assert forall|k: int| 0 <= k < extensions_of(lines).len() implies is_word(
            #[trigger] extensions_of(lines)[k],
        ) by {
            if k < a.len() {
                assert(extensions_of(lines)[k] == a[k]);
            } else {
                assert(extensions_of(lines)[k] == b[k - a.len()]);
            }
        }
    }
}


pub open spec fn quoted(e: Seq<char>) -> Seq<char> {
    seq!['\''] + e + seq!['\'']
}

/// The extensions, each in single quotes, separated by `", "`.
pub open spec fn quoted_list(exts: Seq<Seq<char>>) -> Seq<char>
    decreases exts.len(),
{
    if exts.len() == 0 {
        seq![]
    } else if exts.len() == 1 {
        quoted(exts[0])
    } else {
        quoted_list(exts.drop_last()) + seq![',', ' '] + quoted(exts.last())
    }
}

/// The extensions, each in single quotes, separated by `", "`, as the tool
/// reports them.
pub fn quoted_extension_list(exts: &Vec<String>) -> (r: String)
    ensures
        r@ == quoted_list(string_views(exts@)),
{
    let quote = "'";
    let separator = ", ";
    proof {
        reveal_strlit("'");
        reveal_strlit(", ");
    }
    assert(quote@ =~= seq!['\'']);
    assert(separator@ =~= seq![',', ' ']);
    let mut r = String::new();
    let mut i: usize = 0;
    while i < exts.len()
        invariant
            i <= exts@.len(),
            quote@ == seq!['\''],
            separator@ == seq![',', ' '],
            r@ == quoted_list(string_views(exts@.take(i as int))),
        decreases exts.len() - i,
    {
        let ghost before = r@;
        assert(string_views(exts@.take(i + 1)).drop_last() =~= string_views(exts@.take(i as int)));
        if i > 0 {
            r.append(separator);
        }
        r.append(quote);
        r.append(exts[i].as_str());
        r.append(quote);
        if i == 0 {
            assert(r@ =~= quoted(exts@[0]@));
        } else {
            assert(r@ =~= before + seq![',', ' '] + quoted(exts@[i as int]@));
        }
        i = i + 1;
    }
    assert(exts@.take(i as int) =~= exts@);
    r
}

/// The description of the backup mode: every file when no extension is listed,
/// only some file types otherwise.
pub fn backup_mode(exts: &Vec<String>) -> (r: &'static str)
    ensures
        exts@.len() == 0 ==> r@ == "tutti i file"@,
        exts@.len() > 0 ==> r@ == "solo file di determinati tipi"@,
{
    if exts.len() == 0 {
        "tutti i file"
    } else {
        "solo file di determinati tipi"
    }
}

} // verus!
