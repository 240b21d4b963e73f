//! How many words of a parsed quiz are keywords.
use vstd::prelude::*;
use crate::text;
use crate::text::{contains_string, split_lines, split_whitespace};

verus! {

/// What `str::to_lowercase` returns for `s`: its Unicode lower-case mapping.
pub uninterp spec fn lowercased(s: Seq<char>) -> Seq<char>;

/// Lower-cases `s` with `str::to_lowercase`. Claimed of std: the result
/// depends on the characters of `s` alone (the mapping is Unicode's, with no
/// locale). Which characters it holds is not stated: it is named.
#[verifier::external_body]
fn to_lowercase(s: &str) -> (r: String)
    ensures
        r@ == lowercased(s@),
{
    s.to_lowercase()
}

/// The lower-cased versions of `v`.
pub open spec fn all_lowercased(v: Seq<Seq<char>>) -> Seq<Seq<char>> {
    Seq::new(v.len(), |i: int| lowercased(v[i]))
}

/// The keywords of a keyword file: its lines, lower-cased.
pub open spec fn keyword_list(keywords: Seq<char>) -> Seq<Seq<char>> {
    all_lowercased(text::text_lines(keywords))
}

/// How many of the words `ws`, lower-cased, are among `known`.
pub open spec fn count_lowercase_known(ws: Seq<Seq<char>>, known: Seq<Seq<char>>) -> nat
    decreases ws.len(),
{
    if ws.len() == 0 {
        0
    } else {
        count_lowercase_known(ws.drop_last(), known) + if known.contains(lowercased(ws.last())) {
            1nat
        } else {
            0nat
        }
    }
}

/// The words of a text and those of them that are keywords.
#[derive(Debug, Clone, Copy, PartialEq, Eq)]
pub struct KeywordMatches {
    pub total_words: usize,
    pub matching_words: usize,
}

fn lowercase_all(v: &Vec<String>) -> (r: Vec<String>)
    ensures
        text::string_views(r@) == all_lowercased(text::string_views(v@)),
{
    let mut r: Vec<String> = Vec::new();
    let mut i: usize = 0;
    while i < v.len()
        invariant
            i <= v@.len(),
            r@.len() == i,
            forall|j: int| 0 <= j < i ==> #[trigger] r@[j]@ == lowercased(v@[j]@),
        decreases v@.len() - i,
    {
        r.push(to_lowercase(v[i].as_str()));
        i = i + 1;
    }
    assert(text::string_views(r@) =~= all_lowercased(text::string_views(v@)));
    r
}

/// Counts the whitespace-separated words of `content` and those whose
/// lower-cased form is one of the lines of `keywords`, lower-cased. (A line
/// break is whitespace, so the words of a text are those of its lines.)
pub fn keyword_matches(content: &str, keywords: &str) -> (r: KeywordMatches)
    ensures
        r.total_words == text::words(content@).len(),
        r.matching_words == count_lowercase_known(text::words(content@), keyword_list(keywords@)),
{
    let keys = lowercase_all(&split_lines(keywords));
    let ws = split_whitespace(content);
    let ghost w = text::string_views(ws@);
    let mut matching: usize = 0;
    let mut i: usize = 0;
    assert(w.take(0) =~= Seq::<Seq<char>>::empty());
    while i < ws.len()
        invariant
            i <= ws@.len(),
            w == text::string_views(ws@),
            text::string_views(keys@) == keyword_list(keywords@),
            matching <= i,
            matching == count_lowercase_known(w.take(i as int), keyword_list(keywords@)),
        decreases ws@.len() - i,
    {
        assert(w.take(i + 1).drop_last() =~= w.take(i as int));
        assert(w.take(i + 1).last() == ws@[i as int]@);
        let lower = to_lowercase(ws[i].as_str());
        if contains_string(&keys, lower.as_str()) {
            matching = matching + 1;
        }
        i = i + 1;
    }
    assert(w.take(w.len() as int) =~= w);
    KeywordMatches { total_words: ws.len(), matching_words: matching }
}

/// Keyword matching ignores the case of the keyword file: two keyword files
/// whose lines agree once lower-cased give the same keywords, so every text
/// has the same number of keyword words against either.
pub proof fn law_keywords_ignore_case(k1: Seq<char>, k2: Seq<char>, content: Seq<char>)
    requires
        text::text_lines(k1).len() == text::text_lines(k2).len(),
        forall|i: int|
            0 <= i < text::text_lines(k1).len() ==> lowercased(#[trigger] text::text_lines(k1)[i])
                == lowercased(text::text_lines(k2)[i]),
    ensures
        keyword_list(k1) == keyword_list(k2),
        count_lowercase_known(text::words(content), keyword_list(k1)) == count_lowercase_known(
            text::words(content),
            keyword_list(k2),
        ),
{
    assert(keyword_list(k1) =~= keyword_list(k2));
}

} // verus!
