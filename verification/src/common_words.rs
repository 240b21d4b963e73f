//! The overlap between the distinct words of a prompt and of the question
//! generated from it.
use vstd::prelude::*;
use crate::text;
use crate::text::{chars_of, contains_word, split_words};

verus! {

broadcast use {vstd::set::group_set_axioms, vstd::seq_lib::seq_to_set_is_finite};

/// The distinct whitespace-separated words of `s`.
pub open spec fn distinct_words(s: Seq<char>) -> Set<Seq<char>> {
    text::words(s).to_set()
}

fn copy_chars(v: &Vec<char>) -> (r: Vec<char>)
    ensures
        r@ == v@,
{
    let mut r: Vec<char> = Vec::new();
    let mut i: usize = 0;
    while i < v.len()
        invariant
            i <= v@.len(),
            r@ == v@.take(i as int),
        decreases v@.len() - i,
    {
        r.push(v[i]);
        assert(v@.take(i + 1) =~= v@.take(i as int).push(v@[i as int]));
        i = i + 1;
    }
    assert(v@.take(v@.len() as int) =~= v@);
    r
}

proof fn lemma_push_no_dup(s: Seq<Seq<char>>, x: Seq<char>)
    requires
        s.no_duplicates(),
        !s.contains(x),
    ensures
        s.push(x).no_duplicates(),
{
    assert forall|i: int, j: int|
        0 <= i < s.push(x).len() && 0 <= j < s.push(x).len() && i != j implies s.push(x)[i]
        != s.push(x)[j] by {
        if i < s.len() && j < s.len() {
        } else if i < s.len() {
            assert(s.contains(s[i]));
        } else {
            assert(s.contains(s[j]));
        }
    }
}

proof fn lemma_push_to_set(s: Seq<Seq<char>>, x: Seq<char>)
    ensures
        s.push(x).to_set() == s.to_set().insert(x),
{
    assert forall|y: Seq<char>| s.push(x).contains(y) <==> s.to_set().insert(x).contains(y) by {
        if s.push(x).contains(y) {
            let k = choose|k: int| 0 <= k < s.push(x).len() && s.push(x)[k] == y;
            if k < s.len() {
                assert(s.contains(y));
            }
        }
        if s.contains(y) {
            let k = choose|k: int| 0 <= k < s.len() && s[k] == y;
            assert(s.push(x)[k] == y);
        }
        if y == x {
            assert(s.push(x)[s.len() as int] == x);
        }
    }
    assert(s.push(x).to_set() =~= s.to_set().insert(x));
}

/// The distinct words among `ws`, each once.
fn distinct(ws: &Vec<Vec<char>>) -> (r: Vec<Vec<char>>)
    ensures
        text::views(r@).no_duplicates(),
        text::views(r@).to_set() == text::views(ws@).to_set(),
{
    let mut r: Vec<Vec<char>> = Vec::new();
    let mut i: usize = 0;
    assert(text::views(ws@).take(0) =~= Seq::<Seq<char>>::empty());
    assert(text::views(r@) =~= Seq::<Seq<char>>::empty());
    assert(Seq::<Seq<char>>::empty().to_set() =~= Set::<Seq<char>>::empty());
    while i < ws.len()
        invariant
            i <= ws@.len(),
            text::views(r@).no_duplicates(),
            text::views(r@).to_set() == text::views(ws@).take(i as int).to_set(),
        decreases ws@.len() - i,
    {
        let ghost before = text::views(r@);
        let x = &ws[i];
        proof {
            assert(text::views(ws@).take(i + 1) =~= text::views(ws@).take(i as int).push(x@));
            lemma_push_to_set(text::views(ws@).take(i as int), x@);
        }
        if !contains_word(&r, x) {
            r.push(copy_chars(x));
            proof {
                assert(text::views(r@) =~= before.push(x@));
                lemma_push_no_dup(before, x@);
                lemma_push_to_set(before, x@);
            }
        } else {
            assert(before.to_set().contains(x@));
            assert(before.to_set().insert(x@) =~= before.to_set());
        }
        i = i + 1;
    }
    assert(text::views(ws@).take(ws@.len() as int) =~= text::views(ws@));
    r
}

/// How many distinct words a prompt and its question share, and how many
/// distinct words the two have together.
#[derive(Debug, Clone, Copy, PartialEq, Eq)]
pub struct WordOverlap {
    pub common: usize,
    pub total_unique: usize,
}

/// The number of distinct words common to `prompt` and `question`, and the
/// number of distinct words in either; the percentage of common words is
/// the first over the second.
pub fn count_common_words(prompt: &str, question: &str) -> (r: WordOverlap)
    ensures
        r.common == distinct_words(prompt@).intersect(distinct_words(question@)).len(),
        r.total_unique == distinct_words(prompt@).union(distinct_words(question@)).len(),
{
    let pw = distinct(&split_words(&chars_of(prompt)));
    let qw = distinct(&split_words(&chars_of(question)));
    let ghost p = text::views(pw@);
    let ghost q = text::views(qw@);
    let mut common: Vec<Vec<char>> = Vec::new();
    let mut union: Vec<Vec<char>> = Vec::new();
    let mut k: usize = 0;
    while k < pw.len()
        invariant
            k <= pw@.len(),
            p == text::views(pw@),
            text::views(union@) == p.take(k as int),
        decreases pw@.len() - k,
    {
        union.push(copy_chars(&pw[k]));
        assert(p.take(k + 1) =~= p.take(k as int).push(p[k as int]));
        assert(text::views(union@) =~= p.take(k + 1));
        k = k + 1;
    }
    assert(p.take(p.len() as int) =~= p);
    let mut i: usize = 0;
    assert(q.take(0) =~= Seq::<Seq<char>>::empty());
    assert(text::views(common@) =~= Seq::<Seq<char>>::empty());
    assert(Seq::<Seq<char>>::empty().to_set() =~= Set::<Seq<char>>::empty());
    assert(p.to_set().union(Set::<Seq<char>>::empty()) =~= p.to_set());
    while i < qw.len()
        invariant
            i <= qw@.len(),
            p == text::views(pw@),
            q == text::views(qw@),
            p.no_duplicates(),
            q.no_duplicates(),
            text::views(common@).no_duplicates(),
            text::views(union@).no_duplicates(),
            text::views(common@).to_set() == q.take(i as int).to_set().intersect(p.to_set()),
            text::views(union@).to_set() == p.to_set().union(q.take(i as int).to_set()),
        decreases qw@.len() - i,
    {
        let x = &qw[i];
        let ghost c0 = text::views(common@);
        let ghost u0 = text::views(union@);
        proof {
            assert(q.take(i + 1) =~= q.take(i as int).push(x@));
            lemma_push_to_set(q.take(i as int), x@);
            assert(!q.take(i as int).contains(x@)) by {
                if q.take(i as int).contains(x@) {
                    let j = choose|j: int| 0 <= j < i && q.take(i as int)[j] == x@;
                    assert(q[j] == q[i as int]);
                }
            }
        }
        if contains_word(&pw, x) {
            common.push(copy_chars(x));
            proof {
                assert(text::views(common@) =~= c0.push(x@));
                assert(!c0.contains(x@)) by {
                    if c0.contains(x@) {
                        assert(c0.to_set().contains(x@));
                    }
                }
                lemma_push_no_dup(c0, x@);
                lemma_push_to_set(c0, x@);
                assert(p.to_set().contains(x@));
                assert(c0.push(x@).to_set() =~= q.take(i + 1).to_set().intersect(p.to_set()));
                assert(p.to_set().union(q.take(i + 1).to_set()) =~= u0.to_set());
            }
        } else {
            union.push(copy_chars(x));
            proof {
                assert(text::views(union@) =~= u0.push(x@));
                assert(!p.to_set().contains(x@));
                assert(!u0.contains(x@)) by {
                    if u0.contains(x@) {
                        assert(u0.to_set().contains(x@));
                    }
                }
                lemma_push_no_dup(u0, x@);
                lemma_push_to_set(u0, x@);
                assert(u0.push(x@).to_set() =~= p.to_set().union(q.take(i + 1).to_set()));
                assert(c0.to_set() =~= q.take(i + 1).to_set().intersect(p.to_set()));
            }
        }
        i = i + 1;
    }
    proof {
        assert(q.take(q.len() as int) =~= q);
        text::views(common@).unique_seq_to_set();
        text::views(union@).unique_seq_to_set();
        assert(q.to_set().intersect(p.to_set()) =~= p.to_set().intersect(q.to_set()));
    }
    WordOverlap { common: common.len(), total_unique: union.len() }
}

/// The overlap does not depend on which text is the prompt: common and
/// total distinct words are the same both ways round, and the common words
/// never outnumber all distinct words.
pub proof fn law_overlap_symmetric(prompt: Seq<char>, question: Seq<char>)
    ensures
        distinct_words(prompt).intersect(distinct_words(question)).len() == distinct_words(
            question,
        ).intersect(distinct_words(prompt)).len(),
        distinct_words(prompt).union(distinct_words(question)).len() == distinct_words(
            question,
        ).union(distinct_words(prompt)).len(),
        distinct_words(prompt).intersect(distinct_words(question)).len() <= distinct_words(
            prompt,
        ).union(distinct_words(question)).len(),
{
    let p = distinct_words(prompt);
    let q = distinct_words(question);
    assert(p.intersect(q) =~= q.intersect(p));
    assert(p.union(q) =~= q.union(p));
    assert(p.intersect(q).subset_of(p.union(q)));
    vstd::set_lib::lemma_len_subset(p.intersect(q), p.union(q));
}

} // verus!
