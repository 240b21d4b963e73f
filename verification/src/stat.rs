//! Word statistics of generated questions: words shared with the prompt,
//! new words, syllables and the counts behind the readability score.
use vstd::prelude::*;
use crate::text;
use crate::text::{chars_of, contains_word, is_whitespace, split_words};

verus! {

/// How many of the words `ws` (counted with repetition) are among `known`.
pub open spec fn count_known(ws: Seq<Seq<char>>, known: Seq<Seq<char>>) -> nat
    decreases ws.len(),
{
    if ws.len() == 0 {
        0
    } else {
        count_known(ws.drop_last(), known) + if known.contains(ws.last()) {
            1nat
        } else {
            0nat
        }
    }
}

/// How many of the words `ws` (counted with repetition) are not among `known`.
pub open spec fn count_unknown(ws: Seq<Seq<char>>, known: Seq<Seq<char>>) -> nat
    decreases ws.len(),
{
    if ws.len() == 0 {
        0
    } else {
        count_unknown(ws.drop_last(), known) + if known.contains(ws.last()) {
            0nat
        } else {
            1nat
        }
    }
}

/// Counts the words of `ws` that `known` holds (or, with `want` false, does not hold).
fn count_matching(ws: &Vec<Vec<char>>, known: &Vec<Vec<char>>, want: bool) -> (n: usize)
    ensures
        want ==> n == count_known(text::views(ws@), text::views(known@)),
        !want ==> n == count_unknown(text::views(ws@), text::views(known@)),
{
    let mut n: usize = 0;
    let mut i: usize = 0;
    while i < ws.len()
        invariant
            i <= ws@.len(),
            n <= i,
            want ==> n == count_known(text::views(ws@).take(i as int), text::views(known@)),
            !want ==> n == count_unknown(text::views(ws@).take(i as int), text::views(known@)),
        decreases ws@.len() - i,
    {
        assert(text::views(ws@).take(i + 1).drop_last() =~= text::views(ws@).take(i as int));
        assert(text::views(ws@).take(i + 1).last() == ws@[i as int]@);
        if contains_word(known, &ws[i]) == want {
            n = n + 1;
        }
        i = i + 1;
    }
    assert(text::views(ws@).take(ws@.len() as int) =~= text::views(ws@));
    n
}

/// The number of words of `question` (with repetition) that also occur as a
/// word of `prompt`.
pub fn count_common_words(prompt: &str, question: &str) -> (n: usize)
    ensures
        n == count_known(text::words(question@), text::words(prompt@)),
{
    let pw = split_words(&chars_of(prompt));
    let qw = split_words(&chars_of(question));
    count_matching(&qw, &pw, true)
}

/// The number of words of `question` (with repetition) that do not occur as a
/// word of `prompt`.
pub fn count_new_words(prompt: &str, question: &str) -> (n: usize)
    ensures
        n == count_unknown(text::words(question@), text::words(prompt@)),
{
    let pw = split_words(&chars_of(prompt));
    let qw = split_words(&chars_of(question));
    count_matching(&qw, &pw, false)
}

proof fn lemma_known_unknown(ws: Seq<Seq<char>>, known: Seq<Seq<char>>)
    ensures
        count_known(ws, known) + count_unknown(ws, known) == ws.len(),
    decreases ws.len(),
{
    if ws.len() > 0 {
        lemma_known_unknown(ws.drop_last(), known);
    }
}

/// Every word of a question is either a common word or a new word: the two
/// counts add up to the question's number of words.
pub proof fn law_common_plus_new_is_length(prompt: Seq<char>, question: Seq<char>)
    ensures
        count_known(text::words(question), text::words(prompt)) + count_unknown(text::words(question), text::words(prompt))
            == text::words(question).len(),
{
    lemma_known_unknown(text::words(question), text::words(prompt));
}

proof fn lemma_known_mono(ws: Seq<Seq<char>>, k1: Seq<Seq<char>>, k2: Seq<Seq<char>>)
    requires
        forall|w: Seq<char>| k1.contains(w) ==> k2.contains(w),
    ensures
        count_known(ws, k1) <= count_known(ws, k2),
        count_known(ws, k2) <= ws.len(),
    decreases ws.len(),
{
    if ws.len() > 0 {
        lemma_known_mono(ws.drop_last(), k1, k2);
    }
}

/// The common-word count grows with the prompt's words: when every word of
/// `p1` is a word of `p2`, a question shares no more words with `p1` than
/// with `p2`, and never more than it has. So two prompts with the same words,
/// in any order and repeated any number of times, give the same count.
pub proof fn law_common_words_monotone(p1: Seq<char>, p2: Seq<char>, question: Seq<char>)
    requires
        forall|w: Seq<char>| text::words(p1).contains(w) ==> text::words(p2).contains(w),
    ensures
        count_known(text::words(question), text::words(p1)) <= count_known(
            text::words(question),
            text::words(p2),
        ),
        count_known(text::words(question), text::words(p2)) <= text::words(question).len(),
        (forall|w: Seq<char>| text::words(p2).contains(w) ==> text::words(p1).contains(w))
            ==> count_known(text::words(question), text::words(p1)) == count_known(
            text::words(question),
            text::words(p2),
        ),
{
    lemma_known_mono(text::words(question), text::words(p1), text::words(p2));
    if forall|w: Seq<char>| text::words(p2).contains(w) ==> text::words(p1).contains(w) {
        lemma_known_mono(text::words(question), text::words(p2), text::words(p1));
    }
}

/// The letters that count as vowels when syllables are counted.
pub open spec fn is_vowel(c: char) -> bool {
    c == 'a' || c == 'e' || c == 'i' || c == 'o' || c == 'u' || c == 'y'
}

fn vowel(c: char) -> (b: bool)
    ensures
        b == is_vowel(c),
{
    c == 'a' || c == 'e' || c == 'i' || c == 'o' || c == 'u' || c == 'y'
}

/// The number of maximal runs of vowels in `s`.
pub open spec fn vowel_groups(s: Seq<char>) -> nat
    decreases s.len(),
{
    if s.len() == 0 {
        0
    } else {
        vowel_groups(s.drop_last()) + if is_vowel(s.last()) && (s.len() == 1 || !is_vowel(
            s[s.len() - 2],
        )) {
            1nat
        } else {
            0nat
        }
    }
}

/// The syllable estimate of a word from its vowel groups and whether it ends
/// in `e`: one less for a final `e`, and never below one.
pub open spec fn syllables_from(groups: nat, ends_in_e: bool) -> nat {
    let g: int = if ends_in_e {
        groups - 1
    } else {
        groups as int
    };
    if g < 1 {
        1
    } else {
        g as nat
    }
}

/// The estimated number of syllables of a word.
pub open spec fn syllable_count(w: Seq<char>) -> nat {
    syllables_from(vowel_groups(w), w.len() > 0 && w.last() == 'e')
}

proof fn lemma_groups_mono(s: Seq<char>, i: int)
    requires
        0 <= i <= s.len(),
    ensures
        vowel_groups(s.take(i)) <= vowel_groups(s),
    decreases s.len() - i,
{
    if i < s.len() {
        lemma_groups_mono(s, i + 1);
        assert(s.take(i + 1).drop_last() =~= s.take(i));
    } else {
        assert(s.take(i) =~= s);
    }
}

proof fn lemma_groups_bounded(s: Seq<char>)
    ensures
        vowel_groups(s) <= s.len(),
    decreases s.len(),
{
    if s.len() > 0 {
        lemma_groups_bounded(s.drop_last());
    }
}

/// The estimated number of syllables of `word`: its maximal vowel runs, one
/// less when it ends in `e`, and at least one.
pub fn count_syllables(word: &str) -> (n: u32)
    requires
        vowel_groups(word@) <= u32::MAX,
    ensures
        n == syllable_count(word@),
        n >= 1,
{
    let cs = chars_of(word);
    let mut count: u32 = 0;
    let mut prev_vowel = false;
    let mut i: usize = 0;
    while i < cs.len()
        invariant
            cs@ == word@,
            vowel_groups(word@) <= u32::MAX,
            i <= cs@.len(),
            count == vowel_groups(cs@.take(i as int)),
            prev_vowel == (i > 0 && is_vowel(cs@[i - 1])),
        decreases cs@.len() - i,
    {
        let c = cs[i];
        let is_v = vowel(c);
        proof {
            assert(cs@.take(i + 1).drop_last() =~= cs@.take(i as int));
            if i > 0 {
                assert(cs@.take(i + 1)[i - 1] == cs@[i - 1]);
            }
            lemma_groups_mono(cs@, i + 1);
        }
        if is_v && !prev_vowel {
            count = count + 1;
        }
        prev_vowel = is_v;
        i = i + 1;
    }
    assert(cs@.take(cs@.len() as int) =~= cs@);
    let ends_e = cs.len() > 0 && cs[cs.len() - 1] == 'e';
    if ends_e {
        proof {
            let s = cs@;
            assert(vowel_groups(s) >= 1) by {
                if s.len() >= 2 && is_vowel(s[s.len() - 2]) {
                    let t = s.drop_last();
                    assert(t.last() == s[s.len() - 2]);
                    assert(vowel_groups(t) >= 1) by {
                        lemma_last_vowel_has_group(t);
                    }
                }
            }
        }
        count = count - 1;
    }
    if count < 1 {
        1
    } else {
        count
    }
}

proof fn lemma_last_vowel_has_group(s: Seq<char>)
    requires
        s.len() > 0,
        is_vowel(s.last()),
    ensures
        vowel_groups(s) >= 1,
    decreases s.len(),
{
    if s.len() >= 2 && is_vowel(s[s.len() - 2]) {
        let t = s.drop_last();
        assert(t.last() == s[s.len() - 2]);
        lemma_last_vowel_has_group(t);
    }
}

/// ASCII punctuation, as `char::is_ascii_punctuation` tests.
pub open spec fn is_ascii_punct(c: char) -> bool {
    let u = c as u32;
    (0x21 <= u && u <= 0x2f) || (0x3a <= u && u <= 0x40) || (0x5b <= u && u <= 0x60) || (0x7b <= u
        && u <= 0x7e)
}

/// The characters at which the readability score splits a text into words.
pub open spec fn is_word_break(c: char) -> bool {
    text::is_ws(c) || is_ascii_punct(c)
}

/// The characters at which the readability score splits a text into sentences.
pub open spec fn is_sentence_end(c: char) -> bool {
    c == '.' || c == '!' || c == '?'
}

/// The number of sentence-ending characters in `s`.
pub open spec fn sentence_ends(s: Seq<char>) -> nat
    decreases s.len(),
{
    if s.len() == 0 {
        0
    } else {
        sentence_ends(s.drop_last()) + if is_sentence_end(s.last()) {
            1nat
        } else {
            0nat
        }
    }
}

/// The pieces of `s` between word breaks, empty pieces included, as
/// `str::split` yields them: one more piece than there are breaks.
pub open spec fn pieces(s: Seq<char>) -> Seq<Seq<char>>
    decreases s.len(),
{
    if s.len() == 0 {
        seq![Seq::empty()]
    } else {
        let p = pieces(s.drop_last());
        if is_word_break(s.last()) {
            p.push(Seq::empty())
        } else {
            p.drop_last().push(p.last().push(s.last()))
        }
    }
}

/// The sum of the syllable estimates of `ps`.
pub open spec fn syllable_total(ps: Seq<Seq<char>>) -> nat
    decreases ps.len(),
{
    if ps.len() == 0 {
        0
    } else {
        syllable_total(ps.drop_last()) + syllable_count(ps.last())
    }
}

/// The counts from which the readability score of a text is computed.
pub struct ReadabilityCounts {
    /// Pieces of the text between `.`, `!` and `?`.
    pub sentences: u64,
    /// Pieces of the text between whitespace and ASCII punctuation, empty ones included.
    pub words: u64,
    /// The sum of the syllable estimates of those pieces.
    pub syllables: u64,
}

proof fn lemma_pieces_nonempty(s: Seq<char>)
    ensures
        pieces(s).len() >= 1,
    decreases s.len(),
{
    if s.len() > 0 {
        lemma_pieces_nonempty(s.drop_last());
    }
}

proof fn lemma_syllables_bound(g: nat, e: bool, len: nat)
    requires
        g <= len,
    ensures
        syllables_from(g, e) <= len + 1,
{
}

/// The sentence, word and syllable counts of `text` that the readability
/// score combines.
pub fn readability_counts(text: &str) -> (r: ReadabilityCounts)
    requires
        text@.len() < u64::MAX,
    ensures
        r.sentences == sentence_ends(text@) + 1,
        r.words == pieces(text@).len(),
        r.syllables == syllable_total(pieces(text@)),
{
    let cs = chars_of(text);
    let mut ends: u64 = 0;
    let mut completed: u64 = 0;
    let mut sum: u64 = 0;
    let mut groups: u64 = 0;
    let mut prev_vowel = false;
    let mut last_e = false;
    let ghost mut cur: Seq<char> = Seq::empty();
    let mut i: usize = 0;
    assert(cs@.take(0) =~= Seq::<char>::empty());
    while i < cs.len()
        invariant
            i <= cs@.len() < u64::MAX,
            pieces(cs@.take(i as int)).len() == completed + 1,
            pieces(cs@.take(i as int)).last() == cur,
            ends == sentence_ends(cs@.take(i as int)),
            ends <= i,
            completed <= i,
            sum == syllable_total(pieces(cs@.take(i as int)).drop_last()),
            sum + cur.len() <= i,
            groups == vowel_groups(cur),
            prev_vowel == (cur.len() > 0 && is_vowel(cur.last())),
            last_e == (cur.len() > 0 && cur.last() == 'e'),
        decreases cs@.len() - i,
    {
        let c = cs[i];
        let ghost p = pieces(cs@.take(i as int));
        proof {
            assert(cs@.take(i + 1).drop_last() =~= cs@.take(i as int));
            assert(cs@.take(i + 1).last() == c);
            lemma_pieces_nonempty(cs@.take(i as int));
            lemma_groups_bounded(cur);
        }
        if c == '.' || c == '!' || c == '?' {
            ends = ends + 1;
        }
        let u = c as u32;
        let brk = is_whitespace(c) || (0x21 <= u && u <= 0x2f) || (0x3a <= u && u <= 0x40) || (0x5b
            <= u && u <= 0x60) || (0x7b <= u && u <= 0x7e);
        if brk {
            let g = if last_e {
                if groups >= 1 {
                    groups - 1
                } else {
                    0
                }
            } else {
                groups
            };
            let syl: u64 = if g < 1 {
                1
            } else {
                g
            };
            proof {
                assert(cur.len() > 0 && cur.last() == 'e' ==> groups >= 1) by {
                    if cur.len() > 0 && cur.last() == 'e' {
                        lemma_last_vowel_has_group(cur);
                    }
                }
                lemma_syllables_bound(vowel_groups(cur), last_e, cur.len());
                assert(syl == syllable_count(cur));
                assert(p.push(Seq::<char>::empty()).drop_last() =~= p);
            }
            sum = sum + syl;
            completed = completed + 1;
            groups = 0;
            prev_vowel = false;
            last_e = false;
            proof {
                cur = Seq::empty();
            }
        } else {
            let v = vowel(c);
            proof {
                assert(cur.push(c).drop_last() =~= cur);
                if cur.len() > 0 {
                    assert(cur.push(c)[cur.len() - 1] == cur.last());
                }
                lemma_groups_bounded(cur);
                assert(p.drop_last().push(p.last().push(c)).drop_last() =~= p.drop_last());
            }
            if v && !prev_vowel {
                groups = groups + 1;
            }
            prev_vowel = v;
            last_e = c == 'e';
            proof {
                cur = cur.push(c);
            }
        }
        i = i + 1;
    }
    assert(cs@.take(cs@.len() as int) =~= cs@);
    let g = if last_e {
        if groups >= 1 {
            groups - 1
        } else {
            0
        }
    } else {
        groups
    };
    let syl: u64 = if g < 1 {
        1
    } else {
        g
    };
    proof {
        assert(cur.len() > 0 && cur.last() == 'e' ==> groups >= 1) by {
            if cur.len() > 0 && cur.last() == 'e' {
                lemma_last_vowel_has_group(cur);
            }
        }
        lemma_groups_bounded(cur);
        lemma_syllables_bound(vowel_groups(cur), last_e, cur.len());
        lemma_pieces_nonempty(cs@);
        let p = pieces(cs@);
        assert(p =~= p.drop_last().push(p.last()));
    }
    ReadabilityCounts { sentences: ends + 1, words: completed + 1, syllables: sum + syl }
}

/// The sentence ends of two texts one after the other are those of each.
proof fn lemma_sentence_ends_concat(a: Seq<char>, b: Seq<char>)
    ensures
        sentence_ends(a + b) == sentence_ends(a) + sentence_ends(b),
    decreases b.len(),
{
    if b.len() == 0 {
        assert(a + b =~= a);
    } else {
        lemma_sentence_ends_concat(a, b.drop_last());
        assert((a + b).drop_last() =~= a + b.drop_last());
        assert((a + b).last() == b.last());
    }
}

/// The full stops, exclamation marks and question marks of `s`.
proof fn lemma_sentence_ends_count(s: Seq<char>)
    ensures
        sentence_ends(s) == s.filter(|c: char| c == '.' || c == '!' || c == '?').len(),
    decreases s.len(),
{
    reveal(Seq::filter);
    if s.len() > 0 {
        lemma_sentence_ends_count(s.drop_last());
    }
}

/// The sentence count of the readability score is one more than the number
/// of full stops, exclamation marks and question marks in the text: each of
/// the three ends a sentence, no other character does, and the count of two
/// texts joined is the sum of their counts.
pub proof fn law_sentence_ends(s: Seq<char>, t: Seq<char>, c: char)
    ensures
        sentence_ends(s) == s.filter(|x: char| x == '.' || x == '!' || x == '?').len(),
        sentence_ends(s + t) == sentence_ends(s) + sentence_ends(t),
        sentence_ends(seq![c]) == (if c == '.' || c == '!' || c == '?' {
            1nat
        } else {
            0nat
        }),
{
    lemma_sentence_ends_count(s);
    lemma_sentence_ends_concat(s, t);
    assert(seq![c].drop_last() =~= Seq::<char>::empty());
    assert(sentence_ends(seq![c].drop_last()) == 0);
    assert(seq![c].last() == c);
}

} // verus!
