//! Interactive quizzes over parsed quiz files: reading the file into
//! multiple-choice cards and judging an answer.
use vstd::prelude::*;
use vstd::string::*;
use crate::text;
use crate::text::{chars_of, matches_at, split_lines, starts_with, string_of_range, trim};

verus! {

/// A multiple-choice question as a parsed quiz file gives it.
#[derive(Debug, Clone)]
pub struct QuizCard {
    pub question: String,
    pub answers: Vec<String>,
    pub key: char,
}

/// The contents of a card.
pub type CardView = (Seq<char>, Seq<Seq<char>>, char);

impl View for QuizCard {
    type V = CardView;

    open spec fn view(&self) -> CardView {
        (self.question@, text::string_views(self.answers@), self.key)
    }
}

/// The views of a sequence of cards.
pub open spec fn card_views(v: Seq<QuizCard>) -> Seq<CardView> {
    Seq::new(v.len(), |i: int| v[i]@)
}

/// `c` with an ASCII capital letter made small, as `char::to_ascii_lowercase` does.
pub open spec fn ascii_lower(c: char) -> char {
    if 'A' <= c && c <= 'Z' {
        ((c as u32) + 32) as char
    } else {
        c
    }
}

/// `c` with an ASCII capital letter made small.
pub fn to_ascii_lower(c: char) -> (r: char)
    ensures
        r == ascii_lower(c),
{
    if 'A' <= c && c <= 'Z' {
        let u = (c as u32) + 32;
        assert(0x61 <= u <= 0x7a);
        let b = u as u8;
        b as char
    } else {
        c
    }
}

/// The first character of `s`, or the NUL character when `s` is empty.
pub open spec fn first_or_nul(s: Seq<char>) -> char {
    if s.len() > 0 {
        s[0]
    } else {
        '\0'
    }
}

/// The letter that a trimmed line names, made small: the first character of
/// the trimmed line in lower case, NUL for a blank line.
pub open spec fn letter_of(line: Seq<char>) -> char {
    ascii_lower(first_or_nul(text::trimmed(line)))
}

/// The lowercased first character of `s` once trimmed, NUL for a blank `s`.
pub fn letter_in(s: &str) -> (c: char)
    ensures
        c == letter_of(s@),
{
    let t = trim(s);
    let cs = chars_of(t.as_str());
    if cs.len() > 0 {
        to_ascii_lower(cs[0])
    } else {
        proof {
            assert(text::trimmed(s@).len() == 0);
        }
        '\0'
    }
}

/// Whether an answer typed in response to a card is right: its first
/// character (after trimming, lower-cased) is the card's key.
pub fn answer_is_correct(input: &str, key: char) -> (b: bool)
    ensures
        b == (letter_of(input@) == key),
{
    letter_in(input) == key
}

/// The letter shown before the answer with index `i`: `a`, `b`, `c`, ...
/// counted with the index's lowest byte.
pub open spec fn option_letter_spec(i: nat) -> char {
    (0x61 + i % 256) as char
}

/// The letter shown before the answer with index `i`.
pub fn option_letter(i: usize) -> (c: char)
    requires
        i % 256 < 159,
    ensures
        c == option_letter_spec(i as nat),
{
    let b = 97u8 + (i % 256) as u8;
    b as char
}

/// `s` with every leading copy of the non-empty `p` removed, as
/// `str::trim_start_matches` does.
pub open spec fn strip_leading(s: Seq<char>, p: Seq<char>) -> Seq<char>
    decreases s.len(),
{
    if p.len() > 0 && text::has_prefix(s, p) {
        strip_leading(s.skip(p.len() as int), p)
    } else {
        s
    }
}

/// The question as it is shown: without the leading `": "` copies.
pub fn display_question(q: &str) -> (r: String)
    ensures
        r@ == strip_leading(q@, ": "@),
{
    let cs = chars_of(q);
    let ps = chars_of(": ");
    proof {
        reveal_strlit(": ");
    }
    let mut i: usize = 0;
    let n = cs.len();
    assert(cs@.skip(0) =~= cs@);
    while matches_at(&cs, i, &ps)
        invariant
            cs@ == q@,
            ps@ == ": "@,
            ps@.len() == 2,
            n == cs@.len(),
            i <= cs@.len(),
            strip_leading(q@, ": "@) == strip_leading(cs@.skip(i as int), ": "@),
        decreases cs@.len() - i,
    {
        assert(cs@.skip(i as int).subrange(0, 2) =~= cs@.subrange(i as int, i + 2));
        assert(cs@.skip(i as int).skip(2) =~= cs@.skip(i + 2));
        i = i + 2;
    }
    assert(!text::occurs_at(cs@.skip(i as int), ps@, 0)) by {
        if i + 2 <= cs@.len() {
            assert(cs@.skip(i as int).subrange(0, 2) =~= cs@.subrange(i as int, i + 2));
        }
    }
    assert(cs@.skip(i as int) =~= cs@.subrange(i as int, cs@.len() as int));
    string_of_range(q, i, cs.len())
}

/// What the reader knows after some lines of a quiz file.
pub struct DeckState {
    pub cards: Seq<CardView>,
    pub question: Option<Seq<char>>,
    pub answers: Seq<Seq<char>>,
    pub key: char,
    pub answering: bool,
    pub questioning: bool,
    pub keying: bool,
}

/// The state before any line.
pub open spec fn deck_start() -> DeckState {
    DeckState {
        cards: Seq::empty(),
        question: None,
        answers: Seq::empty(),
        key: '\0',
        answering: false,
        questioning: false,
        keying: false,
    }
}

/// The effect of one line: a `Question:` line stores the question read so far
/// (with the answers and the key last read) and starts a new one; a
/// `Possible Answers:` or `Key:` line switches what the next lines are;
/// other lines are an answer, the question text (the last such line wins),
/// or the key letter (the first such line only).
pub open spec fn deck_step(st: DeckState, line: Seq<char>) -> DeckState {
    if text::has_prefix(line, "Question:"@) {
        DeckState {
            cards: match st.question {
                Some(q) => st.cards.push((q, st.answers, st.key)),
                None => st.cards,
            },
            question: None,
            answers: Seq::empty(),
            answering: false,
            questioning: true,
            keying: false,
            ..st
        }
    } else if text::has_prefix(line, "Possible Answers:"@) {
        DeckState { answering: true, questioning: false, keying: false, ..st }
    } else if text::has_prefix(line, "Key:"@) {
        DeckState { answering: false, questioning: false, keying: true, ..st }
    } else if st.answering {
        DeckState { answers: st.answers.push(text::trimmed(line)), ..st }
    } else if st.questioning {
        DeckState { question: Some(text::trimmed(line)), ..st }
    } else if st.keying {
        DeckState { key: letter_of(line), keying: false, ..st }
    } else {
        st
    }
}

/// The state after the lines `lines`, starting from `st`.
pub open spec fn deck_run(st: DeckState, lines: Seq<Seq<char>>) -> DeckState
    decreases lines.len(),
{
    if lines.len() == 0 {
        st
    } else {
        deck_step(deck_run(st, lines.drop_last()), lines.last())
    }
}

/// The state after the lines `lines`.
pub open spec fn deck_lines(lines: Seq<Seq<char>>) -> DeckState {
    deck_run(deck_start(), lines)
}

/// The cards of a quiz file with the lines `lines`: those stored along the
/// way and the last question, if one is under way.
pub open spec fn deck_of(lines: Seq<Seq<char>>) -> Seq<CardView> {
    let st = deck_lines(lines);
    match st.question {
        Some(q) => st.cards.push((q, st.answers, st.key)),
        None => st.cards,
    }
}

fn clone_strings(v: &Vec<String>) -> (r: Vec<String>)
    ensures
        text::string_views(r@) == text::string_views(v@),
{
    let mut r: Vec<String> = Vec::new();
    let mut i: usize = 0;
    while i < v.len()
        invariant
            i <= v@.len(),
            r@.len() == i,
            forall|j: int| 0 <= j < i ==> r@[j]@ == v@[j]@,
        decreases v@.len() - i,
    {
        r.push(v[i].clone());
        i = i + 1;
    }
    assert(text::string_views(r@) =~= text::string_views(v@));
    r
}

/// The multiple-choice cards of a parsed quiz file.
pub fn load_quiz(content: &str) -> (r: Vec<QuizCard>)
    ensures
        card_views(r@) == deck_of(text::text_lines(content@)),
{
    let lines = split_lines(content);
    let ghost ls = text::string_views(lines@);
    let mut cards: Vec<QuizCard> = Vec::new();
    let mut question: Option<String> = None;
    let mut answers: Vec<String> = Vec::new();
    let mut key: char = '\0';
    let mut answering = false;
    let mut questioning = false;
    let mut keying = false;
    let mut i: usize = 0;
    assert(ls.take(0) =~= Seq::<Seq<char>>::empty());
    assert(card_views(cards@) =~= Seq::<CardView>::empty());
    assert(text::string_views(answers@) =~= Seq::<Seq<char>>::empty());
    while i < lines.len()
        invariant
            ls == text::string_views(lines@),
            i <= lines@.len(),
            ({
                let st = deck_lines(ls.take(i as int));
                &&& card_views(cards@) == st.cards
                &&& (match question {
                    Some(q) => st.question == Some(q@),
                    None => st.question is None,
                })
                &&& text::string_views(answers@) == st.answers
                &&& key == st.key
                &&& answering == st.answering
                &&& questioning == st.questioning
                &&& keying == st.keying
            }),
        decreases lines@.len() - i,
    {
        assert(ls.take(i + 1).drop_last() =~= ls.take(i as int));
        assert(ls.take(i + 1).last() == lines@[i as int]@);
        let line = lines[i].as_str();
        if starts_with(line, "Question:") {
            match question {
                Some(q) => {
                    let ghost before = card_views(cards@);
                    let card = QuizCard { question: q, answers: clone_strings(&answers), key };
                    cards.push(card);
                    assert(card_views(cards@) =~= before.push(card@));
                },
                None => {},
            }
            question = None;
            answers = Vec::new();
            assert(text::string_views(answers@) =~= Seq::<Seq<char>>::empty());
            answering = false;
            questioning = true;
            keying = false;
        } else if starts_with(line, "Possible Answers:") {
            answering = true;
            questioning = false;
            keying = false;
        } else if starts_with(line, "Key:") {
            answering = false;
            questioning = false;
            keying = true;
        } else if answering {
            let ghost before = text::string_views(answers@);
            let t = trim(line);
            answers.push(t);
            assert(text::string_views(answers@) =~= before.push(text::trimmed(line@)));
        } else if questioning {
            question = Some(trim(line));
        } else if keying {
            key = letter_in(line);
            keying = false;
        }
        i = i + 1;
    }
    assert(ls.take(lines@.len() as int) =~= ls);
    match question {
        Some(q) => {
            let ghost before = card_views(cards@);
            let card = QuizCard { question: q, answers, key };
            cards.push(card);
            assert(card_views(cards@) =~= before.push(card@));
        },
        None => {},
    }
    cards
}

proof fn lemma_single_trimmed(c: char)
    requires
        !text::is_ws(c),
    ensures
        text::trimmed(seq![c]) == seq![c],
{
    let s = seq![c];
    assert(s[0] == c);
    assert(text::trim_start_spec(s) == s);
    assert(s.last() == c);
    assert(text::trim_end_spec(s) == s);
}

/// Answers are judged without regard to the case of an ASCII letter: a
/// capital letter typed alone names the same key as its small letter, and
/// that key is the small letter.
pub proof fn law_answer_ignores_case(upper: char, lower: char)
    requires
        'A' <= upper <= 'Z',
        lower as u32 == upper as u32 + 32,
    ensures
        letter_of(seq![upper]) == lower,
        letter_of(seq![lower]) == lower,
{
    lemma_single_trimmed(upper);
    lemma_single_trimmed(lower);
}

} // verus!
