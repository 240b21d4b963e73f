//! Parsing of generated quiz text into questions, possible answers and keys.
use vstd::prelude::*;
use vstd::string::*;
use crate::text;
use crate::text::{char_index_of_byte, chars_of, contains, split_lines, starts_with, string_of_range, trim, trim_bounds};

verus! {

/// A quiz question: its text, its possible answers and its answer key.
#[derive(Debug, Clone)]
pub struct QuizQuestion {
    pub question: String,
    pub answer: String,
    pub key: String,
}

/// The three texts of a quiz question.
pub type QuizTexts = (Seq<char>, Seq<char>, Seq<char>);

impl View for QuizQuestion {
    type V = QuizTexts;

    open spec fn view(&self) -> QuizTexts {
        (self.question@, self.answer@, self.key@)
    }
}

impl QuizQuestion {
    /// A question made of the given texts.
    pub fn new(question: String, answer: String, key: String) -> (r: Self)
        ensures
            r.question == question,
            r.answer == answer,
            r.key == key,
    {
        Self { question, answer, key }
    }
}

/// The views of a sequence of quiz questions.
pub open spec fn quiz_views(v: Seq<QuizQuestion>) -> Seq<QuizTexts> {
    Seq::new(v.len(), |i: int| v[i]@)
}

/// The part of a question that the lines after a heading extend.
#[derive(Debug, Clone, Copy, PartialEq, Eq)]
pub enum Heading {
    Question,
    PossibleAnswers,
    Key,
}

/// The byte offset within a line mentioning `Question:` at which the
/// question's text is read: the length of `Question:` and three more bytes,
/// room for a numbering such as `1. ` before it.
pub const QUESTION_TEXT_OFFSET: usize = 12;

/// What the parser knows after some lines.
pub struct ParseState {
    pub question: Seq<char>,
    pub answer: Seq<char>,
    pub key: Seq<char>,
    pub heading: Option<Heading>,
    pub done: Seq<QuizTexts>,
    pub total: nat,
    pub improper: nat,
}

/// The state before any line.
pub open spec fn start_state() -> ParseState {
    ParseState {
        question: Seq::empty(),
        answer: Seq::empty(),
        key: Seq::empty(),
        heading: None,
        done: Seq::empty(),
        total: 0,
        improper: 0,
    }
}

/// A line the parser can read: one mentioning `Question:` has a character
/// boundary at `QUESTION_TEXT_OFFSET`, the byte where its question text is
/// cut off.
pub open spec fn question_line_ok(line: Seq<char>) -> bool {
    text::has_substring(line, "Question:"@) ==> text::is_char_boundary(
        line,
        QUESTION_TEXT_OFFSET as nat,
    )
}

/// The question text that a line mentioning `Question:` carries.
pub open spec fn question_text(line: Seq<char>) -> Seq<char> {
    text::trimmed(line.skip(text::chars_before_byte(line, QUESTION_TEXT_OFFSET as nat)))
}

/// The effect of one line on the fields, before a finished question is stored.
pub open spec fn read_line(st: ParseState, line: Seq<char>) -> ParseState {
    if text::has_substring(line, "Question:"@) {
        let bad = st.question.len() > 0 && (st.answer.len() == 0 || st.key.len() == 0);
        ParseState {
            question: question_text(line),
            answer: Seq::empty(),
            key: Seq::empty(),
            heading: Some(Heading::Question),
            done: st.done,
            total: if bad {
                st.total + 1
            } else {
                st.total
            },
            improper: if bad {
                st.improper + 1
            } else {
                st.improper
            },
        }
    } else if text::has_prefix(line, "Possible Answers:"@) {
        ParseState {
            answer: text::trimmed(line.skip("Possible Answers:"@.len() as int)),
            heading: Some(Heading::PossibleAnswers),
            ..st
        }
    } else if text::has_prefix(line, "Key:"@) {
        ParseState {
            key: text::trimmed(line.skip("Key:"@.len() as int)),
            heading: Some(Heading::Key),
            ..st
        }
    } else {
        match st.heading {
            Some(Heading::Question) => ParseState {
                question: st.question + "\n"@ + text::trimmed(line),
                ..st
            },
            Some(Heading::PossibleAnswers) => ParseState {
                answer: st.answer + "\n"@ + text::trimmed(line),
                ..st
            },
            Some(Heading::Key) => ParseState { key: st.key + "\n"@ + text::trimmed(line), ..st },
            None => st,
        }
    }
}

/// Once question, answers and key are all non-empty, they become a question
/// and the fields start over.
pub open spec fn store_if_complete(st: ParseState) -> ParseState {
    if st.question.len() > 0 && st.answer.len() > 0 && st.key.len() > 0 {
        ParseState {
            question: Seq::empty(),
            answer: Seq::empty(),
            key: Seq::empty(),
            heading: None,
            done: st.done.push((st.question, st.answer, st.key)),
            total: st.total + 1,
            improper: st.improper,
        }
    } else {
        st
    }
}

/// The state after the lines `lines`.
pub open spec fn parse_lines_spec(lines: Seq<Seq<char>>) -> ParseState
    decreases lines.len(),
{
    if lines.len() == 0 {
        start_state()
    } else {
        store_if_complete(read_line(parse_lines_spec(lines.drop_last()), lines.last()))
    }
}

/// The end of the input: a complete question is stored, and a partial one
/// is counted as improperly formatted.
pub open spec fn finish(st: ParseState) -> ParseState {
    if st.question.len() > 0 && st.answer.len() > 0 && st.key.len() > 0 {
        store_if_complete(st)
    } else if st.question.len() > 0 || st.answer.len() > 0 || st.key.len() > 0 {
        ParseState { total: st.total + 1, improper: st.improper + 1, ..st }
    } else {
        st
    }
}

/// The questions of a quiz text, with how many question blocks there were in
/// all and how many of them were improperly formatted.
#[derive(Debug)]
pub struct QuizParse {
    pub questions: Vec<QuizQuestion>,
    pub improperly_formatted: usize,
    pub total: usize,
}

/// Parses quiz lines: a line mentioning `Question:` starts a question, lines
/// starting with `Possible Answers:` or `Key:` start the answers or the key,
/// other lines extend the part last started, and a question is stored as
/// soon as its text, answers and key are all non-empty.
pub fn parse_quiz_lines(lines: &Vec<String>) -> (r: QuizParse)
    requires
        lines@.len() < usize::MAX,
        forall|i: int| 0 <= i < lines@.len() ==> question_line_ok(#[trigger] lines@[i]@),
    ensures
        quiz_views(r.questions@) == finish(parse_lines_spec(text::string_views(lines@))).done,
        r.total == finish(parse_lines_spec(text::string_views(lines@))).total,
        r.improperly_formatted == finish(parse_lines_spec(text::string_views(lines@))).improper,
{
    let ghost ls = text::string_views(lines@);
    let mut questions: Vec<QuizQuestion> = Vec::new();
    let mut question = String::new();
    let mut answer = String::new();
    let mut key = String::new();
    let mut heading: Option<Heading> = None;
    let mut total: usize = 0;
    let mut improper: usize = 0;
    let mut i: usize = 0;
    assert(ls.take(0) =~= Seq::<Seq<char>>::empty());
    assert(quiz_views(questions@) =~= Seq::<QuizTexts>::empty());
    while i < lines.len()
        invariant
            ls == text::string_views(lines@),
            lines@.len() < usize::MAX,
            forall|j: int| 0 <= j < lines@.len() ==> question_line_ok(#[trigger] lines@[j]@),
            i <= lines@.len(),
            total <= i,
            improper <= total,
            ({
                let st = parse_lines_spec(ls.take(i as int));
                &&& question@ == st.question
                &&& answer@ == st.answer
                &&& key@ == st.key
                &&& heading == st.heading
                &&& quiz_views(questions@) == st.done
                &&& total == st.total
                &&& improper == st.improper
            }),
        decreases lines@.len() - i,
    {
        let ghost st0 = parse_lines_spec(ls.take(i as int));
        assert(ls.take(i + 1).drop_last() =~= ls.take(i as int));
        assert(ls.take(i + 1).last() == lines@[i as int]@);
        let ls_i = lines[i].as_str();
        assert(question_line_ok(ls_i@));
        if contains(ls_i, "Question:") {
            let bad = !question.as_str().is_empty() && (answer.as_str().is_empty()
                || key.as_str().is_empty());
            if bad {
                improper = improper + 1;
                total = total + 1;
            }
            let cs = chars_of(ls_i);
            let k = char_index_of_byte(&cs, QUESTION_TEXT_OFFSET).unwrap();
            let (a, b) = trim_bounds(&cs, k, cs.len());
            assert(cs@.subrange(k as int, cs@.len() as int) =~= ls_i@.skip(k as int));
            question = string_of_range(ls_i, a, b);
            answer = String::new();
            key = String::new();
            heading = Some(Heading::Question);
        } else if starts_with(ls_i, "Possible Answers:") {
            let cs = chars_of(ls_i);
            let n = chars_of("Possible Answers:").len();
            let (a, b) = trim_bounds(&cs, n, cs.len());
            assert(cs@.subrange(n as int, cs@.len() as int) =~= ls_i@.skip(n as int));
            answer = string_of_range(ls_i, a, b);
            heading = Some(Heading::PossibleAnswers);
        } else if starts_with(ls_i, "Key:") {
            let cs = chars_of(ls_i);
            let n = chars_of("Key:").len();
            let (a, b) = trim_bounds(&cs, n, cs.len());
            assert(cs@.subrange(n as int, cs@.len() as int) =~= ls_i@.skip(n as int));
            key = string_of_range(ls_i, a, b);
            heading = Some(Heading::Key);
        } else {
            match heading {
                Some(Heading::Question) => {
                    let t = trim(ls_i);
                    question.append("\n");
                    question.append(t.as_str());
                },
                Some(Heading::PossibleAnswers) => {
                    let t = trim(ls_i);
                    answer.append("\n");
                    answer.append(t.as_str());
                },
                Some(Heading::Key) => {
                    let t = trim(ls_i);
                    key.append("\n");
                    key.append(t.as_str());
                },
                None => {},
            }
        }
        let ghost st1 = read_line(st0, ls_i@);
        assert(question@ == st1.question && answer@ == st1.answer && key@ == st1.key);
        if !question.as_str().is_empty() && !answer.as_str().is_empty()
            && !key.as_str().is_empty() {
            let ghost before = quiz_views(questions@);
            questions.push(QuizQuestion::new(question.clone(), answer.clone(), key.clone()));
            assert(quiz_views(questions@) =~= before.push((st1.question, st1.answer, st1.key)));
            question = String::new();
            answer = String::new();
            key = String::new();
            heading = None;
            total = total + 1;
        }
        i = i + 1;
    }
    assert(ls.take(lines@.len() as int) =~= ls);
    let ghost before = quiz_views(questions@);
    if !question.as_str().is_empty() && !answer.as_str().is_empty() && !key.as_str().is_empty() {
        questions.push(QuizQuestion::new(question, answer, key));
        assert(quiz_views(questions@) =~= before.push(
            (
                parse_lines_spec(ls).question,
                parse_lines_spec(ls).answer,
                parse_lines_spec(ls).key,
            ),
        ));
        total = total + 1;
    } else if !question.as_str().is_empty() || !answer.as_str().is_empty()
        || !key.as_str().is_empty() {
        total = total + 1;
        improper = improper + 1;
    }
    QuizParse { questions, improperly_formatted: improper, total }
}

/// Parses a whole quiz text, line by line as `parse_quiz_lines` does.
pub fn parse_quiz_text(content: &str) -> (r: QuizParse)
    requires
        text::text_lines(content@).len() < usize::MAX,
        forall|i: int|
            0 <= i < text::text_lines(content@).len() ==> question_line_ok(
                #[trigger] text::text_lines(content@)[i],
            ),
    ensures
        quiz_views(r.questions@) == finish(parse_lines_spec(text::text_lines(content@))).done,
        r.total == finish(parse_lines_spec(text::text_lines(content@))).total,
        r.improperly_formatted == finish(parse_lines_spec(text::text_lines(content@))).improper,
{
    let lines = split_lines(content);
    assert forall|i: int| 0 <= i < lines@.len() implies question_line_ok(#[trigger] lines@[i]@) by {
        assert(text::string_views(lines@)[i] == lines@[i]@);
    }
    parse_quiz_lines(&lines)
}

/// The bookkeeping that every state keeps: each question block counted is
/// either stored or improperly formatted, and stored questions are complete.
pub open spec fn counts_consistent(st: ParseState) -> bool {
    &&& st.total == st.done.len() + st.improper
    &&& forall|j: int|
        0 <= j < st.done.len() ==> (#[trigger] st.done[j]).0.len() > 0 && st.done[j].1.len() > 0
            && st.done[j].2.len() > 0
}

proof fn lemma_parse_consistent(lines: Seq<Seq<char>>)
    ensures
        counts_consistent(parse_lines_spec(lines)),
    decreases lines.len(),
{
    if lines.len() > 0 {
        lemma_parse_consistent(lines.drop_last());
        let st = read_line(parse_lines_spec(lines.drop_last()), lines.last());
        assert(counts_consistent(st));
        let st2 = store_if_complete(st);
        assert forall|j: int| 0 <= j < st2.done.len() implies (#[trigger] st2.done[j]).0.len() > 0
            && st2.done[j].1.len() > 0 && st2.done[j].2.len() > 0 by {
            if j < st.done.len() {
                assert(st2.done[j] == st.done[j]);
            }
        }
    }
}

/// Every question block that a parse counts is either returned as a question
/// or counted as improperly formatted, and every returned question has a
/// non-empty text, non-empty answers and a non-empty key.
pub proof fn law_parse_counts(lines: Seq<Seq<char>>)
    ensures
        counts_consistent(finish(parse_lines_spec(lines))),
{
    lemma_parse_consistent(lines);
    let st = parse_lines_spec(lines);
    let st2 = finish(st);
    assert forall|j: int| 0 <= j < st2.done.len() implies (#[trigger] st2.done[j]).0.len() > 0
        && st2.done[j].1.len() > 0 && st2.done[j].2.len() > 0 by {
        if j < st.done.len() {
            assert(st2.done[j] == st.done[j]);
        }
    }
}

proof fn lemma_never_complete(lines: Seq<Seq<char>>)
    ensures
        ({
            let st = parse_lines_spec(lines);
            !(st.question.len() > 0 && st.answer.len() > 0 && st.key.len() > 0)
        }),
{
}

/// A line mentioning `Question:` starts a new block. If a question text was
/// still pending (a block that was never stored because its answers or its
/// key stayed empty), that block is counted, as improperly formatted; the
/// stored questions stay as they were.
pub proof fn law_unfinished_block_is_improper(lines: Seq<Seq<char>>, line: Seq<char>)
    requires
        text::has_substring(line, "Question:"@),
    ensures
        ({
            let before = parse_lines_spec(lines);
            let after = parse_lines_spec(lines.push(line));
            let pending: nat = if before.question.len() > 0 {
                1
            } else {
                0
            };
            &&& after.done == before.done
            &&& after.total == before.total + pending
            &&& after.improper == before.improper + pending
        }),
{
    lemma_never_complete(lines);
    let ls = lines.push(line);
    assert(ls.drop_last() =~= lines);
    assert(ls.last() == line);
}

} // verus!
