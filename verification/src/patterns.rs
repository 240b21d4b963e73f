//! Text clean-up and field extraction that go through the `regex` crate.
use vstd::prelude::*;
use vstd::string::*;
use crate::quiz_parser::QuizQuestion;
use crate::text;
use crate::text::{replace_all, split_on, trim};

verus! {

/// Whether `regex::Regex::new` accepts `pattern`.
pub uninterp spec fn regex_accepts(pattern: Seq<char>) -> bool;

/// What `regex::Regex::replace_all` returns for `haystack` and `replacement`
/// with the regex compiled from `pattern`.
pub uninterp spec fn regex_replaced(
    pattern: Seq<char>,
    haystack: Seq<char>,
    replacement: Seq<char>,
) -> Seq<char>;

/// The text of capture group 1 in the first match that
/// `regex::Regex::captures` finds in `haystack` with the regex compiled from
/// `pattern`; `None` when nothing matches or the group took no part.
pub uninterp spec fn regex_group1(pattern: Seq<char>, haystack: Seq<char>) -> Option<Seq<char>>;

/// Runs of whitespace.
pub open spec fn whitespace_runs() -> Seq<char> {
    r"\s+"@
}

/// Runs of characters other than ASCII letters, digits and `.,;:?!#`.
pub open spec fn special_runs() -> Seq<char> {
    r"[^0-9a-zA-Z.,;:?!#]+"@
}

/// The question text in a model response: what follows `Question: ` on its line.
pub open spec fn question_field() -> Seq<char> {
    r"Question: (.*)"@
}

/// The answers in a model response: everything between `Possible Answers:`
/// (and the whitespace after it) and the last `Key:`.
pub open spec fn answers_field() -> Seq<char> {
    r"Possible Answers:\s*((?s).*)Key:"@
}

/// The key in a model response: what follows `Key: ` on its line.
pub open spec fn key_field() -> Seq<char> {
    r"Key: (.*)"@
}

/// An ASCII letter or digit, or one of `.,;:?!#`: the characters that the
/// clean-up keeps.
pub open spec fn is_kept(c: char) -> bool {
    ('0' <= c && c <= '9') || ('a' <= c && c <= 'z') || ('A' <= c && c <= 'Z') || c == '.'
        || c == ',' || c == ';' || c == ':' || c == '?' || c == '!' || c == '#'
}

/// `s` with each maximal run of characters for which `p` holds replaced by
/// one space.
pub open spec fn collapse_runs(s: Seq<char>, p: spec_fn(char) -> bool) -> Seq<char>
    decreases s.len(),
{
    if s.len() == 0 {
        Seq::empty()
    } else if p(s.last()) {
        if s.len() > 1 && p(s[s.len() - 2]) {
            collapse_runs(s.drop_last(), p)
        } else {
            collapse_runs(s.drop_last(), p).push(' ')
        }
    } else {
        collapse_runs(s.drop_last(), p).push(s.last())
    }
}

/// The first index at or after `i` where `m` occurs in `s`.
pub open spec fn find_from(s: Seq<char>, m: Seq<char>, i: int) -> Option<int>
    decreases s.len() + 1 - i,
{
    if i < 0 || i + m.len() > s.len() {
        None
    } else if text::occurs_at(s, m, i) {
        Some(i)
    } else {
        find_from(s, m, i + 1)
    }
}

/// The last index at or before `k` where `m` occurs in `s`.
pub open spec fn find_last_from(s: Seq<char>, m: Seq<char>, k: int) -> Option<int>
    decreases k + 1,
{
    if k < 0 {
        None
    } else if text::occurs_at(s, m, k) {
        Some(k)
    } else {
        find_last_from(s, m, k - 1)
    }
}

/// The characters of `t` before its first line break.
pub open spec fn first_line(t: Seq<char>) -> Seq<char>
    decreases t.len(),
{
    if t.len() == 0 || t[0] == '\n' {
        Seq::empty()
    } else {
        seq![t[0]] + first_line(t.drop_first())
    }
}

/// What follows the first `marker` in `s` on its line; `None` when `marker`
/// does not occur.
pub open spec fn line_after(s: Seq<char>, marker: Seq<char>) -> Option<Seq<char>> {
    match find_from(s, marker, 0) {
        Some(i) => Some(first_line(s.skip(i + marker.len()))),
        None => None,
    }
}

/// What lies between the first `Possible Answers:` in `s`, with the
/// whitespace after it, and the last `Key:` that follows; `None` when either
/// is missing.
pub open spec fn answers_between(s: Seq<char>) -> Option<Seq<char>> {
    match find_from(s, "Possible Answers:"@, 0) {
        Some(i) => {
            let t = text::trim_start_spec(s.skip(i + "Possible Answers:"@.len()));
            match find_last_from(t, "Key:"@, t.len() - "Key:"@.len()) {
                Some(k) => Some(t.take(k)),
                None => None,
            }
        },
        None => None,
    }
}

/// `s` with each run of whitespace made one space.
pub open spec fn whitespace_collapsed(s: Seq<char>) -> Seq<char> {
    collapse_runs(s, |c: char| text::is_ws(c))
}

/// `s` with each run of characters that the clean-up does not keep made one space.
pub open spec fn specials_collapsed(s: Seq<char>) -> Seq<char> {
    collapse_runs(s, |c: char| !is_kept(c))
}

/// The view of an optional owned string.
pub open spec fn opt_string_view(f: Option<String>) -> Option<Seq<char>> {
    match f {
        Some(s) => Some(s@),
        None => None,
    }
}

/// Compiles `pattern` with `regex::Regex::new` and, when that succeeds,
/// replaces the matches in `haystack` through `Regex::replace_all`.
/// Claimed of the crate: the result is `None` exactly when `Regex::new`
/// rejects the pattern, and is otherwise what `replace_all` returns, which
/// depends on the pattern, the haystack and the replacement alone; for any
/// pattern that text is only named. For the two clean-up patterns with the
/// replacement `" "` (which has no `$` group reference) the result is stated:
/// `Regex::new` accepts them, and matching is leftmost-first with greedy
/// repetition, so each maximal run of `\s` (Unicode `White_Space`) or of
/// characters outside `[0-9a-zA-Z.,;:?!#]` becomes one space.
#[verifier::external_body]
fn regex_replace_all(pattern: &str, haystack: &str, replacement: &str) -> (r: Option<String>)
    ensures
        r is Some <==> regex_accepts(pattern@),
        r matches Some(s) ==> s@ == regex_replaced(pattern@, haystack@, replacement@),
        pattern@ == whitespace_runs() && replacement@ == " "@ ==> r is Some && r.unwrap()@
            == whitespace_collapsed(haystack@),
        pattern@ == special_runs() && replacement@ == " "@ ==> r is Some && r.unwrap()@
            == specials_collapsed(haystack@),
{
    match regex::Regex::new(pattern) {
        Ok(re) => Some(re.replace_all(haystack, replacement).into_owned()),
        Err(_) => None,
    }
}

/// Compiles `pattern` with `regex::Regex::new` and, when that succeeds, gives
/// capture group 1 of the first match in `haystack` (`Regex::captures`, then
/// `Captures::get(1)` and `Match::as_str`). Claimed of the crate: the outer
/// `None` comes exactly when `Regex::new` rejects the pattern, and the inner
/// value is the named group text, which depends on the pattern and the
/// haystack alone; for any pattern that text is only named. For the three
/// field patterns the result is stated: `Regex::new` accepts them; `.` takes
/// any character but `\n` (any at all under the `s` flag), `\s` is Unicode
/// `White_Space`, and the match is leftmost-first with greedy repetition. So
/// `Question: (.*)` and `Key: (.*)` give what follows the first `Question: `
/// or `Key: ` on its line, and the answers pattern gives what lies between
/// the first `Possible Answers:` with the whitespace after it and the last
/// `Key:` that follows; each is `None` exactly when its literal parts do not
/// occur so.
#[verifier::external_body]
fn regex_capture_group1(pattern: &str, haystack: &str) -> (r: Option<Option<String>>)
    ensures
        r is Some <==> regex_accepts(pattern@),
        r matches Some(g) ==> (g is Some <==> regex_group1(pattern@, haystack@) is Some),
        r matches Some(Some(s)) ==> regex_group1(pattern@, haystack@) == Some(s@),
        pattern@ == question_field() ==> r is Some && opt_string_view(r.unwrap()) == line_after(
            haystack@,
            "Question: "@,
        ),
        pattern@ == answers_field() ==> r is Some && opt_string_view(r.unwrap())
            == answers_between(haystack@),
        pattern@ == key_field() ==> r is Some && opt_string_view(r.unwrap()) == line_after(
            haystack@,
            "Key: "@,
        ),
{
    match regex::Regex::new(pattern) {
        Ok(re) => Some(
            match re.captures(haystack) {
                Some(caps) => match caps.get(1) {
                    Some(m) => Some(m.as_str().to_string()),
                    None => None,
                },
                None => None,
            },
        ),
        Err(_) => None,
    }
}

/// `content` after both clean-up replacements: whitespace runs, then runs of
/// other characters than letters, digits and `.,;:?!#`, each become one space.
pub open spec fn preprocessed(content: Seq<char>) -> Seq<char> {
    specials_collapsed(whitespace_collapsed(content))
}

/// Cleans source text before it is sent to the model: every run of
/// whitespace becomes one space, then every run of characters other than
/// ASCII letters, digits and `.,;:?!#` becomes one space.
pub fn preprocess_content(content: &str) -> (r: String)
    ensures
        r@ == preprocessed(content@),
{
    let spaced = regex_replace_all(r"\s+", content, " ").unwrap();
    regex_replace_all(r"[^0-9a-zA-Z.,;:?!#]+", spaced.as_str(), " ").unwrap()
}

/// The section marker at which cleaned text is cut into sections.
pub open spec fn section_marker() -> Seq<char> {
    "##### "@
}

/// Cleans source text as `preprocess_content` does and cuts it into the
/// sections between the markers `##### `.
pub fn preprocess_sections(content: &str) -> (r: Vec<String>)
    ensures
        text::string_views(r@) == text::split_spec(preprocessed(content@), section_marker()),
{
    let s = preprocess_content(content);
    proof {
        reveal_strlit("##### ");
    }
    split_on(s.as_str(), "##### ")
}

/// The text of a found field, or the empty text when the field was not found.
pub open spec fn field_or_empty(f: Option<Seq<char>>) -> Seq<char> {
    match f {
        Some(s) => s,
        None => Seq::empty(),
    }
}

/// The view of an optional string.
pub open spec fn opt_view(f: Option<&str>) -> Option<Seq<char>> {
    match f {
        Some(s) => Some(s@),
        None => None,
    }
}

/// The question built from the three fields found in a response: the
/// question and key trimmed, the answers trimmed with each blank line
/// (`\n\n`) closed up to one line break; a missing field gives an empty text.
pub fn question_from_fields(
    question: Option<&str>,
    answer: Option<&str>,
    key: Option<&str>,
) -> (r: QuizQuestion)
    ensures
        r.question@ == text::trimmed(field_or_empty(opt_view(question))),
        r.answer@ == text::replace_spec(
            text::trimmed(field_or_empty(opt_view(answer))),
            "\n\n"@,
            "\n"@,
        ),
        r.key@ == text::trimmed(field_or_empty(opt_view(key))),
{
    let q = match question {
        Some(s) => trim(s),
        None => trim(""),
    };
    let a0 = match answer {
        Some(s) => trim(s),
        None => trim(""),
    };
    proof {
        reveal_strlit("");
        reveal_strlit("\n\n");
    }
    let a = replace_all(a0.as_str(), "\n\n", "\n");
    let k = match key {
        Some(s) => trim(s),
        None => trim(""),
    };
    QuizQuestion::new(q, a, k)
}

/// Reads the question, its possible answers and its key out of a model
/// response with the three field patterns, then builds the question as
/// `question_from_fields` does: the question is what follows the first
/// `Question: ` on its line, the answers what lies between the first
/// `Possible Answers:` (and the whitespace after it) and the last `Key:`, the
/// key what follows the first `Key: ` on its line; a missing field is empty.
pub fn question_from_response(response: &str) -> (r: QuizQuestion)
    ensures
        r.question@ == text::trimmed(field_or_empty(line_after(response@, "Question: "@))),
        r.answer@ == text::replace_spec(
            text::trimmed(field_or_empty(answers_between(response@))),
            "\n\n"@,
            "\n"@,
        ),
        r.key@ == text::trimmed(field_or_empty(line_after(response@, "Key: "@))),
{
    let q = regex_capture_group1(r"Question: (.*)", response).unwrap();
    let a = regex_capture_group1(r"Possible Answers:\s*((?s).*)Key:", response).unwrap();
    let k = regex_capture_group1(r"Key: (.*)", response).unwrap();
    let qr = match &q {
        Some(s) => Some(s.as_str()),
        None => None,
    };
    let ar = match &a {
        Some(s) => Some(s.as_str()),
        None => None,
    };
    let kr = match &k {
        Some(s) => Some(s.as_str()),
        None => None,
    };
    question_from_fields(qr, ar, kr)
}

} // verus!
