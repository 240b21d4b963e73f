//! The texts and file names written out: generated items one per line,
//! parsed quizzes in their fixed layout, and the output file names.
use vstd::prelude::*;
use vstd::string::*;
use crate::quiz_parser::{QuizQuestion, QuizTexts};
use crate::quiz_parser;
use crate::text;
use crate::text::{str_eq, trim, trim_end_matches};

verus! {

/// The items `items`, each followed by a line break.
pub open spec fn joined_lines(items: Seq<Seq<char>>) -> Seq<char>
    decreases items.len(),
{
    if items.len() == 0 {
        Seq::empty()
    } else {
        joined_lines(items.drop_last()) + items.last() + "\n"@
    }
}

/// The items, each on a line of its own.
pub fn join_lines(items: &Vec<String>) -> (s: String)
    ensures
        s@ == joined_lines(text::string_views(items@)),
{
    let ghost v = text::string_views(items@);
    let mut s = String::new();
    let mut i: usize = 0;
    assert(v.take(0) =~= Seq::<Seq<char>>::empty());
    while i < items.len()
        invariant
            i <= items@.len(),
            v == text::string_views(items@),
            s@ == joined_lines(v.take(i as int)),
        decreases items@.len() - i,
    {
        assert(v.take(i + 1).drop_last() =~= v.take(i as int));
        assert(v.take(i + 1).last() == items@[i as int]@);
        s.append(items[i].as_str());
        s.append("\n");
        i = i + 1;
    }
    assert(v.take(items@.len() as int) =~= v);
    s
}

/// The block that a parsed question is written as.
pub open spec fn parsed_block(q: QuizTexts) -> Seq<char> {
    "Question:\n"@ + text::trimmed(q.0) + "\nPossible Answers:\n"@ + text::trimmed(q.1)
        + "\nKey:\n"@ + q.2 + "\n------------------\n\n"@
}

/// The blocks of the questions `qs`, one after the other.
pub open spec fn parsed_quiz_text(qs: Seq<QuizTexts>) -> Seq<char>
    decreases qs.len(),
{
    if qs.len() == 0 {
        Seq::empty()
    } else {
        parsed_quiz_text(qs.drop_last()) + parsed_block(qs.last())
    }
}

/// The text of a parsed quiz file: for each question, `Question:`, its
/// trimmed text, `Possible Answers:`, the trimmed answers, `Key:` and the
/// key, each on a line of its own, then a dashed line and a blank line.
pub fn render_parsed_quiz(questions: &Vec<QuizQuestion>) -> (s: String)
    ensures
        s@ == parsed_quiz_text(quiz_parser::quiz_views(questions@)),
{
    let ghost v = quiz_parser::quiz_views(questions@);
    let mut s = String::new();
    let mut i: usize = 0;
    assert(v.take(0) =~= Seq::<QuizTexts>::empty());
    while i < questions.len()
        invariant
            i <= questions@.len(),
            v == quiz_parser::quiz_views(questions@),
            s@ == parsed_quiz_text(v.take(i as int)),
        decreases questions@.len() - i,
    {
        assert(v.take(i + 1).drop_last() =~= v.take(i as int));
        assert(v.take(i + 1).last() == questions@[i as int]@);
        let q = &questions[i];
        let ghost before = s@;
        s.append("Question:\n");
        s.append(trim(q.question.as_str()).as_str());
        s.append("\nPossible Answers:\n");
        s.append(trim(q.answer.as_str()).as_str());
        s.append("\nKey:\n");
        s.append(q.key.as_str());
        s.append("\n------------------\n\n");
        assert(s@ =~= before + parsed_block(q@));
        i = i + 1;
    }
    assert(v.take(questions@.len() as int) =~= v);
    s
}

/// The name of the file a quiz is saved to: the generation mode, the
/// question type and the source file's name without its trailing `.md`
/// copies, joined by underscores, with `.txt` added.
pub open spec fn quiz_output_name_spec(
    generation_mode: Seq<char>,
    question_type: Seq<char>,
    file: Seq<char>,
) -> Seq<char> {
    generation_mode + "_"@ + question_type + "_"@ + text::strip_trailing(file, ".md"@) + ".txt"@
}

/// The file name a generated quiz for `file` is saved under.
pub fn quiz_output_name(generation_mode: &str, question_type: &str, file: &str) -> (s: String)
    ensures
        s@ == quiz_output_name_spec(generation_mode@, question_type@, file@),
{
    proof {
        reveal_strlit(".md");
    }
    let stem = trim_end_matches(file, ".md");
    let mut s = String::from_str(generation_mode);
    s.append("_");
    s.append(question_type);
    s.append("_");
    s.append(stem.as_str());
    s.append(".txt");
    s
}

/// The name of the file generated explanations are saved to.
pub open spec fn explanation_output_name_spec(generation_mode: Seq<char>, file: Seq<char>) -> Seq<
    char,
> {
    generation_mode + "_"@ + text::strip_trailing(file, ".md"@) + ".txt"@
}

/// The file name generated explanations for `file` are saved under.
pub fn explanation_output_name(generation_mode: &str, file: &str) -> (s: String)
    ensures
        s@ == explanation_output_name_spec(generation_mode@, file@),
{
    proof {
        reveal_strlit(".md");
    }
    let stem = trim_end_matches(file, ".md");
    let mut s = String::from_str(generation_mode);
    s.append("_");
    s.append(stem.as_str());
    s.append(".txt");
    s
}

/// The path a transcript of the input file `file_name` is written to.
pub fn transcript_path(file_name: &str) -> (s: String)
    ensures
        s@ == "./whisper/output/"@ + file_name@ + ".txt"@,
{
    let mut s = String::from_str("./whisper/output/");
    s.append(file_name);
    s.append(".txt");
    s
}

/// The file extensions of video files, whose audio track is extracted first.
pub open spec fn is_video_extension(extension: Option<Seq<char>>) -> bool {
    match extension {
        Some(e) => e == "mp4"@ || e == "avi"@ || e == "mkv"@,
        None => false,
    }
}

/// Whether an input file with this extension is a video whose audio track
/// must be extracted before transcription.
pub fn needs_audio_extraction(extension: Option<&str>) -> (b: bool)
    ensures
        b == is_video_extension(
            match extension {
                Some(e) => Some(e@),
                None => None,
            },
        ),
{
    match extension {
        Some(e) => str_eq(e, "mp4") || str_eq(e, "avi") || str_eq(e, "mkv"),
        None => false,
    }
}

} // verus!
