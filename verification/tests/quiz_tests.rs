use quizgen::output::{join_lines, render_parsed_quiz};
use quizgen::quiz::{answer_is_correct, display_question, load_quiz, option_letter};
use quizgen::quiz_parser::{parse_quiz_lines, parse_quiz_text, QuizQuestion};

fn q(question: &str, answer: &str, key: &str) -> QuizQuestion {
    QuizQuestion::new(question.to_string(), answer.to_string(), key.to_string())
}

fn texts(v: &[QuizQuestion]) -> Vec<(String, String, String)> {
    v.iter().map(|x| (x.question.clone(), x.answer.clone(), x.key.clone())).collect()
}

#[test]
fn new_keeps_the_three_texts() {
    let x = q("Q", "A", "K");
    assert_eq!((x.question.as_str(), x.answer.as_str(), x.key.as_str()), ("Q", "A", "K"));
}

#[test]
fn parses_a_numbered_question() {
    let r = parse_quiz_text("1. Question: What is 2+2?\nPossible Answers: a) 3 b) 4\nKey: b\n");
    assert_eq!(texts(&r.questions), texts(&[q("What is 2+2?", "a) 3 b) 4", "b")]));
    assert_eq!(r.total, 1);
    assert_eq!(r.improperly_formatted, 0);
}

#[test]
fn answers_on_following_lines_are_joined() {
    let text = "1. Question: Which is prime?\nPossible Answers:\na) 4\nb) 5\nKey: b\n";
    let r = parse_quiz_text(text);
    assert_eq!(texts(&r.questions), texts(&[q("Which is prime?", "\na) 4\nb) 5", "b")]));
    assert_eq!(r.total, 1);
}

#[test]
fn question_text_is_read_from_byte_twelve() {
    let r = parse_quiz_text("Question: What?\nPossible Answers: x\nKey: a\n");
    assert_eq!(texts(&r.questions), texts(&[q("at?", "x", "a")]));
}

#[test]
fn incomplete_questions_are_counted_as_improper() {
    let text = "2. Question: Broken one\n3. Question: Next?\nPossible Answers: x\nKey: a\n4. Question: Last\n";
    let r = parse_quiz_text(text);
    assert_eq!(texts(&r.questions), texts(&[q("Next?", "x", "a")]));
    assert_eq!(r.total, 3);
    assert_eq!(r.improperly_formatted, 2);
    // every question block is either returned or counted as improper
    assert_eq!(r.total, r.questions.len() + r.improperly_formatted);
}

#[test]
fn empty_input_has_no_blocks() {
    let r = parse_quiz_lines(&Vec::new());
    assert!(r.questions.is_empty());
    assert_eq!((r.total, r.improperly_formatted), (0, 0));
}

#[test]
fn parsed_quiz_layout() {
    let s = render_parsed_quiz(&vec![q(" Q ", " A ", "k")]);
    assert_eq!(s, "Question:\nQ\nPossible Answers:\nA\nKey:\nk\n------------------\n\n");
    assert_eq!(join_lines(&vec!["a".to_string(), "b".to_string()]), "a\nb\n");
}

#[test]
fn loads_cards_from_a_parsed_quiz() {
    let text = "Question:\nWhat is 2+2?\nPossible Answers:\n3\n4\nKey:\nB\n------------------\n\nQuestion:\nSecond?\nPossible Answers:\nx\n";
    let cards = load_quiz(text);
    assert_eq!(cards.len(), 2);
    assert_eq!(cards[0].question, "What is 2+2?");
    assert_eq!(cards[0].answers, vec!["3", "4"]);
    assert_eq!(cards[0].key, 'b');
    assert_eq!(cards[1].question, "Second?");
    assert_eq!(cards[1].answers, vec!["x"]);
    // the key is not reset between questions
    assert_eq!(cards[1].key, 'b');
}

#[test]
fn parse_then_render_then_load() {
    let parsed = parse_quiz_text("1. Question: What is 2+2?\nPossible Answers: 4\nKey: a\n");
    let cards = load_quiz(&render_parsed_quiz(&parsed.questions));
    assert_eq!(cards.len(), 1);
    assert_eq!(cards[0].question, "What is 2+2?");
    assert_eq!(cards[0].answers, vec!["4"]);
    assert_eq!(cards[0].key, 'a');
}

#[test]
fn answers_and_letters() {
    assert!(answer_is_correct("  B) four", 'b'));
    assert!(!answer_is_correct("c", 'b'));
    assert!(answer_is_correct("", '\0'));
    assert_eq!(option_letter(0), 'a');
    assert_eq!(option_letter(2), 'c');
    assert_eq!(display_question(": : What?"), "What?");
    assert_eq!(display_question("What?"), "What?");
}

#[test]
fn rendered_quiz_reads_back_one_card_per_question() {
    let qs = vec![
        q("  First?  ", "a) one\n b) two \n", " B "),
        q("Second?", "x", "c) because"),
    ];
    let cards = load_quiz(&render_parsed_quiz(&qs));
    assert_eq!(cards.len(), 2);
    assert_eq!(cards[0].question, "First?");
    assert_eq!(cards[0].answers, vec!["a) one", "b) two"]);
    assert_eq!(cards[0].key, 'b');
    assert_eq!(cards[1].question, "Second?");
    assert_eq!(cards[1].answers, vec!["x"]);
    assert_eq!(cards[1].key, 'c');
}
