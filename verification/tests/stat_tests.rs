use quizgen::common_words;
use quizgen::stat::{count_common_words, count_new_words, count_syllables, readability_counts};

#[test]
fn common_and_new_words_count_question_words_with_repetition() {
    let prompt = "the cat sat";
    let question = "the cat ran the race";
    assert_eq!(count_common_words(prompt, question), 3);
    assert_eq!(count_new_words(prompt, question), 2);
}

#[test]
fn law_common_plus_new_is_question_length() {
    let prompt = "Rust is a systems language with ownership";
    let question = "What does ownership mean in Rust and why does Rust use it";
    let total = question.split_whitespace().count();
    assert_eq!(count_common_words(prompt, question) + count_new_words(prompt, question), total);
}

#[test]
fn syllable_estimates() {
    assert_eq!(count_syllables("table"), 1);
    assert_eq!(count_syllables("hello"), 2);
    assert_eq!(count_syllables("queue"), 1);
    assert_eq!(count_syllables("rhythm"), 1);
    assert_eq!(count_syllables(""), 1);
    assert_eq!(count_syllables("Apple"), 1);
    assert_eq!(count_syllables("beautiful"), 3);
}

#[test]
fn readability_counts_keep_empty_pieces() {
    let r = readability_counts("Hi there. Bye!");
    assert_eq!(r.sentences, 3);
    assert_eq!(r.words, 5);
    assert_eq!(r.syllables, 5);
    let e = readability_counts("");
    assert_eq!((e.sentences, e.words, e.syllables), (1, 1, 1));
}

#[test]
fn overlap_of_distinct_words() {
    let r = common_words::count_common_words("a b c", "b c d d");
    assert_eq!(r.common, 2);
    assert_eq!(r.total_unique, 4);
    let e = common_words::count_common_words("", "");
    assert_eq!((e.common, e.total_unique), (0, 0));
}

#[test]
fn law_overlap_is_symmetric() {
    let p = "one two three two";
    let q = "three four one";
    assert_eq!(common_words::count_common_words(p, q), common_words::count_common_words(q, p));
}

#[test]
fn more_prompt_words_never_share_fewer() {
    let question = "the cat ran the race";
    let small = count_common_words("cat", question);
    let large = count_common_words("the cat sat", question);
    assert_eq!(small, 1);
    assert_eq!(large, 3);
    assert!(small <= large);
    // the same words, reordered and repeated, give the same count
    assert_eq!(count_common_words("sat cat the the", question), large);
}
