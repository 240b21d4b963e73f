use quizgen::output::{
    explanation_output_name, needs_audio_extraction, quiz_output_name, transcript_path,
};
use quizgen::patterns::{preprocess_content, preprocess_sections, question_from_fields, question_from_response};
use quizgen::prompts::{
    chat_model, coherence_request, difficulty_to_num, explanation_prompt, numbered_question,
    question_difficulty, quiz_prompt, section_prompt, section_prompts, topic_prompt,
    explanation_request, question_request, section_question_request,
};

#[test]
fn difficulty_levels() {
    assert_eq!(question_difficulty("easy"), 1);
    assert_eq!(question_difficulty("medium"), 2);
    assert_eq!(question_difficulty("hard"), 3);
    assert_eq!(question_difficulty("unknown"), 1);
    assert_eq!(difficulty_to_num("easy"), 1);
    assert_eq!(difficulty_to_num("medium"), 2);
    assert_eq!(difficulty_to_num("hard"), 3);
}

#[test]
fn law_difficulty_numbers_agree() {
    for level in ["easy", "medium", "hard"] {
        assert_eq!(difficulty_to_num(level), question_difficulty(level) as i32);
    }
}

#[test]
fn long_prompts_get_the_long_context_model() {
    assert_eq!(chat_model("a b c"), "gpt-3.5-turbo");
    let long = vec!["w"; 4098].join(" ");
    assert_eq!(chat_model(&long), "gpt-3.5-turbo-16k");
    let edge = vec!["w"; 4097].join(" ");
    assert_eq!(chat_model(&edge), "gpt-3.5-turbo");
}

#[test]
fn prompt_texts() {
    assert_eq!(
        quiz_prompt("multiple_choice", "easy", "TEXT"),
        "From the following text, please generate a multiple_choice question with a difficulty level of easy:\n\nTEXT\n\n  Your question should assess a core concept from the content. Do not reference the given text or the given code! Please format your output as follows:\nQuestion: [Your question here]\nPossible Answers: [The possible a, b, c, and d answers here]\nKey: [lowercase letter here]"
    );
    assert_eq!(
        section_prompt("short_response", "hard", "S"),
        "From the following text, please generate a short_response question with a difficulty level of hard:\n\nS\n\nPlease format your output as follows:\nQuestion: [Your question here]\nPossible Answers: [The possible a, b, c, and d answers here]\nKey: [lowercase letter here]"
    );
    assert_eq!(
        explanation_prompt("E"),
        "Please rephrase the following explanation:\n\nE\n\nPlease format your output as follows:\nExplanation: [Your rephrased explanation here]"
    );
    assert_eq!(topic_prompt("Q?"), "What is the main topic or concept of this question: \"Q?\"?");
    assert_eq!(
        coherence_request("P", "Q"),
        "Your output should exactly match this format: [your coherence percent score]%. Do not explain your reasoning and do not include the questions/answers in your response. This is the prompt: \"P\" and response \"Q\""
    );
}

#[test]
fn at_most_eleven_sections_are_asked_about() {
    let sections: Vec<String> = (0..15).map(|i| format!("s{}", i)).collect();
    let prompts = section_prompts("t", "easy", &sections);
    assert_eq!(prompts.len(), 11);
    assert_eq!(prompts[10], section_prompt("t", "easy", "s10"));
    assert_eq!(section_prompts("t", "easy", &sections[..3].to_vec()).len(), 3);
}

#[test]
fn numbering() {
    assert_eq!(numbered_question(0, "Q"), "1. Q");
    assert_eq!(numbered_question(41, "x"), "42. x");
}

#[test]
fn cleaning_collapses_runs() {
    assert_eq!(preprocess_content("Hello,\n\n  world!! (x)"), "Hello, world!! x ");
    assert_eq!(preprocess_content("a\t\tb"), "a b");
    assert_eq!(
        preprocess_sections("##### Intro\ntext ##### Two"),
        vec!["", "Intro text ", "Two"]
    );
}

#[test]
fn fields_from_a_response() {
    let r = question_from_response(
        "Question: What is Rust?\nPossible Answers: a) A language\n\nb) A metal\nKey: a",
    );
    assert_eq!(r.question, "What is Rust?");
    assert_eq!(r.answer, "a) A language\nb) A metal");
    assert_eq!(r.key, "a");
    let none = question_from_response("nothing here");
    assert_eq!((none.question.as_str(), none.answer.as_str(), none.key.as_str()), ("", "", ""));
}

#[test]
fn fields_are_trimmed_and_blank_lines_closed() {
    let r = question_from_fields(Some(" Q "), Some(" a\n\n\nb "), None);
    assert_eq!(r.question, "Q");
    assert_eq!(r.answer, "a\n\nb");
    assert_eq!(r.key, "");
}

#[test]
fn output_names() {
    assert_eq!(quiz_output_name("quiz", "multiple_choice", "ch1.md.md"), "quiz_multiple_choice_ch1.txt");
    assert_eq!(explanation_output_name("explanation", "ch2.md"), "explanation_ch2.txt");
    assert_eq!(transcript_path("a.wav"), "./whisper/output/a.wav.txt");
    assert!(needs_audio_extraction(Some("mp4")));
    assert!(needs_audio_extraction(Some("mkv")));
    assert!(!needs_audio_extraction(Some("wav")));
    assert!(!needs_audio_extraction(None));
}

#[test]
fn generation_requests() {
    let r = question_request("Ask me something.");
    assert_eq!(r.model, "gpt-3.5-turbo");
    assert_eq!(r.max_tokens, 200);
    assert_eq!(r.messages.len(), 2);
    assert_eq!(r.messages[0].role, quizgen::evaluation::Role::System);
    assert_eq!(r.messages[0].content, "You are a helpful assistant that generates quiz questions.");
    assert_eq!(r.messages[1].role, quizgen::evaluation::Role::User);
    assert_eq!(r.messages[1].content, "Ask me something.");
    let long = "w ".repeat(4098);
    assert_eq!(question_request(&long).model, "gpt-3.5-turbo-16k");
    let s = section_question_request("P");
    assert_eq!((s.model.as_str(), s.max_tokens), ("gpt-3.5-turbo", 1000));
    let e = explanation_request("P");
    assert_eq!((e.model.as_str(), e.max_tokens), ("gpt-3.5-turbo", 1000));
    assert_eq!(e.messages[0].content, "You are a helpful assistant that rephrases explanations.");
    assert_eq!(e.messages[1].content, "P");
}

#[test]
fn response_fields_take_the_first_line_and_the_last_key() {
    let r = question_from_response(
        "intro Question: First?\nQuestion: Second?\nPossible Answers:\n\t a) Key: not this\nb) two\nKey: b\nKey: c",
    );
    assert_eq!(r.question, "First?");
    assert_eq!(r.answer, "a) Key: not this\nb) two\nKey: b");
    assert_eq!(r.key, "not this");
    // unusual whitespace counts as whitespace
    assert_eq!(preprocess_content("a\u{00a0}\u{2003}b\u{3000}"), "a b ");
}
