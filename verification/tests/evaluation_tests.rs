use quizgen::evaluation::{
    after_failed_call, find_question_by_id, ChatOutcome, CoherenceAction, CoherenceCheck, Question,
    RetryAction, Role, Rubric, Section,
};
use quizgen::prompts::topic_request;
use quizgen::sampling::{batch_with_pick, evaluation_batch, evaluation_order};
use quizgen::similarity::keyword_matches;

fn question(id: &str, task: &str, yes: Option<&str>, no: Option<&str>) -> Question {
    Question {
        question_id: id.to_string(),
        task: task.to_string(),
        score: String::new(),
        action_yes: yes.map(|s| s.to_string()),
        action_no: no.map(|s| s.to_string()),
        comments: String::new(),
    }
}

fn rubric() -> Rubric {
    Rubric {
        title: "R".to_string(),
        date_assessed: String::new(),
        assessed_by: String::new(),
        sections: vec![
            Section {
                section_id: "s1".to_string(),
                title: "one".to_string(),
                questions: vec![question("1", "Is it clear?", Some("2"), None)],
            },
            Section {
                section_id: "s2".to_string(),
                title: "two".to_string(),
                questions: vec![
                    question("2", "Is it deep?", None, None),
                    question("2", "shadowed", None, None),
                ],
            },
        ],
    }
}

#[test]
fn finds_the_first_question_with_an_id() {
    let r = rubric();
    assert_eq!(find_question_by_id(&r, "2").unwrap().task, "Is it deep?");
    assert_eq!(find_question_by_id(&r, "1").unwrap().task, "Is it clear?");
    assert!(find_question_by_id(&r, "").is_none());
}

#[test]
fn a_walk_through_the_rubric() {
    let r = rubric();
    let (mut check, action) = CoherenceCheck::start("What is X?", &r, "gpt-4", Vec::new());
    match action {
        CoherenceAction::Ask(req) => {
            assert_eq!(req.model, "gpt-4");
            assert_eq!(req.max_tokens, 500);
            let req = req.messages;
            assert_eq!(req.len(), 2);
            assert_eq!(req[0].role, Role::System);
            assert_eq!(
                req[0].content,
                "Your job is to evaluate the quality of the following question (What is X?) based on the yes/no questions asked to you:"
            );
            assert_eq!(req[1].role, Role::User);
            assert_eq!(
                req[1].content,
                "This is the question being asked about the question being evaluated, respond with a yes or no: Is it clear?"
            );
        }
        _ => panic!("expected a question"),
    }
    // a yes leads to id "2": that question is asked next
    match check.step(&r, ChatOutcome::Reply("Yes.".to_string())) {
        CoherenceAction::Ask(req) => {
            assert_eq!(req.model, "gpt-4");
            assert_eq!(req.messages.len(), 4);
            assert_eq!(req.messages[2].role, Role::Assistant);
            assert_eq!(req.messages[2].content, "Yes.");
            assert_eq!(req.messages[3].role, Role::User);
            assert_eq!(
                req.messages[3].content,
                "This is the question being asked about the question being evaluated, respond with a yes or no: Is it deep?"
            );
        }
        _ => panic!("expected the follow-up question"),
    }
    assert_eq!(check.score, 1);
    assert_eq!(check.current_id, "2");
    // a no has no follow-up: the walk ends
    match check.step(&r, ChatOutcome::Reply("No.".to_string())) {
        CoherenceAction::Done(score) => assert_eq!(score, 1),
        _ => panic!("expected the end"),
    }
    assert_eq!(check.messages.len(), 5);
    assert_eq!(check.messages[4].role, Role::Assistant);
}

#[test]
fn two_yes_replies_end_the_walk_with_two() {
    let r = rubric();
    let (mut check, _) = CoherenceCheck::start("Q", &r, "gpt-4", Vec::new());
    assert!(matches!(check.step(&r, ChatOutcome::Reply("Yes".to_string())), CoherenceAction::Ask(_)));
    match check.step(&r, ChatOutcome::Reply("Yes".to_string())) {
        CoherenceAction::Done(score) => assert_eq!(score, 2),
        _ => panic!("expected the end"),
    }
}

#[test]
fn a_follow_up_id_that_names_no_question_ends_the_walk() {
    let mut r = rubric();
    r.sections[0].questions[0].action_no = Some("9".to_string());
    let (mut check, _) = CoherenceCheck::start("Q", &r, "gpt-4", Vec::new());
    match check.step(&r, ChatOutcome::Reply("no".to_string())) {
        CoherenceAction::Done(score) => assert_eq!(score, 0),
        _ => panic!("expected the end"),
    }
    assert!(check.asking.is_none());
}

#[test]
fn ten_failures_give_minus_one_and_ask_again() {
    let r = rubric();
    let (mut check, _) = CoherenceCheck::start("Q", &r, "gpt-4", Vec::new());
    for _ in 0..9 {
        match check.step(&r, ChatOutcome::Failure) {
            CoherenceAction::RetryAfterPause(req) => {
                assert_eq!(req.model, "gpt-4");
                assert_eq!(req.messages.len(), 2)
            }
            _ => panic!("expected a retry"),
        }
    }
    match check.step(&r, ChatOutcome::Failure) {
        CoherenceAction::Ask(req) => assert_eq!(req.messages.len(), 3),
        _ => panic!("expected the question again"),
    }
    assert_eq!(check.score, -1);
    assert_eq!(check.tries, 0);
}

#[test]
fn keywords_are_matched_in_lower_case() {
    let m = keyword_matches("Rust is FAST\nand safe", "rust\nSafe\n");
    assert_eq!(m.total_words, 5);
    assert_eq!(m.matching_words, 2);
    let e = keyword_matches("", "x");
    assert_eq!((e.total_words, e.matching_words), (0, 0));
}

#[test]
fn evaluation_order_is_a_permutation() {
    let names: Vec<String> = vec!["a".into(), "b".into(), "c".into(), "b".into()];
    let mut shuffled = evaluation_order(names.clone());
    shuffled.sort();
    let mut sorted = names;
    sorted.sort();
    assert_eq!(shuffled, sorted);
}

#[test]
fn evaluation_batch_may_repeat_one_question() {
    let tuples: Vec<(i32, String, String)> =
        (0..5).map(|i| (i, format!("p{}", i), format!("q{}", i))).collect();
    for _ in 0..20 {
        let batch = evaluation_batch(tuples.clone());
        assert!(batch.len() == 5 || batch.len() == 6);
        for t in &tuples {
            assert!(batch.contains(t));
        }
        for t in &batch {
            assert!(tuples.contains(t));
        }
        let mut first: Vec<(i32, String, String)> = batch[..5].to_vec();
        first.sort();
        assert_eq!(first, tuples);
    }
    assert!(evaluation_batch(Vec::new()).is_empty());
}

#[test]
fn batch_with_pick_adds_the_pick_on_heads() {
    let t = |i: i32| (i, format!("p{}", i), format!("q{}", i));
    let v = vec![t(2), t(1)];
    assert_eq!(batch_with_pick(v.clone(), 1, Some(t(1))), vec![t(2), t(1), t(1)]);
    assert_eq!(batch_with_pick(v.clone(), 0, Some(t(1))), v);
    assert_eq!(batch_with_pick(v.clone(), 1, None), v);
}

#[test]
fn failed_calls_give_up_at_the_tenth() {
    assert!(matches!(after_failed_call(1), RetryAction::Wait));
    assert!(matches!(after_failed_call(9), RetryAction::Wait));
    assert!(matches!(after_failed_call(10), RetryAction::GiveUp));
}

#[test]
fn topic_request_asks_the_small_model() {
    let req = topic_request("What is 2+2?");
    assert_eq!(req.model, "gpt-3.5-turbo-16k");
    assert_eq!(req.max_tokens, 100);
    assert_eq!(req.messages.len(), 1);
    assert_eq!(req.messages[0].role, Role::System);
    assert_eq!(req.messages[0].content, "What is the main topic or concept of this question: \"What is 2+2?\"?");
}
