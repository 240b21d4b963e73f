//! The texts sent to the language models and the choices made before a call:
//! difficulty levels, the chat model, and which sections are asked about.
use vstd::prelude::*;
use vstd::string::*;
use crate::text;
use crate::text::{decimal_string, str_eq, word_count};
use crate::evaluation::{message_views, request_is, ChatMessage, ChatRequest, Role};

verus! {

/// The rank of a difficulty level name: `easy` 1, `medium` 2, `hard` 3, and 1
/// for any other name.
pub open spec fn difficulty_rank(level: Seq<char>) -> u8 {
    if level == "easy"@ {
        1
    } else if level == "medium"@ {
        2
    } else if level == "hard"@ {
        3
    } else {
        1
    }
}

/// The rank of a difficulty level name, 1 for an unknown name.
pub fn question_difficulty(difficulty_level: &str) -> (d: u8)
    ensures
        d == difficulty_rank(difficulty_level@),
{
    if str_eq(difficulty_level, "easy") {
        1
    } else if str_eq(difficulty_level, "medium") {
        2
    } else if str_eq(difficulty_level, "hard") {
        3
    } else {
        1
    }
}

/// The three difficulty level names.
pub open spec fn is_difficulty_level(level: Seq<char>) -> bool {
    level == "easy"@ || level == "medium"@ || level == "hard"@
}

/// The number stored for a difficulty level name.
pub open spec fn difficulty_number(level: Seq<char>) -> i32 {
    if level == "easy"@ {
        1
    } else if level == "medium"@ {
        2
    } else {
        3
    }
}

/// The number stored with a generated question for its difficulty level;
/// only the three level names are accepted.
pub fn difficulty_to_num(difficulty: &str) -> (d: i32)
    requires
        is_difficulty_level(difficulty@),
    ensures
        d == difficulty_number(difficulty@),
{
    if str_eq(difficulty, "easy") {
        1
    } else if str_eq(difficulty, "medium") {
        2
    } else {
        3
    }
}

/// The two ways of numbering a difficulty level agree on the three level names.
pub proof fn law_difficulty_numbers_agree(level: Seq<char>)
    requires
        is_difficulty_level(level),
    ensures
        difficulty_number(level) as int == difficulty_rank(level) as int,
{
}

/// The number of words above which a prompt goes to the long-context model.
pub const LONG_PROMPT_WORDS: usize = 4097;

/// The chat model for a prompt: the 16k-context model for prompts of more
/// than `LONG_PROMPT_WORDS` words, the standard one otherwise.
pub open spec fn chat_model_for(prompt: Seq<char>) -> Seq<char> {
    if text::words(prompt).len() > LONG_PROMPT_WORDS {
        "gpt-3.5-turbo-16k"@
    } else {
        "gpt-3.5-turbo"@
    }
}

/// The chat model to ask for a question generated from `prompt`.
pub fn chat_model(prompt: &str) -> (m: String)
    ensures
        m@ == chat_model_for(prompt@),
{
    if word_count(prompt) > LONG_PROMPT_WORDS {
        String::from_str("gpt-3.5-turbo-16k")
    } else {
        String::from_str("gpt-3.5-turbo")
    }
}

/// The instructions that close a question-generation prompt.
pub open spec fn answer_format() -> Seq<char> {
    "Please format your output as follows:\nQuestion: [Your question here]\nPossible Answers: [The possible a, b, c, and d answers here]\nKey: [lowercase letter here]"@
}

/// The prompt asking for one question on `content`.
pub open spec fn quiz_prompt_spec(
    question_type: Seq<char>,
    difficulty_level: Seq<char>,
    content: Seq<char>,
) -> Seq<char> {
    "From the following text, please generate a "@ + question_type
        + " question with a difficulty level of "@ + difficulty_level + ":\n\n"@ + content
        + "\n\n  Your question should assess a core concept from the content. Do not reference the given text or the given code! "@
        + answer_format()
}

/// The prompt asking for one question of the given type and difficulty on `content`.
pub fn quiz_prompt(question_type: &str, difficulty_level: &str, content: &str) -> (p: String)
    ensures
        p@ == quiz_prompt_spec(question_type@, difficulty_level@, content@),
{
    let mut p = String::from_str("From the following text, please generate a ");
    p.append(question_type);
    p.append(" question with a difficulty level of ");
    p.append(difficulty_level);
    p.append(":\n\n");
    p.append(content);
    p.append(
        "\n\n  Your question should assess a core concept from the content. Do not reference the given text or the given code! ",
    );
    p.append(
        "Please format your output as follows:\nQuestion: [Your question here]\nPossible Answers: [The possible a, b, c, and d answers here]\nKey: [lowercase letter here]",
    );
    p
}

/// The prompt asking for one question on a section of a text.
pub open spec fn section_prompt_spec(
    question_type: Seq<char>,
    difficulty_level: Seq<char>,
    section: Seq<char>,
) -> Seq<char> {
    "From the following text, please generate a "@ + question_type
        + " question with a difficulty level of "@ + difficulty_level + ":\n\n"@ + section
        + "\n\n"@ + answer_format()
}

/// The prompt asking for one question of the given type and difficulty on a section.
pub fn section_prompt(question_type: &str, difficulty_level: &str, section: &str) -> (p: String)
    ensures
        p@ == section_prompt_spec(question_type@, difficulty_level@, section@),
{
    let mut p = String::from_str("From the following text, please generate a ");
    p.append(question_type);
    p.append(" question with a difficulty level of ");
    p.append(difficulty_level);
    p.append(":\n\n");
    p.append(section);
    p.append("\n\n");
    p.append(
        "Please format your output as follows:\nQuestion: [Your question here]\nPossible Answers: [The possible a, b, c, and d answers here]\nKey: [lowercase letter here]",
    );
    p
}

/// The number of sections of a text that questions are generated for.
pub const MAX_SECTIONS: usize = 11;

/// The prompts for the first `MAX_SECTIONS` sections of a text, in order.
pub fn section_prompts(
    question_type: &str,
    difficulty_level: &str,
    sections: &Vec<String>,
) -> (r: Vec<String>)
    ensures
        r@.len() == if sections@.len() < MAX_SECTIONS {
            sections@.len()
        } else {
            MAX_SECTIONS as nat
        },
        forall|i: int|
            0 <= i < r@.len() ==> #[trigger] r@[i]@ == section_prompt_spec(
                question_type@,
                difficulty_level@,
                sections@[i]@,
            ),
{
    let mut r: Vec<String> = Vec::new();
    let mut i: usize = 0;
    while i < sections.len() && i < MAX_SECTIONS
        invariant
            i <= sections@.len(),
            i <= MAX_SECTIONS,
            r@.len() == i,
            forall|j: int|
                0 <= j < i ==> #[trigger] r@[j]@ == section_prompt_spec(
                    question_type@,
                    difficulty_level@,
                    sections@[j]@,
                ),
        decreases sections@.len() - i,
    {
        r.push(section_prompt(question_type, difficulty_level, sections[i].as_str()));
        i = i + 1;
    }
    r
}

/// A generated question as it is listed: its one-based number, a dot, a
/// space and the question.
pub fn numbered_question(index: usize, question: &str) -> (s: String)
    requires
        index < usize::MAX,
    ensures
        s@ == text::decimal(index as nat + 1) + ". "@ + question@,
{
    let mut s = decimal_string(index as u64 + 1);
    s.append(". ");
    s.append(question);
    s
}

/// The prompt asking for an explanation to be rephrased.
pub open spec fn explanation_prompt_spec(content: Seq<char>) -> Seq<char> {
    "Please rephrase the following explanation:\n\n"@ + content
        + "\n\nPlease format your output as follows:\nExplanation: [Your rephrased explanation here]"@
}

/// The prompt asking for the explanation `content` to be rephrased.
pub fn explanation_prompt(content: &str) -> (p: String)
    ensures
        p@ == explanation_prompt_spec(content@),
{
    let mut p = String::from_str("Please rephrase the following explanation:\n\n");
    p.append(content);
    p.append(
        "\n\nPlease format your output as follows:\nExplanation: [Your rephrased explanation here]",
    );
    p
}

/// The prompt asking for the main topic of a question.
pub open spec fn topic_prompt_spec(question: Seq<char>) -> Seq<char> {
    "What is the main topic or concept of this question: \""@ + question + "\"?"@
}

/// The prompt asking for the main topic or concept of `question`.
pub fn topic_prompt(question: &str) -> (p: String)
    ensures
        p@ == topic_prompt_spec(question@),
{
    let mut p = String::from_str("What is the main topic or concept of this question: \"");
    p.append(question);
    p.append("\"?");
    p
}

/// The most tokens the model may answer a topic question with.
pub const TOPIC_MAX_TOKENS: u32 = 100;

/// The call asking for the main topic of `question`: the model
/// `gpt-3.5-turbo-16k`, one system message holding the topic prompt, and a
/// reply of at most `TOPIC_MAX_TOKENS` tokens.
pub fn topic_request(question: &str) -> (r: ChatRequest)
    ensures
        request_is(
            r,
            "gpt-3.5-turbo-16k"@,
            seq![(Role::System, topic_prompt_spec(question@))],
            TOPIC_MAX_TOKENS,
        ),
{
    let mut messages: Vec<ChatMessage> = Vec::new();
    messages.push(ChatMessage { role: Role::System, content: topic_prompt(question) });
    assert(message_views(messages@) =~= seq![(Role::System, topic_prompt_spec(question@))]);
    ChatRequest {
        model: String::from_str("gpt-3.5-turbo-16k"),
        messages,
        max_tokens: TOPIC_MAX_TOKENS,
    }
}

/// The system message of calls that generate quiz questions.
pub open spec fn question_system_spec() -> Seq<char> {
    "You are a helpful assistant that generates quiz questions."@
}

/// The system message of calls that rephrase explanations.
pub open spec fn explanation_system_spec() -> Seq<char> {
    "You are a helpful assistant that rephrases explanations."@
}

/// The most tokens of a generated question.
pub const QUESTION_MAX_TOKENS: u32 = 200;

/// The most tokens of a question on one section, and of an explanation.
pub const LONG_REPLY_MAX_TOKENS: u32 = 1000;

/// A call of `model` with the system message `system`, then the user message
/// `prompt`, its reply capped at `max_tokens` tokens.
fn system_user_request(model: String, system: String, prompt: &str, max_tokens: u32) -> (r:
    ChatRequest)
    ensures
        request_is(
            r,
            model@,
            seq![(Role::System, system@), (Role::User, prompt@)],
            max_tokens,
        ),
{
    let mut messages: Vec<ChatMessage> = Vec::new();
    messages.push(ChatMessage { role: Role::System, content: system });
    messages.push(ChatMessage { role: Role::User, content: prompt.to_string() });
    assert(message_views(messages@) =~= seq![(Role::System, system@), (Role::User, prompt@)]);
    ChatRequest { model, messages, max_tokens }
}

/// The call that generates a quiz question from `prompt`: the model that
/// `chat_model` picks for it, the question-generating system message, the
/// prompt as the user message, and a reply of at most
/// `QUESTION_MAX_TOKENS` tokens.
pub fn question_request(prompt: &str) -> (r: ChatRequest)
    ensures
        request_is(
            r,
            chat_model_for(prompt@),
            seq![(Role::System, question_system_spec()), (Role::User, prompt@)],
            QUESTION_MAX_TOKENS,
        ),
{
    system_user_request(
        chat_model(prompt),
        String::from_str("You are a helpful assistant that generates quiz questions."),
        prompt,
        QUESTION_MAX_TOKENS,
    )
}

/// The call that generates a question on one section: the model
/// `gpt-3.5-turbo`, the question-generating system message, the prompt as
/// the user message, and a reply of at most `LONG_REPLY_MAX_TOKENS` tokens.
pub fn section_question_request(prompt: &str) -> (r: ChatRequest)
    ensures
        request_is(
            r,
            "gpt-3.5-turbo"@,
            seq![(Role::System, question_system_spec()), (Role::User, prompt@)],
            LONG_REPLY_MAX_TOKENS,
        ),
{
    system_user_request(
        String::from_str("gpt-3.5-turbo"),
        String::from_str("You are a helpful assistant that generates quiz questions."),
        prompt,
        LONG_REPLY_MAX_TOKENS,
    )
}

/// The call that rephrases an explanation: the model `gpt-3.5-turbo`, the
/// rephrasing system message, the prompt as the user message, and a reply of
/// at most `LONG_REPLY_MAX_TOKENS` tokens.
pub fn explanation_request(prompt: &str) -> (r: ChatRequest)
    ensures
        request_is(
            r,
            "gpt-3.5-turbo"@,
            seq![(Role::System, explanation_system_spec()), (Role::User, prompt@)],
            LONG_REPLY_MAX_TOKENS,
        ),
{
    system_user_request(
        String::from_str("gpt-3.5-turbo"),
        String::from_str("You are a helpful assistant that rephrases explanations."),
        prompt,
        LONG_REPLY_MAX_TOKENS,
    )
}

/// The message asking Bard for a coherence percentage of a prompt and its response.
pub open spec fn coherence_request_spec(prompt: Seq<char>, question: Seq<char>) -> Seq<char> {
    "Your output should exactly match this format: [your coherence percent score]%. Do not explain your reasoning and do not include the questions/answers in your response. This is the prompt: \""@
        + prompt + "\" and response \""@ + question + "\""@
}

/// The message asking Bard how coherent `question` is as a response to `prompt`.
pub fn coherence_request(prompt: &str, question: &str) -> (m: String)
    ensures
        m@ == coherence_request_spec(prompt@, question@),
{
    let mut m = String::from_str(
        "Your output should exactly match this format: [your coherence percent score]%. Do not explain your reasoning and do not include the questions/answers in your response. This is the prompt: \"",
    );
    m.append(prompt);
    m.append("\" and response \"");
    m.append(question);
    m.append("\"");
    m
}

/// The line that records a call of the chat model: the time in seconds
/// since the Unix epoch, the prompt and the request's parameters.
pub fn api_log_line(seconds: u64, prompt: &str, api_parameters: &str) -> (s: String)
    ensures
        s@ == text::decimal(seconds as nat) + ": Prompt: "@ + prompt@ + ", API parameters: "@
            + api_parameters@,
{
    let mut s = decimal_string(seconds);
    s.append(": Prompt: ");
    s.append(prompt);
    s.append(", API parameters: ");
    s.append(api_parameters);
    s
}

} // verus!
