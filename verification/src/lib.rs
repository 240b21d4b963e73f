//! Quiz generation from study material: cleaning source text, building the
//! prompts sent to language models, parsing the generated quizzes, running
//! them, and measuring the questions (word overlap, syllables, keyword
//! matches, rubric-driven evaluation).

pub mod common_words;
pub mod evaluation;
pub mod output;
pub mod patterns;
pub mod prompts;
pub mod query;
pub mod quiz;
pub mod quiz_parser;
pub mod readback;
pub mod sampling;
pub mod similarity;
pub mod stat;
pub mod text;
