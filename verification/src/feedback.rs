//! Grammar feedback on one utterance: what the tutor model is asked, when
//! it is not asked at all, and the record kept of its answer.
use vstd::prelude::*;
use crate::text::{count_words, push_str, word_count};

verus! {

/// The tutor's answer for one utterance.
#[derive(Debug, Clone)]
pub struct FeedbackResult {
    /// What the learner said.
    pub original: String,
    /// The grammatically corrected sentence, when there was an error.
    pub corrected: Option<String>,
    /// A more natural phrasing, when the sentence was not already natural.
    pub better_expression: Option<String>,
    /// One idiom or word worth learning from the context (`phrase: meaning`).
    pub idiom_or_vocab: Option<String>,
    /// Whether the sentence needs correcting.
    pub has_error: bool,
}

/// The instructions sent to the tutor model before the learner's sentence.
pub const SYSTEM_PROMPT: &'static str = "You are a concise English language tutor for a Korean learner in an online lesson.\nAnalyze the student's spoken English sentence and return ONLY a JSON object.\n\nRequired JSON fields:\n- \"has_error\": boolean (true if grammar/vocabulary issue exists)\n- \"corrected\": string or null (corrected sentence, null if no error)  \n- \"better_expression\": string or null (more natural phrasing, null if already natural)\n- \"idiom_or_vocab\": string or null (one useful idiom or word from this context, format: \"phrase: meaning\")\n\nRules:\n- Be concise. No explanations outside JSON.\n- Only suggest corrections for clear errors, not stylistic preferences.\n- Pick idiom_or_vocab only if genuinely useful for an intermediate learner.\n\nExample output:\n{\"has_error\":true,\"corrected\":\"I went to school yesterday\",\"better_expression\":\"I headed to school yesterday\",\"idiom_or_vocab\":\"head to: to go toward a place\"}";

/// Utterances with fewer words than this are not sent to the model.
pub const MIN_WORDS_FOR_FEEDBACK: usize = 3;

/// A copy of an optional string.
pub fn clone_opt(o: &Option<String>) -> (r: Option<String>)
    ensures
        r == *o,
{
    match o {
        Some(s) => Some(s.clone()),
        None => None,
    }
}

/// A copy of a feedback record.
pub fn clone_feedback(f: &FeedbackResult) -> (r: FeedbackResult)
    ensures
        r == *f,
{
    FeedbackResult {
        original: f.original.clone(),
        corrected: clone_opt(&f.corrected),
        better_expression: clone_opt(&f.better_expression),
        idiom_or_vocab: clone_opt(&f.idiom_or_vocab),
        has_error: f.has_error,
    }
}

/// The feedback recorded for `text` without consulting the model: the
/// sentence itself, no corrections, no error.
pub open spec fn is_plain_feedback(f: FeedbackResult, text: Seq<char>) -> bool {
    &&& f.original@ == text
    &&& f.corrected is None
    &&& f.better_expression is None
    &&& f.idiom_or_vocab is None
    &&& !f.has_error
}

/// Feedback that records `text` as said, with nothing to correct.
pub fn plain_feedback(text: &str) -> (r: FeedbackResult)
    ensures
        is_plain_feedback(r, text@),
{
    FeedbackResult {
        original: text.to_owned(),
        corrected: None,
        better_expression: None,
        idiom_or_vocab: None,
        has_error: false,
    }
}

/// The answer for an utterance too short to be worth a model call (fewer
/// than three words), or `None` when the model must be asked.
pub fn feedback_without_llm(text: &str) -> (r: Option<FeedbackResult>)
    ensures
        r is Some <==> word_count(text@) < MIN_WORDS_FOR_FEEDBACK,
        r matches Some(f) ==> is_plain_feedback(f, text@),
{
    if count_words(text) < MIN_WORDS_FOR_FEEDBACK {
        Some(plain_feedback(text))
    } else {
        None
    }
}

/// The prompt sent to the model for `text`.
pub open spec fn prompt_text(text: Seq<char>) -> Seq<char> {
    SYSTEM_PROMPT@ + "\n\nStudent said: \""@ + text + "\""@
}

/// Builds the prompt for `text`.
pub fn build_prompt(text: &str) -> (r: String)
    ensures
        r@ == prompt_text(text@),
{
    let mut s = String::new();
    push_str(&mut s, SYSTEM_PROMPT);
    push_str(&mut s, "\n\nStudent said: \"");
    push_str(&mut s, text);
    push_str(&mut s, "\"");
    s
}

/// The model's answer with the learner's own sentence filled in (the model
/// is not asked to repeat it).
pub fn with_original(answer: FeedbackResult, text: &str) -> (r: FeedbackResult)
    ensures
        r.original@ == text@,
        r.corrected == answer.corrected,
        r.better_expression == answer.better_expression,
        r.idiom_or_vocab == answer.idiom_or_vocab,
        r.has_error == answer.has_error,
{
    let mut r = answer;
    r.original = text.to_owned();
    r
}

} // verus!
