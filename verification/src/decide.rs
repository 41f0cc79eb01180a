//! The decide stage's pure logic: build the relevance prompt, read a
//! `{score, reason}` decision defensively out of the model's reply, and
//! compare the score to the topic threshold.

use vstd::prelude::*;
use crate::text::{chars_of, string_of, push_all, trim, trim_chars, first_n_words, leading_words};
use crate::json::{Json, json_text, lenient_members, lenient_object, member, json_str, get_member, str_of, with_json};
use crate::decimal::{score_text, score_of_text};
use crate::error::CoreError;
use crate::model::Decision;
use crate::ports::ChatRequest;

verus! {

/// The first N words of an article body handed to the model.
pub const DECIDE_BODY_WORDS: usize = 500;

/// Generation cap for the decide call: it only emits a small JSON object.
pub const DECIDE_MAX_TOKENS: u32 = 256;

/// The system prompt framing the decide task as strict JSON output.
pub const DECIDE_SYSTEM: &'static str = "You are a news relevance filter. Given a topic and an \
article, respond with ONLY a JSON object of the form {\"score\": <integer 0-100>, \
\"reason\": <short string>} where score is how relevant the article is to the topic. \
Do not include any text outside the JSON object.";

/// The first `DECIDE_BODY_WORDS` whitespace-delimited words of `body`,
/// joined by single spaces.
pub fn first_words(body: &str) -> (r: String)
    ensures
        r@ == leading_words(body@, DECIDE_BODY_WORDS as nat),
{
    first_n_words(body, DECIDE_BODY_WORDS)
}

/// The user turn of a decide call.
pub open spec fn decide_user(topic_prompt: Seq<char>, title: Seq<char>, body: Seq<char>) -> Seq<char> {
    "Topic relevance criteria:\n"@ + topic_prompt + "\n\nArticle title: "@ + title
        + "\n\nArticle body (first 500 words):\n"@ + leading_words(body, DECIDE_BODY_WORDS as nat)
}

/// Build the decide request for a topic and an article: the topic's
/// relevance prompt, the title and the first 500 words of the body, under the
/// strict-JSON system prompt, routed to `model`.
pub fn build_request(model: Option<String>, topic_prompt: &str, title: &str, body: &str) -> (r:
    ChatRequest)
    ensures
        r.model == model,
        r.system matches Some(s) && s@ == DECIDE_SYSTEM@,
        r.user@ == decide_user(topic_prompt@, title@, body@),
        r.max_tokens == Some(DECIDE_MAX_TOKENS),
{
    let mut user: Vec<char> = chars_of("Topic relevance criteria:\n");
    push_all(&mut user, &chars_of(topic_prompt));
    push_all(&mut user, &chars_of("\n\nArticle title: "));
    push_all(&mut user, &chars_of(title));
    push_all(&mut user, &chars_of("\n\nArticle body (first 500 words):\n"));
    push_all(&mut user, &chars_of(first_words(body).as_str()));
    ChatRequest {
        model,
        system: Some(DECIDE_SYSTEM.to_owned()),
        user: string_of(&user),
        max_tokens: Some(DECIDE_MAX_TOKENS),
    }
}

/// The score a JSON value gives: a number, or a string holding one after
/// trimming, read as a decimal float, rounded half away from zero and clamped
/// to `0..=100`.
pub open spec fn score_of_json(v: Json) -> Option<u8> {
    match v {
        Json::Number(t) => score_text(t@),
        Json::Str(s) => score_text(trim(s@)),
        _ => None,
    }
}

/// The decision a model reply carries: the recovered object's `score`, and
/// its `reason` when that is a string (empty otherwise). `None` when no
/// object can be recovered or it has no usable score.
pub open spec fn decision_of(raw: Seq<char>) -> Option<(u8, Seq<char>)> {
    match lenient_object(raw) {
        Some(Json::Object(ms)) => match member(ms@, "score"@) {
            Some(v) => match score_of_json(v) {
                Some(score) => Some(
                    (
                        score,
                        match json_str(member(ms@, "reason"@)) {
                            Some(r) => r,
                            None => seq![],
                        },
                    ),
                ),
                None => None,
            },
            None => None,
        },
        _ => None,
    }
}

/// Why a model reply carries no decision: no object can be recovered, the
/// object (written back as compact JSON) has no `score`, or the score (so
/// written) is not numeric.
pub open spec fn decision_error(raw: Seq<char>) -> Seq<char> {
    match lenient_object(raw) {
        Some(Json::Object(ms)) => match member(ms@, "score"@) {
            Some(v) => "`score` not numeric: "@ + json_text(v),
            None => "no `score` field in "@ + json_text(Json::Object(ms)),
        },
        _ => "no JSON object in the model output"@,
    }
}

/// The score a JSON value gives, if any.
fn coerce_score(v: &Json) -> (r: Option<u8>)
    ensures
        r == score_of_json(*v),
{
    match v {
        Json::Number(t) => score_of_text(&chars_of(t.as_str())),
        Json::Str(s) => score_of_text(&trim_chars(&chars_of(s.as_str()))),
        _ => None,
    }
}

/// Parse a model reply into a decision, tolerating sloppy output: recover
/// the balanced JSON object from fenced, prefixed or suffixed text, read
/// `score` (an integer, a float or a numeric string, rounded and clamped to
/// `0..=100`) and `reason` (optional). A reply with no recoverable object or
/// no usable score is a permanent `DecisionParse` error.
pub fn parse_decision(raw: &str) -> (r: Result<Decision, CoreError>)
    ensures
        match r {
            Ok(d) => decision_of(raw@) == Some((d.score, d.reason@)),
            Err(e) => decision_of(raw@) is None && e is DecisionParse && e->DecisionParse_0@ == decision_error(raw@),
        },
{
    let ms = match lenient_members(raw) {
        Some(ms) => ms,
        None => return Err(CoreError::DecisionParse("no JSON object in the model output".to_owned())),
    };
    let score_val = match get_member(&ms, "score") {
        Some(v) => v,
        None => return Err(CoreError::DecisionParse(with_json("no `score` field in ", &Json::Object(ms)))),
    };
    let score = match coerce_score(score_val) {
        Some(s) => s,
        None => return Err(CoreError::DecisionParse(with_json("`score` not numeric: ", score_val))),
    };
    let reason = match str_of(get_member(&ms, "reason")) {
        Some(s) => s.clone(),
        None => String::new(),
    };
    Ok(Decision { score, reason })
}

/// Whether a score keeps an article: `score >= threshold` (a score exactly
/// at the threshold is kept).
pub fn keeps(score: u8, threshold: u8) -> (r: bool)
    ensures
        r == (score >= threshold),
{
    score >= threshold
}

} // verus!
