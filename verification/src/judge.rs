//! Did this story actually change? The judge's prompt, and the reading of
//! its `{material, reason}` verdict.

use vstd::prelude::*;
use crate::text::{chars_of, string_of, push_all, trim, trim_chars, ascii_lower_seq, ascii_lowercase,
    is_text};
use crate::json::{Json, lenient_members, lenient_object, member, either, json_str, get_member,
    get_either, str_of};
use crate::error::CoreError;
use crate::ports::ChatRequest;

verus! {

/// Generation cap for the judge call.
pub const JUDGE_MAX_TOKENS: u32 = 200;

/// The judge's system prompt.
pub const JUDGE_SYSTEM: &'static str = "You decide whether an updated news summary tells a reader something \
they did not already know from the previous version. Respond with ONLY a JSON object with keys \
\"material\" (true or false) and \"reason\" (one short clause). Material means: a new fact, a \
correction, a significant development, or a change in what is known. NOT material: rewording, \
reordering, an added source that corroborates what was already said, or added detail that does \
not change the substance. Do not include any text outside the JSON object.";

/// What the judge decided.
#[derive(Debug, Clone, PartialEq, Eq)]
pub struct JudgeVerdict {
    /// Whether the reader should be told again.
    pub material: bool,
    /// The judge's one-clause justification.
    pub reason: String,
}

/// The user turn of a judge call.
pub open spec fn judge_user(previous: Seq<char>, current: Seq<char>) -> Seq<char> {
    "PREVIOUS SUMMARY:\n"@ + previous + "\n\nUPDATED SUMMARY:\n"@ + current + "\n"@
}

/// Build the judge request comparing two summaries, routed to `model`.
pub fn build_request(model: Option<String>, previous: &str, current: &str) -> (r: ChatRequest)
    ensures
        r.model == model,
        r.system matches Some(s) && s@ == JUDGE_SYSTEM@,
        r.user@ == judge_user(previous@, current@),
        r.max_tokens == Some(JUDGE_MAX_TOKENS),
{
    let mut user: Vec<char> = chars_of("PREVIOUS SUMMARY:\n");
    push_all(&mut user, &chars_of(previous));
    push_all(&mut user, &chars_of("\n\nUPDATED SUMMARY:\n"));
    push_all(&mut user, &chars_of(current));
    push_all(&mut user, &chars_of("\n"));
    ChatRequest {
        model,
        system: Some(JUDGE_SYSTEM.to_owned()),
        user: string_of(&user),
        max_tokens: Some(JUDGE_MAX_TOKENS),
    }
}

/// The boolean a verdict string spells, trimmed and ASCII-lowercased:
/// `true`, `yes` or `material`; `false`, `no` or `not material`.
pub open spec fn verdict_word(s: Seq<char>) -> Option<bool> {
    let k = ascii_lower_seq(trim(s));
    if k == "true"@ || k == "yes"@ || k == "material"@ {
        Some(true)
    } else if k == "false"@ || k == "no"@ || k == "not material"@ {
        Some(false)
    } else {
        None
    }
}

/// The words that answer "material", as data.
pub open spec fn material_words() -> Seq<Seq<char>> {
    seq!["true"@, "yes"@, "material"@]
}

/// The words that answer "not material", as data.
pub open spec fn immaterial_words() -> Seq<Seq<char>> {
    seq!["false"@, "no"@, "not material"@]
}

/// A verdict string that trims and lowercases to one of the material words
/// reads as material, one that comes to an immaterial word reads as not
/// material, and only those do.
pub proof fn law_verdict_words(s: Seq<char>, i: int)
    requires
        0 <= i < 3,
    ensures
        ascii_lower_seq(trim(s)) == material_words()[i] ==> verdict_word(s) == Some(true),
        ascii_lower_seq(trim(s)) == immaterial_words()[i] ==> verdict_word(s) == Some(false),
        verdict_word(s) == Some(true) ==> material_words().contains(ascii_lower_seq(trim(s))),
        verdict_word(s) == Some(false) ==> immaterial_words().contains(ascii_lower_seq(trim(s))),
{
    reveal_strlit("true");
    reveal_strlit("yes");
    reveal_strlit("material");
    reveal_strlit("false");
    reveal_strlit("no");
    reveal_strlit("not material");
    let k = ascii_lower_seq(trim(s));
    assert(material_words()[0] == "true"@ && material_words()[1] == "yes"@ && material_words()[2] == "material"@);
    assert(immaterial_words()[0] == "false"@ && immaterial_words()[1] == "no"@ && immaterial_words()[2] == "not material"@);
    assert("false"@ != "true"@ && "false"@ != "yes"@ && "false"@ != "material"@) by {
        assert("false"@.len() != "true"@.len());
        assert("false"@.len() != "yes"@.len());
        assert("false"@.len() != "material"@.len());
    }
    assert("no"@ != "true"@ && "no"@ != "yes"@ && "no"@ != "material"@) by {
        assert("no"@.len() != "true"@.len());
        assert("no"@.len() != "yes"@.len());
        assert("no"@.len() != "material"@.len());
    }
    assert("not material"@ != "true"@ && "not material"@ != "yes"@ && "not material"@ != "material"@) by {
        assert("not material"@.len() != "true"@.len());
        assert("not material"@.len() != "yes"@.len());
        assert("not material"@.len() != "material"@.len());
    }
    if verdict_word(s) == Some(true) {
        assert(k == material_words()[0] || k == material_words()[1] || k == material_words()[2]);
    }
    if verdict_word(s) == Some(false) {
        assert(k == immaterial_words()[0] || k == immaterial_words()[1] || k == immaterial_words()[2]);
    }
}

/// The verdict a judge reply carries: the recovered object's `material`
/// (else `changed`) as a boolean or a verdict word, and its trimmed `reason`
/// string (empty when absent).
pub open spec fn verdict_of(raw: Seq<char>) -> Option<(bool, Seq<char>)> {
    match lenient_object(raw) {
        Some(Json::Object(ms)) => {
            let reason = match json_str(member(ms@, "reason"@)) {
                Some(r) => trim(r),
                None => seq![],
            };
            match either(member(ms@, "material"@), member(ms@, "changed"@)) {
                Some(Json::Bool(b)) => Some((b, reason)),
                Some(Json::Str(s)) => match verdict_word(s@) {
                    Some(b) => Some((b, reason)),
                    None => None,
                },
                _ => None,
            }
        },
        _ => None,
    }
}

/// Parse a judge reply. No recoverable object, or no readable `material`
/// value, is a permanent `DecisionParse` error.
pub fn parse_verdict(raw: &str) -> (r: Result<JudgeVerdict, CoreError>)
    ensures
        match r {
            Ok(v) => verdict_of(raw@) == Some((v.material, v.reason@)),
            Err(e) => verdict_of(raw@) is None && e is DecisionParse,
        },
{
    let ms = match lenient_members(raw) {
        Some(ms) => ms,
        None => return Err(CoreError::DecisionParse("no judge object in the model output".to_owned())),
    };
    let material = match get_either(&ms, "material", "changed") {
        Some(Json::Bool(b)) => *b,
        Some(Json::Str(s)) => {
            let k = ascii_lowercase(&trim_chars(&chars_of(s.as_str())));
            if is_text(&k, "true") || is_text(&k, "yes") || is_text(&k, "material") {
                true
            } else if is_text(&k, "false") || is_text(&k, "no") || is_text(&k, "not material") {
                false
            } else {
                return Err(CoreError::DecisionParse(
                    "the judge's answer is neither true nor false".to_owned(),
                ));
            }
        },
        _ => return Err(CoreError::DecisionParse("the judge object carried no material verdict".to_owned())),
    };
    let reason = match str_of(get_member(&ms, "reason")) {
        Some(s) => string_of(&trim_chars(&chars_of(s.as_str()))),
        None => String::new(),
    };
    Ok(JudgeVerdict { material, reason })
}

} // verus!
