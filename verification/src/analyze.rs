//! The analyze stage's pure logic: build the deep-analysis prompt and read a
//! structured analysis out of whatever the model returned.
//!
//! Every prose field is optional and defaults to empty. Only two things make
//! a reply unusable: no recoverable JSON object, or an object with no summary
//! and no entities. A missing field, a string where an array belongs, an
//! entity given as a bare string, an unrecognized entity type or a truncated
//! tail is absorbed.

use vstd::prelude::*;
use crate::text::{chars_of, string_of, push_all, trim, trim_chars, first_n_words, leading_words,
    join, join_first};
use crate::json::{Json, lenient_members, lenient_object, member, either, get_member, get_either, str_of, with_json};
use crate::entity::{EntityType, ExtractedEntity, parse_entity_type};
use crate::error::CoreError;
use crate::ports::ChatRequest;

verus! {

/// Words of article body handed to the analyze model.
pub const ANALYZE_BODY_WORDS: usize = 2000;

/// Generation cap for the analyze call.
pub const ANALYZE_MAX_TOKENS: u32 = 1400;

/// Most entities accepted from one reply.
pub const MAX_ENTITIES_PER_ARTICLE: usize = 32;

/// The system prompt: names the exact keys and forbids prose outside the JSON.
pub const ANALYZE_SYSTEM: &'static str = "You are a news analyst. Read the article and respond with ONLY a \
JSON object with these keys: \"summary\" (2-3 sentences of what happened), \
\"critical_analysis\" (what the piece argues and how well it supports it), \
\"fallacy_analysis\" (specific reasoning flaws, or \"none identified\"), \
\"source_analysis\" (who is quoted, what they are positioned to gain, what is \
missing), and \"entities\" (an array of objects {\"name\": string, \"type\": one of \
person, company, place, event, technology}). Do not include any text outside the \
JSON object.";

/// A parsed analyze reply.
#[derive(Debug, Clone, PartialEq, Eq)]
pub struct Analysis {
    /// Two-to-three sentence factual summary.
    pub summary: String,
    /// What the piece argues and how well it argues it.
    pub critical_analysis: String,
    /// Named reasoning flaws.
    pub fallacy_analysis: String,
    /// Who is quoted and what is missing.
    pub source_analysis: String,
    /// Entities named in the article, at most `MAX_ENTITIES_PER_ARTICLE`.
    pub entities: Vec<ExtractedEntity>,
}

/// The first `ANALYZE_BODY_WORDS` whitespace-delimited words of `body`.
pub fn first_words(body: &str) -> (r: String)
    ensures
        r@ == leading_words(body@, ANALYZE_BODY_WORDS as nat),
{
    first_n_words(body, ANALYZE_BODY_WORDS)
}

/// The user turn of an analyze call.
pub open spec fn analyze_user(title: Seq<char>, body: Seq<char>) -> Seq<char> {
    "Article title: "@ + title + "\n\nArticle body:\n"@ + leading_words(body, ANALYZE_BODY_WORDS as nat)
}

/// Build the analyze request for one article, routed to `model`.
pub fn build_request(model: Option<String>, title: &str, body: &str) -> (r: ChatRequest)
    ensures
        r.model == model,
        r.system matches Some(s) && s@ == ANALYZE_SYSTEM@,
        r.user@ == analyze_user(title@, body@),
        r.max_tokens == Some(ANALYZE_MAX_TOKENS),
{
    let mut user: Vec<char> = chars_of("Article title: ");
    push_all(&mut user, &chars_of(title));
    push_all(&mut user, &chars_of("\n\nArticle body:\n"));
    push_all(&mut user, &chars_of(first_words(body).as_str()));
    ChatRequest {
        model,
        system: Some(ANALYZE_SYSTEM.to_owned()),
        user: string_of(&user),
        max_tokens: Some(ANALYZE_MAX_TOKENS),
    }
}

/// The trimmed, non-blank strings among `items`, in order.
pub open spec fn prose_items(items: Seq<Json>) -> Seq<Seq<char>>
    decreases items.len(),
{
    if items.len() == 0 {
        seq![]
    } else {
        let prev = prose_items(items.drop_last());
        match items.last() {
            Json::Str(s) => if trim(s@).len() > 0 {
                prev.push(trim(s@))
            } else {
                prev
            },
            _ => prev,
        }
    }
}

/// A value read as prose, tolerating the shapes models substitute for a
/// string: a string (trimmed), a list of strings (trimmed, blanks dropped,
/// joined by spaces), an object's `text` (else `value`) string, or a number's
/// text. Anything else, or nothing, reads as empty.
pub open spec fn prose_of(v: Option<Json>) -> Seq<char> {
    match v {
        Some(Json::Str(s)) => trim(s@),
        Some(Json::Array(items)) => join(prose_items(items@), " "@),
        Some(Json::Object(m)) => match either(member(m@, "text"@), member(m@, "value"@)) {
            Some(Json::Str(s)) => trim(s@),
            _ => seq![],
        },
        Some(Json::Number(t)) => t@,
        _ => seq![],
    }
}

/// One entry of the `entities` array as `(name, type)`: a non-blank string
/// (type `Other`), or an object with a non-blank `name` (else `entity`, else
/// `text`) string and a `type` (else `entity_type`, else `kind`) string.
pub open spec fn entity_of(v: Json) -> Option<(Seq<char>, EntityType)> {
    match v {
        Json::Str(s) => if trim(s@).len() > 0 {
            Some((trim(s@), EntityType::Other))
        } else {
            None
        },
        Json::Object(m) => match either(either(member(m@, "name"@), member(m@, "entity"@)), member(m@, "text"@)) {
            Some(Json::Str(n)) => if trim(n@).len() > 0 {
                Some(
                    (
                        trim(n@),
                        match either(either(member(m@, "type"@), member(m@, "entity_type"@)), member(m@, "kind"@)) {
                            Some(Json::Str(t)) => parse_entity_type(t@),
                            _ => EntityType::Other,
                        },
                    ),
                )
            } else {
                None
            },
            _ => None,
        },
        _ => None,
    }
}

/// The usable entities among `items`, in order.
pub open spec fn entity_items(items: Seq<Json>) -> Seq<(Seq<char>, EntityType)>
    decreases items.len(),
{
    if items.len() == 0 {
        seq![]
    } else {
        let prev = entity_items(items.drop_last());
        match entity_of(items.last()) {
            Some(e) => prev.push(e),
            None => prev,
        }
    }
}

/// The entities an analysis object lists: the usable entries of its
/// `entities` array, at most `MAX_ENTITIES_PER_ARTICLE` of them.
pub open spec fn entities_of(ms: Seq<(String, Json)>) -> Seq<(Seq<char>, EntityType)> {
    match member(ms, "entities"@) {
        Some(Json::Array(items)) => {
            let all = entity_items(items@);
            all.take(if all.len() <= MAX_ENTITIES_PER_ARTICLE { all.len() as int } else { MAX_ENTITIES_PER_ARTICLE as int })
        },
        _ => seq![],
    }
}

/// An analysis as plain values: summary, critical, fallacy and source
/// analyses, and the entities as `(name, type)`.
pub type AnalysisView = (Seq<char>, Seq<char>, Seq<char>, Seq<char>, Seq<(Seq<char>, EntityType)>);

/// The analysis a model reply carries; `None` when no object can be
/// recovered or the object has neither a summary nor an entity.
pub open spec fn analysis_of(raw: Seq<char>) -> Option<AnalysisView> {
    match lenient_object(raw) {
        Some(Json::Object(ms)) => {
            let a = (
                prose_of(member(ms@, "summary"@)),
                prose_of(either(member(ms@, "critical_analysis"@), member(ms@, "criticalAnalysis"@))),
                prose_of(either(member(ms@, "fallacy_analysis"@), member(ms@, "fallacyAnalysis"@))),
                prose_of(either(member(ms@, "source_analysis"@), member(ms@, "sourceAnalysis"@))),
                entities_of(ms@),
            );
            if a.0.len() == 0 && a.4.len() == 0 {
                None
            } else {
                Some(a)
            }
        },
        _ => None,
    }
}

/// The `(name, type)` view of extracted entities.
pub open spec fn entity_views(es: Seq<ExtractedEntity>) -> Seq<(Seq<char>, EntityType)> {
    es.map_values(|e: ExtractedEntity| (e.name@, e.entity_type))
}

/// The plain-value view of an analysis.
pub open spec fn analysis_view(a: Analysis) -> AnalysisView {
    (a.summary@, a.critical_analysis@, a.fallacy_analysis@, a.source_analysis@, entity_views(a.entities@))
}

/// A value read as prose.
fn as_prose(v: Option<&Json>) -> (r: String)
    ensures
        r@ == prose_of(match v { Some(j) => Some(*j), None => None }),
{
    match v {
        Some(Json::Str(s)) => string_of(&trim_chars(&chars_of(s.as_str()))),
        Some(Json::Array(items)) => {
            let mut parts: Vec<Vec<char>> = Vec::new();
            let mut i: usize = 0;
            while i < items.len()
                invariant
                    i <= items.len(),
                    parts@.map_values(|w: Vec<char>| w@) == prose_items(items@.take(i as int)),
                decreases items.len() - i,
            {
                assert(items@.take(i as int + 1).drop_last() == items@.take(i as int));
                assert(items@.take(i as int + 1).last() == items@[i as int]);
                if let Json::Str(s) = &items[i] {
                    let t = trim_chars(&chars_of(s.as_str()));
                    if t.len() > 0 {
                        let ghost before = parts@;
                        parts.push(t);
                        assert(parts@.map_values(|w: Vec<char>| w@) == before.map_values(
                            |w: Vec<char>| w@,
                        ).push(t@));
                    }
                }
                i += 1;
            }
            assert(items@.take(items@.len() as int) == items@);
            let joined = join_first(&parts, parts.len(), &chars_of(" "));
            assert(parts@.map_values(|w: Vec<char>| w@).take(parts@.len() as int) == parts@.map_values(
                |w: Vec<char>| w@,
            ));
            string_of(&joined)
        },
        Some(Json::Object(m)) => match str_of(get_either(m, "text", "value")) {
            Some(s) => string_of(&trim_chars(&chars_of(s.as_str()))),
            None => String::new(),
        },
        Some(Json::Number(t)) => t.clone(),
        _ => String::new(),
    }
}

/// One entry of the `entities` array, if usable.
fn as_entity(v: &Json) -> (r: Option<ExtractedEntity>)
    ensures
        match r {
            Some(e) => entity_of(*v) == Some((e.name@, e.entity_type)),
            None => entity_of(*v) is None,
        },
{
    match v {
        Json::Str(s) => {
            let t = trim_chars(&chars_of(s.as_str()));
            if t.len() > 0 {
                Some(ExtractedEntity { name: string_of(&t), entity_type: EntityType::Other })
            } else {
                None
            }
        },
        Json::Object(m) => {
            let name_val = match get_either(m, "name", "entity") {
                Some(x) => Some(x),
                None => get_member(m, "text"),
            };
            let name = match str_of(name_val) {
                Some(n) => trim_chars(&chars_of(n.as_str())),
                None => return None,
            };
            if name.len() == 0 {
                return None;
            }
            let type_val = match get_either(m, "type", "entity_type") {
                Some(x) => Some(x),
                None => get_member(m, "kind"),
            };
            let entity_type = match str_of(type_val) {
                Some(t) => EntityType::parse(t.as_str()),
                None => EntityType::Other,
            };
            Some(ExtractedEntity { name: string_of(&name), entity_type })
        },
        _ => None,
    }
}

/// The entities of an analysis object.
fn entities_in(ms: &Vec<(String, Json)>) -> (r: Vec<ExtractedEntity>)
    ensures
        entity_views(r@) == entities_of(ms@),
{
    let items = match get_member(ms, "entities") {
        Some(Json::Array(items)) => items,
        _ => return Vec::new(),
    };
    let ghost all = entity_items(items@);
    let mut out: Vec<ExtractedEntity> = Vec::new();
    let mut i: usize = 0;
    while i < items.len() && out.len() < MAX_ENTITIES_PER_ARTICLE
        invariant
            i <= items.len(),
            all == entity_items(items@),
            entity_views(out@) == entity_items(items@.take(i as int)),
            out@.len() <= MAX_ENTITIES_PER_ARTICLE,
        decreases items.len() - i,
    {
        assert(items@.take(i as int + 1).drop_last() == items@.take(i as int));
        assert(items@.take(i as int + 1).last() == items@[i as int]);
        match as_entity(&items[i]) {
            Some(e) => {
                let ghost before = out@;
                out.push(e);
                assert(entity_views(out@) == entity_views(before).push((e.name@, e.entity_type)));
            },
            None => {},
        }
        i += 1;
    }
    proof {
        lemma_entity_items_prefix(items@, i as int);
        if i == items.len() {
            assert(items@.take(i as int) == items@);
        }
    }
    out
}

/// The usable entities of a prefix are a prefix of the usable entities.
proof fn lemma_entity_items_prefix(items: Seq<Json>, i: int)
    requires
        0 <= i <= items.len(),
    ensures
        entity_items(items.take(i)).len() <= entity_items(items).len(),
        entity_items(items.take(i)) == entity_items(items).take(entity_items(items.take(i)).len() as int),
    decreases items.len() - i,
{
    if i < items.len() {
        lemma_entity_items_prefix(items, i + 1);
        assert(items.take(i + 1).drop_last() == items.take(i));
    } else {
        assert(items.take(i) == items);
    }
}

/// Parse a model reply into an analysis, tolerating sloppy output. A reply
/// with no recoverable JSON object, or whose object carries neither a summary
/// nor any entity, is a permanent `AnalysisParse` error.
pub fn parse_analysis(raw: &str) -> (r: Result<Analysis, CoreError>)
    ensures
        match r {
            Ok(a) => analysis_of(raw@) == Some(analysis_view(a)),
            Err(e) => analysis_of(raw@) is None && e is AnalysisParse,
        },
{
    let ms = match lenient_members(raw) {
        Some(ms) => ms,
        None => return Err(CoreError::AnalysisParse("no analysis object: no JSON object in the model output".to_owned())),
    };
    let entities = entities_in(&ms);
    let analysis = Analysis {
        summary: as_prose(get_member(&ms, "summary")),
        critical_analysis: as_prose(get_either(&ms, "critical_analysis", "criticalAnalysis")),
        fallacy_analysis: as_prose(get_either(&ms, "fallacy_analysis", "fallacyAnalysis")),
        source_analysis: as_prose(get_either(&ms, "source_analysis", "sourceAnalysis")),
        entities,
    };
    if analysis.summary.as_str().is_empty() && analysis.entities.len() == 0 {
        return Err(CoreError::AnalysisParse(with_json(
            "analysis object carried neither summary nor entities: ",
            &Json::Object(ms),
        )));
    }
    Ok(analysis)
}

} // verus!
