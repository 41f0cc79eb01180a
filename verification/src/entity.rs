//! Entity normalization: the entity types a model may name, the display
//! clean-up of a model-supplied name, the deterministic lookup key that makes
//! "OpenAI", "Open A.I." and "OpenAI Inc." one entity, per-article
//! de-duplication, the edit distance, and the key prefixes a store narrows
//! fuzzy candidates by.

use vstd::prelude::*;
use crate::text::{
    chars_of, string_of, is_text, trim, trim_chars, lower_str, unicode_lower_str, slice_chars,
    push_all, chars_eq, words, join, split_whitespace, join_first, unicode_whitespace,
    unicode_alphabetic, unicode_alphanumeric, is_whitespace, is_alphabetic, is_alphanumeric,
};
use crate::embed::alnum_runs_from;
use crate::config::{text_le, lemma_text_le_total, lemma_text_le_antisym, lemma_text_le_trans};

verus! {

/// Entity kinds the analyze prompt asks for. Anything else a model invents
/// folds into `Other` rather than being rejected.
#[derive(Debug, Clone, Copy, PartialEq, Eq, Structural, Hash, PartialOrd, Ord)]
pub enum EntityType {
    /// A named individual.
    Person,
    /// A company, organisation, agency or institution.
    Company,
    /// A geographic place.
    Place,
    /// A named event.
    Event,
    /// A named technology, product or standard.
    Technology,
    /// Anything returned with an unrecognized type.
    Other,
}

/// The value persisted in the `entity_type` column.
pub open spec fn entity_type_name(t: EntityType) -> Seq<char> {
    match t {
        EntityType::Person => "person"@,
        EntityType::Company => "company"@,
        EntityType::Place => "place"@,
        EntityType::Event => "event"@,
        EntityType::Technology => "technology"@,
        EntityType::Other => "other"@,
    }
}

/// The type one already-lowercased word names in the type vocabulary.
pub open spec fn type_word(k: Seq<char>) -> EntityType {
    if k == "person"@ || k == "people"@ || k == "individual"@ || k == "human"@ {
        EntityType::Person
    } else if k == "company"@ || k == "organization"@ || k == "organisation"@ || k == "org"@
        || k == "corporation"@ || k == "business"@ || k == "institution"@ || k == "agency"@ {
        EntityType::Company
    } else if k == "place"@ || k == "location"@ || k == "country"@ || k == "city"@ || k
        == "region"@ || k == "geography"@ {
        EntityType::Place
    } else if k == "event"@ || k == "incident"@ || k == "conference"@ {
        EntityType::Event
    } else if k == "technology"@ || k == "tech"@ || k == "product"@ || k == "standard"@ || k
        == "protocol"@ || k == "software"@ {
        EntityType::Technology
    } else {
        EntityType::Other
    }
}

/// The singular of an English plural, for the type vocabulary only: `-ies`
/// becomes `-y`, else one trailing `s` is dropped.
pub open spec fn singular(w: Seq<char>) -> Seq<char> {
    if w.len() >= 3 && w.subrange(w.len() - 3, w.len() as int) == "ies"@ {
        w.subrange(0, w.len() - 3) + "y"@
    } else if w.len() >= 1 && w.last() == 's' {
        w.drop_last()
    } else {
        w
    }
}

/// The type a model-supplied string names: trimmed and lowercased, as given
/// and else in the singular.
pub open spec fn parse_entity_type(raw: Seq<char>) -> EntityType {
    let k = unicode_lower_str(trim(raw));
    match type_word(k) {
        EntityType::Other => type_word(singular(k)),
        found => found,
    }
}

impl EntityType {
    /// The value persisted in the `entity_type` column.
    pub fn as_str(&self) -> (r: &'static str)
        ensures
            r@ == entity_type_name(*self),
    {
        match self {
            EntityType::Person => "person",
            EntityType::Company => "company",
            EntityType::Place => "place",
            EntityType::Event => "event",
            EntityType::Technology => "technology",
            EntityType::Other => "other",
        }
    }

    /// Parse a model-supplied (or column) type string, tolerating plurals,
    /// casing, whitespace and the synonyms models reach for.
    pub fn parse(raw: &str) -> (r: EntityType)
        ensures
            r == parse_entity_type(raw@),
    {
        let k = lower_str(&trim_chars(&chars_of(raw)));
        match Self::exact(&k) {
            EntityType::Other => Self::exact(&singular_of(&k)),
            found => found,
        }
    }

    /// Match one already-lowercased word against the type vocabulary.
    fn exact(k: &Vec<char>) -> (r: EntityType)
        ensures
            r == type_word(k@),
    {
        if is_text(k, "person") || is_text(k, "people") || is_text(k, "individual") || is_text(
            k,
            "human",
        ) {
            EntityType::Person
        } else if is_text(k, "company") || is_text(k, "organization") || is_text(k, "organisation")
            || is_text(k, "org") || is_text(k, "corporation") || is_text(k, "business") || is_text(
            k,
            "institution",
        ) || is_text(k, "agency") {
            EntityType::Company
        } else if is_text(k, "place") || is_text(k, "location") || is_text(k, "country") || is_text(
            k,
            "city",
        ) || is_text(k, "region") || is_text(k, "geography") {
            EntityType::Place
        } else if is_text(k, "event") || is_text(k, "incident") || is_text(k, "conference") {
            EntityType::Event
        } else if is_text(k, "technology") || is_text(k, "tech") || is_text(k, "product") || is_text(
            k,
            "standard",
        ) || is_text(k, "protocol") || is_text(k, "software") {
            EntityType::Technology
        } else {
            EntityType::Other
        }
    }
}

/// The singular of a type word.
fn singular_of(w: &Vec<char>) -> (r: Vec<char>)
    ensures
        r@ == singular(w@),
{
    let n = w.len();
    if n >= 3 && is_text(&slice_chars(w, n - 3, n), "ies") {
        let mut out = slice_chars(w, 0, n - 3);
        push_all(&mut out, &chars_of("y"));
        out
    } else if n >= 1 && w[n - 1] == 's' {
        slice_chars(w, 0, n - 1)
    } else {
        slice_chars(w, 0, n)
    }
}

/// An entity as the analyze stage extracted it, before resolution.
#[derive(Debug, Clone, PartialEq, Eq)]
pub struct ExtractedEntity {
    /// Display name exactly as the model wrote it.
    pub name: String,
    /// Kind, as parsed from the model's `type` field.
    pub entity_type: EntityType,
}

/// A cleaned, keyed entity ready for resolution.
#[derive(Debug, Clone, PartialEq, Eq)]
pub struct NormalizedEntity {
    /// Display form.
    pub canonical_name: String,
    /// Lookup key.
    pub match_key: String,
    /// Kind.
    pub entity_type: EntityType,
}

/// An existing entity row, as the store hands candidates to the resolver.
#[derive(Debug, Clone, PartialEq, Eq)]
pub struct EntityRecord {
    /// Row id (uuid string).
    pub id: String,
    /// Stored display form.
    pub canonical_name: String,
    /// Stored lookup key.
    pub match_key: String,
    /// Stored kind.
    pub entity_type: EntityType,
}

/// One resolution outcome for one extracted entity.
#[derive(Debug, Clone, PartialEq, Eq)]
pub enum EntityAction {
    /// The entity already exists; link the article to it.
    Link {
        /// Existing row id.
        entity_id: String,
        /// A spelling not yet recorded on that row, to append to `aliases`.
        new_alias: Option<String>,
    },
    /// No existing entity matched; create one and link to it.
    Create {
        /// Display form to store.
        canonical_name: String,
        /// Lookup key to store.
        match_key: String,
        /// Kind to store.
        entity_type: EntityType,
    },
}

/// Longest entity name accepted, in characters.
pub const MAX_ENTITY_NAME_LEN: usize = 120;

/// Shortest match key eligible for fuzzy resolution; shorter keys resolve by
/// exact equality only.
pub const MIN_FUZZY_LEN: usize = 8;

/// How many edits are tolerable in a key of `len` characters: one, plus one
/// more per six characters.
pub fn max_edit_distance(len: usize) -> (r: usize)
    ensures
        r == 1 + len / 6,
{
    1 + len / 6
}

// ---------------------------------------------------------------------------
// Names and keys
// ---------------------------------------------------------------------------

/// The punctuation and quotes trimmed from the ends of a model-supplied name.
pub open spec fn name_punct(c: char) -> bool {
    c == '"' || c == '\'' || c == '`' || c == '.' || c == ',' || c == ';' || c == ':' || c == '!'
        || c == '?' || c == '(' || c == ')' || c == '[' || c == ']' || c == '{' || c == '}' || c
        == '<' || c == '>' || c == '*' || c == '_'
}

/// Whether a character is trimmed from the ends of a name.
pub open spec fn name_edge(c: char) -> bool {
    unicode_whitespace(c) || name_punct(c)
}

/// `s` with leading edge characters removed.
pub open spec fn strip_edges_start(s: Seq<char>) -> Seq<char>
    decreases s.len(),
{
    if s.len() > 0 && name_edge(s[0]) {
        strip_edges_start(s.drop_first())
    } else {
        s
    }
}

/// `s` with trailing edge characters removed.
pub open spec fn strip_edges_end(s: Seq<char>) -> Seq<char>
    decreases s.len(),
{
    if s.len() > 0 && name_edge(s.last()) {
        strip_edges_end(s.drop_last())
    } else {
        s
    }
}

/// The display form of a model-supplied name: whitespace runs collapsed to
/// single spaces, surrounding whitespace, punctuation and quotes trimmed;
/// `None` when nothing is left, when it is longer than
/// `MAX_ENTITY_NAME_LEN` characters, or when it holds no letter.
pub open spec fn cleaned_name(raw: Seq<char>) -> Option<Seq<char>> {
    let t = strip_edges_end(strip_edges_start(join(words(raw), " "@)));
    if t.len() == 0 || t.len() > MAX_ENTITY_NAME_LEN {
        None
    } else if !(exists|i: int| 0 <= i < t.len() && unicode_alphabetic(#[trigger] t[i])) {
        None
    } else {
        Some(t)
    }
}

/// Whether `c` is trimmed from the ends of a name.
fn is_name_edge(c: char) -> (r: bool)
    ensures
        r == name_edge(c),
{
    is_whitespace(c) || c == '"' || c == '\'' || c == '`' || c == '.' || c == ',' || c == ';' || c
        == ':' || c == '!' || c == '?' || c == '(' || c == ')' || c == '[' || c == ']' || c == '{'
        || c == '}' || c == '<' || c == '>' || c == '*' || c == '_'
}

/// Removing an edge-character prefix of length `i` strips the start when the
/// next character is not an edge character.
proof fn lemma_strip_start_at(s: Seq<char>, i: int)
    requires
        0 <= i <= s.len(),
        forall|k: int| 0 <= k < i ==> name_edge(#[trigger] s[k]),
        i == s.len() || !name_edge(s[i]),
    ensures
        strip_edges_start(s) == s.subrange(i, s.len() as int),
    decreases i,
{
    if i == 0 {
        assert(s.subrange(0, s.len() as int) == s);
    } else {
        let t = s.drop_first();
        assert forall|k: int| 0 <= k < i - 1 implies name_edge(#[trigger] t[k]) by {
            assert(t[k] == s[k + 1]);
        }
        lemma_strip_start_at(t, i - 1);
        assert(t.subrange(i - 1, t.len() as int) == s.subrange(i, s.len() as int));
    }
}

/// Removing an edge-character suffix down to length `j` strips the end when
/// the character before is not an edge character.
proof fn lemma_strip_end_at(s: Seq<char>, j: int)
    requires
        0 <= j <= s.len(),
        forall|k: int| j <= k < s.len() ==> name_edge(#[trigger] s[k]),
        j == 0 || !name_edge(s[j - 1]),
    ensures
        strip_edges_end(s) == s.subrange(0, j),
    decreases s.len() - j,
{
    if j == s.len() {
        assert(s.subrange(0, j) == s);
    } else {
        let t = s.drop_last();
        assert forall|k: int| j <= k < t.len() implies name_edge(#[trigger] t[k]) by {
            assert(t[k] == s[k]);
        }
        lemma_strip_end_at(t, j);
        assert(t.subrange(0, j) == s.subrange(0, j));
    }
}

/// Clean up a model-supplied entity name for display: collapse whitespace,
/// trim surrounding punctuation and quotes, and reject what is left empty,
/// letterless, or longer than `MAX_ENTITY_NAME_LEN` characters.
pub fn clean_name(raw: &str) -> (r: Option<String>)
    ensures
        match r {
            Some(n) => cleaned_name(raw@) == Some(n@),
            None => cleaned_name(raw@) is None,
        },
{
    let ws = split_whitespace(&chars_of(raw));
    let c = join_first(&ws, ws.len(), &chars_of(" "));
    assert(ws@.map_values(|w: Vec<char>| w@).take(ws@.len() as int) == ws@.map_values(|w: Vec<char>| w@));
    let mut i: usize = 0;
    while i < c.len() && is_name_edge(c[i])
        invariant
            i <= c.len(),
            forall|k: int| 0 <= k < i ==> name_edge(#[trigger] c@[k]),
        decreases c.len() - i,
    {
        i += 1;
    }
    proof {
        lemma_strip_start_at(c@, i as int);
    }
    let ghost t = c@.subrange(i as int, c@.len() as int);
    let mut j: usize = c.len();
    while j > i && is_name_edge(c[j - 1])
        invariant
            i <= j <= c.len(),
            forall|k: int| j <= k < c@.len() ==> name_edge(#[trigger] c@[k]),
        decreases j,
    {
        j -= 1;
    }
    proof {
        assert forall|k: int| j - i <= k < t.len() implies name_edge(#[trigger] t[k]) by {
            assert(t[k] == c@[k + i]);
        }
        if j > i {
            assert(t[j - i - 1] == c@[j - 1]);
        }
        lemma_strip_end_at(t, j - i);
        assert(t.subrange(0, j - i) == c@.subrange(i as int, j as int));
    }
    let trimmed = slice_chars(&c, i, j);
    if trimmed.len() == 0 || trimmed.len() > MAX_ENTITY_NAME_LEN {
        return None;
    }
    let ghost cn = strip_edges_end(strip_edges_start(join(words(raw@), " "@)));
    assert(trimmed@ == cn);
    let mut k: usize = 0;
    while k < trimmed.len()
        invariant
            k <= trimmed.len(),
            trimmed@ == cn,
            cn == strip_edges_end(strip_edges_start(join(words(raw@), " "@))),
            0 < trimmed@.len() <= MAX_ENTITY_NAME_LEN,
            forall|m: int| 0 <= m < k ==> !unicode_alphabetic(#[trigger] trimmed@[m]),
        decreases trimmed.len() - k,
    {
        if is_alphabetic(trimmed[k]) {
            assert(unicode_alphabetic(trimmed@[k as int]));
            return Some(string_of(&trimmed));
        }
        k += 1;
    }
    None
}

/// Leading words dropped when building a match key.
pub open spec fn is_leading_article(w: Seq<char>) -> bool {
    w == "the"@ || w == "a"@ || w == "an"@ || w == "la"@ || w == "le"@ || w == "il"@ || w == "el"@
}

/// Trailing corporate suffixes dropped when building a match key.
pub open spec fn is_corporate_suffix(w: Seq<char>) -> bool {
    w == "inc"@ || w == "incorporated"@ || w == "llc"@ || w == "ltd"@ || w == "limited"@ || w
        == "corp"@ || w == "corporation"@ || w == "co"@ || w == "plc"@ || w == "gmbh"@ || w
        == "sa"@ || w == "srl"@ || w == "spa"@ || w == "ag"@ || w == "nv"@ || w == "bv"@ || w
        == "ab"@ || w == "oy"@ || w == "as"@
}

/// The leading articles a match key drops, as data.
pub open spec fn leading_articles() -> Seq<Seq<char>> {
    seq!["the"@, "a"@, "an"@, "la"@, "le"@, "il"@, "el"@]
}

/// A first word is dropped from a key exactly when it is one of the leading
/// articles.
pub proof fn law_leading_articles(w: Seq<char>)
    ensures
        is_leading_article(w) == leading_articles().contains(w),
{
    let l = leading_articles();
    assert(l[0] == "the"@);
    assert(l[1] == "a"@);
    assert(l[2] == "an"@);
    assert(l[3] == "la"@);
    assert(l[4] == "le"@);
    assert(l[5] == "il"@);
    assert(l[6] == "el"@);
    if l.contains(w) {
        let i = choose|i: int| 0 <= i < l.len() && l[i] == w;
        assert(is_leading_article(l[i]));
    }
}

/// A trailing word is a corporate suffix exactly when it is one of the
/// listed suffixes.
pub proof fn law_corporate_suffix_list(w: Seq<char>)
    ensures
        is_corporate_suffix(w) == corporate_suffixes().contains(w),
{
    let l = corporate_suffixes();
    assert forall|k: int| 0 <= k < l.len() implies is_corporate_suffix(#[trigger] l[k]) by {}
    assert(l[0] == "inc"@);
    assert(l[1] == "incorporated"@);
    assert(l[2] == "llc"@);
    assert(l[3] == "ltd"@);
    assert(l[4] == "limited"@);
    assert(l[5] == "corp"@);
    assert(l[6] == "corporation"@);
    assert(l[7] == "co"@);
    assert(l[8] == "plc"@);
    assert(l[9] == "gmbh"@);
    assert(l[10] == "sa"@);
    assert(l[11] == "srl"@);
    assert(l[12] == "spa"@);
    assert(l[13] == "ag"@);
    assert(l[14] == "nv"@);
    assert(l[15] == "bv"@);
    assert(l[16] == "ab"@);
    assert(l[17] == "oy"@);
    assert(l[18] == "as"@);
}

/// The type vocabulary, as data: each word with the type it names.
pub open spec fn type_vocabulary() -> Seq<(Seq<char>, EntityType)> {
    seq![
        ("person"@, EntityType::Person),
        ("people"@, EntityType::Person),
        ("individual"@, EntityType::Person),
        ("human"@, EntityType::Person),
        ("company"@, EntityType::Company),
        ("organization"@, EntityType::Company),
        ("organisation"@, EntityType::Company),
        ("org"@, EntityType::Company),
        ("corporation"@, EntityType::Company),
        ("business"@, EntityType::Company),
        ("institution"@, EntityType::Company),
        ("agency"@, EntityType::Company),
        ("place"@, EntityType::Place),
        ("location"@, EntityType::Place),
        ("country"@, EntityType::Place),
        ("city"@, EntityType::Place),
        ("region"@, EntityType::Place),
        ("geography"@, EntityType::Place),
        ("event"@, EntityType::Event),
        ("incident"@, EntityType::Event),
        ("conference"@, EntityType::Event),
        ("technology"@, EntityType::Technology),
        ("tech"@, EntityType::Technology),
        ("product"@, EntityType::Technology),
        ("standard"@, EntityType::Technology),
        ("protocol"@, EntityType::Technology),
        ("software"@, EntityType::Technology),
    ]
}

/// Each word of the type vocabulary names its type.
pub proof fn law_type_vocabulary(i: int)
    requires
        0 <= i < type_vocabulary().len(),
    ensures
        type_word(type_vocabulary()[i].0) == type_vocabulary()[i].1,
{
    reveal_strlit("person");
    reveal_strlit("people");
    reveal_strlit("individual");
    reveal_strlit("human");
    reveal_strlit("company");
    reveal_strlit("organization");
    reveal_strlit("organisation");
    reveal_strlit("org");
    reveal_strlit("corporation");
    reveal_strlit("business");
    reveal_strlit("institution");
    reveal_strlit("agency");
    reveal_strlit("place");
    reveal_strlit("location");
    reveal_strlit("country");
    reveal_strlit("city");
    reveal_strlit("region");
    reveal_strlit("geography");
    reveal_strlit("event");
    reveal_strlit("incident");
    reveal_strlit("conference");
    reveal_strlit("technology");
    reveal_strlit("tech");
    reveal_strlit("product");
    reveal_strlit("standard");
    reveal_strlit("protocol");
    reveal_strlit("software");
    assert("person"@.len() == 6 && "person"@[0] == 'p' && "person"@[1] == 'e' && "person"@[2] == 'r');
    assert("people"@.len() == 6 && "people"@[0] == 'p' && "people"@[1] == 'e' && "people"@[2] == 'o');
    assert("individual"@.len() == 10 && "individual"@[0] == 'i' && "individual"@[1] == 'n' && "individual"@[2] == 'd' && "individual"@[6] == 'd');
    assert("human"@.len() == 5 && "human"@[0] == 'h' && "human"@[1] == 'u' && "human"@[2] == 'm');
    assert("company"@.len() == 7 && "company"@[0] == 'c' && "company"@[1] == 'o' && "company"@[2] == 'm' && "company"@[6] == 'y');
    assert("organization"@.len() == 12 && "organization"@[0] == 'o' && "organization"@[1] == 'r' && "organization"@[2] == 'g' && "organization"@[6] == 'z');
    assert("organisation"@.len() == 12 && "organisation"@[0] == 'o' && "organisation"@[1] == 'r' && "organisation"@[2] == 'g' && "organisation"@[6] == 's');
    assert("org"@.len() == 3 && "org"@[0] == 'o' && "org"@[1] == 'r' && "org"@[2] == 'g');
    assert("corporation"@.len() == 11 && "corporation"@[0] == 'c' && "corporation"@[1] == 'o' && "corporation"@[2] == 'r' && "corporation"@[6] == 'a');
    assert("business"@.len() == 8 && "business"@[0] == 'b' && "business"@[1] == 'u' && "business"@[2] == 's' && "business"@[6] == 's');
    assert("institution"@.len() == 11 && "institution"@[0] == 'i' && "institution"@[1] == 'n' && "institution"@[2] == 's' && "institution"@[6] == 'u');
    assert("agency"@.len() == 6 && "agency"@[0] == 'a' && "agency"@[1] == 'g' && "agency"@[2] == 'e');
    assert("place"@.len() == 5 && "place"@[0] == 'p' && "place"@[1] == 'l' && "place"@[2] == 'a');
    assert("location"@.len() == 8 && "location"@[0] == 'l' && "location"@[1] == 'o' && "location"@[2] == 'c' && "location"@[6] == 'o');
    assert("country"@.len() == 7 && "country"@[0] == 'c' && "country"@[1] == 'o' && "country"@[2] == 'u' && "country"@[6] == 'y');
    assert("city"@.len() == 4 && "city"@[0] == 'c' && "city"@[1] == 'i' && "city"@[2] == 't');
    assert("region"@.len() == 6 && "region"@[0] == 'r' && "region"@[1] == 'e' && "region"@[2] == 'g');
    assert("geography"@.len() == 9 && "geography"@[0] == 'g' && "geography"@[1] == 'e' && "geography"@[2] == 'o' && "geography"@[6] == 'p');
    assert("event"@.len() == 5 && "event"@[0] == 'e' && "event"@[1] == 'v' && "event"@[2] == 'e');
    assert("incident"@.len() == 8 && "incident"@[0] == 'i' && "incident"@[1] == 'n' && "incident"@[2] == 'c' && "incident"@[6] == 'n');
    assert("conference"@.len() == 10 && "conference"@[0] == 'c' && "conference"@[1] == 'o' && "conference"@[2] == 'n' && "conference"@[6] == 'e');
    assert("technology"@.len() == 10 && "technology"@[0] == 't' && "technology"@[1] == 'e' && "technology"@[2] == 'c' && "technology"@[6] == 'l');
    assert("tech"@.len() == 4 && "tech"@[0] == 't' && "tech"@[1] == 'e' && "tech"@[2] == 'c');
    assert("product"@.len() == 7 && "product"@[0] == 'p' && "product"@[1] == 'r' && "product"@[2] == 'o' && "product"@[6] == 't');
    assert("standard"@.len() == 8 && "standard"@[0] == 's' && "standard"@[1] == 't' && "standard"@[2] == 'a' && "standard"@[6] == 'r');
    assert("protocol"@.len() == 8 && "protocol"@[0] == 'p' && "protocol"@[1] == 'r' && "protocol"@[2] == 'o' && "protocol"@[6] == 'o');
    assert("software"@.len() == 8 && "software"@[0] == 's' && "software"@[1] == 'o' && "software"@[2] == 'f' && "software"@[6] == 'r');
    let v = type_vocabulary();
    assert(type_word("person"@) == EntityType::Person);
    assert(v[0] == ("person"@, EntityType::Person));
    assert(type_word("people"@) == EntityType::Person);
    assert(v[1] == ("people"@, EntityType::Person));
    assert(type_word("individual"@) == EntityType::Person);
    assert(v[2] == ("individual"@, EntityType::Person));
    assert(type_word("human"@) == EntityType::Person);
    assert(v[3] == ("human"@, EntityType::Person));
    assert(type_word("company"@) == EntityType::Company);
    assert(v[4] == ("company"@, EntityType::Company));
    assert(type_word("organization"@) == EntityType::Company);
    assert(v[5] == ("organization"@, EntityType::Company));
    assert(type_word("organisation"@) == EntityType::Company);
    assert(v[6] == ("organisation"@, EntityType::Company));
    assert(type_word("org"@) == EntityType::Company);
    assert(v[7] == ("org"@, EntityType::Company));
    assert(type_word("corporation"@) == EntityType::Company);
    assert(v[8] == ("corporation"@, EntityType::Company));
    assert(type_word("business"@) == EntityType::Company);
    assert(v[9] == ("business"@, EntityType::Company));
    assert(type_word("institution"@) == EntityType::Company);
    assert(v[10] == ("institution"@, EntityType::Company));
    assert(type_word("agency"@) == EntityType::Company);
    assert(v[11] == ("agency"@, EntityType::Company));
    assert(type_word("place"@) == EntityType::Place);
    assert(v[12] == ("place"@, EntityType::Place));
    assert(type_word("location"@) == EntityType::Place);
    assert(v[13] == ("location"@, EntityType::Place));
    assert(type_word("country"@) == EntityType::Place);
    assert(v[14] == ("country"@, EntityType::Place));
    assert(type_word("city"@) == EntityType::Place);
    assert(v[15] == ("city"@, EntityType::Place));
    assert(type_word("region"@) == EntityType::Place);
    assert(v[16] == ("region"@, EntityType::Place));
    assert(type_word("geography"@) == EntityType::Place);
    assert(v[17] == ("geography"@, EntityType::Place));
    assert(type_word("event"@) == EntityType::Event);
    assert(v[18] == ("event"@, EntityType::Event));
    assert(type_word("incident"@) == EntityType::Event);
    assert(v[19] == ("incident"@, EntityType::Event));
    assert(type_word("conference"@) == EntityType::Event);
    assert(v[20] == ("conference"@, EntityType::Event));
    assert(type_word("technology"@) == EntityType::Technology);
    assert(v[21] == ("technology"@, EntityType::Technology));
    assert(type_word("tech"@) == EntityType::Technology);
    assert(v[22] == ("tech"@, EntityType::Technology));
    assert(type_word("product"@) == EntityType::Technology);
    assert(v[23] == ("product"@, EntityType::Technology));
    assert(type_word("standard"@) == EntityType::Technology);
    assert(v[24] == ("standard"@, EntityType::Technology));
    assert(type_word("protocol"@) == EntityType::Technology);
    assert(v[25] == ("protocol"@, EntityType::Technology));
    assert(type_word("software"@) == EntityType::Technology);
    assert(v[26] == ("software"@, EntityType::Technology));
}

/// The corporate suffixes a match key sheds, as data.
pub open spec fn corporate_suffixes() -> Seq<Seq<char>> {
    seq!["inc"@, "incorporated"@, "llc"@, "ltd"@, "limited"@, "corp"@, "corporation"@, "co"@, "plc"@, "gmbh"@, "sa"@, "srl"@, "spa"@, "ag"@, "nv"@, "bv"@, "ab"@, "oy"@, "as"@]
}

/// Shedding suffixes drops a trailing corporate suffix while more than one
/// word remains (so "acme llc" and "acme inc" come to "acme" alike), and
/// what is left ends in no corporate suffix unless it is a single word.
pub proof fn law_suffixes_are_shed(ws: Seq<Seq<char>>, j: int)
    requires
        0 <= j < corporate_suffixes().len(),
    ensures
        ws.len() > 1 && ws.last() == corporate_suffixes()[j] ==> drop_suffixes(ws) == drop_suffixes(ws.drop_last()),
        drop_suffixes(ws).len() > 1 ==> drop_suffixes(ws).last() != corporate_suffixes()[j],
        ws.len() >= 1 ==> drop_suffixes(ws).len() >= 1,
    decreases ws.len(),
{
    assert forall|k: int| 0 <= k < corporate_suffixes().len() implies is_corporate_suffix(
        #[trigger] corporate_suffixes()[k],
    ) by {}
    if ws.len() > 1 && is_corporate_suffix(ws.last()) {
        law_suffixes_are_shed(ws.drop_last(), j);
    }
}

/// Which corporate suffix follows a name makes no difference to its key
/// words: "x llc" and "x inc" shed to the same words as "x".
pub proof fn law_any_suffix_same_key(ws: Seq<Seq<char>>, i: int, k: int)
    requires
        ws.len() >= 1,
        0 <= i < corporate_suffixes().len(),
        0 <= k < corporate_suffixes().len(),
    ensures
        drop_suffixes(ws.push(corporate_suffixes()[i])) == drop_suffixes(ws),
        drop_suffixes(ws.push(corporate_suffixes()[i])) == drop_suffixes(ws.push(corporate_suffixes()[k])),
{
    law_suffixes_are_shed(ws.push(corporate_suffixes()[i]), i);
    law_suffixes_are_shed(ws.push(corporate_suffixes()[k]), k);
    assert(ws.push(corporate_suffixes()[i]).drop_last() == ws);
    assert(ws.push(corporate_suffixes()[k]).drop_last() == ws);
}

/// The non-empty runs among `rs`.
pub open spec fn nonempty_runs(rs: Seq<Seq<char>>) -> Seq<Seq<char>>
    decreases rs.len(),
{
    if rs.len() == 0 {
        seq![]
    } else if rs.last().len() > 0 {
        nonempty_runs(rs.drop_last()).push(rs.last())
    } else {
        nonempty_runs(rs.drop_last())
    }
}

/// `ws` with trailing corporate suffixes dropped, keeping at least one word.
pub open spec fn drop_suffixes(ws: Seq<Seq<char>>) -> Seq<Seq<char>>
    decreases ws.len(),
{
    if ws.len() > 1 && is_corporate_suffix(ws.last()) {
        drop_suffixes(ws.drop_last())
    } else {
        ws
    }
}

/// The words concatenated.
pub open spec fn concat_words(ws: Seq<Seq<char>>) -> Seq<char>
    decreases ws.len(),
{
    if ws.len() == 0 {
        seq![]
    } else {
        concat_words(ws.drop_last()) + ws.last()
    }
}

/// The lookup key of a name: lowercased, split on non-alphanumeric
/// characters, a leading article dropped and trailing corporate suffixes
/// dropped (never the last word), the words concatenated.
pub open spec fn key_of(name: Seq<char>) -> Seq<char> {
    let ws = nonempty_runs(alnum_runs_from(unicode_lower_str(name), seq![], seq![]));
    let ws2 = if ws.len() > 1 && is_leading_article(ws[0]) { ws.drop_first() } else { ws };
    concat_words(drop_suffixes(ws2))
}

/// Whether `w` is a leading article.
fn leading_article(w: &Vec<char>) -> (r: bool)
    ensures
        r == is_leading_article(w@),
{
    is_text(w, "the") || is_text(w, "a") || is_text(w, "an") || is_text(w, "la") || is_text(w, "le")
        || is_text(w, "il") || is_text(w, "el")
}

/// Whether `w` is a corporate suffix.
fn corporate_suffix(w: &Vec<char>) -> (r: bool)
    ensures
        r == is_corporate_suffix(w@),
{
    is_text(w, "inc") || is_text(w, "incorporated") || is_text(w, "llc") || is_text(w, "ltd")
        || is_text(w, "limited") || is_text(w, "corp") || is_text(w, "corporation") || is_text(w, "co")
        || is_text(w, "plc") || is_text(w, "gmbh") || is_text(w, "sa") || is_text(w, "srl") || is_text(
        w,
        "spa",
    ) || is_text(w, "ag") || is_text(w, "nv") || is_text(w, "bv") || is_text(w, "ab") || is_text(
        w,
        "oy",
    ) || is_text(w, "as")
}

/// The views of character vectors.
pub open spec fn vviews(v: Seq<Vec<char>>) -> Seq<Seq<char>> {
    v.map_values(|w: Vec<char>| w@)
}

/// Split `s` on non-alphanumeric characters, keeping the non-empty runs.
fn alnum_words(s: &Vec<char>) -> (r: Vec<Vec<char>>)
    ensures
        vviews(r@) == nonempty_runs(alnum_runs_from(s@, seq![], seq![])),
{
    let mut out: Vec<Vec<char>> = Vec::new();
    let mut cur: Vec<char> = Vec::new();
    let ghost mut done: Seq<Seq<char>> = seq![];
    let mut i: usize = 0;
    assert(s@.skip(0) == s@);
    while i < s.len()
        invariant
            i <= s.len(),
            alnum_runs_from(s@, seq![], seq![]) == alnum_runs_from(s@.skip(i as int), cur@, done),
            vviews(out@) == nonempty_runs(done),
        decreases s.len() - i,
    {
        let ghost rest = s@.skip(i as int);
        assert(rest.drop_first() == s@.skip(i as int + 1));
        assert(rest[0] == s@[i as int]);
        if !is_alphanumeric(s[i]) {
            assert(done.push(cur@).drop_last() == done);
            assert(done.push(cur@).last() == cur@);
            if cur.len() > 0 {
                let ghost before = out@;
                out.push(cur);
                assert(vviews(out@) == vviews(before).push(cur@));
            }
            proof {
                done = done.push(cur@);
            }
            cur = Vec::new();
            assert(cur@ == Seq::<char>::empty());
        } else {
            cur.push(s[i]);
        }
        i += 1;
    }
    assert(s@.skip(i as int).len() == 0);
    assert(done.push(cur@).drop_last() == done);
    assert(done.push(cur@).last() == cur@);
    if cur.len() > 0 {
        let ghost before = out@;
        out.push(cur);
        assert(vviews(out@) == vviews(before).push(cur@));
    }
    out
}

/// The normalized lookup key for an entity name: lowercased, every
/// non-alphanumeric character dropped (so "Open A.I." and "OpenAI" agree), a
/// leading article and trailing corporate suffixes removed. Empty only for
/// input with no alphanumeric content.
pub fn match_key(name: &str) -> (r: String)
    ensures
        r@ == key_of(name@),
{
    let lowered = lower_str(&chars_of(name));
    let mut ws = alnum_words(&lowered);
    let ghost w0 = vviews(ws@);
    if ws.len() > 1 && leading_article(&ws[0]) {
        let ghost before = ws@;
        ws.remove(0);
        assert(vviews(ws@) == vviews(before).drop_first());
    }
    let ghost w1 = vviews(ws@);
    while ws.len() > 1 && corporate_suffix(&ws[ws.len() - 1])
        invariant
            drop_suffixes(w1) == drop_suffixes(vviews(ws@)),
        decreases ws.len(),
    {
        let ghost before = ws@;
        ws.pop();
        assert(vviews(ws@) == vviews(before).drop_last());
    }
    let mut out: Vec<char> = Vec::new();
    let mut i: usize = 0;
    while i < ws.len()
        invariant
            i <= ws.len(),
            out@ == concat_words(vviews(ws@).take(i as int)),
        decreases ws.len() - i,
    {
        assert(vviews(ws@).take(i as int + 1).drop_last() == vviews(ws@).take(i as int));
        assert(vviews(ws@).take(i as int + 1).last() == ws@[i as int]@);
        push_all(&mut out, &ws[i]);
        i += 1;
    }
    assert(vviews(ws@).take(ws@.len() as int) == vviews(ws@));
    string_of(&out)
}

// ---------------------------------------------------------------------------
// Per-article de-duplication
// ---------------------------------------------------------------------------

/// A normalized entity as plain values: display name, key, type.
pub type NormView = (Seq<char>, Seq<char>, EntityType);

/// The plain-value view of normalized entities.
pub open spec fn norm_views(v: Seq<NormalizedEntity>) -> Seq<NormView> {
    v.map_values(|e: NormalizedEntity| (e.canonical_name@, e.match_key@, e.entity_type))
}

/// The plain-value view of extracted entities.
pub open spec fn extracted_views(v: Seq<ExtractedEntity>) -> Seq<(Seq<char>, EntityType)> {
    v.map_values(|e: ExtractedEntity| (e.name@, e.entity_type))
}

/// Whether `v` already holds an entity with key `k` and type `t`.
pub open spec fn has_key(v: Seq<NormView>, k: Seq<char>, t: EntityType) -> bool {
    exists|i: int| 0 <= i < v.len() && (#[trigger] v[i]).1 == k && v[i].2 == t
}

/// The entities of one article, cleaned and keyed, in order: a name that
/// cleans to nothing or keys to nothing is dropped, and so is one whose
/// key and type an earlier entity already has.
pub open spec fn normalized_entities(es: Seq<(Seq<char>, EntityType)>) -> Seq<NormView>
    decreases es.len(),
{
    if es.len() == 0 {
        seq![]
    } else {
        let prev = normalized_entities(es.drop_last());
        let t = es.last().1;
        match cleaned_name(es.last().0) {
            None => prev,
            Some(c) => {
                let k = key_of(c);
                if k.len() == 0 || has_key(prev, k, t) {
                    prev
                } else {
                    prev.push((c, k, t))
                }
            },
        }
    }
}

/// Whether `v` holds an entity with key `k` and type `t`.
fn holds_key(v: &Vec<NormalizedEntity>, k: &str, t: EntityType) -> (r: bool)
    ensures
        r == has_key(norm_views(v@), k@, t),
{
    let mut i: usize = 0;
    while i < v.len()
        invariant
            i <= v.len(),
            forall|j: int| 0 <= j < i ==> !((#[trigger] norm_views(v@)[j]).1 == k@ && norm_views(v@)[j].2 == t),
        decreases v.len() - i,
    {
        if crate::text::str_eq(v[i].match_key.as_str(), k) && v[i].entity_type == t {
            assert(norm_views(v@)[i as int].1 == k@ && norm_views(v@)[i as int].2 == t);
            return true;
        }
        i += 1;
    }
    false
}

/// Normalize and de-duplicate the entities extracted from one article: the
/// same key and type named twice collapses to the first mention.
pub fn normalize_all(extracted: &[ExtractedEntity]) -> (r: Vec<NormalizedEntity>)
    ensures
        norm_views(r@) == normalized_entities(extracted_views(extracted@)),
{
    let ghost ev = extracted_views(extracted@);
    let mut out: Vec<NormalizedEntity> = Vec::new();
    let mut i: usize = 0;
    while i < extracted.len()
        invariant
            i <= extracted.len(),
            ev == extracted_views(extracted@),
            norm_views(out@) == normalized_entities(ev.take(i as int)),
        decreases extracted.len() - i,
    {
        assert(ev.take(i as int + 1).drop_last() == ev.take(i as int));
        assert(ev.take(i as int + 1).last() == (extracted@[i as int].name@, extracted@[i as int].entity_type));
        let t = extracted[i].entity_type;
        match clean_name(extracted[i].name.as_str()) {
            None => {},
            Some(name) => {
                let key = match_key(name.as_str());
                if !key.as_str().is_empty() && !holds_key(&out, key.as_str(), t) {
                    let ghost before = out@;
                    let ghost item = (name@, key@, t);
                    out.push(NormalizedEntity { canonical_name: name, match_key: key, entity_type: t });
                    assert(norm_views(out@) == norm_views(before).push(item));
                }
            },
        }
        i += 1;
    }
    assert(ev.take(ev.len() as int) == ev);
    out
}

/// No two entities of one article share a key and a type.
pub proof fn lemma_normalized_unique(es: Seq<(Seq<char>, EntityType)>)
    ensures
        forall|i: int, j: int|
            0 <= i < j < normalized_entities(es).len() ==> !((#[trigger] normalized_entities(es)[i]).1
                == (#[trigger] normalized_entities(es)[j]).1 && normalized_entities(es)[i].2
                == normalized_entities(es)[j].2),
    decreases es.len(),
{
    if es.len() > 0 {
        lemma_normalized_unique(es.drop_last());
        let prev = normalized_entities(es.drop_last());
        let cur = normalized_entities(es);
        if cur.len() > prev.len() {
            assert forall|i: int, j: int| 0 <= i < j < cur.len() implies !((#[trigger] cur[i]).1 == (
            #[trigger] cur[j]).1 && cur[i].2 == cur[j].2) by {
                if j == cur.len() - 1 {
                    assert(cur[i] == prev[i]);
                    if cur[i].1 == cur[j].1 && cur[i].2 == cur[j].2 {
                        assert(has_key(prev, cur[j].1, cur[j].2));
                    }
                } else {
                    assert(cur[i] == prev[i] && cur[j] == prev[j]);
                }
            }
        }
    }
}

/// Every normalized entity has a non-empty key.
pub proof fn lemma_normalized_keyed(es: Seq<(Seq<char>, EntityType)>)
    ensures
        forall|i: int| 0 <= i < normalized_entities(es).len() ==> (#[trigger] normalized_entities(es)[i]).1.len() > 0,
    decreases es.len(),
{
    if es.len() > 0 {
        lemma_normalized_keyed(es.drop_last());
        let prev = normalized_entities(es.drop_last());
        let cur = normalized_entities(es);
        assert forall|i: int| 0 <= i < cur.len() implies (#[trigger] cur[i]).1.len() > 0 by {
            if i < prev.len() {
                assert(cur[i] == prev[i]);
            }
        }
    }
}

// ---------------------------------------------------------------------------
// Edit distance
// ---------------------------------------------------------------------------

/// The Levenshtein distance: the fewest single-character insertions,
/// deletions and substitutions turning `x` into `y`.
pub open spec fn edit_distance(x: Seq<char>, y: Seq<char>) -> nat
    decreases x.len() + y.len(),
{
    if x.len() == 0 {
        y.len()
    } else if y.len() == 0 {
        x.len()
    } else {
        let del = edit_distance(x.drop_last(), y) + 1;
        let ins = edit_distance(x, y.drop_last()) + 1;
        let sub = edit_distance(x.drop_last(), y.drop_last()) + if x.last() == y.last() { 0nat } else { 1nat };
        if del <= ins && del <= sub {
            del
        } else if ins <= sub {
            ins
        } else {
            sub
        }
    }
}

/// The distance is at most the longer length.
pub proof fn lemma_edit_distance_bound(x: Seq<char>, y: Seq<char>)
    ensures
        edit_distance(x, y) <= if x.len() >= y.len() { x.len() } else { y.len() },
    decreases x.len() + y.len(),
{
    if x.len() > 0 && y.len() > 0 {
        lemma_edit_distance_bound(x.drop_last(), y.drop_last());
    }
}

/// A string is at distance zero from itself.
pub proof fn lemma_edit_distance_self(x: Seq<char>)
    ensures
        edit_distance(x, x) == 0,
    decreases x.len(),
{
    if x.len() > 0 {
        lemma_edit_distance_self(x.drop_last());
    }
}

/// The distance is symmetric.
pub proof fn lemma_edit_distance_symmetric(x: Seq<char>, y: Seq<char>)
    ensures
        edit_distance(x, y) == edit_distance(y, x),
    decreases x.len() + y.len(),
{
    if x.len() > 0 && y.len() > 0 {
        lemma_edit_distance_symmetric(x.drop_last(), y);
        lemma_edit_distance_symmetric(x, y.drop_last());
        lemma_edit_distance_symmetric(x.drop_last(), y.drop_last());
    }
}

/// Levenshtein edit distance between two strings, counted in characters.
#[verifier::rlimit(30)]
pub fn levenshtein(a: &str, b: &str) -> (r: usize)
    ensures
        r == edit_distance(a@, b@),
{
    let x = chars_of(a);
    let y = chars_of(b);
    if x.len() == 0 {
        return y.len();
    }
    if y.len() == 0 {
        return x.len();
    }
    let m = y.len();
    let mut prev: Vec<u128> = Vec::new();
    let mut j: usize = 0;
    while j < m
        invariant
            j <= m,
            m == y@.len(),
            prev@.len() == j,
            forall|k: int| 0 <= k < j ==> #[trigger] prev@[k] == k,
        decreases m - j,
    {
        prev.push(j as u128);
        j += 1;
    }
    prev.push(m as u128);
    proof {
        assert forall|k: int| 0 <= k <= m implies #[trigger] prev@[k] == edit_distance(x@.take(0), y@.take(k)) by {
            assert(x@.take(0).len() == 0);
        }
    }
    let mut i: usize = 0;
    while i < x.len()
        invariant
            i <= x.len(),
            m == y@.len(),
            m > 0,
            prev@.len() == m + 1,
            forall|k: int| 0 <= k <= m ==> #[trigger] prev@[k] == edit_distance(x@.take(i as int), y@.take(k)),
            forall|k: int| 0 <= k <= m ==> #[trigger] prev@[k] <= i + k,
        decreases x.len() - i,
    {
        let mut cur: Vec<u128> = Vec::new();
        cur.push((i + 1) as u128);
        let ghost xi = x@.take(i as int + 1);
        assert(xi.len() > 0);
        assert(edit_distance(xi, y@.take(0)) == i + 1) by {
            assert(y@.take(0).len() == 0);
        }
        let mut k: usize = 0;
        while k < m
            invariant
                k <= m,
                i < x.len(),
                m == y@.len(),
                prev@.len() == m + 1,
                xi == x@.take(i as int + 1),
                forall|q: int| 0 <= q <= m ==> #[trigger] prev@[q] == edit_distance(x@.take(i as int), y@.take(q)),
                forall|q: int| 0 <= q <= m ==> #[trigger] prev@[q] <= i + q,
                cur@.len() == k + 1,
                forall|q: int| 0 <= q <= k ==> #[trigger] cur@[q] == edit_distance(xi, y@.take(q)),
                forall|q: int| 0 <= q <= k ==> #[trigger] cur@[q] <= i + 1 + q,
            decreases m - k,
        {
            let cost: u128 = if x[i] != y[k] { 1 } else { 0 };
            let del = prev[k + 1] + 1;
            let ins = cur[k] + 1;
            let sub = prev[k] + cost;
            let v = if del <= ins && del <= sub {
                del
            } else if ins <= sub {
                ins
            } else {
                sub
            };
            proof {
                let yk = y@.take(k as int + 1);
                assert(xi.drop_last() == x@.take(i as int));
                assert(yk.drop_last() == y@.take(k as int));
                assert(xi.last() == x@[i as int]);
                assert(yk.last() == y@[k as int]);
                assert(yk.len() > 0);
            }
            cur.push(v);
            k += 1;
        }
        prev = cur;
        i += 1;
    }
    assert(x@.take(x@.len() as int) == x@);
    assert(y@.take(m as int) == y@);
    proof {
        lemma_edit_distance_bound(x@, y@);
    }
    prev[m] as usize
}

// ---------------------------------------------------------------------------
// Candidate prefixes
// ---------------------------------------------------------------------------

/// The first four characters of a key (all of it when shorter).
pub open spec fn key_prefix(k: Seq<char>) -> Seq<char> {
    k.take(if k.len() < 4 { k.len() as int } else { 4 })
}

/// Whether `v` is strictly increasing in the text order (sorted, no repeats).
pub open spec fn strictly_sorted(v: Seq<Seq<char>>) -> bool {
    forall|i: int, j: int| 0 <= i < j < v.len() ==> text_le(#[trigger] v[i], #[trigger] v[j]) && v[i] != v[j]
}

/// The string views of strings.
pub open spec fn str_views(v: Seq<String>) -> Seq<Seq<char>> {
    v.map_values(|s: String| s@)
}

/// Whether `a` sorts before or equal to `b`.
fn text_le_exec(a: &String, b: &Vec<char>) -> (r: bool)
    ensures
        r == text_le(a@, b@),
{
    let ac = chars_of(a.as_str());
    let mut i: usize = 0;
    assert(ac@.skip(0) == ac@ && b@.skip(0) == b@);
    while i < ac.len() && i < b.len() && ac[i] == b[i]
        invariant
            i <= ac.len(),
            i <= b.len(),
            ac@ == a@,
            text_le(a@, b@) == text_le(ac@.skip(i as int), b@.skip(i as int)),
        decreases ac.len() - i,
    {
        assert(ac@.skip(i as int).drop_first() == ac@.skip(i as int + 1));
        assert(b@.skip(i as int).drop_first() == b@.skip(i as int + 1));
        i += 1;
    }
    if i == ac.len() {
        true
    } else if i == b.len() {
        false
    } else {
        assert(ac@.skip(i as int)[0] == ac@[i as int] && b@.skip(i as int)[0] == b@[i as int]);
        ac[i] < b[i]
    }
}

/// Insert `p` into a strictly sorted list unless it is already there.
fn insert_unique(out: &mut Vec<String>, p: Vec<char>)
    requires
        strictly_sorted(str_views(old(out)@)),
    ensures
        strictly_sorted(str_views(final(out)@)),
        forall|q: Seq<char>| str_views(final(out)@).contains(q) <==> (str_views(old(out)@).contains(q) || q == p@),
{
    let ghost v = str_views(out@);
    let mut i: usize = 0;
    while i < out.len() && text_le_exec(&out[i], &p)
        invariant
            i <= out.len(),
            v == str_views(out@),
            forall|k: int| 0 <= k < i ==> text_le(#[trigger] v[k], p@),
        decreases out.len() - i,
    {
        i += 1;
    }
    if i > 0 && crate::text::str_eq(out[i - 1].as_str(), string_of(&p).as_str()) {
        assert(v[i - 1] == p@);
        assert forall|q: Seq<char>| v.contains(q) <==> (v.contains(q) || q == p@) by {
            if q == p@ {
                assert(v[i - 1] == q);
            }
        }
        return;
    }
    proof {
        assert forall|k: int| i <= k < v.len() implies !text_le(#[trigger] v[k], p@) && text_le(p@, v[k]) by {
            if k > i {
                assert(text_le(v[i as int], v[k]));
                if text_le(v[k], p@) {
                    lemma_text_le_trans(v[i as int], v[k], p@);
                }
            }
            lemma_text_le_total(v[k], p@);
        }
        if i > 0 {
            assert(v[i - 1] != p@);
        }
        assert forall|k: int| 0 <= k < i implies text_le(#[trigger] v[k], p@) && v[k] != p@ by {
            if k < i - 1 {
                assert(text_le(v[k], v[i - 1]) && v[k] != v[i - 1]);
                if v[k] == p@ {
                    lemma_text_le_antisym(v[k], v[i - 1]);
                }
            }
        }
    }
    let ghost before = out@;
    out.insert(i, string_of(&p));
    proof {
        let w = str_views(out@);
        assert(w == v.insert(i as int, p@));
        assert forall|a: int, b: int| 0 <= a < b < w.len() implies text_le(#[trigger] w[a], #[trigger] w[b]) && w[a] != w[b] by {
            if a < i && b == i {
            } else if a < i && b > i {
                assert(w[b] == v[b - 1]);
                lemma_text_le_trans(v[a], p@, v[b - 1]);
                if v[a] == v[b - 1] {
                    lemma_text_le_antisym(v[a], p@);
                }
            } else if a == i {
                assert(w[b] == v[b - 1]);
            } else if a > i {
                assert(w[a] == v[a - 1] && w[b] == v[b - 1]);
            } else {
                assert(w[a] == v[a] && w[b] == v[b]);
            }
        }
        assert forall|q: Seq<char>| w.contains(q) <==> (v.contains(q) || q == p@) by {
            if w.contains(q) {
                let k = choose|k: int| 0 <= k < w.len() && w[k] == q;
                if k < i {
                    assert(v[k] == q);
                } else if k > i {
                    assert(v[k - 1] == q);
                }
            }
            if v.contains(q) {
                let k = choose|k: int| 0 <= k < v.len() && v[k] == q;
                if k < i {
                    assert(w[k] == q);
                } else {
                    assert(w[k + 1] == q);
                }
            }
            if q == p@ {
                assert(w[i as int] == q);
            }
        }
    }
}

/// The short key prefixes a store should query on to fetch fuzzy
/// candidates: the first four characters of every key, sorted, each once.
pub fn candidate_prefixes(entities: &[NormalizedEntity]) -> (r: Vec<String>)
    ensures
        strictly_sorted(str_views(r@)),
        forall|q: Seq<char>|
            str_views(r@).contains(q) <==> (exists|i: int| 0 <= i < entities@.len() && key_prefix(
                (#[trigger] entities@[i]).match_key@,
            ) == q),
{
    let mut out: Vec<String> = Vec::new();
    let mut i: usize = 0;
    while i < entities.len()
        invariant
            i <= entities.len(),
            strictly_sorted(str_views(out@)),
            forall|q: Seq<char>|
                str_views(out@).contains(q) <==> (exists|j: int| 0 <= j < i && key_prefix(
                    (#[trigger] entities@[j]).match_key@,
                ) == q),
        decreases entities.len() - i,
    {
        let k = chars_of(entities[i].match_key.as_str());
        let n: usize = if k.len() < 4 { k.len() } else { 4 };
        let p = slice_chars(&k, 0, n);
        assert(p@ == key_prefix(entities@[i as int].match_key@));
        let ghost before = str_views(out@);
        insert_unique(&mut out, p);
        assert forall|q: Seq<char>|
            str_views(out@).contains(q) <==> (exists|j: int| 0 <= j < i + 1 && key_prefix(
                (#[trigger] entities@[j]).match_key@,
            ) == q) by {
            if q == p@ {
                assert(key_prefix(entities@[i as int].match_key@) == q);
            }
            if exists|j: int| 0 <= j < i + 1 && key_prefix((#[trigger] entities@[j]).match_key@) == q {
                let j = choose|j: int| 0 <= j < i + 1 && key_prefix((#[trigger] entities@[j]).match_key@) == q;
                if j < i {
                    assert(before.contains(q));
                }
            }
        }
        i += 1;
    }
    out
}

/// A lowercase ASCII word is its own trimmed lowercase.
proof fn lemma_plain_word(s: Seq<char>)
    requires
        s.len() > 0,
        forall|i: int| 0 <= i < s.len() ==> 'a' <= #[trigger] s[i] <= 'z',
    ensures
        unicode_lower_str(trim(s)) == s,
{
    assert(trim(s) == s) by {
        assert(!unicode_whitespace(s[0]));
        assert(crate::text::trim_start(s) == s);
        assert(!unicode_whitespace(s.last()));
    }
    assert(crate::text::all_ascii(s));
    assert(crate::text::ascii_lower_seq(s) =~= s);
}

/// Every entity type reads back from its column value, and no two types
/// share one.
pub proof fn lemma_entity_type_round_trip(t: EntityType, u: EntityType)
    ensures
        parse_entity_type(entity_type_name(t)) == t,
        t != u ==> entity_type_name(t) != entity_type_name(u),
{
    reveal_strlit("person");
    reveal_strlit("company");
    reveal_strlit("place");
    reveal_strlit("event");
    reveal_strlit("technology");
    reveal_strlit("other");
    reveal_strlit("people");
    reveal_strlit("individual");
    reveal_strlit("human");
    reveal_strlit("organization");
    reveal_strlit("organisation");
    reveal_strlit("org");
    reveal_strlit("corporation");
    reveal_strlit("business");
    reveal_strlit("institution");
    reveal_strlit("agency");
    reveal_strlit("location");
    reveal_strlit("country");
    reveal_strlit("city");
    reveal_strlit("region");
    reveal_strlit("geography");
    reveal_strlit("incident");
    reveal_strlit("conference");
    reveal_strlit("tech");
    reveal_strlit("product");
    reveal_strlit("standard");
    reveal_strlit("protocol");
    reveal_strlit("software");
    reveal_strlit("ies");
    lemma_plain_word(entity_type_name(t));
    if t == EntityType::Other {
        let k = "other"@;
        assert(type_word(k) == EntityType::Other);
        assert(k.subrange(k.len() - 3, k.len() as int)[0] == 'h');
        assert("ies"@[0] == 'i');
        assert(k.subrange(k.len() - 3, k.len() as int) != "ies"@);
        assert(singular(k) == k);
    }
    assert("person"@.len() == 6 && "company"@.len() == 7 && "place"@.len() == 5);
    assert("event"@.len() == 5 && "technology"@.len() == 10 && "other"@.len() == 5);
    assert("place"@[0] != "event"@[0] && "place"@[0] != "other"@[0] && "event"@[0] != "other"@[0]);
}

} // verus!
