//! JSON as a tree, and ways to look into it.

use crate::text;
use vstd::prelude::*;

verus! {

// ---------- the outside functions ----------

/// `serde_json`'s own tree.
#[verifier::external_type_specification]
#[verifier::external_body]
pub struct ExValue(serde_json::Value);

/// The tree that a `serde_json::Value` holds.
pub uninterp spec fn value_tree(value: serde_json::Value) -> JsonView;

/// The tree that a text is read as, or what is wrong with the text.
pub uninterp spec fn json_parsed(raw: Seq<char>) -> Result<JsonView, Seq<char>>;

/// `serde_json::from_str` into `serde_json::Value`: a function of the text, its
/// error as `Display` writes it.
#[verifier::external_body]
fn parse_value(raw: &str) -> (r: Result<serde_json::Value, String>)
    ensures
        match r {
            Ok(value) => json_parsed(raw@) == Ok::<JsonView, Seq<char>>(value_tree(value)),
            Err(e) => json_parsed(raw@) == Err::<JsonView, Seq<char>>(e@),
        },
{
    serde_json::from_str(raw).map_err(|e| e.to_string())
}

/// The variants of `serde_json::Value`, one for one: the tree that the value
/// holds.
#[verifier::external_body]
fn json_of(value: serde_json::Value) -> (r: Json)
    ensures
        r@ == value_tree(value),
{
    match value {
        serde_json::Value::Null => Json::Null,
        serde_json::Value::Bool(b) => Json::Bool(b),
        serde_json::Value::Number(n) => Json::Number(n.as_u64()),
        serde_json::Value::String(s) => Json::Text(s),
        serde_json::Value::Array(v) => Json::Array(v.into_iter().map(json_of).collect()),
        serde_json::Value::Object(m) => {
            Json::Object(m.into_iter().map(|e| (e.0, json_of(e.1))).collect())
        },
    }
}

// ---------- the tree ----------

/// A JSON value. Of a number only what fits 64 bits without a sign is kept.
#[derive(Debug)]
pub enum Json {
    Null,
    Bool(bool),
    Number(Option<u64>),
    Text(String),
    Array(Vec<Json>),
    Object(Vec<(String, Json)>),
}

/// A JSON value with its texts spelled out.
#[verifier::ext_equal]
pub enum JsonView {
    Null,
    Bool(bool),
    Number(Option<u64>),
    Text(Seq<char>),
    Array(Seq<JsonView>),
    Object(Seq<(Seq<char>, JsonView)>),
}

impl View for Json {
    type V = JsonView;

    open spec fn view(&self) -> JsonView {
        tree(*self)
    }
}

/// The tree of a JSON value.
pub open spec fn tree(j: Json) -> JsonView
    decreases j,
{
    match j {
        Json::Null => JsonView::Null,
        Json::Bool(b) => JsonView::Bool(b),
        Json::Number(n) => JsonView::Number(n),
        Json::Text(s) => JsonView::Text(s@),
        Json::Array(v) => JsonView::Array(
            Seq::new(
                v@.len(),
                |i: int|
                    if 0 <= i < v@.len() {
                        tree(v@[i])
                    } else {
                        JsonView::Null
                    },
            ),
        ),
        Json::Object(v) => JsonView::Object(
            Seq::new(
                v@.len(),
                |i: int|
                    if 0 <= i < v@.len() {
                        (v@[i].0@, tree(v@[i].1))
                    } else {
                        (Seq::empty(), JsonView::Null)
                    },
            ),
        ),
    }
}

pub open spec fn json_outcome(r: Result<Json, String>) -> Result<JsonView, Seq<char>> {
    match r {
        Ok(j) => Ok(j@),
        Err(e) => Err(e@),
    }
}

pub open spec fn opt_json(o: Option<&Json>) -> Option<JsonView> {
    match o {
        Some(j) => Some(j@),
        None => None,
    }
}

/// Reads a text as JSON.
pub fn parse_json(raw: &str) -> (r: Result<Json, String>)
    ensures
        json_outcome(r) == json_parsed(raw@),
{
    match parse_value(raw) {
        Ok(value) => Ok(json_of(value)),
        Err(e) => Err(e),
    }
}

// ---------- looking into it ----------

/// The first entry with a key, counted from some place on.
pub open spec fn entry_from(entries: Seq<(Seq<char>, JsonView)>, key: Seq<char>, at: int) -> Option<
    JsonView,
>
    decreases entries.len() - at,
{
    if at < 0 || at >= entries.len() {
        None
    } else if entries[at].0 == key {
        Some(entries[at].1)
    } else {
        entry_from(entries, key, at + 1)
    }
}

/// The member of an object; nothing where there is none.
pub open spec fn member(j: Option<JsonView>, key: Seq<char>) -> Option<JsonView> {
    match j {
        Some(JsonView::Object(entries)) => entry_from(entries, key, 0),
        _ => None,
    }
}

/// The elements of an array; none where there is no array.
pub open spec fn elements(j: Option<JsonView>) -> Seq<JsonView> {
    match j {
        Some(JsonView::Array(v)) => v,
        _ => Seq::empty(),
    }
}

/// The text that a value is, if it is one.
pub open spec fn as_text(j: Option<JsonView>) -> Option<Seq<char>> {
    match j {
        Some(JsonView::Text(s)) => Some(s),
        _ => None,
    }
}

/// The text that a value is, or another one.
pub open spec fn text_or(j: Option<JsonView>, other: Seq<char>) -> Seq<char> {
    match as_text(j) {
        Some(s) => s,
        None => other,
    }
}

/// The number that a value is, if it is one without a sign.
pub open spec fn as_number(j: Option<JsonView>) -> Option<u64> {
    match j {
        Some(JsonView::Number(n)) => n,
        _ => None,
    }
}

/// Looks a member of an object up.
pub fn get<'a>(j: Option<&'a Json>, key: &str) -> (r: Option<&'a Json>)
    ensures
        opt_json(r) == member(opt_json(j), key@),
{
    if let Some(Json::Object(entries)) = j {
        let ghost all = tree(*j->0)->Object_0;
        let mut i: usize = 0;
        while i < entries.len()
            invariant
                i <= entries@.len(),
                j == Some(&Json::Object(*entries)),
                all == tree(Json::Object(*entries))->Object_0,
                entry_from(all, key@, 0) == entry_from(all, key@, i as int),
            decreases entries@.len() - i,
        {
            assert(all[i as int] == (entries@[i as int].0@, tree(entries@[i as int].1)));
            if text::same(entries[i].0.as_str(), key) {
                return Some(&entries[i].1);
            }
            i += 1;
        }
    }
    None
}

/// Reads a text.
pub fn text_of(j: Option<&Json>) -> (r: Option<String>)
    ensures
        text::opt_text(r) == as_text(opt_json(j)),
{
    match j {
        Some(Json::Text(s)) => Some(text::owned(s.as_str())),
        _ => None,
    }
}

/// Reads a text, or takes another one.
pub fn text_else(j: Option<&Json>, other: &str) -> (r: String)
    ensures
        r@ == text_or(opt_json(j), other@),
{
    match text_of(j) {
        Some(s) => s,
        None => text::owned(other),
    }
}

/// Reads a number without a sign.
pub fn number_of(j: Option<&Json>) -> (r: Option<u64>)
    ensures
        r == as_number(opt_json(j)),
{
    match j {
        Some(Json::Number(n)) => *n,
        _ => None,
    }
}

/// How many elements an array has.
pub fn count(j: Option<&Json>) -> (r: usize)
    ensures
        r == elements(opt_json(j)).len(),
{
    match j {
        Some(Json::Array(v)) => v.len(),
        _ => 0,
    }
}

/// One element of an array.
pub fn element<'a>(j: Option<&'a Json>, i: usize) -> (r: Option<&'a Json>)
    ensures
        opt_json(r) == (if i < elements(opt_json(j)).len() {
            Some(elements(opt_json(j))[i as int])
        } else {
            None
        }),
{
    match j {
        Some(Json::Array(v)) => if i < v.len() {
            Some(&v[i])
        } else {
            None
        },
        _ => None,
    }
}

// ---------- laws ----------

proof fn lemma_entry_from(entries: Seq<(Seq<char>, JsonView)>, key: Seq<char>, from: int, k: int)
    requires
        0 <= from <= k <= entries.len(),
        forall|i: int| from <= i < k ==> (#[trigger] entries[i]).0 != key,
    ensures
        k < entries.len() && entries[k].0 == key ==> entry_from(entries, key, from) == Some(
            entries[k].1,
        ),
        k == entries.len() ==> entry_from(entries, key, from) is None,
    decreases k - from,
{
    if from < k {
        assert(entries[from].0 != key);
        lemma_entry_from(entries, key, from + 1, k);
    }
}

/// A member is the first entry of an object under its key, and nothing where no
/// entry has the key.
pub proof fn law_members_go_by_their_key(
    entries: Seq<(Seq<char>, JsonView)>,
    key: Seq<char>,
    k: int,
)
    requires
        0 <= k <= entries.len(),
        forall|i: int| 0 <= i < k ==> (#[trigger] entries[i]).0 != key,
    ensures
        k < entries.len() && entries[k].0 == key ==> member(
            Some(JsonView::Object(entries)),
            key,
        ) == Some(entries[k].1),
        k == entries.len() ==> member(Some(JsonView::Object(entries)), key) is None,
        member(None, key) is None,
{
    lemma_entry_from(entries, key, 0, k);
}

/// Texts, numbers and elements are read as they stand, and from nothing else.
pub proof fn law_values_are_read_as_they_stand(j: Json, other: Seq<char>)
    ensures
        j matches Json::Text(s) ==> as_text(Some(j@)) == Some(s@) && text_or(Some(j@), other) == s@,
        j !is Text ==> as_text(Some(j@)) is None && text_or(Some(j@), other) == other,
        j matches Json::Number(n) ==> as_number(Some(j@)) == n,
        j !is Number ==> as_number(Some(j@)) is None,
        j matches Json::Array(v) ==> elements(Some(j@)).len() == v@.len() && forall|i: int|
            0 <= i < v@.len() ==> #[trigger] elements(Some(j@))[i] == v@[i]@,
        j !is Array ==> elements(Some(j@)).len() == 0,
        as_text(None) is None && as_number(None) is None && elements(None).len() == 0,
        text_or(None, other) == other,
{
}

}
