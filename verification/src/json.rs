//! JSON values, built and written out by `serde_json`.
use serde_json::{Error, Value};
use vstd::prelude::*;

verus! {

/// What a JSON value holds. A number is given by its numeral.
pub enum Json {
    Null,
    Bool(bool),
    Number(Seq<char>),
    Text(Seq<char>),
    List(Seq<Json>),
    Record(Map<Seq<char>, Json>),
}

/// `serde_json`'s tree of JSON values.
#[verifier::external_type_specification]
#[verifier::external_body]
pub struct ExValue(serde_json::Value);

/// `serde_json`'s error.
#[verifier::external_type_specification]
#[verifier::external_body]
pub struct ExError(serde_json::Error);

/// What the tree `v` holds.
pub uninterp spec fn json_of(v: Value) -> Json;

/// The text that `serde_json::to_string` gives for a value that holds `j`, or
/// `None` where it fails.
pub uninterp spec fn json_text(j: Json) -> Option<Seq<char>>;

/// The members of a record made of `pairs`, all of them strings.
pub open spec fn members(pairs: Seq<(Seq<char>, Seq<char>)>) -> Map<Seq<char>, Json>
    decreases pairs.len(),
{
    if pairs.len() == 0 {
        Map::empty()
    } else {
        members(pairs.drop_last()).insert(pairs.last().0, Json::Text(pairs.last().1))
    }
}

/// The contents of pairs of strings.
pub open spec fn pair_views(pairs: Seq<(String, String)>) -> Seq<(Seq<char>, Seq<char>)> {
    pairs.map_values(|p: (String, String)| (p.0@, p.1@))
}

/// What each of the trees holds.
pub open spec fn json_views(values: Seq<Value>) -> Seq<Json> {
    values.map_values(|v: Value| json_of(v))
}

/// `serde_json`'s `Value::Null`, the null value.
#[verifier::external_body]
pub(crate) fn json_null() -> (r: Value)
    ensures
        json_of(r) == Json::Null,
{
    Value::Null
}

/// `serde_json`'s `Value::Array`: the list of the given values in their order.
#[verifier::external_body]
pub(crate) fn json_list(values: Vec<Value>) -> (r: Value)
    ensures
        json_of(r) == Json::List(json_views(values@)),
{
    Value::Array(values)
}

/// `serde_json`'s `Value::from_iter` over pairs of strings: the object with those
/// members. An object compares by its members alone: it keeps them sorted by key,
/// whatever the order in which they came.
#[verifier::external_body]
pub(crate) fn json_record(pairs: Vec<(String, String)>) -> (r: Value)
    requires
        forall|i: int, j: int| 0 <= i < j < pairs@.len() ==> pairs@[i].0@ != pairs@[j].0@,
    ensures
        json_of(r) == Json::Record(members(pair_views(pairs@))),
{
    Value::from_iter(pairs)
}

/// `serde_json::to_string`: the text is a function of what the value holds. It
/// never holds the character NUL, as control characters are written as escapes.
/// What the text looks like beyond that is not stated.
#[verifier::external_body]
pub(crate) fn json_to_string(v: &Value) -> (r: Result<String, Error>)
    ensures
        match r {
            Ok(s) => json_text(json_of(*v)) == Some(s@) && !s@.contains('\0'),
            Err(_) => json_text(json_of(*v)) is None,
        },
{
    serde_json::to_string(v)
}

/// The text of `v`, or `fallback` where it cannot be written.
pub fn json_text_or(v: &Value, fallback: &str) -> (r: String)
    ensures
        r@ == match json_text(json_of(*v)) {
            Some(s) => s,
            None => fallback@,
        },
        !fallback@.contains('\0') ==> !r@.contains('\0'),
{
    match json_to_string(v) {
        Ok(s) => s,
        Err(_) => fallback.to_owned(),
    }
}

/// A record has a member for each of its pairs, with the text of the pair, and no
/// other member.
pub proof fn law_record_has_every_pair(pairs: Seq<(Seq<char>, Seq<char>)>, key: Seq<char>)
    requires
        forall|i: int, j: int| 0 <= i < j < pairs.len() ==> pairs[i].0 != pairs[j].0,
    ensures
        forall|i: int|
            0 <= i < pairs.len() ==> members(pairs).contains_key((#[trigger] pairs[i]).0)
                && members(pairs)[pairs[i].0] == Json::Text(pairs[i].1),
        members(pairs).contains_key(key) ==> exists|i: int|
            0 <= i < pairs.len() && (#[trigger] pairs[i]).0 == key,
    decreases pairs.len(),
{
    if pairs.len() > 0 {
        let front = pairs.drop_last();
        assert(forall|i: int| 0 <= i < front.len() ==> #[trigger] front[i] == pairs[i]);
        law_record_has_every_pair(front, key);
        assert forall|i: int| 0 <= i < pairs.len() implies members(pairs).contains_key(
            (#[trigger] pairs[i]).0,
        ) && members(pairs)[pairs[i].0] == Json::Text(pairs[i].1) by {
            if i < front.len() {
                assert(members(front).contains_key(front[i].0));
                assert(pairs[i].0 != pairs[pairs.len() - 1].0);
            }
        }
        if members(pairs).contains_key(key) {
            if key == pairs.last().0 {
                assert(pairs[pairs.len() - 1].0 == key);
            } else {
                let i = choose|i: int| 0 <= i < front.len() && (#[trigger] front[i]).0 == key;
                assert(pairs[i].0 == key);
            }
        }
    }
}

/// What trees hold is what each tree holds, in its place.
pub proof fn law_json_views_by_item(values: Seq<Value>, i: int)
    requires
        0 <= i < values.len(),
    ensures
        json_views(values).len() == values.len(),
        json_views(values)[i] == json_of(values[i]),
{
}

/// The contents of pairs are those of each pair, in its place.
pub proof fn law_pair_views_by_item(pairs: Seq<(String, String)>, i: int)
    requires
        0 <= i < pairs.len(),
    ensures
        pair_views(pairs).len() == pairs.len(),
        pair_views(pairs)[i] == (pairs[i].0@, pairs[i].1@),
{
}

} // verus!
