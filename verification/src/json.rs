//! JSON values, as far as the library looks into them.

use vstd::prelude::*;
#[allow(unused_imports)]
use crate::text::view_of;

verus! {

/// `serde_json::Value`, carried as it is.
#[verifier::external_type_specification]
#[verifier::external_body]
pub struct ExValue(serde_json::Value);

/// The members of a JSON object by key; none for any other value.
pub uninterp spec fn members(value: serde_json::Value) -> Map<Seq<char>, serde_json::Value>;

/// The text of a JSON string; `None` for any other value.
pub uninterp spec fn text_in(value: serde_json::Value) -> Option<Seq<char>>;

/// `pairs` as a map, a later pair standing in for an earlier one with its key.
pub open spec fn pairs_map(pairs: Seq<(String, serde_json::Value)>) -> Map<
    Seq<char>,
    serde_json::Value,
>
    decreases pairs.len(),
{
    if pairs.len() == 0 {
        Map::empty()
    } else {
        pairs_map(pairs.drop_last()).insert(pairs.last().0@, pairs.last().1)
    }
}

/// `serde_json::Value::get` with a text key: the member of an object under that key, and nothing
/// for a value that is no object.
#[verifier::external_body]
pub(crate) fn member<'a>(value: &'a serde_json::Value, key: &str) -> (r: Option<
    &'a serde_json::Value,
>)
    ensures
        match r {
            Some(v) => members(*value).contains_key(key@) && *v == members(*value)[key@],
            None => !members(*value).contains_key(key@),
        },
{
    value.get(key)
}

/// `serde_json::Value::as_str`: the text of a string, and nothing for any other value.
#[verifier::external_body]
pub(crate) fn text_value(value: &serde_json::Value) -> (r: Option<String>)
    ensures
        view_of(r) == text_in(*value),
{
    value.as_str().map(str::to_owned)
}

/// `serde_json::Value::String`: a string value, which holds that text.
#[verifier::external_body]
pub(crate) fn string_value(text: &str) -> (r: serde_json::Value)
    ensures
        text_in(r) == Some(text@),
{
    serde_json::Value::String(text.to_owned())
}

/// `serde_json::Map` collected from pairs, as an object: its members are the pairs, a later one
/// replacing an earlier one with the same key.
#[verifier::external_body]
pub(crate) fn object_of(pairs: Vec<(String, serde_json::Value)>) -> (r: serde_json::Value)
    ensures
        members(r) == pairs_map(pairs@),
{
    serde_json::Value::Object(pairs.into_iter().collect())
}

/// An object of two members.
pub(crate) fn pair_object(
    first: &str,
    a: serde_json::Value,
    second: &str,
    b: serde_json::Value,
) -> (r: serde_json::Value)
    ensures
        members(r) == Map::<Seq<char>, serde_json::Value>::empty().insert(first@, a).insert(
            second@,
            b,
        ),
{
    let mut pairs: Vec<(String, serde_json::Value)> = Vec::new();
    pairs.push((first.to_owned(), a));
    pairs.push((second.to_owned(), b));
    proof {
        assert(pairs@.drop_last().drop_last() =~= Seq::<(String, serde_json::Value)>::empty());
        assert(pairs_map(pairs@.drop_last().drop_last()) == Map::<
            Seq<char>,
            serde_json::Value,
        >::empty());
        reveal_with_fuel(pairs_map, 3);
    }
    object_of(pairs)
}

} // verus!
