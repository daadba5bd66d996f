//! The JSON index as this library sees it. The document is parsed and held by
//! `serde_json`; Verus cannot look inside its values, so this module names
//! what they hold and states, without proof, what each accessor returns.

use vstd::prelude::*;

verus! {

/// `serde_json::Value`, a parsed JSON value. Nothing inside it is visible
/// to the verifier; `value_tree` names what it holds.
#[verifier::external_type_specification]
#[verifier::external_body]
pub struct ExValue(serde_json::Value);

/// `serde_json::Map`, the members of a JSON object, kept in the order of the
/// document. `object_members` names what it holds.
#[verifier::external_type_specification]
#[verifier::external_body]
#[verifier::reject_recursive_types(K)]
#[verifier::reject_recursive_types(V)]
pub struct ExMap<K, V>(serde_json::Map<K, V>);

/// `serde_json::Error`, the reason why a byte string is no JSON document.
#[verifier::external_type_specification]
#[verifier::external_body]
pub struct ExError(serde_json::Error);

/// One name of a JSON object with the value that stands under it.
pub struct Member {
    pub name: Seq<char>,
    pub value: JsonTree,
}

/// A JSON value, as far as the index of an archive is concerned: objects,
/// unsigned integers that fit 64 bits, and strings are told apart; every other
/// value (null, booleans, arrays, negative or fractional numbers) is `Other`.
pub enum JsonTree {
    Object(Seq<Member>),
    Unsigned(u64),
    Text(Seq<char>),
    Other,
}

/// The tree that a `serde_json::Value` holds.
pub uninterp spec fn value_tree(value: serde_json::Value) -> JsonTree;

/// The members of a `serde_json::Map`, in the order in which it walks them.
pub uninterp spec fn object_members(object: serde_json::Map<String, serde_json::Value>) -> Seq<Member>;

/// What `serde_json::from_slice` makes of a byte string: the tree of the
/// document, or `None` where the bytes are not one JSON document.
pub uninterp spec fn parsed_document(bytes: Seq<u8>) -> Option<JsonTree>;

/// The text that `String::from_utf8_lossy` makes of a byte string, with the
/// replacement character in place of each invalid sequence.
pub uninterp spec fn lossy_text(bytes: Seq<u8>) -> Seq<char>;

/// Whether some member of an object has the given name.
pub open spec fn has_member(members: Seq<Member>, name: Seq<char>) -> bool {
    exists|i: int| 0 <= i < members.len() && (#[trigger] members[i]).name == name
}

/// The place of the member with the given name. No two members of an object
/// share a name, so there is at most one such place.
pub open spec fn member_index(members: Seq<Member>, name: Seq<char>) -> int {
    choose|i: int| 0 <= i < members.len() && (#[trigger] members[i]).name == name
}

/// The value that stands under a name in an object, if the name is there.
pub open spec fn lookup(members: Seq<Member>, name: Seq<char>) -> Option<JsonTree> {
    if has_member(members, name) {
        Some(members[member_index(members, name)].value)
    } else {
        None
    }
}

/// The value of a string of decimal digits, read as a number.
pub open spec fn digits_value(digits: Seq<char>) -> nat
    decreases digits.len(),
{
    if digits.len() == 0 {
        0
    } else {
        (10 * digits_value(digits.drop_last()) + (digits.last() as nat - '0' as nat)) as nat
    }
}

/// Whether every character is one of `0` to `9`.
pub open spec fn all_digits(text: Seq<char>) -> bool {
    forall|i: int| 0 <= i < text.len() ==> '0' <= #[trigger] text[i] <= '9'
}

/// The number that a decimal string spells: an optional `+`, then at least
/// one digit and nothing else, with a value that fits 64 bits.
pub open spec fn decimal_u64(text: Seq<char>) -> Option<u64> {
    let digits = if text.len() > 0 && text[0] == '+' {
        text.subrange(1, text.len() as int)
    } else {
        text
    };
    if digits.len() > 0 && all_digits(digits) && digits_value(digits) <= u64::MAX {
        Some(digits_value(digits) as u64)
    } else {
        None
    }
}

/// Calls `serde_json::from_slice` for a `Value`. Not proved: that the outcome
/// is the one that `parsed_document` names for these bytes.
#[verifier::external_body]
pub(crate) fn parse_document(bytes: &[u8]) -> (parsed: Result<serde_json::Value, serde_json::Error>)
    ensures
        match parsed {
            Ok(value) => parsed_document(bytes@) == Some(value_tree(value)),
            Err(_) => parsed_document(bytes@) is None,
        },
{
    serde_json::from_slice::<serde_json::Value>(bytes)
}

/// Calls `Value::as_object`. Not proved: that it hands out the map of an
/// object, whose members are those of the value's tree, and `None` for any
/// other value.
#[verifier::external_body]
pub(crate) fn as_object(value: &serde_json::Value) -> (object: Option<&serde_json::Map<String, serde_json::Value>>)
    ensures
        match object {
            Some(map) => value_tree(*value) == JsonTree::Object(object_members(*map)),
            None => !(value_tree(*value) is Object),
        },
{
    value.as_object()
}

/// Calls `Map::iter` and collects what it yields. Not proved: that the pairs
/// are the map's members, one for one and in its order, and that no two of
/// them have the same name, the map holding one value for each key.
#[verifier::external_body]
pub(crate) fn members<'a>(object: &'a serde_json::Map<String, serde_json::Value>) -> (pairs: Vec<(&'a String, &'a serde_json::Value)>)
    ensures
        pairs@.len() == object_members(*object).len(),
        forall|i: int, j: int|
            0 <= i < j < pairs@.len() ==> (#[trigger] pairs@[i]).0@ != (#[trigger] pairs@[j]).0@,
        forall|i: int| 0 <= i < pairs@.len() ==> {
            &&& (#[trigger] pairs@[i]).0@ == object_members(*object)[i].name
            &&& value_tree(*pairs@[i].1) == object_members(*object)[i].value
        },
{
    object.iter().collect()
}

/// Calls `Map::get`. Not proved: that it finds the value under `name` exactly
/// when the object has a member of that name.
#[verifier::external_body]
pub(crate) fn member<'a>(object: &'a serde_json::Map<String, serde_json::Value>, name: &str) -> (found: Option<&'a serde_json::Value>)
    ensures
        match found {
            Some(value) => lookup(object_members(*object), name@) == Some(value_tree(*value)),
            None => lookup(object_members(*object), name@) is None,
        },
{
    object.get(name)
}

/// Calls `Value::as_u64`. Not proved: that it gives the number of an unsigned
/// integer that fits 64 bits, and `None` for any other value.
#[verifier::external_body]
pub(crate) fn as_u64(value: &serde_json::Value) -> (number: Option<u64>)
    ensures
        match number {
            Some(n) => value_tree(*value) == JsonTree::Unsigned(n),
            None => !(value_tree(*value) is Unsigned),
        },
{
    value.as_u64()
}

/// Calls `Value::as_str`. Not proved: that it gives the text of a string, and
/// `None` for any other value.
#[verifier::external_body]
pub(crate) fn as_str(value: &serde_json::Value) -> (text: Option<&str>)
    ensures
        match text {
            Some(s) => value_tree(*value) == JsonTree::Text(s@),
            None => !(value_tree(*value) is Text),
        },
{
    value.as_str()
}

/// Calls `str::parse` for a `u64`. Not proved: that it accepts an optional
/// `+` followed by one or more decimal digits whose value fits 64 bits, gives
/// that value, and refuses every other text.
#[verifier::external_body]
pub(crate) fn parse_u64(text: &str) -> (number: Option<u64>)
    ensures
        number == decimal_u64(text@),
{
    text.parse::<u64>().ok()
}

/// Calls `String::from_utf8_lossy`. Not proved: that the text is the one that
/// `lossy_text` names for these bytes.
#[verifier::external_body]
pub(crate) fn utf8_lossy(bytes: &[u8]) -> (text: String)
    ensures
        text@ == lossy_text(bytes@),
{
    String::from_utf8_lossy(bytes).into_owned()
}

} // verus!
