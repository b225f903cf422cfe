//! Structured documents: the tree that a document in JSON spells, as the
//! library `serde_json` reads it.

use vstd::prelude::*;
use vstd::string::*;
use crate::text::{chars_of, number_value, read_number};

verus! {

/// A value of a document.
#[derive(Debug)]
pub enum JsonValue {
    Null,
    Bool(bool),
    /// A number, as text: a whole number as it is, any other number in the
    /// shortest decimal notation that reads back as the same number, with
    /// an exponent where the number is very large or very small.
    Number(String),
    Text(String),
    Array(Vec<JsonValue>),
    /// The members of an object, each with its name, no name twice.
    Object(Vec<(String, JsonValue)>),
}

/// The value of a document as `serde_json` holds it, `serde_json::Value`.
/// Nothing is known of what is inside it.
#[verifier::external_type_specification]
#[verifier::external_body]
pub struct ExValue(serde_json::Value);

/// The tree that the text `input` spells as a document in JSON; nothing
/// where it spells none.
pub uninterp spec fn json_document(input: Seq<char>) -> Option<JsonValue>;

/// Reads `input` as a document, by `serde_json::from_str` into a
/// `serde_json::Value`; nothing where `serde_json` refuses the text, as it
/// does for what is no JSON, for text behind the document, and for values
/// nested more than 128 deep. The one claim is that what comes back depends
/// on the text alone: it is what `json_document` names.
#[verifier::external_body]
pub(crate) fn read_document(input: &str) -> (r: Option<JsonValue>)
    ensures
        r == json_document(input@),
{
    match serde_json::from_str::<serde_json::Value>(input) {
        Ok(value) => Some(tree_of(&value)),
        Err(_) => None,
    }
}

/// Takes a `serde_json::Value` over, variant for variant; a number is
/// taken as the text that `serde_json` writes it out as, and the members of
/// an object in the order in which `serde_json` holds them, where a name
/// given twice has the value given last. Nothing is claimed of the result
/// here: it is part of what `read_document` hands back.
#[verifier::external_body]
fn tree_of(value: &serde_json::Value) -> JsonValue {
    match value {
        serde_json::Value::Null => JsonValue::Null,
        serde_json::Value::Bool(b) => JsonValue::Bool(*b),
        serde_json::Value::Number(n) => JsonValue::Number(n.to_string()),
        serde_json::Value::String(s) => JsonValue::Text(s.clone()),
        serde_json::Value::Array(a) => JsonValue::Array(a.iter().map(tree_of).collect()),
        serde_json::Value::Object(o) => JsonValue::Object(o.iter().map(member_of).collect()),
    }
}

/// Takes a member of an object of `serde_json` over: its name and its
/// value. Nothing is claimed of the result here.
#[verifier::external_body]
fn member_of(member: (&String, &serde_json::Value)) -> (String, JsonValue) {
    (member.0.clone(), tree_of(member.1))
}

/// Whether two texts are the same.
pub fn same_str(a: &str, b: &str) -> (same: bool)
    ensures
        same == (a@ == b@),
{
    let n = a.unicode_len();
    if n != b.unicode_len() {
        return false;
    }
    let mut k: usize = 0;
    while k < n
        invariant
            k <= n,
            n == a@.len(),
            n == b@.len(),
            forall|j: int| 0 <= j < k ==> a@[j] == b@[j],
        decreases n - k,
    {
        if a.get_char(k) != b.get_char(k) {
            return false;
        }
        k += 1;
    }
    assert(a@ =~= b@);
    true
}

/// Whether `i` is the position of the first member called `name`.
pub open spec fn first_member_at(members: Seq<(String, JsonValue)>, i: int, name: Seq<char>) -> bool {
    &&& 0 <= i < members.len()
    &&& members[i].0@ == name
    &&& forall|k: int| 0 <= k < i ==> (#[trigger] members[k]).0@ != name
}

/// The position of the first member called `name`.
pub open spec fn member_position(members: Seq<(String, JsonValue)>, name: Seq<char>) -> Option<int> {
    if exists|i: int| first_member_at(members, i, name) {
        Some(choose|i: int| first_member_at(members, i, name))
    } else {
        None
    }
}

/// The first member called `name`.
pub open spec fn member(members: Seq<(String, JsonValue)>, name: Seq<char>) -> Option<JsonValue> {
    match member_position(members, name) {
        Some(i) => Some(members[i].1),
        None => None,
    }
}

/// The first member called `name`.
pub fn find_member<'a>(members: &'a Vec<(String, JsonValue)>, name: &str) -> (r: Option<
    &'a JsonValue,
>)
    ensures
        match r {
            Some(value) => member(members@, name@) == Some(*value),
            None => member(members@, name@) is None,
        },
{
    let mut i: usize = 0;
    while i < members.len()
        invariant
            i <= members.len(),
            forall|k: int| 0 <= k < i ==> (#[trigger] members@[k]).0@ != name@,
        decreases members.len() - i,
    {
        if same_str(members[i].0.as_str(), name) {
            proof {
                assert(first_member_at(members@, i as int, name@));
                let j = choose|j: int| first_member_at(members@, j, name@);
                if j < i {
                    assert(members@[j].0@ != name@);
                } else if i < j {
                    assert(members@[i as int].0@ != name@);
                }
            }
            return Some(&members[i].1);
        }
        i += 1;
    }
    proof {
        if exists|j: int| first_member_at(members@, j, name@) {
            let j = choose|j: int| first_member_at(members@, j, name@);
            assert(members@[j].0@ != name@);
        }
    }
    None
}

/// The magnitude, in thousandths, that `text` spells as a number of a
/// document: a decimal number, with a minus sign before it where it is
/// below nothing. A number written with an exponent is not read.
pub open spec fn signed_value(text: Seq<char>) -> Option<int> {
    if text.len() > 0 && text[0] == '-' {
        match number_value(text, 1, text.len() as int) {
            Some(v) => Some(-v),
            None => None,
        }
    } else {
        number_value(text, 0, text.len() as int)
    }
}

/// Reads the number that `text` spells, in thousandths.
pub fn read_signed(text: &str) -> (r: Option<i64>)
    ensures
        match r {
            Some(v) => signed_value(text@) == Some(v as int) && -crate::criterion::MAX_TIME <= v
                <= crate::criterion::MAX_TIME,
            None => signed_value(text@) is None,
        },
{
    let chars = chars_of(text);
    if chars.len() > 0 && chars[0] == '-' {
        match read_number(&chars, 1, chars.len()) {
            Some(v) => Some(-v),
            None => None,
        }
    } else {
        read_number(&chars, 0, chars.len())
    }
}

/// Reads `input` as a document.
pub fn parse_document(input: &str) -> (r: Option<JsonValue>)
    ensures
        r == json_document(input@),
{
    read_document(input)
}

} // verus!
