//! JSON documents, as the configurations of the pipeline are written.
//!
//! A document is parsed by the `serde_json` crate and handed on as a value
//! of this module's own type, which holds of a document what a
//! configuration is read from.

use vstd::prelude::*;
use vstd::string::StringExecFns;

use crate::error::{LinderaErrorKind, LinderaResult};
use crate::token::string_views;

verus! {

/// A JSON value of the `serde_json` crate.
#[verifier::external_type_specification]
#[verifier::external_body]
pub struct ExJsonValue(serde_json::Value);

/// The error of the `serde_json` crate for a text that is no JSON document.
#[verifier::external_type_specification]
#[verifier::external_body]
pub struct ExJsonError(serde_json::Error);

/// A JSON value.
#[derive(Debug, PartialEq, Eq)]
pub enum Json {
    Null,
    Bool(bool),
    /// A number: its value where it is an integer from 0 to `u64::MAX`,
    /// and nothing of any other number.
    Number(Option<u64>),
    Text(String),
    Array(Vec<Json>),
    /// An object: its members, each name once.
    Object(Vec<Member>),
}

/// A member of a JSON object.
#[derive(Debug, PartialEq, Eq)]
pub struct Member {
    pub name: String,
    pub value: Json,
}

/// The document that `serde_json::from_slice` reads from the bytes `data`,
/// and `None` where it reads none.
pub uninterp spec fn json_document(data: Seq<u8>) -> Option<Json>;

/// A value of the `serde_json` crate as a value of this module: variant by
/// variant, the members of an object in the order in which the crate
/// walks them, of a number what `Number::as_u64` returns. Trusted, with
/// nothing claimed of the result.
#[verifier::external_body]
fn json_of_value(value: &serde_json::Value) -> Json {
    match value {
        serde_json::Value::Null => Json::Null,
        serde_json::Value::Bool(b) => Json::Bool(*b),
        serde_json::Value::Number(n) => Json::Number(n.as_u64()),
        serde_json::Value::String(s) => Json::Text(s.clone()),
        serde_json::Value::Array(items) => Json::Array(items.iter().map(json_of_value).collect()),
        serde_json::Value::Object(members) => Json::Object(
            members
                .iter()
                .map(|(name, value)| Member { name: name.clone(), value: json_of_value(value) })
                .collect(),
        ),
    }
}

/// `serde_json::from_slice`: the JSON document in `data`. Trusted: it
/// reads the document that `json_document` names, and fails where that
/// names none.
#[verifier::external_body]
fn read_document(data: &[u8]) -> (read: Result<Json, serde_json::Error>)
    ensures
        read matches Ok(json) ==> json_document(data@) == Some(json),
        read is Err ==> json_document(data@) is None,
{
    match serde_json::from_slice::<serde_json::Value>(data) {
        Ok(value) => Ok(json_of_value(&value)),
        Err(err) => Err(err),
    }
}

/// The text that the `serde_json` crate prints for `err`. Trusted, with
/// nothing claimed of the text.
#[verifier::external_body]
fn read_error_detail(err: &serde_json::Error) -> String {
    format!("{}", err)
}

/// The first of `members` that is named `name`.
pub open spec fn member_named(members: Seq<Member>, name: Seq<char>) -> Option<Json>
    decreases members.len(),
{
    if members.len() == 0 {
        None
    } else if members[0].name@ == name {
        Some(members[0].value)
    } else {
        member_named(members.drop_first(), name)
    }
}

/// Whether every one of `items` is a string.
pub open spec fn all_text(items: Seq<Json>) -> bool {
    forall|i: int| 0 <= i < items.len() ==> (#[trigger] items[i]) is Text
}

/// The scalars of each of `items`, which are strings.
pub open spec fn texts_of(items: Seq<Json>) -> Seq<Seq<char>> {
    Seq::new(items.len(), |i: int| items[i]->Text_0@)
}

/// The strings that `items` are, if all of them are strings.
pub fn strings_of(items: &Vec<Json>) -> (strings: Option<Vec<String>>)
    ensures
        match strings {
            Some(strings) => all_text(items@) && string_views(strings@) == texts_of(items@),
            None => !all_text(items@),
        },
{
    let mut strings: Vec<String> = Vec::new();
    let mut i: usize = 0;
    while i < items.len()
        invariant
            i <= items@.len(),
            strings@.len() == i,
            forall|j: int| 0 <= j < i ==> (#[trigger] items@[j]) is Text,
            forall|j: int| 0 <= j < i ==> (#[trigger] strings@[j])@ == items@[j]->Text_0@,
        decreases items@.len() - i,
    {
        match &items[i] {
            Json::Text(text) => {
                strings.push(String::from_str(text.as_str()));
            },
            _ => {
                assert(!(items@[i as int] is Text));
                return None;
            },
        }
        i = i + 1;
    }
    proof {
        assert(string_views(strings@) =~= texts_of(items@));
    }
    Some(strings)
}

impl Json {
    /// The member `name` of an object; `None` of an object without such a
    /// member and of every other value.
    pub open spec fn member(self, name: Seq<char>) -> Option<Json> {
        match self {
            Json::Object(members) => member_named(members@, name),
            _ => None,
        }
    }

    /// The scalars of a string.
    pub open spec fn text(self) -> Option<Seq<char>> {
        match self {
            Json::Text(text) => Some(text@),
            _ => None,
        }
    }

    /// The truth value of the member `name`, where it is one.
    pub open spec fn bool_member(self, name: Seq<char>) -> Option<bool> {
        match self.member(name) {
            Some(Json::Bool(b)) => Some(b),
            _ => None,
        }
    }

    /// The scalars of the member `name`, where it is a string.
    pub open spec fn text_member(self, name: Seq<char>) -> Option<Seq<char>> {
        match self.member(name) {
            Some(member) => member.text(),
            None => None,
        }
    }

    /// The count that the member `name` gives: none where the member is
    /// absent or null, its value where it is an integer within `usize`.
    /// Any other member gives no count at all, which is the outer `None`.
    pub open spec fn count_member(self, name: Seq<char>) -> Option<Option<usize>> {
        match self.member(name) {
            None => Some(None),
            Some(Json::Null) => Some(None),
            Some(Json::Number(Some(n))) => if n <= usize::MAX {
                Some(Some(n as usize))
            } else {
                None
            },
            Some(_) => None,
        }
    }

    /// The strings that the member `name` lists, where it is an array of
    /// strings.
    pub open spec fn texts_member(self, name: Seq<char>) -> Option<Seq<Seq<char>>> {
        match self.member(name) {
            Some(Json::Array(items)) => if all_text(items@) {
                Some(texts_of(items@))
            } else {
                None
            },
            _ => None,
        }
    }

    /// Reads the JSON document in `data`. Bytes that hold no document are
    /// an error of the kind `Deserialize`.
    pub fn parse(data: &[u8]) -> (parsed: LinderaResult<Json>)
        ensures
            parsed matches Ok(json) ==> json_document(data@) == Some(json),
            parsed matches Err(err) ==> json_document(data@) is None && err.kind
                == LinderaErrorKind::Deserialize,
    {
        match read_document(data) {
            Ok(json) => Ok(json),
            Err(err) => Err(LinderaErrorKind::Deserialize.with_detail(read_error_detail(&err))),
        }
    }

    /// The member `name` of an object.
    pub fn get(&self, name: &str) -> (found: Option<&Json>)
        ensures
            match found {
                Some(member) => self.member(name@) == Some(*member),
                None => self.member(name@) is None,
            },
    {
        match self {
            Json::Object(members) => {
                let mut i: usize = 0;
                proof {
                    assert(members@.skip(0) =~= members@);
                }
                while i < members.len()
                    invariant
                        i <= members@.len(),
                        self.member(name@) == member_named(members@, name@),
                        member_named(members@, name@) == member_named(
                            members@.skip(i as int),
                            name@,
                        ),
                    decreases members@.len() - i,
                {
                    proof {
                        let rest = members@.skip(i as int);
                        assert(rest[0] == members@[i as int]);
                        assert(rest.drop_first() =~= members@.skip(i + 1));
                    }
                    if members[i].name.as_str().eq(name) {
                        assert(member_named(members@.skip(i as int), name@) == Some(
                            members@[i as int].value,
                        ));
                        return Some(&members[i].value);
                    }
                    i = i + 1;
                }
                None
            },
            _ => None,
        }
    }

    /// The string that this value is, if it is one.
    pub fn as_str(&self) -> (text: Option<&str>)
        ensures
            match text {
                Some(text) => self.text() == Some(text@),
                None => self.text() is None,
            },
    {
        match self {
            Json::Text(text) => Some(text.as_str()),
            _ => None,
        }
    }

    /// The member `name` of an object, where it is a truth value.
    pub fn get_bool(&self, name: &str) -> (found: Option<bool>)
        ensures
            found == self.bool_member(name@),
    {
        match self.get(name) {
            Some(Json::Bool(b)) => Some(*b),
            _ => None,
        }
    }

    /// The member `name` of an object, where it is a string.
    pub fn get_str(&self, name: &str) -> (text: Option<&str>)
        ensures
            match text {
                Some(text) => self.text_member(name@) == Some(text@),
                None => self.text_member(name@) is None,
            },
    {
        match self.get(name) {
            Some(member) => member.as_str(),
            None => None,
        }
    }

    /// The count that the member `name` of an object gives: `Some(None)`
    /// where it is absent or null, `None` where it gives no count at all.
    pub fn get_count(&self, name: &str) -> (count: Option<Option<usize>>)
        ensures
            count == self.count_member(name@),
    {
        match self.get(name) {
            None => Some(None),
            Some(Json::Null) => Some(None),
            Some(Json::Number(Some(n))) => {
                if *n <= usize::MAX as u64 {
                    Some(Some(*n as usize))
                } else {
                    None
                }
            },
            Some(_) => None,
        }
    }

    /// The strings that the member `name` of an object lists, where it is
    /// an array of strings.
    pub fn get_strings(&self, name: &str) -> (strings: Option<Vec<String>>)
        ensures
            match strings {
                Some(strings) => self.texts_member(name@) == Some(string_views(strings@)),
                None => self.texts_member(name@) is None,
            },
    {
        match self.get(name) {
            Some(Json::Array(items)) => strings_of(items),
            _ => None,
        }
    }

    /// The items of the array that this value is, if it is one.
    pub fn as_array(&self) -> (items: Option<&Vec<Json>>)
        ensures
            match items {
                Some(items) => self == Json::Array(*items),
                None => !(self is Array),
            },
    {
        match self {
            Json::Array(items) => Some(items),
            _ => None,
        }
    }

    /// Whether this value is an object.
    pub fn is_object(&self) -> (object: bool)
        ensures
            object == (self is Object),
    {
        match self {
            Json::Object(_) => true,
            _ => false,
        }
    }
}

} // verus!
