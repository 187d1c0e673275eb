//! JSON values, as far as the responses protocol reads them.

use crate::text::{opt_str, same_text};
use vstd::prelude::*;

verus! {

/// A JSON value. A number is kept as the parser writes it out.
#[derive(Debug)]
pub enum Json {
    Null,
    Bool(bool),
    Number(String),
    Text(String),
    Array(Vec<Json>),
    /// The members in order; of members with one name the first counts.
    Object(Vec<(String, Json)>),
}

/// The model of [`Json`].
pub enum JsonView {
    Null,
    Bool(bool),
    Number(Seq<char>),
    Text(Seq<char>),
    Array(Seq<JsonView>),
    Object(Seq<(Seq<char>, JsonView)>),
}

impl Json {
    /// The value without its representation.
    pub open spec fn model(&self) -> JsonView
        decreases self,
    {
        match self {
            Json::Null => JsonView::Null,
            Json::Bool(b) => JsonView::Bool(*b),
            Json::Number(n) => JsonView::Number(n@),
            Json::Text(s) => JsonView::Text(s@),
            Json::Array(items) => JsonView::Array(
                Seq::new(
                    items@.len(),
                    |i: int|
                        if 0 <= i < items@.len() {
                            items@[i].model()
                        } else {
                            JsonView::Null
                        },
                ),
            ),
            Json::Object(members) => JsonView::Object(
                Seq::new(
                    members@.len(),
                    |i: int|
                        if 0 <= i < members@.len() {
                            (members@[i].0@, members@[i].1.model())
                        } else {
                            (Seq::empty(), JsonView::Null)
                        },
                ),
            ),
        }
    }
}

impl View for Json {
    type V = JsonView;

    open spec fn view(&self) -> JsonView {
        self.model()
    }
}

/// What an optional value holds.
pub open spec fn opt_json(o: Option<Json>) -> Option<JsonView> {
    match o {
        Some(j) => Some(j@),
        None => None,
    }
}

/// What an optional borrowed value holds.
pub open spec fn opt_json_ref(o: Option<&Json>) -> Option<JsonView> {
    match o {
        Some(j) => Some(j@),
        None => None,
    }
}

/// The value of the first member called `name`.
pub open spec fn member(members: Seq<(Seq<char>, JsonView)>, name: Seq<char>) -> Option<JsonView>
    decreases members.len(),
{
    if members.len() == 0 {
        None
    } else if members[0].0 == name {
        Some(members[0].1)
    } else {
        member(members.drop_first(), name)
    }
}

impl JsonView {
    /// The member called `name`, if this is an object that has it.
    pub open spec fn get(self, name: Seq<char>) -> Option<JsonView> {
        match self {
            JsonView::Object(members) => member(members, name),
            _ => None,
        }
    }

    /// The text, if this is one.
    pub open spec fn as_text(self) -> Option<Seq<char>> {
        match self {
            JsonView::Text(s) => Some(s),
            _ => None,
        }
    }

    /// The member called `name`, if it is there and a text.
    pub open spec fn text_at(self, name: Seq<char>) -> Option<Seq<char>> {
        match self.get(name) {
            Some(v) => v.as_text(),
            None => None,
        }
    }
}

impl Json {
    /// The member called `name`, if this is an object that has it.
    pub fn get<'a>(&'a self, name: &str) -> (r: Option<&'a Json>)
        ensures
            opt_json_ref(r) == self@.get(name@),
    {
        match self {
            Json::Object(members) => {
                let ghost all = self@->Object_0;
                let mut i: usize = 0;
                assert(all.skip(0) =~= all);
                while i < members.len()
                    invariant
                        i <= members@.len(),
                        self@ == JsonView::Object(all),
                        all.len() == members@.len(),
                        forall|k: int|
                            0 <= k < all.len() ==> #[trigger] all[k] == (
                                members@[k].0@,
                                members@[k].1@,
                            ),
                        member(all, name@) == member(all.skip(i as int), name@),
                    decreases members@.len() - i,
                {
                    assert(all[i as int] == (members@[i as int].0@, members@[i as int].1@));
                    if same_text(members[i].0.as_str(), name) {
                        return Some(&members[i].1);
                    }
                    assert(all.skip(i as int).drop_first() =~= all.skip(i + 1));
                    i += 1;
                }
                None
            },
            _ => None,
        }
    }

    /// The text, if this is one.
    pub fn as_str<'a>(&'a self) -> (r: Option<&'a str>)
        ensures
            opt_str(r) == self@.as_text(),
    {
        match self {
            Json::Text(s) => Some(s.as_str()),
            _ => None,
        }
    }

    /// The member called `name`, if it is there and a text.
    pub fn str_at<'a>(&'a self, name: &str) -> (r: Option<&'a str>)
        ensures
            opt_str(r) == self@.text_at(name@),
    {
        match self.get(name) {
            Some(v) => v.as_str(),
            None => None,
        }
    }
}

/// What a list of members holds.
pub open spec fn members_of(v: Seq<(String, Json)>) -> Seq<(Seq<char>, JsonView)> {
    v.map_values(|m: (String, Json)| (m.0@, m.1@))
}

/// What a list of values holds.
pub open spec fn values_of(v: Seq<Json>) -> Seq<JsonView> {
    v.map_values(|j: Json| j@)
}

impl Json {
    /// A text.
    pub fn text(s: &str) -> (r: Json)
        ensures
            r@ == JsonView::Text(s@),
    {
        Json::Text(s.to_owned())
    }

    /// The list of the given values.
    pub fn array(items: Vec<Json>) -> (r: Json)
        ensures
            r@ == JsonView::Array(values_of(items@)),
    {
        let r = Json::Array(items);
        assert(r@->Array_0 =~= values_of(items@));
        r
    }

    /// The object with the given members.
    pub fn object(members: Vec<(String, Json)>) -> (r: Json)
        ensures
            r@ == JsonView::Object(members_of(members@)),
    {
        let r = Json::Object(members);
        assert(r@->Object_0 =~= members_of(members@));
        r
    }
}

/// Adds a member behind the others.
pub fn add_member(members: &mut Vec<(String, Json)>, name: &str, value: Json)
    ensures
        members_of(final(members)@) == members_of(old(members)@).push((name@, value@)),
{
    members.push((name.to_owned(), value));
    assert(members_of(members@) =~= members_of(old(members)@).push((name@, value@)));
}

/// The value that `serde_json::from_str` reads from a text, if it reads one.
pub uninterp spec fn json_of(text: Seq<char>) -> Option<JsonView>;

/// A value as `serde_json` holds it.
#[verifier::external_type_specification]
#[verifier::external_body]
pub struct ExValue(serde_json::Value);

/// Takes a `serde_json::Value` apart, variant by variant. Only [`parse_json`]
/// calls it, and what it yields is stated there.
#[verifier::external_body]
fn convert(value: serde_json::Value) -> (json: Json) {
    match value {
        serde_json::Value::Null => Json::Null,
        serde_json::Value::Bool(b) => Json::Bool(b),
        serde_json::Value::Number(n) => Json::Number(n.to_string()),
        serde_json::Value::String(s) => Json::Text(s),
        serde_json::Value::Array(items) => Json::Array(items.into_iter().map(convert).collect()),
        serde_json::Value::Object(map) => {
            Json::Object(map.into_iter().map(|(name, v)| (name, convert(v))).collect())
        },
    }
}

/// The length in characters up to which a text can be read as JSON: the parser
/// counts the digits of a number in a signed integer of 32 bits.
pub const MAX_JSON_CHARS: usize = 0x7fff_ffff;

/// `serde_json::from_str` reads the text as one JSON value, or fails. What it
/// reads depends on the text alone. On a number with more digits than it can count
/// it overflows, which no text of this length holds.
#[verifier::external_body]
pub(crate) fn parse_json(text: &str) -> (r: Option<Json>)
    requires
        text@.len() <= MAX_JSON_CHARS,
    ensures
        opt_json(r) == json_of(text@),
{
    match serde_json::from_str::<serde_json::Value>(text) {
        Ok(value) => Some(convert(value)),
        Err(_) => None,
    }
}

} // verus!
