use vstd::prelude::*;

verus! {

/// The compact text that serde_json writes for the JSON document in `text`,
/// or `None` where `text` holds no JSON document.
pub uninterp spec fn canonical_json(text: Seq<char>) -> Option<Seq<char>>;

/// The compact text of the member `key` of the JSON object in `doc`, or `None`
/// where `doc` is no object or has no such member.
pub uninterp spec fn json_member(doc: Seq<char>, key: Seq<char>) -> Option<Seq<char>>;

/// The compact text of the element `index` of the JSON array in `doc`, or
/// `None` where `doc` is no array or is too short.
pub uninterp spec fn json_element(doc: Seq<char>, index: nat) -> Option<Seq<char>>;

/// The characters of the JSON string in `doc`, or `None` where `doc` is no
/// JSON string.
pub uninterp spec fn json_string_content(doc: Seq<char>) -> Option<Seq<char>>;

/// Relies on serde_json::from_str into a `Value` and on `Value`'s `Display`,
/// which writes the compact form: the result depends on `text` alone.
#[verifier::external_body]
pub(crate) fn decode_json(text: &str) -> (r: Option<String>)
    ensures
        r matches Some(s) ==> canonical_json(text@) == Some(s@),
        r is None ==> canonical_json(text@) is None,
{
    serde_json::from_str::<serde_json::Value>(text).ok().map(|v| v.to_string())
}

/// Relies on serde_json::Value::get with a `&str` key, which looks a member up
/// in an object and finds nothing in any other value.
#[verifier::external_body]
fn member_of(doc: &str, key: &str) -> (r: Option<String>)
    ensures
        r matches Some(s) ==> json_member(doc@, key@) == Some(s@),
        r is None ==> json_member(doc@, key@) is None,
{
    let v: serde_json::Value = serde_json::from_str(doc).ok()?;
    v.get(key).map(|x| x.to_string())
}

/// Relies on serde_json::Value::get with a `usize` index, which looks an
/// element up in an array and finds nothing in any other value.
#[verifier::external_body]
fn element_of(doc: &str, index: usize) -> (r: Option<String>)
    ensures
        r matches Some(s) ==> json_element(doc@, index as nat) == Some(s@),
        r is None ==> json_element(doc@, index as nat) is None,
{
    let v: serde_json::Value = serde_json::from_str(doc).ok()?;
    v.get(index).map(|x| x.to_string())
}

/// Relies on serde_json::Value::as_str, which gives the characters of a JSON
/// string and nothing for any other value.
#[verifier::external_body]
fn string_content_of(doc: &str) -> (r: Option<String>)
    ensures
        r matches Some(s) ==> json_string_content(doc@) == Some(s@),
        r is None ==> json_string_content(doc@) is None,
{
    let v: serde_json::Value = serde_json::from_str(doc).ok()?;
    v.as_str().map(String::from)
}

/// A JSON value, held as the compact text that serde_json writes for it.
#[derive(Debug)]
pub struct Json {
    pub text: String,
}

impl View for Json {
    type V = Seq<char>;

    open spec fn view(&self) -> Seq<char> {
        self.text@
    }
}

impl Json {
    /// Reads a JSON document; `None` where `text` holds none.
    pub fn decode(text: &str) -> (r: Option<Json>)
        ensures
            r matches Some(j) ==> canonical_json(text@) == Some(j@),
            r is None ==> canonical_json(text@) is None,
    {
        match decode_json(text) {
            Some(s) => Some(Json { text: s }),
            None => None,
        }
    }

    pub fn copy(&self) -> (r: Json)
        ensures
            r@ == self@,
    {
        Json { text: self.text.clone() }
    }

    /// The member `key` of this object, if there is one.
    pub fn member(&self, key: &str) -> (r: Option<Json>)
        ensures
            r matches Some(j) ==> json_member(self@, key@) == Some(j@),
            r is None ==> json_member(self@, key@) is None,
    {
        match member_of(self.text.as_str(), key) {
            Some(s) => Some(Json { text: s }),
            None => None,
        }
    }

    /// The element at `index` of this array, if there is one.
    pub fn element(&self, index: usize) -> (r: Option<Json>)
        ensures
            r matches Some(j) ==> json_element(self@, index as nat) == Some(j@),
            r is None ==> json_element(self@, index as nat) is None,
    {
        match element_of(self.text.as_str(), index) {
            Some(s) => Some(Json { text: s }),
            None => None,
        }
    }

    /// The text that stands for this value in a URL: a string's own
    /// characters, for any other value its JSON text.
    pub fn render(&self) -> (r: String)
        ensures
            r@ == rendered(self@),
    {
        match string_content_of(self.text.as_str()) {
            Some(s) => s,
            None => self.text.clone(),
        }
    }
}

/// How a value is written into a URL: a JSON string unquoted, anything else as
/// its JSON text.
pub open spec fn rendered(doc: Seq<char>) -> Seq<char> {
    match json_string_content(doc) {
        Some(s) => s,
        None => doc,
    }
}

} // verus!
