//! JSON values, as the `serde_json` crate holds them.
use crate::text;
use vstd::prelude::*;

verus! {

/// What a JSON value is, as far as it is read here.
pub enum Json {
    Null,
    Bool(bool),
    Unsigned(u64),
    OtherNumber,
    Text(Seq<char>),
    List(Seq<Json>),
    Object(Map<Seq<char>, Json>),
}

#[verifier::external_type_specification]
#[verifier::external_body]
pub struct ExValue(serde_json::Value);

#[verifier::external_type_specification]
#[verifier::external_body]
pub struct ExError(serde_json::Error);

/// What a `serde_json::Value` holds.
pub uninterp spec fn content(v: serde_json::Value) -> Json;

/// What `serde_json::from_str` reads a text as; `None` where it fails.
pub uninterp spec fn parsed(text: Seq<char>) -> Option<Json>;

/// What `serde_json::from_slice` reads bytes as; `None` where it fails.
pub uninterp spec fn parsed_bytes(bytes: Seq<u8>) -> Option<Json>;

/// The member of an object; `None` of any other value.
pub open spec fn member(j: Json, name: Seq<char>) -> Option<Json> {
    match j {
        Json::Object(m) => if m.dom().contains(name) {
            Some(m[name])
        } else {
            None
        },
        _ => None,
    }
}

/// What a path of member names leads to.
pub open spec fn at_path(j: Json, path: Seq<Seq<char>>) -> Option<Json>
    decreases path.len(),
{
    if path.len() == 0 {
        Some(j)
    } else {
        match member(j, path[0]) {
            Some(m) => at_path(m, path.drop_first()),
            None => None,
        }
    }
}

/// The text that a path of member names leads to.
pub open spec fn text_at_path(j: Json, path: Seq<Seq<char>>) -> Option<Seq<char>> {
    match at_path(j, path) {
        Some(Json::Text(s)) => Some(s),
        _ => None,
    }
}

/// `serde_json::from_str` to a `Value`: its outcome depends on the text alone.
#[verifier::external_body]
pub(crate) fn from_str(text: &str) -> (r: Result<serde_json::Value, serde_json::Error>)
    ensures
        match r {
            Ok(v) => parsed(text@) == Some(content(v)),
            Err(_) => parsed(text@) is None,
        },
{
    serde_json::from_str(text)
}

/// `serde_json::from_slice` to a `Value`: its outcome depends on the bytes alone.
#[verifier::external_body]
pub(crate) fn from_slice(bytes: &[u8]) -> (r: Result<serde_json::Value, serde_json::Error>)
    ensures
        match r {
            Ok(v) => parsed_bytes(bytes@) == Some(content(v)),
            Err(_) => parsed_bytes(bytes@) is None,
        },
{
    serde_json::from_slice(bytes)
}

/// `serde_json::Value::get` with a member's name: nothing of a value that is no object.
#[verifier::external_body]
pub(crate) fn get<'a>(v: &'a serde_json::Value, name: &str) -> (r: Option<&'a serde_json::Value>)
    ensures
        match r {
            Some(m) => member(content(*v), name@) == Some(content(*m)),
            None => member(content(*v), name@) is None,
        },
{
    v.get(name)
}

/// `serde_json::Value::as_str`: the text of a string, nothing of any other value.
#[verifier::external_body]
pub(crate) fn as_str(v: &serde_json::Value) -> (r: Option<&str>)
    ensures
        match r {
            Some(s) => content(*v) == Json::Text(s@),
            None => content(*v) !is Text,
        },
{
    v.as_str()
}

/// `serde_json::Value::as_u64`: a number that is held as a `u64`, nothing of any other value.
#[verifier::external_body]
pub(crate) fn as_u64(v: &serde_json::Value) -> (r: Option<u64>)
    ensures
        match r {
            Some(n) => content(*v) == Json::Unsigned(n),
            None => content(*v) !is Unsigned,
        },
{
    v.as_u64()
}

/// `serde_json::Value::is_object`.
#[verifier::external_body]
pub(crate) fn is_object(v: &serde_json::Value) -> (r: bool)
    ensures
        r == (content(*v) is Object),
{
    v.is_object()
}

/// The text that a path of member names leads to.
pub(crate) fn text_at<'a>(v: &'a serde_json::Value, path: &Vec<&str>) -> (r: Option<&'a str>)
    ensures
        text::opt_slice_view(r) == text_at_path(content(*v), text::slice_views(path@)),
{
    let mut at: &'a serde_json::Value = v;
    let mut i: usize = 0;
    let ghost names = text::slice_views(path@);
    assert(names.skip(0) == names);
    while i < path.len()
        invariant
            i <= path@.len(),
            names == text::slice_views(path@),
            text_at_path(content(*v), names) == text_at_path(content(*at), names.skip(i as int)),
        decreases path@.len() - i,
    {
        assert(names.skip(i as int)[0] == path@[i as int]@);
        assert(names.skip(i as int).drop_first() == names.skip(i + 1));
        match get(at, path[i]) {
            Some(m) => {
                at = m;
            },
            None => {
                return None;
            },
        }
        i += 1;
    }
    assert(names.skip(i as int).len() == 0);
    as_str(at)
}

/// A member is what an object holds under a name; nothing else has members.
pub proof fn law_member(m: Map<Seq<char>, Json>, name: Seq<char>, j: Json)
    ensures
        m.contains_key(name) ==> member(Json::Object(m), name) == Some(m[name]),
        !m.contains_key(name) ==> member(Json::Object(m), name) is None,
        !(j is Object) ==> member(j, name) is None,
{
}

/// A path is walked name by name, and nothing is there where a name is missing on the way.
pub proof fn law_at_path(
    outer: Map<Seq<char>, Json>,
    inner: Map<Seq<char>, Json>,
    a: Seq<char>,
    b: Seq<char>,
)
    ensures
        outer.contains_key(a) ==> at_path(Json::Object(outer), seq![a]) == Some(outer[a]),
        outer.contains_key(a) && outer[a] == Json::Object(inner) && inner.contains_key(b)
            ==> at_path(Json::Object(outer), seq![a, b]) == Some(inner[b]),
        outer.contains_key(a) && outer[a] == Json::Object(inner) && !inner.contains_key(b)
            ==> at_path(Json::Object(outer), seq![a, b]) is None,
        !outer.contains_key(a) ==> at_path(Json::Object(outer), seq![a, b]) is None,
        outer.contains_key(a) && !(outer[a] is Object) ==> at_path(
            Json::Object(outer),
            seq![a, b],
        ) is None,
{
    reveal_with_fuel(at_path, 3);
    assert(seq![a].drop_first() =~= Seq::<Seq<char>>::empty());
    assert(seq![a, b].drop_first() =~= seq![b]);
    assert(seq![b].drop_first() =~= Seq::<Seq<char>>::empty());
}

/// Behind a path there is what is behind its end in what is behind its start.
pub proof fn law_path_parts(j: Json, a: Seq<Seq<char>>, b: Seq<Seq<char>>)
    ensures
        at_path(j, a + b) == match at_path(j, a) {
            Some(m) => at_path(m, b),
            None => None,
        },
    decreases a.len(),
{
    if a.len() == 0 {
        assert(a + b =~= b);
    } else {
        assert((a + b).drop_first() =~= a.drop_first() + b);
        if let Some(m) = member(j, a[0]) {
            law_path_parts(m, a.drop_first(), b);
        }
    }
}

/// Only a text reads as one.
pub proof fn law_text_at_path(j: Json, path: Seq<Seq<char>>, s: Seq<char>)
    ensures
        text_at_path(j, path) == Some(s) <==> at_path(j, path) == Some(Json::Text(s)),
{
}

} // verus!
