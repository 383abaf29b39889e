//! YAML values, as the `serde_yaml` crate holds them.
use vstd::prelude::*;

verus! {

/// What a YAML value is, with the entries of a mapping in their order.
pub enum Yaml {
    Null,
    Bool(bool),
    /// A number, by the text it is written as.
    Number(Seq<char>),
    Text(Seq<char>),
    List(Seq<Yaml>),
    Table(Seq<(Yaml, Yaml)>),
    Tagged(Seq<char>, Box<Yaml>),
}

#[verifier::external_type_specification]
#[verifier::external_body]
pub struct ExValue(serde_yaml::Value);

#[verifier::external_type_specification]
#[verifier::external_body]
pub struct ExMapping(serde_yaml::Mapping);

#[verifier::external_type_specification]
#[verifier::external_body]
pub struct ExError(serde_yaml::Error);

/// What a `serde_yaml::Value` holds.
pub uninterp spec fn content(v: serde_yaml::Value) -> Yaml;

/// The entries of a `serde_yaml::Mapping`, in the order it keeps them.
pub uninterp spec fn entries(m: serde_yaml::Mapping) -> Seq<(Yaml, Yaml)>;

/// What `serde_yaml::from_str` reads a text as; `None` where it fails.
pub uninterp spec fn parsed(text: Seq<char>) -> Option<Yaml>;

/// What `serde_yaml::to_string` writes a value as; `None` where it fails.
pub uninterp spec fn written(y: Yaml) -> Option<Seq<char>>;

/// Where a key stands among the entries from `i` on; their number where it does not.
pub open spec fn key_from(t: Seq<(Yaml, Yaml)>, key: Yaml, i: int) -> int
    decreases t.len() - i,
{
    if i >= t.len() {
        t.len() as int
    } else if t[i].0 == key {
        i
    } else {
        key_from(t, key, i + 1)
    }
}

/// The value of a key.
pub open spec fn lookup(t: Seq<(Yaml, Yaml)>, key: Yaml) -> Option<Yaml> {
    let i = key_from(t, key, 0);
    if i < t.len() {
        Some(t[i].1)
    } else {
        None
    }
}

/// The entries with a key set: in its old place if it had one, else at the end.
pub open spec fn with_entry(t: Seq<(Yaml, Yaml)>, key: Yaml, value: Yaml) -> Seq<(Yaml, Yaml)> {
    let i = key_from(t, key, 0);
    if i < t.len() {
        t.update(i, (key, value))
    } else {
        t.push((key, value))
    }
}

/// `serde_yaml::from_str` to a `Value`: its outcome depends on the text alone.
#[verifier::external_body]
pub(crate) fn from_str(text: &str) -> (r: Result<serde_yaml::Value, serde_yaml::Error>)
    ensures
        match r {
            Ok(v) => parsed(text@) == Some(content(v)),
            Err(_) => parsed(text@) is None,
        },
{
    serde_yaml::from_str(text)
}

/// `serde_yaml::to_string` of a `Value`: its outcome depends on what the value holds alone.
#[verifier::external_body]
pub(crate) fn to_string(v: &serde_yaml::Value) -> (r: Result<String, serde_yaml::Error>)
    ensures
        match r {
            Ok(s) => written(content(*v)) == Some(s@),
            Err(_) => written(content(*v)) is None,
        },
{
    serde_yaml::to_string(v)
}

/// `serde_yaml::Mapping::new`: no entries.
#[verifier::external_body]
pub(crate) fn empty_table() -> (r: serde_yaml::Mapping)
    ensures
        entries(r) == Seq::<(Yaml, Yaml)>::empty(),
{
    serde_yaml::Mapping::new()
}

/// `serde_yaml::Mapping::insert` with a string key: a new key goes last, the value of one that is
/// there is replaced in its place.
#[verifier::external_body]
pub(crate) fn insert(m: &mut serde_yaml::Mapping, key: String, value: serde_yaml::Value)
    ensures
        entries(*final(m)) == with_entry(entries(*old(m)), Yaml::Text(key@), content(value)),
{
    m.insert(serde_yaml::Value::String(key), value);
}

/// `serde_yaml::Mapping::get` with a string key.
#[verifier::external_body]
pub(crate) fn get<'a>(m: &'a serde_yaml::Mapping, key: &str) -> (r: Option<&'a serde_yaml::Value>)
    ensures
        match r {
            Some(v) => lookup(entries(*m), Yaml::Text(key@)) == Some(content(*v)),
            None => lookup(entries(*m), Yaml::Text(key@)) is None,
        },
{
    m.get(serde_yaml::Value::String(key.to_string()))
}

/// The mapping of a `serde_yaml::Value::Mapping`, none of any other variant.
#[verifier::external_body]
pub(crate) fn as_table(v: &serde_yaml::Value) -> (r: Option<&serde_yaml::Mapping>)
    ensures
        match r {
            Some(m) => content(*v) == Yaml::Table(entries(*m)),
            None => content(*v) !is Table,
        },
{
    match v {
        serde_yaml::Value::Mapping(m) => Some(m),
        _ => None,
    }
}

/// The variant `serde_yaml::Value::String`.
#[verifier::external_body]
pub(crate) fn text_value(s: String) -> (r: serde_yaml::Value)
    ensures
        content(r) == Yaml::Text(s@),
{
    serde_yaml::Value::String(s)
}

/// The variant `serde_yaml::Value::Sequence`.
#[verifier::external_body]
pub(crate) fn list_value(v: Vec<serde_yaml::Value>) -> (r: serde_yaml::Value)
    ensures
        content(r) == Yaml::List(v@.map_values(|x: serde_yaml::Value| content(x))),
{
    serde_yaml::Value::Sequence(v)
}

/// The variant `serde_yaml::Value::Mapping`.
#[verifier::external_body]
pub(crate) fn table_value(m: serde_yaml::Mapping) -> (r: serde_yaml::Value)
    ensures
        content(r) == Yaml::Table(entries(m)),
{
    serde_yaml::Value::Mapping(m)
}

/// `Clone` of `serde_yaml::Mapping`: the same entries.
#[verifier::external_body]
pub(crate) fn clone_table(m: &serde_yaml::Mapping) -> (r: serde_yaml::Mapping)
    ensures
        entries(r) == entries(*m),
{
    m.clone()
}

/// `Clone` of `serde_yaml::Value`: the same content.
#[verifier::external_body]
pub(crate) fn clone_value(v: &serde_yaml::Value) -> (r: serde_yaml::Value)
    ensures
        content(r) == content(*v),
{
    v.clone()
}

proof fn lemma_key_from(t: Seq<(Yaml, Yaml)>, key: Yaml, i: int)
    requires
        0 <= i <= t.len(),
    ensures
        i <= key_from(t, key, i) <= t.len(),
        key_from(t, key, i) < t.len() ==> t[key_from(t, key, i)].0 == key,
        forall|j: int| i <= j < key_from(t, key, i) ==> (#[trigger] t[j]).0 != key,
    decreases t.len() - i,
{
    if i < t.len() && t[i].0 != key {
        lemma_key_from(t, key, i + 1);
    }
}

/// A key is looked up as the first entry that has it, and is not there exactly if no entry has it.
pub proof fn law_lookup(t: Seq<(Yaml, Yaml)>, key: Yaml, i: int)
    ensures
        0 <= i < t.len() && t[i].0 == key && (forall|j: int|
            0 <= j < i ==> (#[trigger] t[j]).0 != key) ==> lookup(t, key) == Some(t[i].1),
        lookup(t, key) is None <==> forall|j: int|
            0 <= j < t.len() ==> (#[trigger] t[j]).0 != key,
{
    lemma_key_from(t, key, 0);
    let k = key_from(t, key, 0);
    if k < t.len() {
        assert(t[k].0 == key);
    }
}

/// What is put in under a key is found there, and every other key keeps what it has. The entries keep
/// their places; a new key comes last.
pub proof fn law_with_entry(t: Seq<(Yaml, Yaml)>, key: Yaml, value: Yaml, other: Yaml)
    ensures
        lookup(with_entry(t, key, value), key) == Some(value),
        other != key ==> lookup(with_entry(t, key, value), other) == lookup(t, other),
        lookup(t, key) is None ==> with_entry(t, key, value) == t.push((key, value)),
        lookup(t, key) is Some ==> with_entry(t, key, value).len() == t.len() && forall|j: int|
            0 <= j < t.len() ==> (#[trigger] with_entry(t, key, value)[j]).0 == t[j].0,
{
    let u = with_entry(t, key, value);
    lemma_key_from(t, key, 0);
    lemma_key_from(u, key, 0);
    lemma_key_from(t, other, 0);
    lemma_key_from(u, other, 0);
    let k = key_from(t, key, 0);
    let a = key_from(t, other, 0);
    let b = key_from(u, other, 0);
    let m = key_from(u, key, 0);
    assert(u[k] == (key, value));
    assert forall|j: int| 0 <= j < t.len() implies (#[trigger] u[j]).0 == t[j].0 by {}
    if m < k {
        assert(t[m].0 == key);
    }
    assert(m == k);
    if other != key {
        if a < t.len() {
            assert(u[a] == t[a]);
            if b < a {
                assert(t[b].0 == u[b].0);
            }
            assert(a == b);
        } else {
            if b < u.len() {
                if b < t.len() {
                    assert(t[b].0 == u[b].0);
                }
                assert(u[b].0 == other);
            }
            assert(b >= u.len());
        }
    }
}

} // verus!
