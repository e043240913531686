//! A plain-value mirror of JSON documents, as far as the service reads them,
//! together with the lookups it performs on them.

use vstd::prelude::*;

verus! {

/// A JSON document as held by the library.
///
/// Numbers keep what `serde_json::Number::as_i64` gives back: `None` for a
/// float or an integer outside the range of `i64`. Object members keep the
/// order in which the parsed map yields them.
pub enum JsonValue {
    Null,
    Bool(bool),
    Number(Option<i64>),
    Str(String),
    Array(Vec<JsonValue>),
    Object(Vec<(String, JsonValue)>),
}

/// The mathematical model of a [`JsonValue`].
pub enum JsonSpec {
    Null,
    Bool(bool),
    Number(Option<i64>),
    Str(Seq<char>),
    Array(Seq<JsonSpec>),
    Object(Seq<(Seq<char>, JsonSpec)>),
}

impl JsonValue {
    /// The model of this value.
    pub open spec fn model(self) -> JsonSpec
        decreases self,
    {
        match self {
            JsonValue::Null => JsonSpec::Null,
            JsonValue::Bool(b) => JsonSpec::Bool(b),
            JsonValue::Number(n) => JsonSpec::Number(n),
            JsonValue::Str(s) => JsonSpec::Str(s@),
            JsonValue::Array(items) => JsonSpec::Array(Self::models(items@)),
            JsonValue::Object(entries) => JsonSpec::Object(Self::entry_models(entries@)),
        }
    }

    /// The models of a sequence of values.
    pub open spec fn models(s: Seq<JsonValue>) -> Seq<JsonSpec>
        decreases s,
    {
        if s.len() == 0 {
            Seq::empty()
        } else {
            Self::models(s.drop_last()).push(s.last().model())
        }
    }

    /// The models of a sequence of object members.
    pub open spec fn entry_models(s: Seq<(String, JsonValue)>) -> Seq<(Seq<char>, JsonSpec)>
        decreases s,
    {
        if s.len() == 0 {
            Seq::empty()
        } else {
            Self::entry_models(s.drop_last()).push((s.last().0@, s.last().1.model()))
        }
    }
}

impl View for JsonValue {
    type V = JsonSpec;

    open spec fn view(&self) -> JsonSpec {
        self.model()
    }
}


/// Each model in `JsonValue::models(s)` is the model of the value at the same place.
pub proof fn lemma_models(s: Seq<JsonValue>)
    ensures
        JsonValue::models(s).len() == s.len(),
        forall|i: int| 0 <= i < s.len() ==> #[trigger] JsonValue::models(s)[i] == s[i].model(),
    decreases s.len(),
{
    if s.len() > 0 {
        lemma_models(s.drop_last());
    }
}

/// Each model in `JsonValue::entry_models(s)` is the model of the member at the same place.
pub proof fn lemma_entry_models(s: Seq<(String, JsonValue)>)
    ensures
        JsonValue::entry_models(s).len() == s.len(),
        forall|i: int|
            0 <= i < s.len() ==> #[trigger] JsonValue::entry_models(s)[i] == (s[i].0@, s[i].1.model()),
    decreases s.len(),
{
    if s.len() > 0 {
        lemma_entry_models(s.drop_last());
    }
}

/// The first member of `entries` named `key`, as `serde_json::Value::get` finds it.
pub open spec fn find_member(entries: Seq<(Seq<char>, JsonSpec)>, key: Seq<char>) -> Option<JsonSpec>
    decreases entries.len(),
{
    if entries.len() == 0 {
        None
    } else if entries[0].0 == key {
        Some(entries[0].1)
    } else {
        find_member(entries.drop_first(), key)
    }
}

/// `value.get(key)`: the member named `key` of an object, and nothing for any other value.
pub open spec fn member(value: JsonSpec, key: Seq<char>) -> Option<JsonSpec> {
    match value {
        JsonSpec::Object(entries) => find_member(entries, key),
        _ => None,
    }
}

/// Looks up the member named `key` of an object (`serde_json::Value::get` with a string key).
pub fn get_member<'a>(value: &'a JsonValue, key: &str) -> (r: Option<&'a JsonValue>)
    ensures
        r is None <==> member(value@, key@) is None,
        r matches Some(v) ==> member(value@, key@) == Some(v@),
{
    match value {
        JsonValue::Object(entries) => {
            let k = String::from_str(key);
            let ghost ms = JsonValue::entry_models(entries@);
            proof {
                lemma_entry_models(entries@);
            }
            let mut i: usize = 0;
            assert(ms.skip(0) =~= ms);
            assert(value@ == JsonSpec::Object(ms));
            while i < entries.len()
                invariant
                    ms == JsonValue::entry_models(entries@),
                    value@ == JsonSpec::Object(ms),
                    ms.len() == entries@.len(),
                    forall|j: int|
                        0 <= j < entries@.len() ==> #[trigger] ms[j] == (
                        entries@[j].0@,
                        entries@[j].1.model(),
                    ),
                    k@ == key@,
                    i <= entries.len(),
                    find_member(ms, key@) == find_member(ms.skip(i as int), key@),
                decreases entries.len() - i,
            {
                assert(ms.skip(i as int)[0] == ms[i as int]);
                assert(ms.skip(i as int).drop_first() =~= ms.skip(i + 1));
                if entries[i].0 == k {
                    assert(ms[i as int].0 == key@);
                    return Some(&entries[i].1);
                }
                i = i + 1;
            }
            assert(ms.skip(i as int).len() == 0);
            None
        },
        _ => None,
    }
}


#[verifier::external_type_specification]
#[verifier::external_body]
pub struct ExSerdeJsonValue(serde_json::Value);

/// What `serde_json::from_str::<serde_json::Value>` makes of `text`: the
/// parsed document, or the text of the error that it reports.
pub uninterp spec fn serde_json_value_from_str(text: Seq<char>) -> Result<JsonSpec, Seq<char>>;

/// Mirrors a `serde_json::Value` variant for variant, keeping of each number
/// what `serde_json::Number::as_i64` gives back.
#[verifier::external_body]
fn mirror_serde_value(v: serde_json::Value) -> JsonValue {
    match v {
        serde_json::Value::Null => JsonValue::Null,
        serde_json::Value::Bool(b) => JsonValue::Bool(b),
        serde_json::Value::Number(n) => JsonValue::Number(n.as_i64()),
        serde_json::Value::String(s) => JsonValue::Str(s),
        serde_json::Value::Array(a) => JsonValue::Array(a.into_iter().map(mirror_serde_value).collect()),
        serde_json::Value::Object(m) => JsonValue::Object(m.into_iter().map(|(k, v)| (k, mirror_serde_value(v))).collect()),
    }
}

/// Parses JSON text with `serde_json::from_str` into a `serde_json::Value`
/// and mirrors it; an error becomes its `Display` text. The contract only
/// ties the result to the named outcome of that parse: the grammar that
/// serde_json accepts is not restated here.
#[verifier::external_body]
pub(crate) fn parse_json(text: &str) -> (r: Result<JsonValue, String>)
    ensures
        match r {
            Ok(v) => serde_json_value_from_str(text@) == Ok::<JsonSpec, Seq<char>>(v@),
            Err(e) => serde_json_value_from_str(text@) == Err::<JsonSpec, Seq<char>>(e@),
        },
{
    serde_json::from_str::<serde_json::Value>(text).map(mirror_serde_value).map_err(|e| e.to_string())
}


/// Lookup law: in an object whose member names are all different, the
/// member named like the `i`-th one is that member's value, and a name that
/// no member has is not found.
pub proof fn lemma_find_member(entries: Seq<(Seq<char>, JsonSpec)>, key: Seq<char>, i: int)
    requires
        forall|a: int, b: int| 0 <= a < b < entries.len() ==> #[trigger] entries[a].0 != #[trigger] entries[b].0,
    ensures
        0 <= i < entries.len() && entries[i].0 == key ==> find_member(entries, key) == Some(entries[i].1),
        (forall|j: int| 0 <= j < entries.len() ==> #[trigger] entries[j].0 != key) ==> find_member(entries, key) is None,
    decreases entries.len(),
{
    if entries.len() > 0 {
        let rest = entries.drop_first();
        assert forall|a: int, b: int| 0 <= a < b < rest.len() implies #[trigger] rest[a].0 != #[trigger] rest[b].0 by {
            assert(rest[a] == entries[a + 1]);
            assert(rest[b] == entries[b + 1]);
        }
        lemma_find_member(rest, key, i - 1);
        if 0 <= i < entries.len() && entries[i].0 == key && i > 0 {
            assert(entries[0].0 != entries[i].0);
            assert(rest[i - 1] == entries[i]);
        }
        if forall|j: int| 0 <= j < entries.len() ==> #[trigger] entries[j].0 != key {
            assert(entries[0].0 != key);
            assert forall|j: int| 0 <= j < rest.len() implies #[trigger] rest[j].0 != key by {
                assert(rest[j] == entries[j + 1]);
            }
        }
    }
}

} // verus!
