//! Reading values from JSON and YAML documents.
//!
//! The text is parsed by `serde_json` / `serde_yaml` and handed over as a tree of plain
//! values ([`JsonNode`], [`YamlNode`]); turning that tree into a [`TemplateValue`] is
//! verified here. A table is filled entry by entry, and a key that is already in the
//! table has its value replaced, so the keys of every table read are distinct.

use vstd::prelude::*;
use vstd::string::*;
use crate::error::{TemplateError, TmplResult};
use crate::value::{TemplateValue, SpecValue, table_view, keys_distinct};
use crate::value::format::value_text;

verus! {

#[verifier::external_type_specification]
#[verifier::external_body]
pub struct ExJsonValue(serde_json::Value);

#[verifier::external_type_specification]
#[verifier::external_body]
pub struct ExJsonNumber(serde_json::Number);

/// A JSON document as plain values. A floating-point number is held as its text; an
/// integer that does not fit in `i64` is `UInt`.
#[derive(Debug)]
pub enum JsonNode {
    Null,
    Bool(bool),
    Int(i64),
    UInt(u64),
    Float(String),
    Text(String),
    Array(Vec<JsonNode>),
    Object(Vec<(String, JsonNode)>),
}

/// The mathematical model of a [`JsonNode`].
pub enum SpecJson {
    Null,
    Bool(bool),
    Int(int),
    UInt(int),
    Float(Seq<char>),
    Text(Seq<char>),
    Array(Seq<SpecJson>),
    Object(Seq<(Seq<char>, SpecJson)>),
}

impl JsonNode {
    pub open spec fn spec_view(&self) -> SpecJson
        decreases self,
    {
        match self {
            JsonNode::Null => SpecJson::Null,
            JsonNode::Bool(b) => SpecJson::Bool(*b),
            JsonNode::Int(i) => SpecJson::Int(*i as int),
            JsonNode::UInt(u) => SpecJson::UInt(*u as int),
            JsonNode::Float(f) => SpecJson::Float(f@),
            JsonNode::Text(t) => SpecJson::Text(t@),
            JsonNode::Array(a) => SpecJson::Array(
                Seq::new(
                    a@.len(),
                    |i: int|
                        if 0 <= i < a.len() {
                            a[i].spec_view()
                        } else {
                            SpecJson::Null
                        },
                ),
            ),
            JsonNode::Object(o) => SpecJson::Object(
                Seq::new(
                    o@.len(),
                    |i: int|
                        if 0 <= i < o.len() {
                            (o[i].0@, o[i].1.spec_view())
                        } else {
                            (Seq::empty(), SpecJson::Null)
                        },
                ),
            ),
        }
    }
}

/// What `serde_json::from_str` gives for the text `src`, read into plain values: the
/// document, or the message of the parse error.
pub uninterp spec fn json_document(src: Seq<char>) -> Result<SpecJson, Seq<char>>;

/// The conversion of a parsed JSON value into plain values, one variant for one; it is
/// the second half of [`parse_json`].
#[verifier::external_body]
fn json_node(v: &serde_json::Value) -> JsonNode {
    match v {
        serde_json::Value::Null => JsonNode::Null,
        serde_json::Value::Bool(b) => JsonNode::Bool(*b),
        serde_json::Value::Number(n) => json_number(n),
        serde_json::Value::String(s) => JsonNode::Text(s.clone()),
        serde_json::Value::Array(a) => JsonNode::Array(a.iter().map(json_node).collect()),
        serde_json::Value::Object(o) => JsonNode::Object(
            o.iter().map(|(k, x)| (k.clone(), json_node(x))).collect(),
        ),
    }
}

/// A JSON number as a plain value: an `i64` integer, a larger integer, or the text of the
/// float (as `to_string` writes it).
#[verifier::external_body]
fn json_number(n: &serde_json::Number) -> JsonNode {
    match (n.as_i64(), n.as_u64()) {
        (Some(i), _) => JsonNode::Int(i),
        (None, Some(u)) => JsonNode::UInt(u),
        (None, None) => JsonNode::Float(n.as_f64().unwrap_or_default().to_string()),
    }
}

/// Parses JSON text with `serde_json::from_str` into its `Value` and hands the tree back
/// as plain values; a parse error is handed back as its message (`to_string`). Claimed:
/// the result depends on the text alone, and is named [`json_document`].
#[verifier::external_body]
fn parse_json(src: &str) -> (r: Result<JsonNode, String>)
    ensures
        match r {
            Ok(n) => json_document(src@) == Ok::<SpecJson, Seq<char>>(n.spec_view()),
            Err(m) => json_document(src@) == Err::<SpecJson, Seq<char>>(m@),
        },
{
    match serde_json::from_str::<serde_json::Value>(src) {
        Ok(v) => Ok(json_node(&v)),
        Err(e) => Err(e.to_string()),
    }
}

// ---------------------------------------------------------------- tables

/// The index of the last entry of `t` with key `k`, or -1.
pub open spec fn key_index(t: Seq<(Seq<char>, SpecValue)>, k: Seq<char>) -> int
    decreases t.len(),
{
    if t.len() == 0 {
        -1
    } else if t.last().0 == k {
        t.len() - 1
    } else {
        key_index(t.drop_last(), k)
    }
}

/// `t` with the value `v` under the key `k`: the value of the entry with that key is
/// replaced, or the entry is added at the end.
pub open spec fn table_put(t: Seq<(Seq<char>, SpecValue)>, k: Seq<char>, v: SpecValue) -> Seq<(Seq<char>, SpecValue)> {
    let i = key_index(t, k);
    if i < 0 {
        t.push((k, v))
    } else {
        t.update(i, (k, v))
    }
}

proof fn lemma_key_index(t: Seq<(Seq<char>, SpecValue)>, k: Seq<char>)
    ensures
        -1 <= key_index(t, k) < t.len(),
        key_index(t, k) >= 0 ==> t[key_index(t, k)].0 == k,
        key_index(t, k) < 0 ==> forall|j: int| 0 <= j < t.len() ==> #[trigger] t[j].0 != k,
    decreases t.len(),
{
    if t.len() > 0 && t.last().0 != k {
        lemma_key_index(t.drop_last(), k);
        let u = t.drop_last();
        assert forall|j: int| 0 <= j < t.len() && key_index(t, k) < 0 implies #[trigger] t[j].0 != k by {
            if j < t.len() - 1 {
                assert(u[j] == t[j]);
            }
        }
    }
}

/// Putting an entry keeps the keys of a table distinct.
proof fn lemma_table_put_distinct(t: Seq<(Seq<char>, SpecValue)>, k: Seq<char>, v: SpecValue)
    requires
        forall|i: int, j: int| 0 <= i < j < t.len() ==> #[trigger] t[i].0 != #[trigger] t[j].0,
    ensures
        ({
            let u = table_put(t, k, v);
            forall|i: int, j: int| 0 <= i < j < u.len() ==> #[trigger] u[i].0 != #[trigger] u[j].0
        }),
{
    lemma_key_index(t, k);
    let u = table_put(t, k, v);
    let x = key_index(t, k);
    assert forall|i: int, j: int| 0 <= i < j < u.len() implies #[trigger] u[i].0 != #[trigger] u[j].0 by {
        if x < 0 {
            if j == t.len() {
                assert(u[i] == t[i]);
            } else {
                assert(u[i] == t[i] && u[j] == t[j]);
            }
        } else {
            if i == x {
                assert(u[j] == t[j]);
            } else if j == x {
                assert(u[i] == t[i]);
            } else {
                assert(u[i] == t[i] && u[j] == t[j]);
            }
        }
    }
}

fn key_index_exec(t: &Vec<(String, TemplateValue)>, k: &String) -> (r: Option<usize>)
    ensures
        match r {
            Some(i) => key_index(table_view(t@), k@) == i as int,
            None => key_index(table_view(t@), k@) < 0,
        },
{
    let ghost tv = table_view(t@);
    let mut found: Option<usize> = None;
    let mut i: usize = 0;
    while i < t.len()
        invariant
            i <= t@.len(),
            tv == table_view(t@),
            match found {
                Some(j) => key_index(tv.take(i as int), k@) == j as int,
                None => key_index(tv.take(i as int), k@) < 0,
            },
        decreases t@.len() - i,
    {
        let ghost next = tv.take(i + 1);
        assert(next.drop_last() =~= tv.take(i as int));
        assert(next.last() == tv[i as int]);
        if t[i].0 == *k {
            found = Some(i);
        }
        i = i + 1;
    }
    assert(tv.take(t@.len() as int) =~= tv);
    found
}

/// Puts `v` under `k` in the table `t` (see [`table_put`]).
fn table_put_exec(t: &mut Vec<(String, TemplateValue)>, k: String, v: TemplateValue)
    ensures
        table_view(final(t)@) == table_put(table_view(old(t)@), k@, v.spec_view()),
{
    let ghost tv = table_view(t@);
    let ghost kv = k@;
    let ghost vv = v.spec_view();
    match key_index_exec(t, &k) {
        Some(i) => {
            proof {
                lemma_key_index(tv, kv);
            }
            t.set(i, (k, v));
            assert(table_view(t@) =~= tv.update(i as int, (kv, vv)));
        },
        None => {
            t.push((k, v));
            assert(table_view(t@) =~= tv.push((kv, vv)));
        },
    }
}

/// The keys of the table are distinct, and so are those of every table in it.
pub open spec fn distinct_table(t: Seq<(Seq<char>, SpecValue)>) -> bool {
    &&& forall|i: int, j: int| 0 <= i < j < t.len() ==> #[trigger] t[i].0 != #[trigger] t[j].0
    &&& forall|i: int| 0 <= i < t.len() ==> keys_distinct(#[trigger] t[i].1)
}

proof fn lemma_put_keeps_distinct(t: Seq<(Seq<char>, SpecValue)>, k: Seq<char>, v: SpecValue)
    requires
        distinct_table(t),
        keys_distinct(v),
    ensures
        distinct_table(table_put(t, k, v)),
{
    lemma_table_put_distinct(t, k, v);
    lemma_key_index(t, k);
    let u = table_put(t, k, v);
    assert forall|i: int| 0 <= i < u.len() implies keys_distinct(#[trigger] u[i].1) by {
        if i < t.len() && i != key_index(t, k) {
            assert(u[i] == t[i]);
        }
    }
}

// ---------------------------------------------------------------- JSON

/// The document holds no integer beyond `i64` (reading one is refused).
pub open spec fn json_fits(n: SpecJson) -> bool
    decreases n,
{
    match n {
        SpecJson::UInt(_) => false,
        SpecJson::Array(xs) => forall|i: int| 0 <= i < xs.len() ==> json_fits(#[trigger] xs[i]),
        SpecJson::Object(xs) => forall|i: int| 0 <= i < xs.len() ==> json_fits(#[trigger] xs[i].1),
        _ => true,
    }
}

/// The value of a JSON node: `null` is the empty value, integers are numbers, a float
/// keeps its text, arrays keep their order, and an object is a table filled with its
/// members in turn.
pub open spec fn spec_json_value(n: SpecJson) -> SpecValue
    decreases n, 1int,
{
    match n {
        SpecJson::Null => SpecValue::Null,
        SpecJson::Bool(b) => SpecValue::Bool(b),
        SpecJson::Int(i) => SpecValue::Number(i),
        SpecJson::UInt(_) => SpecValue::Null,
        SpecJson::Float(f) => SpecValue::Float(f),
        SpecJson::Text(t) => SpecValue::Text(t),
        SpecJson::Array(xs) => SpecValue::Array(json_elements(xs, xs.len() as int)),
        SpecJson::Object(xs) => SpecValue::Table(json_members(xs, xs.len() as int)),
    }
}

/// The values of the first `n` elements.
pub open spec fn json_elements(xs: Seq<SpecJson>, n: int) -> Seq<SpecValue>
    decreases xs, n,
{
    if n <= 0 || n > xs.len() {
        Seq::empty()
    } else {
        json_elements(xs, n - 1).push(spec_json_value(xs[n - 1]))
    }
}

/// The table of the first `n` members.
pub open spec fn json_members(xs: Seq<(Seq<char>, SpecJson)>, n: int) -> Seq<(Seq<char>, SpecValue)>
    decreases xs, n,
{
    if n <= 0 || n > xs.len() {
        Seq::empty()
    } else {
        table_put(json_members(xs, n - 1), xs[n - 1].0, spec_json_value(xs[n - 1].1))
    }
}

/// Whether the node fits (see [`json_fits`]).
#[verifier::loop_isolation(false)]
pub fn json_fits_exec(n: &JsonNode) -> (r: bool)
    ensures
        r == json_fits(n.spec_view()),
    decreases n,
{
    match n {
        JsonNode::UInt(_) => false,
        JsonNode::Array(xs) => {
            let ghost sv = n.spec_view()->Array_0;
            let mut i: usize = 0;
            while i < xs.len()
                invariant
                    i <= xs@.len(),
                    forall|k: int| 0 <= k < i ==> json_fits(#[trigger] sv[k]),
                decreases xs@.len() - i,
            {
                proof {
                    assert(decreases_to!(*n => n->Array_0));
                    assert(decreases_to!(n->Array_0 => n->Array_0[i as int]));
                }
                if !json_fits_exec(&xs[i]) {
                    assert(sv[i as int] == xs@[i as int].spec_view());
                    return false;
                }
                i = i + 1;
            }
            true
        },
        JsonNode::Object(xs) => {
            let ghost sv = n.spec_view()->Object_0;
            let mut i: usize = 0;
            while i < xs.len()
                invariant
                    i <= xs@.len(),
                    forall|k: int| 0 <= k < i ==> json_fits(#[trigger] sv[k].1),
                decreases xs@.len() - i,
            {
                proof {
                    assert(decreases_to!(*n => n->Object_0));
                    assert(decreases_to!(n->Object_0 => n->Object_0[i as int]));
                    assert(decreases_to!(n->Object_0[i as int] => n->Object_0[i as int].1));
                }
                if !json_fits_exec(&xs[i].1) {
                    assert(sv[i as int].1 == xs@[i as int].1.spec_view());
                    return false;
                }
                i = i + 1;
            }
            true
        },
        _ => true,
    }
}

/// The value of a JSON node (see [`spec_json_value`]).
#[verifier::loop_isolation(false)]
pub fn value_of_json(n: &JsonNode) -> (r: TemplateValue)
    requires
        json_fits(n.spec_view()),
    ensures
        r.spec_view() == spec_json_value(n.spec_view()),
        keys_distinct(r.spec_view()),
    decreases n,
{
    match n {
        JsonNode::Null => TemplateValue::Null,
        JsonNode::Bool(b) => TemplateValue::Bool(*b),
        JsonNode::Int(i) => TemplateValue::Number(*i),
        JsonNode::UInt(_) => TemplateValue::Null,
        JsonNode::Float(f) => TemplateValue::Float(f.clone()),
        JsonNode::Text(t) => TemplateValue::Text(t.clone()),
        JsonNode::Array(xs) => {
            let ghost sv = n.spec_view()->Array_0;
            let mut out: Vec<TemplateValue> = Vec::new();
            let mut i: usize = 0;
            while i < xs.len()
                invariant
                    i <= xs@.len(),
                    out@.len() == i,
                    json_elements(sv, i as int).len() == i,
                    forall|k: int| 0 <= k < i ==> #[trigger] out@[k].spec_view() == json_elements(sv, i as int)[k],
                    forall|k: int| 0 <= k < i ==> keys_distinct(#[trigger] out@[k].spec_view()),
                decreases xs@.len() - i,
            {
                proof {
                    assert(decreases_to!(*n => n->Array_0));
                    assert(decreases_to!(n->Array_0 => n->Array_0[i as int]));
                    assert(sv[i as int] == xs@[i as int].spec_view());
                    assert(json_fits(sv[i as int]));
                }
                let v = value_of_json(&xs[i]);
                out.push(v);
                i = i + 1;
                proof {
                    assert(json_elements(sv, i as int) == json_elements(sv, i - 1).push(spec_json_value(sv[i - 1])));
                }
            }
            let r = TemplateValue::Array(out);
            assert forall|k: int| 0 <= k < sv.len() implies #[trigger] r.spec_view()->Array_0[k] == json_elements(sv, sv.len() as int)[k] by {
                assert(out@[k].spec_view() == json_elements(sv, i as int)[k]);
            }
            assert(r.spec_view()->Array_0 =~= json_elements(sv, sv.len() as int));
            assert forall|k: int| 0 <= k < out@.len() implies keys_distinct(#[trigger] r.spec_view()->Array_0[k]) by {
                assert(r.spec_view()->Array_0[k] == out@[k].spec_view());
            }
            r
        },
        JsonNode::Object(xs) => {
            let ghost sv = n.spec_view()->Object_0;
            let mut out: Vec<(String, TemplateValue)> = Vec::new();
            let mut i: usize = 0;
            while i < xs.len()
                invariant
                    i <= xs@.len(),
                    table_view(out@) == json_members(sv, i as int),
                distinct_table(table_view(out@)),
                decreases xs@.len() - i,
            {
                proof {
                    assert(decreases_to!(*n => n->Object_0));
                    assert(decreases_to!(n->Object_0 => n->Object_0[i as int]));
                    assert(decreases_to!(n->Object_0[i as int] => n->Object_0[i as int].1));
                    assert(sv[i as int].1 == xs@[i as int].1.spec_view());
                    assert(sv[i as int].0 == xs@[i as int].0@);
                    assert(json_fits(sv[i as int].1));
                }
                let v = value_of_json(&xs[i].1);
                let k = xs[i].0.clone();
                proof {
                    lemma_put_keeps_distinct(table_view(out@), k@, v.spec_view());
                }
                table_put_exec(&mut out, k, v);
                i = i + 1;
            }
            let r = TemplateValue::Table(out);
            assert(r.spec_view()->Table_0 =~= table_view(out@));
            r
        },
    }
}

impl TemplateValue {
    /// The value of a JSON document (see [`spec_json_value`]). A parse error is a
    /// `GenericError` with its message; an integer beyond `i64` is refused with a
    /// `GenericError`.
    pub fn from_json(src: &str) -> (r: TmplResult<TemplateValue>)
        ensures
            match json_document(src@) {
                Err(m) => r matches Err(TemplateError::GenericError(e)) && e@ == m,
                Ok(n) => if json_fits(n) {
                    r matches Ok(v) && v.spec_view() == spec_json_value(n) && keys_distinct(v.spec_view())
                } else {
                    r matches Err(TemplateError::GenericError(e)) && e@ == "number out of range"@
                },
            },
    {
        match parse_json(src) {
            Err(m) => Err(TemplateError::GenericError(m)),
            Ok(n) => {
                if json_fits_exec(&n) {
                    Ok(value_of_json(&n))
                } else {
                    Err(TemplateError::GenericError(String::from_str("number out of range")))
                }
            },
        }
    }
}

// ---------------------------------------------------------------- YAML

#[verifier::external_type_specification]
#[verifier::external_body]
pub struct ExYamlValue(serde_yaml::Value);

#[verifier::external_type_specification]
#[verifier::external_body]
pub struct ExYamlNumber(serde_yaml::Number);

/// A YAML document as plain values. A floating-point number is held as its text; an
/// integer that does not fit in `i64` is `UInt`; a tagged value keeps no content.
#[derive(Debug)]
pub enum YamlNode {
    Null,
    Bool(bool),
    Int(i64),
    UInt(u64),
    Float(String),
    Text(String),
    Sequence(Vec<YamlNode>),
    Mapping(Vec<(YamlNode, YamlNode)>),
    Tagged,
}

/// The mathematical model of a [`YamlNode`].
pub enum SpecYaml {
    Null,
    Bool(bool),
    Int(int),
    UInt(int),
    Float(Seq<char>),
    Text(Seq<char>),
    Sequence(Seq<SpecYaml>),
    Mapping(Seq<(SpecYaml, SpecYaml)>),
    Tagged,
}

impl YamlNode {
    pub open spec fn spec_view(&self) -> SpecYaml
        decreases self,
    {
        match self {
            YamlNode::Null => SpecYaml::Null,
            YamlNode::Bool(b) => SpecYaml::Bool(*b),
            YamlNode::Int(i) => SpecYaml::Int(*i as int),
            YamlNode::UInt(u) => SpecYaml::UInt(*u as int),
            YamlNode::Float(f) => SpecYaml::Float(f@),
            YamlNode::Text(t) => SpecYaml::Text(t@),
            YamlNode::Sequence(a) => SpecYaml::Sequence(
                Seq::new(
                    a@.len(),
                    |i: int|
                        if 0 <= i < a.len() {
                            a[i].spec_view()
                        } else {
                            SpecYaml::Null
                        },
                ),
            ),
            YamlNode::Mapping(o) => SpecYaml::Mapping(
                Seq::new(
                    o@.len(),
                    |i: int|
                        if 0 <= i < o.len() {
                            (o[i].0.spec_view(), o[i].1.spec_view())
                        } else {
                            (SpecYaml::Null, SpecYaml::Null)
                        },
                ),
            ),
            YamlNode::Tagged => SpecYaml::Tagged,
        }
    }
}

/// What `serde_yaml::from_str` gives for the text `src`, read into plain values: the
/// document, or the message of the parse error.
pub uninterp spec fn yaml_document(src: Seq<char>) -> Result<SpecYaml, Seq<char>>;

/// The conversion of a parsed YAML value into plain values, one variant for one (a tagged
/// value keeps only its variant); it is the second half of [`parse_yaml`].
#[verifier::external_body]
fn yaml_node(v: &serde_yaml::Value) -> YamlNode {
    match v {
        serde_yaml::Value::Null => YamlNode::Null,
        serde_yaml::Value::Bool(b) => YamlNode::Bool(*b),
        serde_yaml::Value::Number(n) => yaml_number(n),
        serde_yaml::Value::String(s) => YamlNode::Text(s.clone()),
        serde_yaml::Value::Sequence(a) => YamlNode::Sequence(a.iter().map(yaml_node).collect()),
        serde_yaml::Value::Mapping(o) => YamlNode::Mapping(
            o.iter().map(|(k, x)| (yaml_node(k), yaml_node(x))).collect(),
        ),
        serde_yaml::Value::Tagged(_) => YamlNode::Tagged,
    }
}

/// A YAML number as a plain value: an `i64` integer, a larger integer, or the text of the
/// float (as `to_string` writes it).
#[verifier::external_body]
fn yaml_number(n: &serde_yaml::Number) -> YamlNode {
    match (n.as_i64(), n.as_u64()) {
        (Some(i), _) => YamlNode::Int(i),
        (None, Some(u)) => YamlNode::UInt(u),
        (None, None) => YamlNode::Float(n.as_f64().unwrap_or_default().to_string()),
    }
}

/// Parses YAML text with `serde_yaml::from_str` into its `Value` and hands the tree back
/// as plain values; a parse error is handed back as its message (`to_string`). Claimed:
/// the result depends on the text alone, and is named [`yaml_document`].
#[verifier::external_body]
fn parse_yaml(src: &str) -> (r: Result<YamlNode, String>)
    ensures
        match r {
            Ok(n) => yaml_document(src@) == Ok::<SpecYaml, Seq<char>>(n.spec_view()),
            Err(m) => yaml_document(src@) == Err::<SpecYaml, Seq<char>>(m@),
        },
{
    match serde_yaml::from_str::<serde_yaml::Value>(src) {
        Ok(v) => Ok(yaml_node(&v)),
        Err(e) => Err(e.to_string()),
    }
}

/// The document holds no integer beyond `i64`, in keys or values.
pub open spec fn yaml_fits(n: SpecYaml) -> bool
    decreases n,
{
    match n {
        SpecYaml::UInt(_) => false,
        SpecYaml::Sequence(xs) => forall|i: int| 0 <= i < xs.len() ==> yaml_fits(#[trigger] xs[i]),
        SpecYaml::Mapping(xs) => forall|i: int| 0 <= i < xs.len() ==> yaml_fits((#[trigger] xs[i]).0) && yaml_fits(xs[i].1),
        _ => true,
    }
}

/// The value of a YAML node: `null` and tagged values are the empty value, integers are
/// numbers, a float keeps its text, sequences keep their order, and a mapping is a table
/// filled with its entries in turn, each key taken as the text of its value.
pub open spec fn spec_yaml_value(n: SpecYaml) -> SpecValue
    decreases n, 1int,
{
    match n {
        SpecYaml::Null => SpecValue::Null,
        SpecYaml::Bool(b) => SpecValue::Bool(b),
        SpecYaml::Int(i) => SpecValue::Number(i),
        SpecYaml::UInt(_) => SpecValue::Null,
        SpecYaml::Float(f) => SpecValue::Float(f),
        SpecYaml::Text(t) => SpecValue::Text(t),
        SpecYaml::Sequence(xs) => SpecValue::Array(yaml_elements(xs, xs.len() as int)),
        SpecYaml::Mapping(xs) => SpecValue::Table(yaml_entries(xs, xs.len() as int)),
        SpecYaml::Tagged => SpecValue::Null,
    }
}

/// The values of the first `n` elements.
pub open spec fn yaml_elements(xs: Seq<SpecYaml>, n: int) -> Seq<SpecValue>
    decreases xs, n,
{
    if n <= 0 || n > xs.len() {
        Seq::empty()
    } else {
        yaml_elements(xs, n - 1).push(spec_yaml_value(xs[n - 1]))
    }
}

/// The table of the first `n` entries.
pub open spec fn yaml_entries(xs: Seq<(SpecYaml, SpecYaml)>, n: int) -> Seq<(Seq<char>, SpecValue)>
    decreases xs, n,
{
    if n <= 0 || n > xs.len() {
        Seq::empty()
    } else {
        table_put(
            yaml_entries(xs, n - 1),
            value_text(spec_yaml_value(xs[n - 1].0)),
            spec_yaml_value(xs[n - 1].1),
        )
    }
}

/// Whether the node fits (see [`yaml_fits`]).
#[verifier::loop_isolation(false)]
pub fn yaml_fits_exec(n: &YamlNode) -> (r: bool)
    ensures
        r == yaml_fits(n.spec_view()),
    decreases n,
{
    match n {
        YamlNode::UInt(_) => false,
        YamlNode::Sequence(xs) => {
            let ghost sv = n.spec_view()->Sequence_0;
            let mut i: usize = 0;
            while i < xs.len()
                invariant
                    i <= xs@.len(),
                    forall|k: int| 0 <= k < i ==> yaml_fits(#[trigger] sv[k]),
                decreases xs@.len() - i,
            {
                proof {
                    assert(decreases_to!(*n => n->Sequence_0));
                    assert(decreases_to!(n->Sequence_0 => n->Sequence_0[i as int]));
                }
                if !yaml_fits_exec(&xs[i]) {
                    assert(sv[i as int] == xs@[i as int].spec_view());
                    return false;
                }
                i = i + 1;
            }
            true
        },
        YamlNode::Mapping(xs) => {
            let ghost sv = n.spec_view()->Mapping_0;
            let mut i: usize = 0;
            while i < xs.len()
                invariant
                    i <= xs@.len(),
                    forall|k: int| 0 <= k < i ==> yaml_fits((#[trigger] sv[k]).0) && yaml_fits(sv[k].1),
                decreases xs@.len() - i,
            {
                proof {
                    assert(decreases_to!(*n => n->Mapping_0));
                    assert(decreases_to!(n->Mapping_0 => n->Mapping_0[i as int]));
                    assert(decreases_to!(n->Mapping_0[i as int] => n->Mapping_0[i as int].0));
                    assert(decreases_to!(n->Mapping_0[i as int] => n->Mapping_0[i as int].1));
                }
                assert(sv[i as int].0 == xs@[i as int].0.spec_view());
                assert(sv[i as int].1 == xs@[i as int].1.spec_view());
                if !yaml_fits_exec(&xs[i].0) {
                    return false;
                }
                if !yaml_fits_exec(&xs[i].1) {
                    return false;
                }
                i = i + 1;
            }
            true
        },
        _ => true,
    }
}

/// The value of a YAML node (see [`spec_yaml_value`]).
#[verifier::loop_isolation(false)]
pub fn value_of_yaml(n: &YamlNode) -> (r: TemplateValue)
    requires
        yaml_fits(n.spec_view()),
    ensures
        r.spec_view() == spec_yaml_value(n.spec_view()),
        keys_distinct(r.spec_view()),
    decreases n,
{
    match n {
        YamlNode::Null => TemplateValue::Null,
        YamlNode::Bool(b) => TemplateValue::Bool(*b),
        YamlNode::Int(i) => TemplateValue::Number(*i),
        YamlNode::UInt(_) => TemplateValue::Null,
        YamlNode::Float(f) => TemplateValue::Float(f.clone()),
        YamlNode::Text(t) => TemplateValue::Text(t.clone()),
        YamlNode::Sequence(xs) => {
            let ghost sv = n.spec_view()->Sequence_0;
            let mut out: Vec<TemplateValue> = Vec::new();
            let mut i: usize = 0;
            while i < xs.len()
                invariant
                    i <= xs@.len(),
                    out@.len() == i,
                    yaml_elements(sv, i as int).len() == i,
                    forall|k: int| 0 <= k < i ==> #[trigger] out@[k].spec_view() == yaml_elements(sv, i as int)[k],
                    forall|k: int| 0 <= k < i ==> keys_distinct(#[trigger] out@[k].spec_view()),
                decreases xs@.len() - i,
            {
                proof {
                    assert(decreases_to!(*n => n->Sequence_0));
                    assert(decreases_to!(n->Sequence_0 => n->Sequence_0[i as int]));
                    assert(sv[i as int] == xs@[i as int].spec_view());
                    assert(yaml_fits(sv[i as int]));
                }
                let v = value_of_yaml(&xs[i]);
                out.push(v);
                i = i + 1;
                proof {
                    assert(yaml_elements(sv, i as int) == yaml_elements(sv, i - 1).push(spec_yaml_value(sv[i - 1])));
                }
            }
            let r = TemplateValue::Array(out);
            assert forall|k: int| 0 <= k < sv.len() implies #[trigger] r.spec_view()->Array_0[k] == yaml_elements(sv, sv.len() as int)[k] by {
                assert(out@[k].spec_view() == yaml_elements(sv, i as int)[k]);
            }
            assert(r.spec_view()->Array_0 =~= yaml_elements(sv, sv.len() as int));
            assert forall|k: int| 0 <= k < out@.len() implies keys_distinct(#[trigger] r.spec_view()->Array_0[k]) by {
                assert(r.spec_view()->Array_0[k] == out@[k].spec_view());
            }
            r
        },
        YamlNode::Mapping(xs) => {
            let ghost sv = n.spec_view()->Mapping_0;
            let mut out: Vec<(String, TemplateValue)> = Vec::new();
            let mut i: usize = 0;
            while i < xs.len()
                invariant
                    i <= xs@.len(),
                    table_view(out@) == yaml_entries(sv, i as int),
                distinct_table(table_view(out@)),
                decreases xs@.len() - i,
            {
                proof {
                    assert(decreases_to!(*n => n->Mapping_0));
                    assert(decreases_to!(n->Mapping_0 => n->Mapping_0[i as int]));
                    assert(decreases_to!(n->Mapping_0[i as int] => n->Mapping_0[i as int].0));
                    assert(decreases_to!(n->Mapping_0[i as int] => n->Mapping_0[i as int].1));
                    assert(sv[i as int].0 == xs@[i as int].0.spec_view());
                    assert(sv[i as int].1 == xs@[i as int].1.spec_view());
                    assert(yaml_fits(sv[i as int].0) && yaml_fits(sv[i as int].1));
                }
                let key = value_of_yaml(&xs[i].0);
                let k = key.to_string();
                let v = value_of_yaml(&xs[i].1);
                proof {
                    lemma_put_keeps_distinct(table_view(out@), k@, v.spec_view());
                }
                table_put_exec(&mut out, k, v);
                i = i + 1;
            }
            let r = TemplateValue::Table(out);
            assert(r.spec_view()->Table_0 =~= table_view(out@));
            r
        },
        YamlNode::Tagged => TemplateValue::Null,
    }
}

impl TemplateValue {
    /// The value of a YAML document (see [`spec_yaml_value`]). A parse error is a
    /// `GenericError` with its message; an integer beyond `i64` is refused with a
    /// `GenericError`.
    pub fn from_yaml(src: &str) -> (r: TmplResult<TemplateValue>)
        ensures
            match yaml_document(src@) {
                Err(m) => r matches Err(TemplateError::GenericError(e)) && e@ == m,
                Ok(n) => if yaml_fits(n) {
                    r matches Ok(v) && v.spec_view() == spec_yaml_value(n) && keys_distinct(v.spec_view())
                } else {
                    r matches Err(TemplateError::GenericError(e)) && e@ == "number out of range"@
                },
            },
    {
        match parse_yaml(src) {
            Err(m) => Err(TemplateError::GenericError(m)),
            Ok(n) => {
                if yaml_fits_exec(&n) {
                    Ok(value_of_yaml(&n))
                } else {
                    Err(TemplateError::GenericError(String::from_str("number out of range")))
                }
            },
        }
    }
}

} // verus!

verus! {

proof fn lemma_json_elements(xs: Seq<SpecJson>, n: int)
    requires
        0 <= n <= xs.len(),
    ensures
        json_elements(xs, n).len() == n,
        forall|i: int| 0 <= i < n ==> #[trigger] json_elements(xs, n)[i] == spec_json_value(xs[i]),
    decreases n,
{
    if n > 0 {
        lemma_json_elements(xs, n - 1);
    }
}

proof fn lemma_json_members(xs: Seq<(Seq<char>, SpecJson)>, n: int)
    requires
        0 <= n <= xs.len(),
        forall|i: int, j: int| 0 <= i < j < xs.len() ==> #[trigger] xs[i].0 != #[trigger] xs[j].0,
    ensures
        json_members(xs, n).len() == n,
        forall|i: int| 0 <= i < n ==> #[trigger] json_members(xs, n)[i] == (xs[i].0, spec_json_value(xs[i].1)),
    decreases n,
{
    if n > 0 {
        lemma_json_members(xs, n - 1);
        let t = json_members(xs, n - 1);
        lemma_key_index(t, xs[n - 1].0);
        if key_index(t, xs[n - 1].0) >= 0 {
            let k = key_index(t, xs[n - 1].0);
            assert(t[k] == (xs[k].0, spec_json_value(xs[k].1)));
            assert(false);
        }
    }
}

/// Reading a JSON node keeps its kind and contents: `null` is the empty value, a boolean
/// stays that boolean, an `i64` integer is that number, a float is a float with its text,
/// a string is that text, an array is an array of the values of its elements, and an
/// object whose keys are distinct is a table of its members, in order.
pub proof fn lemma_json_value_kinds(n: SpecJson)
    ensures
        n is Null ==> spec_json_value(n) == SpecValue::Null,
        n matches SpecJson::Bool(b) ==> spec_json_value(n) == SpecValue::Bool(b),
        n matches SpecJson::Int(i) ==> spec_json_value(n) == SpecValue::Number(i),
        n matches SpecJson::Float(f) ==> spec_json_value(n) == SpecValue::Float(f),
        n matches SpecJson::Text(t) ==> spec_json_value(n) == SpecValue::Text(t),
        n matches SpecJson::Array(xs) ==> (spec_json_value(n) matches SpecValue::Array(vs) && vs.len() == xs.len()
            && forall|i: int| 0 <= i < xs.len() ==> #[trigger] vs[i] == spec_json_value(xs[i])),
        n matches SpecJson::Object(xs) ==> ((forall|i: int, j: int| 0 <= i < j < xs.len() ==> #[trigger] xs[i].0 != #[trigger] xs[j].0)
            ==> (spec_json_value(n) matches SpecValue::Table(t) && t.len() == xs.len() && forall|i: int|
            0 <= i < xs.len() ==> #[trigger] t[i] == (xs[i].0, spec_json_value(xs[i].1)))),
{
    match n {
        SpecJson::Array(xs) => {
            lemma_json_elements(xs, xs.len() as int);
        },
        SpecJson::Object(xs) => {
            if forall|i: int, j: int| 0 <= i < j < xs.len() ==> #[trigger] xs[i].0 != #[trigger] xs[j].0 {
                lemma_json_members(xs, xs.len() as int);
            }
        },
        _ => {},
    }
}

proof fn lemma_yaml_elements(xs: Seq<SpecYaml>, n: int)
    requires
        0 <= n <= xs.len(),
    ensures
        yaml_elements(xs, n).len() == n,
        forall|i: int| 0 <= i < n ==> #[trigger] yaml_elements(xs, n)[i] == spec_yaml_value(xs[i]),
    decreases n,
{
    if n > 0 {
        lemma_yaml_elements(xs, n - 1);
    }
}

/// Reading a YAML node keeps its kind and contents: `null` and a tagged value are the
/// empty value, a boolean stays that boolean, an `i64` integer is that number, a float is
/// a float with its text, a string is that text, and a sequence is an array of the values
/// of its elements.
pub proof fn lemma_yaml_value_kinds(n: SpecYaml)
    ensures
        (n is Null || n is Tagged) ==> spec_yaml_value(n) == SpecValue::Null,
        n matches SpecYaml::Bool(b) ==> spec_yaml_value(n) == SpecValue::Bool(b),
        n matches SpecYaml::Int(i) ==> spec_yaml_value(n) == SpecValue::Number(i),
        n matches SpecYaml::Float(f) ==> spec_yaml_value(n) == SpecValue::Float(f),
        n matches SpecYaml::Text(t) ==> spec_yaml_value(n) == SpecValue::Text(t),
        n matches SpecYaml::Sequence(xs) ==> (spec_yaml_value(n) matches SpecValue::Array(vs) && vs.len() == xs.len()
            && forall|i: int| 0 <= i < xs.len() ==> #[trigger] vs[i] == spec_yaml_value(xs[i])),
        n is Mapping ==> spec_yaml_value(n) is Table,
{
    match n {
        SpecYaml::Sequence(xs) => {
            lemma_yaml_elements(xs, xs.len() as int);
        },
        _ => {},
    }
}

} // verus!
