//! Reading backend records out of raw JSON.
//!
//! The JSON grammar itself is read by serde_json behind a small trusted
//! boundary: a parsed document is opaque, and the name `json_model` stands
//! for what it holds. Everything above that boundary — which fields a
//! record must carry, of which shapes, and what to reject — is verified.

use vstd::prelude::*;

use crate::protocol::{ChatResponse, ChatResponseV, OllamaMessage, OllamaMessageV};

verus! {

#[verifier::external_type_specification]
#[verifier::external_body]
pub struct ExJsonValue(serde_json::Value);

/// A JSON document as a mathematical value. Numbers carry no payload: no
/// record field reads one.
pub ghost enum Jval {
    Null,
    Bool(bool),
    Num,
    Str(Seq<char>),
    Arr(Seq<Jval>),
    Obj(Map<Seq<char>, Jval>),
}

/// The document a parsed `serde_json::Value` holds.
pub uninterp spec fn json_model(v: serde_json::Value) -> Jval;

/// The document a byte sequence parses to, if it is well-formed JSON; the
/// result depends on the bytes alone.
pub uninterp spec fn json_doc(bytes: Seq<u8>) -> Option<Jval>;

/// Relies on serde_json::from_slice::<Value>: parses one JSON document from
/// bytes, or fails on malformed input.
#[verifier::external_body]
fn parse_json(line: &[u8]) -> (r: Option<serde_json::Value>)
    ensures
        match r {
            Some(v) => json_doc(line@) == Some(json_model(v)),
            None => json_doc(line@) is None,
        },
{
    serde_json::from_slice::<serde_json::Value>(line).ok()
}

/// Relies on serde_json::Value::get(&str): looks a key up on an object and
/// returns None on a missing key or on any non-object.
#[verifier::external_body]
fn json_get<'a>(v: &'a serde_json::Value, key: &str) -> (r: Option<&'a serde_json::Value>)
    ensures
        match json_model(*v) {
            Jval::Obj(m) => match r {
                Some(u) => m.contains_key(key@) && json_model(*u) == m[key@],
                None => !m.contains_key(key@),
            },
            _ => r is None,
        },
{
    v.get(key)
}

/// Relies on serde_json::Value::as_str: the borrowed text of a string
/// value, None on any other shape.
#[verifier::external_body]
fn json_as_str<'a>(v: &'a serde_json::Value) -> (r: Option<&'a str>)
    ensures
        match json_model(*v) {
            Jval::Str(s) => r matches Some(u) && u@ == s,
            _ => r is None,
        },
{
    v.as_str()
}

/// Relies on serde_json::Value::as_bool: the payload of a boolean value,
/// None on any other shape.
#[verifier::external_body]
fn json_as_bool(v: &serde_json::Value) -> (r: Option<bool>)
    ensures
        match json_model(*v) {
            Jval::Bool(b) => r == Some(b),
            _ => r is None,
        },
{
    v.as_bool()
}

/// Relies on serde_json::Value::as_array: the elements of an array value,
/// None on any other shape.
#[verifier::external_body]
fn json_as_array<'a>(v: &'a serde_json::Value) -> (r: Option<&'a Vec<serde_json::Value>>)
    ensures
        match json_model(*v) {
            Jval::Arr(a) => match r {
                Some(u) => u@.len() == a.len() && (forall|i: int|
                    0 <= i < a.len() ==> json_model(#[trigger] u@[i]) == a[i]),
                None => false,
            },
            _ => r is None,
        },
{
    v.as_array()
}

/// Relies on serde_json::Value::is_null.
#[verifier::external_body]
fn json_is_null(v: &serde_json::Value) -> (r: bool)
    ensures
        r == (json_model(*v) is Null),
{
    v.is_null()
}

/// A required string field: its text, or None when the field is missing or
/// of another shape.
pub open spec fn obj_str(m: Map<Seq<char>, Jval>, k: Seq<char>) -> Option<Seq<char>> {
    if m.contains_key(k) {
        match m[k] {
            Jval::Str(s) => Some(s),
            _ => None,
        }
    } else {
        None
    }
}

/// A required boolean field.
pub open spec fn obj_bool(m: Map<Seq<char>, Jval>, k: Seq<char>) -> Option<bool> {
    if m.contains_key(k) {
        match m[k] {
            Jval::Bool(b) => Some(b),
            _ => None,
        }
    } else {
        None
    }
}

/// An optional string field: absent and null collapse to `Some(None)`, a
/// string is accepted, any other shape is an error (`None`).
pub open spec fn obj_opt_str(m: Map<Seq<char>, Jval>, k: Seq<char>) -> Option<Option<Seq<char>>> {
    if !m.contains_key(k) {
        Some(None)
    } else {
        match m[k] {
            Jval::Null => Some(None),
            Jval::Str(s) => Some(Some(s)),
            _ => None,
        }
    }
}

/// The text of a string value; other shapes are never asked.
pub open spec fn str_of(j: Jval) -> Seq<char> {
    match j {
        Jval::Str(s) => s,
        _ => Seq::empty(),
    }
}

pub open spec fn str_of_fn() -> spec_fn(Jval) -> Seq<char> {
    |j: Jval| str_of(j)
}

/// Every element is a string.
pub open spec fn all_strings(a: Seq<Jval>) -> bool {
    forall|i: int| 0 <= i < a.len() ==> (#[trigger] a[i]) is Str
}

/// An optional list-of-strings field: absent and null collapse to
/// `Some(None)`, an array of strings is accepted, anything else is an
/// error.
pub open spec fn obj_opt_strs(m: Map<Seq<char>, Jval>, k: Seq<char>) -> Option<
    Option<Seq<Seq<char>>>,
> {
    if !m.contains_key(k) {
        Some(None)
    } else {
        match m[k] {
            Jval::Null => Some(None),
            Jval::Arr(a) => if all_strings(a) {
                Some(Some(a.map_values(str_of_fn())))
            } else {
                None
            },
            _ => None,
        }
    }
}

/// The message a JSON value denotes: an object with required `role` and
/// `content` strings, an optional `images` string list and an optional
/// `thinking` string.
pub open spec fn msg_of_json(j: Jval) -> Option<OllamaMessageV> {
    match j {
        Jval::Obj(m) => match (
            obj_str(m, "role"@),
            obj_str(m, "content"@),
            obj_opt_strs(m, "images"@),
            obj_opt_str(m, "thinking"@),
        ) {
            (Some(role), Some(content), Some(images), Some(thinking)) => Some(
                OllamaMessageV { role, content, images, thinking },
            ),
            _ => None,
        },
        _ => None,
    }
}

/// An optional message field.
pub open spec fn obj_opt_msg(m: Map<Seq<char>, Jval>, k: Seq<char>) -> Option<
    Option<OllamaMessageV>,
> {
    if !m.contains_key(k) {
        Some(None)
    } else {
        match m[k] {
            Jval::Null => Some(None),
            _ => match msg_of_json(m[k]) {
                Some(mm) => Some(Some(mm)),
                None => None,
            },
        }
    }
}

/// The response record a JSON document denotes: an object with required
/// `model` and `created_at` strings, a required `done` boolean, and an
/// optional `message`.
pub open spec fn record_of_json(j: Jval) -> Option<ChatResponseV> {
    match j {
        Jval::Obj(m) => match (
            obj_str(m, "model"@),
            obj_str(m, "created_at"@),
            obj_bool(m, "done"@),
            obj_opt_msg(m, "message"@),
        ) {
            (Some(model), Some(created_at), Some(done), Some(message)) => Some(
                ChatResponseV { model, created_at, message, done },
            ),
            _ => None,
        },
        _ => None,
    }
}

/// The record one line of the stream denotes, if it is a well-formed JSON
/// record; anything else is discarded by the reassembler.
pub open spec fn parsed_record(bytes: Seq<u8>) -> Option<ChatResponseV> {
    match json_doc(bytes) {
        Some(j) => record_of_json(j),
        None => None,
    }
}

/// Reads the message part of a record.
fn parse_message(v: &serde_json::Value) -> (r: Option<OllamaMessage>)
    ensures
        match msg_of_json(json_model(*v)) {
            Some(x) => r matches Some(m) && m@ == x,
            None => r is None,
        },
{
    let role = match json_get(v, "role") {
        Some(rv) => match json_as_str(rv) {
            Some(s) => s.to_owned(),
            None => {
                return None;
            },
        },
        None => {
            return None;
        },
    };
    let content = match json_get(v, "content") {
        Some(cv) => match json_as_str(cv) {
            Some(s) => s.to_owned(),
            None => {
                return None;
            },
        },
        None => {
            return None;
        },
    };
    let images: Option<Vec<String>> = match json_get(v, "images") {
        None => None,
        Some(av) => {
            if json_is_null(av) {
                None
            } else {
                match json_as_array(av) {
                    Some(arr) => {
                        let ghost a = ({
                            let m = json_model(*v)->Obj_0;
                            m["images"@]->Arr_0
                        });
                        let n = arr.len();
                        let mut imgs: Vec<String> = Vec::new();
                        proof {
                            assert(imgs.deep_view() =~= a.take(0).map_values(str_of_fn()));
                        }
                        let mut i: usize = 0;
                        while i < n
                            invariant
                                json_model(*v) is Obj,
                                json_model(*v)->Obj_0.contains_key("images"@),
                                json_model(*v)->Obj_0["images"@] == Jval::Arr(a),
                                n == arr@.len(),
                                a.len() == n,
                                forall|k: int|
                                    0 <= k < a.len() ==> json_model(#[trigger] arr@[k]) == a[k],
                                i <= n,
                                forall|k: int| 0 <= k < i ==> (#[trigger] a[k]) is Str,
                                imgs.deep_view() == a.take(i as int).map_values(str_of_fn()),
                            decreases n - i,
                        {
                            match json_as_str(&arr[i]) {
                                Some(s) => {
                                    let ghost dv0 = imgs.deep_view();
                                    imgs.push(s.to_owned());
                                    proof {
                                        assert(a.take(i as int + 1) =~= a.take(i as int).push(
                                            a[i as int],
                                        ));
                                        assert(imgs.deep_view() =~= dv0.push(str_of(a[i as int])));
                                        assert(a.take(i as int + 1).map_values(str_of_fn()) =~= a.take(
                                            i as int,
                                        ).map_values(str_of_fn()).push(str_of(a[i as int])));
                                    }
                                },
                                None => {
                                    proof {
                                        assert(json_model(arr@[i as int]) == a[i as int]);
                                        assert(!((a[i as int]) is Str));
                                        assert(!all_strings(a));
                                        assert(obj_opt_strs(json_model(*v)->Obj_0, "images"@)
                                            is None);
                                    }
                                    return None;
                                },
                            }
                            i += 1;
                        }
                        proof {
                            assert(a.take(n as int) =~= a);
                        }
                        Some(imgs)
                    },
                    None => {
                        return None;
                    },
                }
            }
        },
    };
    let thinking: Option<String> = match json_get(v, "thinking") {
        None => None,
        Some(tv) => {
            if json_is_null(tv) {
                None
            } else {
                match json_as_str(tv) {
                    Some(s) => Some(s.to_owned()),
                    None => {
                        return None;
                    },
                }
            }
        },
    };
    Some(OllamaMessage { role, content, images, thinking })
}

/// Reads one response record out of one line of the stream; a line that is
/// not well-formed JSON, or whose document is not a record, yields nothing.
pub fn parse_record(line: &[u8]) -> (r: Option<ChatResponse>)
    ensures
        match parsed_record(line@) {
            Some(rv) => r matches Some(rec) && rec@ == rv,
            None => r is None,
        },
{
    let v = match parse_json(line) {
        Some(v) => v,
        None => {
            return None;
        },
    };
    let model = match json_get(&v, "model") {
        Some(mv) => match json_as_str(mv) {
            Some(s) => s.to_owned(),
            None => {
                return None;
            },
        },
        None => {
            return None;
        },
    };
    let created_at = match json_get(&v, "created_at") {
        Some(cv) => match json_as_str(cv) {
            Some(s) => s.to_owned(),
            None => {
                return None;
            },
        },
        None => {
            return None;
        },
    };
    let done = match json_get(&v, "done") {
        Some(dv) => match json_as_bool(dv) {
            Some(b) => b,
            None => {
                return None;
            },
        },
        None => {
            return None;
        },
    };
    let message: Option<OllamaMessage> = match json_get(&v, "message") {
        None => None,
        Some(mv) => {
            if json_is_null(mv) {
                None
            } else {
                match parse_message(mv) {
                    Some(m) => Some(m),
                    None => {
                        return None;
                    },
                }
            }
        },
    };
    Some(ChatResponse { model, created_at, message, done })
}


/// The name of one model entry: an object's required `name` string.
pub open spec fn model_name_of(j: Jval) -> Option<Seq<char>> {
    match j {
        Jval::Obj(m) => obj_str(m, "name"@),
        _ => None,
    }
}

/// Every entry carries a name.
pub open spec fn all_named(a: Seq<Jval>) -> bool {
    forall|i: int| 0 <= i < a.len() ==> model_name_of(#[trigger] a[i]) is Some
}

/// The name of an entry known to carry one.
pub open spec fn name_of(j: Jval) -> Seq<char> {
    match model_name_of(j) {
        Some(s) => s,
        None => Seq::empty(),
    }
}

pub open spec fn name_of_fn() -> spec_fn(Jval) -> Seq<char> {
    |j: Jval| name_of(j)
}

/// The model names a listing response carries: an object with a `models`
/// array of entries, each with a `name` string; anything else is an error.
pub open spec fn models_of_json(j: Jval) -> Option<Seq<Seq<char>>> {
    match j {
        Jval::Obj(m) => if m.contains_key("models"@) {
            match m["models"@] {
                Jval::Arr(a) => if all_named(a) {
                    Some(a.map_values(name_of_fn()))
                } else {
                    None
                },
                _ => None,
            }
        } else {
            None
        },
        _ => None,
    }
}

/// The model names a listing response's bytes denote.
pub open spec fn parsed_models(bytes: Seq<u8>) -> Option<Seq<Seq<char>>> {
    match json_doc(bytes) {
        Some(j) => models_of_json(j),
        None => None,
    }
}

/// Reads the available model names out of a listing response.
pub fn parse_model_names(bytes: &[u8]) -> (r: Option<Vec<String>>)
    ensures
        match parsed_models(bytes@) {
            Some(ns) => r matches Some(v) && v.deep_view() == ns,
            None => r is None,
        },
{
    let v = match parse_json(bytes) {
        Some(v) => v,
        None => {
            return None;
        },
    };
    let arr = match json_get(&v, "models") {
        Some(av) => match json_as_array(av) {
            Some(arr) => arr,
            None => {
                return None;
            },
        },
        None => {
            return None;
        },
    };
    let ghost a = ({
        let m = json_model(v)->Obj_0;
        m["models"@]->Arr_0
    });
    let n = arr.len();
    let mut names: Vec<String> = Vec::new();
    proof {
        assert(names.deep_view() =~= a.take(0).map_values(name_of_fn()));
    }
    let mut i: usize = 0;
    while i < n
        invariant
            json_doc(bytes@) == Some(json_model(v)),
            json_model(v) is Obj,
            json_model(v)->Obj_0.contains_key("models"@),
            json_model(v)->Obj_0["models"@] == Jval::Arr(a),
            n == arr@.len(),
            a.len() == n,
            forall|k: int| 0 <= k < a.len() ==> json_model(#[trigger] arr@[k]) == a[k],
            i <= n,
            forall|k: int| 0 <= k < i ==> model_name_of(#[trigger] a[k]) is Some,
            names.deep_view() == a.take(i as int).map_values(name_of_fn()),
        decreases n - i,
    {
        let name = match json_get(&arr[i], "name") {
            Some(nv) => match json_as_str(nv) {
                Some(s) => s.to_owned(),
                None => {
                    proof {
                        assert(json_model(arr@[i as int]) == a[i as int]);
                        assert(model_name_of(a[i as int]) is None);
                        assert(!all_named(a));
                    }
                    return None;
                },
            },
            None => {
                proof {
                    assert(json_model(arr@[i as int]) == a[i as int]);
                    assert(model_name_of(a[i as int]) is None);
                    assert(!all_named(a));
                }
                return None;
            },
        };
        let ghost dv0 = names.deep_view();
        names.push(name);
        proof {
            assert(a.take(i as int + 1) =~= a.take(i as int).push(a[i as int]));
            assert(names.deep_view() =~= dv0.push(name_of(a[i as int])));
            assert(a.take(i as int + 1).map_values(name_of_fn()) =~= a.take(i as int).map_values(
                name_of_fn(),
            ).push(name_of(a[i as int])));
        }
        i += 1;
    }
    proof {
        assert(a.take(n as int) =~= a);
    }
    Some(names)
}

} // verus!
