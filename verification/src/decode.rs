//! The snapshot decoder: from an inbound message envelope to a well-formed
//! `MetricSet`.
//!
//! The envelope is a keyed container with a raw byte payload under the key
//! `json`; the payload bytes are parsed into a JSON tree at the process edge,
//! and `decode_metric_set` checks that tree against the snapshot schema.
//! Decoding is pinned exactly by `spec_decode_metric_set`, and a decoded
//! snapshot is always well formed.

use vstd::prelude::*;

use crate::json::{Json, JsonV, json_view_members, json_view_elems, lemma_json_view_members,
    lemma_json_view_elems};
use crate::model::{MetricSet, MetricSetV, Metric, MetricV, MetricValue, MetricValueV,
    MetricValueData, MetricValueDataV, NumberValue, keys_unique, MIN_TIMESTAMP, MAX_TIMESTAMP};
use crate::text::{num_trunc, sat_i64, num_trunc_exec, str_eq_exec};
use crate::time::{rfc3339_secs, rfc3339_parse};
use crate::valid_type_code;

verus! {

/// A decoding failure; each one is fatal to the connection that sent the
/// message.
#[derive(Debug, Clone, Copy, PartialEq, Eq, Structural)]
pub enum DecodeError {
    /// The envelope is not a keyed container.
    InvalidEnvelope,
    /// The envelope has no entry under the payload key.
    MissingPayload,
    /// The payload entry is not a raw byte blob.
    InvalidPayload,
    /// The payload bytes are not a JSON document.
    MalformedPayload,
    /// The tree does not have the snapshot schema's shape.
    InvalidShape,
    /// A metric's type code lies outside the table.
    InvalidTypeCode,
    /// A metric name, field key or label key occurs twice.
    DuplicateKey,
    /// A timestamp is not representable, or an interval ends before it starts.
    InvalidTimestamp,
}

// ---------------------------------------------------------------------------
// The envelope.
// ---------------------------------------------------------------------------

/// One entry of an inbound message envelope: a raw byte payload, or any other
/// shape, which the decoder rejects.
pub enum EnvelopeEntry {
    Data(Vec<u8>),
    Other,
}

pub enum EnvelopeEntryV {
    Data(Seq<u8>),
    Other,
}

impl View for EnvelopeEntry {
    type V = EnvelopeEntryV;

    open spec fn view(&self) -> EnvelopeEntryV {
        match self {
            EnvelopeEntry::Data(b) => EnvelopeEntryV::Data(b@),
            EnvelopeEntry::Other => EnvelopeEntryV::Other,
        }
    }
}

/// An inbound message envelope: a keyed container, or any other message
/// shape, which the decoder rejects.
pub enum Envelope {
    Dictionary(Vec<(String, EnvelopeEntry)>),
    Other,
}

pub enum EnvelopeV {
    Dictionary(Seq<(Seq<char>, EnvelopeEntryV)>),
    Other,
}

impl View for Envelope {
    type V = EnvelopeV;

    open spec fn view(&self) -> EnvelopeV {
        match self {
            Envelope::Dictionary(entries) => EnvelopeV::Dictionary(
                entries@.map_values(|p: (String, EnvelopeEntry)| (p.0@, p.1@)),
            ),
            Envelope::Other => EnvelopeV::Other,
        }
    }
}

/// The payload bytes of an envelope: the first entry under the key `json`,
/// which must be a raw byte blob.
pub open spec fn spec_find_payload(entries: Seq<(Seq<char>, EnvelopeEntryV)>) -> Result<
    Seq<u8>,
    DecodeError,
>
    decreases entries.len(),
{
    if entries.len() == 0 {
        Err(DecodeError::MissingPayload)
    } else if entries[0].0 == "json"@ {
        match entries[0].1 {
            EnvelopeEntryV::Data(b) => Ok(b),
            EnvelopeEntryV::Other => Err(DecodeError::InvalidPayload),
        }
    } else {
        spec_find_payload(entries.skip(1))
    }
}

pub open spec fn spec_extract_payload(env: EnvelopeV) -> Result<Seq<u8>, DecodeError> {
    match env {
        EnvelopeV::Dictionary(entries) => spec_find_payload(entries),
        EnvelopeV::Other => Err(DecodeError::InvalidEnvelope),
    }
}

/// Locates the single embedded payload in a message envelope.
pub fn extract_payload(env: Envelope) -> (r: Result<Vec<u8>, DecodeError>)
    ensures
        (match r {
            Ok(b) => Ok(b@),
            Err(e) => Err::<Seq<u8>, DecodeError>(e),
        }) == spec_extract_payload(env@),
{
    match env {
        Envelope::Dictionary(mut entries) => {
            let ghost ev = entries@.map_values(|p: (String, EnvelopeEntry)| (p.0@, p.1@));
            proof {
                assert(ev.skip(0) =~= ev);
            }
            let mut i: usize = 0;
            let mut found: bool = false;
            let n = entries.len();
            while i < n && !found
                invariant
                    i <= n,
                    n == entries@.len(),
                    ev == entries@.map_values(|p: (String, EnvelopeEntry)| (p.0@, p.1@)),
                    ev.len() == n,
                    found ==> i < n && ev[i as int].0 == "json"@,
                    spec_find_payload(ev) == spec_find_payload(ev.skip(i as int)),
                decreases n - i, (if found { 0int } else { 1int }),
            {
                proof {
                    assert(ev.skip(i as int)[0] == ev[i as int]);
                    assert(ev.skip(i as int).skip(1) =~= ev.skip(i as int + 1));
                    assert(entries@[i as int].0@ == ev[i as int].0);
                    assert(entries@[i as int].1@ == ev[i as int].1);
                }
                if str_eq_exec(entries[i].0.as_str(), "json") {
                    found = true;
                } else {
                    i = i + 1;
                }
            }
            if found {
                proof {
                    assert(ev.skip(i as int)[0] == ev[i as int]);
                    assert(entries@[i as int].1@ == ev[i as int].1);
                }
                let e = entries.swap_remove(i);
                proof {
                    assert(e.1@ == ev[i as int].1);
                }
                match e.1 {
                    EnvelopeEntry::Data(b) => Ok(b),
                    EnvelopeEntry::Other => Err(DecodeError::InvalidPayload),
                }
            } else {
                proof {
                    assert(ev.skip(n as int).len() == 0);
                }
                Err(DecodeError::MissingPayload)
            }
        },
        Envelope::Other => Err(DecodeError::InvalidEnvelope),
    }
}

// ---------------------------------------------------------------------------
// Decoding the snapshot tree.
// ---------------------------------------------------------------------------

/// The first member of a JSON object under a key, if any; later members under
/// the same key are ignored.
pub open spec fn spec_lookup(members: Seq<(Seq<char>, JsonV)>, key: Seq<char>) -> Option<JsonV>
    decreases members.len(),
{
    if members.len() == 0 {
        None
    } else if members[0].0 == key {
        Some(members[0].1)
    } else {
        spec_lookup(members.skip(1), key)
    }
}

fn lookup_member<'a>(members: &'a Vec<(String, Json)>, key: &str) -> (r: Option<&'a Json>)
    ensures
        (match r {
            Some(j) => Some(j@),
            None => None::<JsonV>,
        }) == spec_lookup(json_view_members(members@), key@),
{
    let ghost mv = json_view_members(members@);
    proof {
        lemma_json_view_members(members@);
        assert(mv.skip(0) =~= mv);
    }
    let n = members.len();
    let mut i: usize = 0;
    while i < n
        invariant
            i <= n,
            n == members@.len(),
            mv == json_view_members(members@),
            mv.len() == n,
            spec_lookup(mv, key@) == spec_lookup(mv.skip(i as int), key@),
            forall|k: int|
                0 <= k < n ==> mv[k] == ((#[trigger] members@[k]).0@, members@[k].1@),
        decreases n - i,
    {
        proof {
            assert(mv.skip(i as int)[0] == mv[i as int]);
            assert(mv.skip(i as int).skip(1) =~= mv.skip(i as int + 1));
        }
        if str_eq_exec(members[i].0.as_str(), key) {
            return Some(&members[i].1);
        }
        i = i + 1;
    }
    proof {
        assert(mv.skip(n as int).len() == 0);
    }
    None
}

/// A timestamp on the wire: an integer number of seconds, or RFC 3339 text.
pub open spec fn spec_decode_timestamp(j: JsonV) -> Result<i64, DecodeError> {
    match j {
        JsonV::Num(t) => {
            let v = sat_i64(num_trunc(t));
            if MIN_TIMESTAMP <= v <= MAX_TIMESTAMP {
                Ok(v)
            } else {
                Err(DecodeError::InvalidTimestamp)
            }
        },
        JsonV::Str(s) => match rfc3339_secs(s) {
            Some(v) => if MIN_TIMESTAMP <= v <= MAX_TIMESTAMP {
                Ok(v)
            } else {
                Err(DecodeError::InvalidTimestamp)
            },
            None => Err(DecodeError::InvalidTimestamp),
        },
        _ => Err(DecodeError::InvalidShape),
    }
}

fn decode_timestamp(j: &Json) -> (r: Result<i64, DecodeError>)
    ensures
        r == spec_decode_timestamp(j@),
        r is Ok ==> MIN_TIMESTAMP <= r.unwrap() <= MAX_TIMESTAMP,
{
    match j {
        Json::Num(t) => {
            let v = num_trunc_exec(t.text.as_str());
            if MIN_TIMESTAMP <= v && v <= MAX_TIMESTAMP {
                Ok(v)
            } else {
                Err(DecodeError::InvalidTimestamp)
            }
        },
        Json::Str(s) => match rfc3339_parse(s.as_str()) {
            Some(v) => {
                if MIN_TIMESTAMP <= v && v <= MAX_TIMESTAMP {
                    Ok(v)
                } else {
                    Err(DecodeError::InvalidTimestamp)
                }
            },
            None => Err(DecodeError::InvalidTimestamp),
        },
        _ => Err(DecodeError::InvalidShape),
    }
}

/// An observation's typed value: exactly a boolean, a number or a string.
pub open spec fn spec_decode_data(j: JsonV) -> Result<MetricValueDataV, DecodeError> {
    match j {
        JsonV::Bool(b) => Ok(MetricValueDataV::Bool(b)),
        JsonV::Num(t) => Ok(MetricValueDataV::Number(t)),
        JsonV::Str(s) => Ok(MetricValueDataV::String(s)),
        _ => Err(DecodeError::InvalidShape),
    }
}

/// One observation: an object with `created`, `data`, `last_updated` and
/// `value` members, whose interval may not end before it starts.
pub open spec fn spec_decode_metric_value(j: JsonV) -> Result<MetricValueV, DecodeError> {
    match j {
        JsonV::Obj(members) => match spec_lookup(members, "created"@) {
            None => Err(DecodeError::InvalidShape),
            Some(cj) => match spec_decode_timestamp(cj) {
                Err(e) => Err(e),
                Ok(created) => match spec_lookup(members, "data"@) {
                    None => Err(DecodeError::InvalidShape),
                    Some(dj) => match spec_decode_data(dj) {
                        Err(e) => Err(e),
                        Ok(data) => match spec_lookup(members, "last_updated"@) {
                            None => Err(DecodeError::InvalidShape),
                            Some(lj) => match spec_decode_timestamp(lj) {
                                Err(e) => Err(e),
                                Ok(last_updated) => match spec_lookup(members, "value"@) {
                                    None => Err(DecodeError::InvalidShape),
                                    Some(vj) => match vj {
                                        JsonV::Str(value) => if created <= last_updated {
                                            Ok(
                                                MetricValueV {
                                                    created: created as int,
                                                    data,
                                                    last_updated: last_updated as int,
                                                    value,
                                                },
                                            )
                                        } else {
                                            Err(DecodeError::InvalidTimestamp)
                                        },
                                        _ => Err(DecodeError::InvalidShape),
                                    },
                                },
                            },
                        },
                    },
                },
            },
        },
        _ => Err(DecodeError::InvalidShape),
    }
}

fn decode_metric_value(j: &Json) -> (r: Result<MetricValue, DecodeError>)
    ensures
        (match r {
            Ok(v) => Ok(v@),
            Err(e) => Err::<MetricValueV, DecodeError>(e),
        }) == spec_decode_metric_value(j@),
        r is Ok ==> r.unwrap()@.wf(),
{
    match j {
        Json::Obj(members) => {
            let cj = match lookup_member(members, "created") {
                Some(x) => x,
                None => {
                    return Err(DecodeError::InvalidShape);
                },
            };
            let created = match decode_timestamp(cj) {
                Ok(v) => v,
                Err(e) => {
                    return Err(e);
                },
            };
            let dj = match lookup_member(members, "data") {
                Some(x) => x,
                None => {
                    return Err(DecodeError::InvalidShape);
                },
            };
            let data = match dj {
                Json::Bool(b) => MetricValueData::Bool(*b),
                Json::Num(t) => MetricValueData::Number(NumberValue { text: t.text.clone() }),
                Json::Str(s) => MetricValueData::String(s.clone()),
                _ => {
                    return Err(DecodeError::InvalidShape);
                },
            };
            let lj = match lookup_member(members, "last_updated") {
                Some(x) => x,
                None => {
                    return Err(DecodeError::InvalidShape);
                },
            };
            let last_updated = match decode_timestamp(lj) {
                Ok(v) => v,
                Err(e) => {
                    return Err(e);
                },
            };
            let vj = match lookup_member(members, "value") {
                Some(x) => x,
                None => {
                    return Err(DecodeError::InvalidShape);
                },
            };
            let value = match vj {
                Json::Str(s) => s.clone(),
                _ => {
                    return Err(DecodeError::InvalidShape);
                },
            };
            if created <= last_updated {
                Ok(MetricValue { created, data, last_updated, value })
            } else {
                Err(DecodeError::InvalidTimestamp)
            }
        },
        _ => Err(DecodeError::InvalidShape),
    }
}

/// Some entry of the association list carries this key.
pub open spec fn contains_key<T>(s: Seq<(Seq<char>, T)>, key: Seq<char>) -> bool {
    exists|i: int| 0 <= i < s.len() && (#[trigger] s[i]).0 == key
}

fn has_key<T>(v: &Vec<(String, T)>, key: &String) -> (r: bool)
    ensures
        r == (exists|i: int| 0 <= i < v@.len() && (#[trigger] v@[i]).0@ == key@),
{
    let n = v.len();
    let mut i: usize = 0;
    while i < n
        invariant
            i <= n,
            n == v@.len(),
            forall|k: int| 0 <= k < i ==> (#[trigger] v@[k]).0@ != key@,
        decreases n - i,
    {
        if str_eq_exec(v[i].0.as_str(), key.as_str()) {
            return true;
        }
        i = i + 1;
    }
    false
}

/// The observations under one field key, decoded in list order.
pub open spec fn spec_decode_entries(elems: Seq<JsonV>, acc: Seq<MetricValueV>) -> Result<
    Seq<MetricValueV>,
    DecodeError,
>
    decreases elems.len(),
{
    if elems.len() == 0 {
        Ok(acc)
    } else {
        match spec_decode_metric_value(elems[0]) {
            Err(e) => Err(e),
            Ok(v) => spec_decode_entries(elems.skip(1), acc.push(v)),
        }
    }
}

fn decode_entries(elems: &Vec<Json>) -> (r: Result<Vec<MetricValue>, DecodeError>)
    ensures
        (match r {
            Ok(vs) => Ok(vs@.map_values(|v: MetricValue| v@)),
            Err(e) => Err::<Seq<MetricValueV>, DecodeError>(e),
        }) == spec_decode_entries(json_view_elems(elems@), Seq::empty()),
        r is Ok ==> forall|k: int| 0 <= k < r.unwrap()@.len() ==> (#[trigger] r.unwrap()@[k])@.wf(),
{
    let ghost ev = json_view_elems(elems@);
    let mut acc: Vec<MetricValue> = Vec::new();
    let n = elems.len();
    let mut i: usize = 0;
    proof {
        lemma_json_view_elems(elems@);
        assert(ev.skip(0) =~= ev);
        assert(acc@.map_values(|v: MetricValue| v@) =~= Seq::<MetricValueV>::empty());
    }
    while i < n
        invariant
            i <= n,
            n == elems@.len(),
            ev == json_view_elems(elems@),
            ev.len() == n,
            forall|k: int| 0 <= k < n ==> ev[k] == (#[trigger] elems@[k])@,
            spec_decode_entries(ev, Seq::empty()) == spec_decode_entries(
                ev.skip(i as int),
                acc@.map_values(|v: MetricValue| v@),
            ),
            forall|k: int| 0 <= k < acc@.len() ==> (#[trigger] acc@[k])@.wf(),
        decreases n - i,
    {
        proof {
            assert(ev.skip(i as int)[0] == ev[i as int]);
            assert(ev.skip(i as int).skip(1) =~= ev.skip(i as int + 1));
        }
        match decode_metric_value(&elems[i]) {
            Err(e) => {
                return Err(e);
            },
            Ok(v) => {
                let ghost before = acc@.map_values(|v: MetricValue| v@);
                let ghost vv = v@;
                acc.push(v);
                proof {
                    assert(acc@.map_values(|v: MetricValue| v@) =~= before.push(vv));
                }
            },
        }
        i = i + 1;
    }
    proof {
        assert(ev.skip(n as int).len() == 0);
    }
    Ok(acc)
}

/// The field map of one metric: every member an array of observations, keys
/// pairwise distinct, in member order.
pub open spec fn spec_decode_fields(
    members: Seq<(Seq<char>, JsonV)>,
    acc: Seq<(Seq<char>, Seq<MetricValueV>)>,
) -> Result<Seq<(Seq<char>, Seq<MetricValueV>)>, DecodeError>
    decreases members.len(),
{
    if members.len() == 0 {
        Ok(acc)
    } else if contains_key(acc, members[0].0) {
        Err(DecodeError::DuplicateKey)
    } else {
        match members[0].1 {
            JsonV::Arr(elems) => match spec_decode_entries(elems, Seq::empty()) {
                Err(e) => Err(e),
                Ok(vs) => spec_decode_fields(members.skip(1), acc.push((members[0].0, vs))),
            },
            _ => Err(DecodeError::InvalidShape),
        }
    }
}

fn decode_fields(members: &Vec<(String, Json)>) -> (r: Result<
    Vec<(String, Vec<MetricValue>)>,
    DecodeError,
>)
    ensures
        (match r {
            Ok(fs) => Ok(
                fs@.map_values(
                    |p: (String, Vec<MetricValue>)|
                        (p.0@, p.1@.map_values(|v: MetricValue| v@)),
                ),
            ),
            Err(e) => Err::<Seq<(Seq<char>, Seq<MetricValueV>)>, DecodeError>(e),
        }) == spec_decode_fields(json_view_members(members@), Seq::empty()),
        r is Ok ==> ({
            let fs = r.unwrap()@.map_values(
                |p: (String, Vec<MetricValue>)| (p.0@, p.1@.map_values(|v: MetricValue| v@)),
            );
            &&& keys_unique(fs)
            &&& forall|a: int, b: int|
                0 <= a < fs.len() && 0 <= b < (#[trigger] fs[a]).1.len() ==> (
                #[trigger] fs[a].1[b]).wf()
        }),
{
    let ghost fview = |p: (String, Vec<MetricValue>)|
        (p.0@, p.1@.map_values(|v: MetricValue| v@));
    let ghost mv = json_view_members(members@);
    let mut acc: Vec<(String, Vec<MetricValue>)> = Vec::new();
    let n = members.len();
    let mut i: usize = 0;
    proof {
        lemma_json_view_members(members@);
        assert(mv.skip(0) =~= mv);
        assert(acc@.map_values(fview) =~= Seq::<(Seq<char>, Seq<MetricValueV>)>::empty());
    }
    while i < n
        invariant
            i <= n,
            n == members@.len(),
            fview == (|p: (String, Vec<MetricValue>)|
                (p.0@, p.1@.map_values(|v: MetricValue| v@))),
            mv == json_view_members(members@),
            mv.len() == n,
            forall|k: int|
                0 <= k < n ==> mv[k] == ((#[trigger] members@[k]).0@, members@[k].1@),
            spec_decode_fields(mv, Seq::empty()) == spec_decode_fields(
                mv.skip(i as int),
                acc@.map_values(fview),
            ),
            keys_unique(acc@.map_values(fview)),
            forall|k: int| 0 <= k < acc@.len() ==> (#[trigger] acc@[k]).0@ == acc@.map_values(
                fview,
            )[k].0,
            forall|a: int, b: int|
                0 <= a < acc@.len() && 0 <= b < (#[trigger] acc@[a]).1@.len() ==> (
                #[trigger] acc@[a].1@[b])@.wf(),
        decreases n - i,
    {
        proof {
            assert(mv.skip(i as int)[0] == mv[i as int]);
            assert(mv.skip(i as int).skip(1) =~= mv.skip(i as int + 1));
        }
        if has_key(&acc, &members[i].0) {
            proof {
                let av = acc@.map_values(fview);
                let k = choose|k: int| 0 <= k < acc@.len() && acc@[k].0@ == members@[i as int].0@;
                assert(av[k].0 == mv[i as int].0);
                assert(contains_key(av, mv[i as int].0));
            }
            return Err(DecodeError::DuplicateKey);
        }
        proof {
            let av = acc@.map_values(fview);
            if contains_key(av, mv[i as int].0) {
                let k = choose|k: int| 0 <= k < av.len() && av[k].0 == mv[i as int].0;
                assert(acc@[k].0@ == members@[i as int].0@);
            }
        }
        match &members[i].1 {
            Json::Arr(elems) => {
                match decode_entries(elems) {
                    Err(e) => {
                        return Err(e);
                    },
                    Ok(vs) => {
                        let ghost before = acc@.map_values(fview);
                        let ghost vs_v = vs@.map_values(|v: MetricValue| v@);
                        acc.push((members[i].0.clone(), vs));
                        proof {
                            assert(acc@.map_values(fview) =~= before.push(
                                (mv[i as int].0, vs_v),
                            ));
                            assert(keys_unique(acc@.map_values(fview))) by {
                                let av = acc@.map_values(fview);
                                assert(forall|a: int|
                                    0 <= a < before.len() ==> av[a] == #[trigger] before[a]);
                            }
                        }
                    },
                }
            },
            _ => {
                return Err(DecodeError::InvalidShape);
            },
        }
        i = i + 1;
    }
    proof {
        assert(mv.skip(n as int).len() == 0);
    }
    Ok(acc)
}

/// One metric: an object with `description`, `fields` and `type` members; the
/// type code must lie in the table.
pub open spec fn spec_decode_metric(j: JsonV) -> Result<MetricV, DecodeError> {
    match j {
        JsonV::Obj(members) => match spec_lookup(members, "description"@) {
            None => Err(DecodeError::InvalidShape),
            Some(dj) => match dj {
                JsonV::Str(description) => match spec_lookup(members, "fields"@) {
                    None => Err(DecodeError::InvalidShape),
                    Some(fj) => match fj {
                        JsonV::Obj(fmembers) => match spec_decode_fields(fmembers, Seq::empty()) {
                            Err(e) => Err(e),
                            Ok(fields) => match spec_lookup(members, "type"@) {
                                None => Err(DecodeError::InvalidShape),
                                Some(tj) => match tj {
                                    JsonV::Num(t) => {
                                        let code = sat_i64(num_trunc(t)) as int;
                                        if valid_type_code(code) {
                                            Ok(MetricV { description, fields, type_code: code })
                                        } else {
                                            Err(DecodeError::InvalidTypeCode)
                                        }
                                    },
                                    _ => Err(DecodeError::InvalidShape),
                                },
                            },
                        },
                        _ => Err(DecodeError::InvalidShape),
                    },
                },
                _ => Err(DecodeError::InvalidShape),
            },
        },
        _ => Err(DecodeError::InvalidShape),
    }
}

fn decode_metric(j: &Json) -> (r: Result<Metric, DecodeError>)
    ensures
        (match r {
            Ok(m) => Ok(m@),
            Err(e) => Err::<MetricV, DecodeError>(e),
        }) == spec_decode_metric(j@),
        r is Ok ==> r.unwrap()@.wf() && valid_type_code(r.unwrap()@.type_code),
{
    match j {
        Json::Obj(members) => {
            let description = match lookup_member(members, "description") {
                Some(Json::Str(s)) => s.clone(),
                Some(_) => {
                    return Err(DecodeError::InvalidShape);
                },
                None => {
                    return Err(DecodeError::InvalidShape);
                },
            };
            let fields = match lookup_member(members, "fields") {
                Some(Json::Obj(fmembers)) => match decode_fields(fmembers) {
                    Ok(fs) => fs,
                    Err(e) => {
                        return Err(e);
                    },
                },
                Some(_) => {
                    return Err(DecodeError::InvalidShape);
                },
                None => {
                    return Err(DecodeError::InvalidShape);
                },
            };
            let code = match lookup_member(members, "type") {
                Some(Json::Num(t)) => num_trunc_exec(t.text.as_str()),
                Some(_) => {
                    return Err(DecodeError::InvalidShape);
                },
                None => {
                    return Err(DecodeError::InvalidShape);
                },
            };
            if 1 <= code && code <= 9 {
                let m = Metric { description, fields, type_code: code as i8 };
                proof {
                    assert(m@.fields == fields@.map_values(
                        |p: (String, Vec<MetricValue>)|
                            (p.0@, p.1@.map_values(|v: MetricValue| v@)),
                    ));
                }
                Ok(m)
            } else {
                Err(DecodeError::InvalidTypeCode)
            }
        },
        _ => Err(DecodeError::InvalidShape),
    }
}

/// The named metrics of a snapshot, names pairwise distinct, in member order.
pub open spec fn spec_decode_metrics(
    members: Seq<(Seq<char>, JsonV)>,
    acc: Seq<(Seq<char>, MetricV)>,
) -> Result<Seq<(Seq<char>, MetricV)>, DecodeError>
    decreases members.len(),
{
    if members.len() == 0 {
        Ok(acc)
    } else if contains_key(acc, members[0].0) {
        Err(DecodeError::DuplicateKey)
    } else {
        match spec_decode_metric(members[0].1) {
            Err(e) => Err(e),
            Ok(m) => spec_decode_metrics(members.skip(1), acc.push((members[0].0, m))),
        }
    }
}

/// The root labels of a snapshot: string values, keys pairwise distinct, in
/// member order.
pub open spec fn spec_decode_labels(
    members: Seq<(Seq<char>, JsonV)>,
    acc: Seq<(Seq<char>, Seq<char>)>,
) -> Result<Seq<(Seq<char>, Seq<char>)>, DecodeError>
    decreases members.len(),
{
    if members.len() == 0 {
        Ok(acc)
    } else if contains_key(acc, members[0].0) {
        Err(DecodeError::DuplicateKey)
    } else {
        match members[0].1 {
            JsonV::Str(s) => spec_decode_labels(members.skip(1), acc.push((members[0].0, s))),
            _ => Err(DecodeError::InvalidShape),
        }
    }
}

/// A whole snapshot: an object holding the metric map and the root labels.
pub open spec fn spec_decode_metric_set(j: JsonV) -> Result<MetricSetV, DecodeError> {
    match j {
        JsonV::Obj(members) => match spec_lookup(members, "metrics"@) {
            None => Err(DecodeError::InvalidShape),
            Some(mj) => match mj {
                JsonV::Obj(mm) => match spec_decode_metrics(mm, Seq::empty()) {
                    Err(e) => Err(e),
                    Ok(metrics) => match spec_lookup(members, "root_labels"@) {
                        None => Err(DecodeError::InvalidShape),
                        Some(rj) => match rj {
                            JsonV::Obj(rm) => match spec_decode_labels(rm, Seq::empty()) {
                                Err(e) => Err(e),
                                Ok(root_labels) => Ok(MetricSetV { metrics, root_labels }),
                            },
                            _ => Err(DecodeError::InvalidShape),
                        },
                    },
                },
                _ => Err(DecodeError::InvalidShape),
            },
        },
        _ => Err(DecodeError::InvalidShape),
    }
}

fn decode_metrics(members: &Vec<(String, Json)>) -> (r: Result<Vec<(String, Metric)>, DecodeError>)
    ensures
        (match r {
            Ok(ms) => Ok(ms@.map_values(|p: (String, Metric)| (p.0@, p.1@))),
            Err(e) => Err::<Seq<(Seq<char>, MetricV)>, DecodeError>(e),
        }) == spec_decode_metrics(json_view_members(members@), Seq::empty()),
        r is Ok ==> ({
            let ms = r.unwrap()@.map_values(|p: (String, Metric)| (p.0@, p.1@));
            &&& keys_unique(ms)
            &&& forall|k: int|
                0 <= k < ms.len() ==> (#[trigger] ms[k]).1.wf() && valid_type_code(ms[k].1.type_code)
        }),
{
    let ghost pview = |p: (String, Metric)| (p.0@, p.1@);
    let ghost mv = json_view_members(members@);
    let mut acc: Vec<(String, Metric)> = Vec::new();
    let n = members.len();
    let mut i: usize = 0;
    proof {
        lemma_json_view_members(members@);
        assert(mv.skip(0) =~= mv);
        assert(acc@.map_values(pview) =~= Seq::<(Seq<char>, MetricV)>::empty());
    }
    while i < n
        invariant
            i <= n,
            n == members@.len(),
            pview == (|p: (String, Metric)| (p.0@, p.1@)),
            mv == json_view_members(members@),
            mv.len() == n,
            forall|k: int|
                0 <= k < n ==> mv[k] == ((#[trigger] members@[k]).0@, members@[k].1@),
            spec_decode_metrics(mv, Seq::empty()) == spec_decode_metrics(
                mv.skip(i as int),
                acc@.map_values(pview),
            ),
            keys_unique(acc@.map_values(pview)),
            forall|k: int| 0 <= k < acc@.len() ==> (#[trigger] acc@[k]).0@ == acc@.map_values(
                pview,
            )[k].0,
            forall|k: int|
                0 <= k < acc@.len() ==> (#[trigger] acc@.map_values(pview)[k]).1.wf()
                    && valid_type_code(acc@.map_values(pview)[k].1.type_code),
        decreases n - i,
    {
        proof {
            assert(mv.skip(i as int)[0] == mv[i as int]);
            assert(mv.skip(i as int).skip(1) =~= mv.skip(i as int + 1));
        }
        if has_key(&acc, &members[i].0) {
            proof {
                let av = acc@.map_values(pview);
                let k = choose|k: int| 0 <= k < acc@.len() && acc@[k].0@ == members@[i as int].0@;
                assert(av[k].0 == mv[i as int].0);
                assert(contains_key(av, mv[i as int].0));
            }
            return Err(DecodeError::DuplicateKey);
        }
        proof {
            let av = acc@.map_values(pview);
            if contains_key(av, mv[i as int].0) {
                let k = choose|k: int| 0 <= k < av.len() && av[k].0 == mv[i as int].0;
                assert(acc@[k].0@ == members@[i as int].0@);
            }
        }
        match decode_metric(&members[i].1) {
            Err(e) => {
                return Err(e);
            },
            Ok(m) => {
                let ghost before = acc@.map_values(pview);
                let ghost m_v = m@;
                acc.push((members[i].0.clone(), m));
                proof {
                    assert(acc@.map_values(pview) =~= before.push((mv[i as int].0, m_v)));
                    assert(keys_unique(acc@.map_values(pview))) by {
                        let av = acc@.map_values(pview);
                        assert(forall|a: int|
                            0 <= a < before.len() ==> av[a] == #[trigger] before[a]);
                    }
                }
            },
        }
        i = i + 1;
    }
    proof {
        assert(mv.skip(n as int).len() == 0);
    }
    Ok(acc)
}

fn decode_labels(members: &Vec<(String, Json)>) -> (r: Result<Vec<(String, String)>, DecodeError>)
    ensures
        (match r {
            Ok(ls) => Ok(ls@.map_values(|p: (String, String)| (p.0@, p.1@))),
            Err(e) => Err::<Seq<(Seq<char>, Seq<char>)>, DecodeError>(e),
        }) == spec_decode_labels(json_view_members(members@), Seq::empty()),
        r is Ok ==> keys_unique(r.unwrap()@.map_values(|p: (String, String)| (p.0@, p.1@))),
{
    let ghost pview = |p: (String, String)| (p.0@, p.1@);
    let ghost mv = json_view_members(members@);
    let mut acc: Vec<(String, String)> = Vec::new();
    let n = members.len();
    let mut i: usize = 0;
    proof {
        lemma_json_view_members(members@);
        assert(mv.skip(0) =~= mv);
        assert(acc@.map_values(pview) =~= Seq::<(Seq<char>, Seq<char>)>::empty());
    }
    while i < n
        invariant
            i <= n,
            n == members@.len(),
            pview == (|p: (String, String)| (p.0@, p.1@)),
            mv == json_view_members(members@),
            mv.len() == n,
            forall|k: int|
                0 <= k < n ==> mv[k] == ((#[trigger] members@[k]).0@, members@[k].1@),
            spec_decode_labels(mv, Seq::empty()) == spec_decode_labels(
                mv.skip(i as int),
                acc@.map_values(pview),
            ),
            keys_unique(acc@.map_values(pview)),
            forall|k: int| 0 <= k < acc@.len() ==> (#[trigger] acc@[k]).0@ == acc@.map_values(
                pview,
            )[k].0,
        decreases n - i,
    {
        proof {
            assert(mv.skip(i as int)[0] == mv[i as int]);
            assert(mv.skip(i as int).skip(1) =~= mv.skip(i as int + 1));
        }
        if has_key(&acc, &members[i].0) {
            proof {
                let av = acc@.map_values(pview);
                let k = choose|k: int| 0 <= k < acc@.len() && acc@[k].0@ == members@[i as int].0@;
                assert(av[k].0 == mv[i as int].0);
                assert(contains_key(av, mv[i as int].0));
            }
            return Err(DecodeError::DuplicateKey);
        }
        proof {
            let av = acc@.map_values(pview);
            if contains_key(av, mv[i as int].0) {
                let k = choose|k: int| 0 <= k < av.len() && av[k].0 == mv[i as int].0;
                assert(acc@[k].0@ == members@[i as int].0@);
            }
        }
        match &members[i].1 {
            Json::Str(s) => {
                let ghost before = acc@.map_values(pview);
                acc.push((members[i].0.clone(), s.clone()));
                proof {
                    assert(acc@.map_values(pview) =~= before.push(
                        (mv[i as int].0, members@[i as int].1@->Str_0),
                    ));
                    assert(keys_unique(acc@.map_values(pview))) by {
                        let av = acc@.map_values(pview);
                        assert(forall|a: int|
                            0 <= a < before.len() ==> av[a] == #[trigger] before[a]);
                    }
                }
            },
            _ => {
                return Err(DecodeError::InvalidShape);
            },
        }
        i = i + 1;
    }
    proof {
        assert(mv.skip(n as int).len() == 0);
    }
    Ok(acc)
}

/// Decodes one snapshot from its JSON tree.  The result is exactly what the
/// schema prescribes, and a decoded snapshot is well formed: metric names,
/// field keys and label keys are pairwise distinct, every type code lies in
/// the table, and every observation's interval is ordered and representable.
pub fn decode_metric_set(j: &Json) -> (r: Result<MetricSet, DecodeError>)
    ensures
        (match r {
            Ok(ms) => Ok(ms@),
            Err(e) => Err::<MetricSetV, DecodeError>(e),
        }) == spec_decode_metric_set(j@),
        r is Ok ==> r.unwrap()@.wf(),
        r is Ok ==> forall|k: int|
            0 <= k < r.unwrap()@.metrics.len() ==> valid_type_code(
                (#[trigger] r.unwrap()@.metrics[k]).1.type_code,
            ),
{
    match j {
        Json::Obj(members) => {
            let metrics = match lookup_member(members, "metrics") {
                Some(Json::Obj(mm)) => match decode_metrics(mm) {
                    Ok(ms) => ms,
                    Err(e) => {
                        return Err(e);
                    },
                },
                Some(_) => {
                    return Err(DecodeError::InvalidShape);
                },
                None => {
                    return Err(DecodeError::InvalidShape);
                },
            };
            let root_labels = match lookup_member(members, "root_labels") {
                Some(Json::Obj(rm)) => match decode_labels(rm) {
                    Ok(ls) => ls,
                    Err(e) => {
                        return Err(e);
                    },
                },
                Some(_) => {
                    return Err(DecodeError::InvalidShape);
                },
                None => {
                    return Err(DecodeError::InvalidShape);
                },
            };
            Ok(MetricSet { metrics, root_labels })
        },
        _ => Err(DecodeError::InvalidShape),
    }
}

// ---------------------------------------------------------------------------
// Round trip: re-decoding the Raw rendering of a snapshot gives it back.
// ---------------------------------------------------------------------------

/// Every type code of the snapshot lies in the table.
pub open spec fn codes_in_table(ms: MetricSetV) -> bool {
    forall|i: int|
        0 <= i < ms.metrics.len() ==> crate::valid_type_code(
            (#[trigger] ms.metrics[i]).1.type_code,
        )
}

proof fn lemma_rt_timestamp(t: int)
    requires
        MIN_TIMESTAMP <= t <= MAX_TIMESTAMP,
    ensures
        spec_decode_timestamp(JsonV::Num(crate::text::dec_of(t))) == Ok::<i64, DecodeError>(
            t as i64,
        ),
{
    crate::text::lemma_num_trunc_of_dec(t);
}

proof fn lemma_rt_metric_value(v: MetricValueV)
    requires
        v.wf(),
    ensures
        spec_decode_metric_value(crate::wire::metric_value_jsonv(v)) == Ok::<
            MetricValueV,
            DecodeError,
        >(v),
{
    reveal_with_fuel(spec_lookup, 5);
    reveal_strlit("created");
    reveal_strlit("data");
    reveal_strlit("last_updated");
    reveal_strlit("value");
    let members = seq![
        ("created"@, JsonV::Num(crate::text::dec_of(v.created))),
        ("data"@, crate::wire::data_jsonv(v.data)),
        ("last_updated"@, JsonV::Num(crate::text::dec_of(v.last_updated))),
        ("value"@, JsonV::Str(v.value)),
    ];
    assert(spec_lookup(members, "created"@) == Some(members[0].1));
    assert(members.skip(1)[0] == members[1]);
    assert(members.skip(1).skip(1) =~= members.skip(2));
    assert(members.skip(2)[0] == members[2]);
    assert(members.skip(2).skip(1) =~= members.skip(3));
    assert(members.skip(3)[0] == members[3]);
    assert("created"@.len() == 7);
    assert("data"@.len() == 4);
    assert("last_updated"@.len() == 12);
    assert("value"@.len() == 5);
    assert("created"@ != "data"@);
    assert("created"@ != "last_updated"@);
    assert("created"@ != "value"@);
    assert("data"@ != "last_updated"@);
    assert("data"@ != "value"@);
    assert("last_updated"@ != "value"@);
    assert(spec_lookup(members, "data"@) == Some(members[1].1));
    assert(spec_lookup(members, "last_updated"@) == Some(members[2].1));
    assert(spec_lookup(members, "value"@) == Some(members[3].1));
    lemma_rt_timestamp(v.created);
    lemma_rt_timestamp(v.last_updated);
    assert(spec_decode_data(crate::wire::data_jsonv(v.data)) == Ok::<
        MetricValueDataV,
        DecodeError,
    >(v.data));
    assert(spec_decode_metric_value(crate::wire::metric_value_jsonv(v)) == Ok::<
        MetricValueV,
        DecodeError,
    >(
        MetricValueV {
            created: (v.created as i64) as int,
            data: v.data,
            last_updated: (v.last_updated as i64) as int,
            value: v.value,
        },
    ));
    assert(MetricValueV {
        created: (v.created as i64) as int,
        data: v.data,
        last_updated: (v.last_updated as i64) as int,
        value: v.value,
    } == v);
}

proof fn lemma_rt_entries(entries: Seq<MetricValueV>, acc: Seq<MetricValueV>)
    requires
        forall|k: int| 0 <= k < entries.len() ==> (#[trigger] entries[k]).wf(),
    ensures
        spec_decode_entries(
            entries.map_values(|v: MetricValueV| crate::wire::metric_value_jsonv(v)),
            acc,
        ) == Ok::<Seq<MetricValueV>, DecodeError>(acc + entries),
    decreases entries.len(),
{
    let mapped = entries.map_values(|v: MetricValueV| crate::wire::metric_value_jsonv(v));
    if entries.len() == 0 {
        assert(acc + entries =~= acc);
    } else {
        lemma_rt_metric_value(entries[0]);
        assert(mapped[0] == crate::wire::metric_value_jsonv(entries[0]));
        assert(mapped.skip(1) =~= entries.skip(1).map_values(
            |v: MetricValueV| crate::wire::metric_value_jsonv(v),
        ));
        assert(forall|k: int|
            0 <= k < entries.skip(1).len() ==> (#[trigger] entries.skip(1)[k]) == entries[k + 1]);
        lemma_rt_entries(entries.skip(1), acc.push(entries[0]));
        assert(acc.push(entries[0]) + entries.skip(1) =~= acc + entries);
    }
}

proof fn lemma_rt_fields(
    fields: Seq<(Seq<char>, Seq<MetricValueV>)>,
    acc: Seq<(Seq<char>, Seq<MetricValueV>)>,
)
    requires
        keys_unique(acc + fields),
        forall|a: int, b: int|
            0 <= a < fields.len() && 0 <= b < (#[trigger] fields[a]).1.len() ==> (
            #[trigger] fields[a].1[b]).wf(),
    ensures
        spec_decode_fields(
            fields.map_values(
                (|p: (Seq<char>, Seq<MetricValueV>)|
                    (
                        p.0,
                        JsonV::Arr(
                            p.1.map_values(|v: MetricValueV| crate::wire::metric_value_jsonv(v)),
                        ),
                    )),
            ),
            acc,
        ) == Ok::<Seq<(Seq<char>, Seq<MetricValueV>)>, DecodeError>(acc + fields),
    decreases fields.len(),
{
    let f = |p: (Seq<char>, Seq<MetricValueV>)|
        (
            p.0,
            JsonV::Arr(p.1.map_values(|v: MetricValueV| crate::wire::metric_value_jsonv(v))),
        );
    let mapped = fields.map_values(f);
    if fields.len() == 0 {
        assert(acc + fields =~= acc);
    } else {
        let whole = acc + fields;
        assert(!contains_key(acc, fields[0].0)) by {
            if contains_key(acc, fields[0].0) {
                let k = choose|k: int| 0 <= k < acc.len() && acc[k].0 == fields[0].0;
                assert(whole[k].0 == whole[acc.len() as int].0);
                assert(false);
            }
        }
        assert(mapped[0] == f(fields[0]));
        assert(forall|k: int| 0 <= k < fields[0].1.len() ==> (#[trigger] fields[0].1[k]).wf());
        lemma_rt_entries(fields[0].1, Seq::empty());
        assert(Seq::<MetricValueV>::empty() + fields[0].1 =~= fields[0].1);
        assert(mapped.skip(1) =~= fields.skip(1).map_values(f));
        assert(acc.push(fields[0]) + fields.skip(1) =~= acc + fields);
        assert(forall|a: int|
            0 <= a < fields.skip(1).len() ==> #[trigger] fields.skip(1)[a] == fields[a + 1]);
        lemma_rt_fields(fields.skip(1), acc.push(fields[0]));
    }
}

proof fn lemma_rt_metric(m: MetricV)
    requires
        m.wf(),
        crate::valid_type_code(m.type_code),
    ensures
        spec_decode_metric(crate::wire::metric_jsonv(m)) == Ok::<MetricV, DecodeError>(m),
{
    reveal_with_fuel(spec_lookup, 4);
    reveal_strlit("description");
    reveal_strlit("fields");
    reveal_strlit("type");
    let members = seq![
        ("description"@, JsonV::Str(m.description)),
        (
            "fields"@,
            JsonV::Obj(
                m.fields.map_values(
                    |p: (Seq<char>, Seq<MetricValueV>)|
                        (
                            p.0,
                            JsonV::Arr(
                                p.1.map_values(
                                    |v: MetricValueV| crate::wire::metric_value_jsonv(v),
                                ),
                            ),
                        ),
                ),
            ),
        ),
        ("type"@, JsonV::Num(crate::text::dec_of(m.type_code))),
    ];
    assert(spec_lookup(members, "description"@) == Some(members[0].1));
    assert(members.skip(1)[0] == members[1]);
    assert(members.skip(1).skip(1) =~= members.skip(2));
    assert(members.skip(2)[0] == members[2]);
    assert("description"@.len() == 11);
    assert("fields"@.len() == 6);
    assert("type"@.len() == 4);
    assert("description"@ != "fields"@);
    assert("description"@ != "type"@);
    assert("fields"@ != "type"@);
    assert(spec_lookup(members, "fields"@) == Some(members[1].1));
    assert(spec_lookup(members, "type"@) == Some(members[2].1));
    assert(Seq::<(Seq<char>, Seq<MetricValueV>)>::empty() + m.fields =~= m.fields);
    assert(keys_unique(Seq::<(Seq<char>, Seq<MetricValueV>)>::empty() + m.fields)) by {
        assert(forall|k: int|
            0 <= k < m.fields.len() ==> (Seq::<(Seq<char>, Seq<MetricValueV>)>::empty()
                + m.fields)[k] == #[trigger] m.fields[k]);
    }
    lemma_rt_fields(m.fields, Seq::empty());
    crate::text::lemma_num_trunc_of_dec(m.type_code);
    assert(sat_i64(num_trunc(crate::text::dec_of(m.type_code))) as int == m.type_code);
    assert(MetricV { description: m.description, fields: m.fields, type_code: m.type_code } == m);
}

proof fn lemma_rt_metrics(metrics: Seq<(Seq<char>, MetricV)>, acc: Seq<(Seq<char>, MetricV)>)
    requires
        keys_unique(acc + metrics),
        forall|k: int|
            0 <= k < metrics.len() ==> (#[trigger] metrics[k]).1.wf() && crate::valid_type_code(
                metrics[k].1.type_code,
            ),
    ensures
        spec_decode_metrics(
            metrics.map_values(
                (|p: (Seq<char>, MetricV)| (p.0, crate::wire::metric_jsonv(p.1))),
            ),
            acc,
        ) == Ok::<Seq<(Seq<char>, MetricV)>, DecodeError>(acc + metrics),
    decreases metrics.len(),
{
    let f = |p: (Seq<char>, MetricV)| (p.0, crate::wire::metric_jsonv(p.1));
    let mapped = metrics.map_values(f);
    if metrics.len() == 0 {
        assert(acc + metrics =~= acc);
    } else {
        let whole = acc + metrics;
        assert(!contains_key(acc, metrics[0].0)) by {
            if contains_key(acc, metrics[0].0) {
                let k = choose|k: int| 0 <= k < acc.len() && acc[k].0 == metrics[0].0;
                assert(whole[k].0 == whole[acc.len() as int].0);
                assert(false);
            }
        }
        assert(mapped[0] == f(metrics[0]));
        lemma_rt_metric(metrics[0].1);
        assert(mapped.skip(1) =~= metrics.skip(1).map_values(f));
        assert(acc.push(metrics[0]) + metrics.skip(1) =~= acc + metrics);
        assert(forall|k: int|
            0 <= k < metrics.skip(1).len() ==> #[trigger] metrics.skip(1)[k] == metrics[k + 1]);
        lemma_rt_metrics(metrics.skip(1), acc.push(metrics[0]));
    }
}

proof fn lemma_rt_labels(labels: Seq<(Seq<char>, Seq<char>)>, acc: Seq<(Seq<char>, Seq<char>)>)
    requires
        keys_unique(acc + labels),
    ensures
        spec_decode_labels(
            labels.map_values((|p: (Seq<char>, Seq<char>)| (p.0, JsonV::Str(p.1)))),
            acc,
        ) == Ok::<Seq<(Seq<char>, Seq<char>)>, DecodeError>(acc + labels),
    decreases labels.len(),
{
    let f = |p: (Seq<char>, Seq<char>)| (p.0, JsonV::Str(p.1));
    let mapped = labels.map_values(f);
    if labels.len() == 0 {
        assert(acc + labels =~= acc);
    } else {
        let whole = acc + labels;
        assert(!contains_key(acc, labels[0].0)) by {
            if contains_key(acc, labels[0].0) {
                let k = choose|k: int| 0 <= k < acc.len() && acc[k].0 == labels[0].0;
                assert(whole[k].0 == whole[acc.len() as int].0);
                assert(false);
            }
        }
        assert(mapped[0] == f(labels[0]));
        assert(mapped.skip(1) =~= labels.skip(1).map_values(f));
        assert(acc.push(labels[0]) + labels.skip(1) =~= acc + labels);
        lemma_rt_labels(labels.skip(1), acc.push(labels[0]));
    }
}

/// Round trip: re-decoding the Raw rendering of a well-formed snapshot whose
/// type codes lie in the table reproduces the snapshot exactly — every metric
/// name, type code, field, observation and root label.
pub proof fn lemma_raw_round_trip(ms: MetricSetV)
    requires
        ms.wf(),
        codes_in_table(ms),
    ensures
        spec_decode_metric_set(crate::wire::raw_jsonv(ms)) == Ok::<MetricSetV, DecodeError>(ms),
{
    reveal_with_fuel(spec_lookup, 3);
    reveal_strlit("metrics");
    reveal_strlit("root_labels");
    let members = seq![
        (
            "metrics"@,
            JsonV::Obj(
                ms.metrics.map_values(
                    |p: (Seq<char>, MetricV)| (p.0, crate::wire::metric_jsonv(p.1)),
                ),
            ),
        ),
        (
            "root_labels"@,
            JsonV::Obj(
                ms.root_labels.map_values(
                    |p: (Seq<char>, Seq<char>)| (p.0, JsonV::Str(p.1)),
                ),
            ),
        ),
    ];
    assert(spec_lookup(members, "metrics"@) == Some(members[0].1));
    assert(members.skip(1)[0] == members[1]);
    assert("metrics"@.len() == 7);
    assert("root_labels"@.len() == 11);
    assert("metrics"@ != "root_labels"@);
    assert(spec_lookup(members, "root_labels"@) == Some(members[1].1));
    assert(Seq::<(Seq<char>, MetricV)>::empty() + ms.metrics =~= ms.metrics);
    assert(keys_unique(Seq::<(Seq<char>, MetricV)>::empty() + ms.metrics)) by {
        assert(forall|k: int|
            0 <= k < ms.metrics.len() ==> (Seq::<(Seq<char>, MetricV)>::empty() + ms.metrics)[k]
                == #[trigger] ms.metrics[k]);
    }
    lemma_rt_metrics(ms.metrics, Seq::empty());
    assert(Seq::<(Seq<char>, Seq<char>)>::empty() + ms.root_labels =~= ms.root_labels);
    assert(keys_unique(Seq::<(Seq<char>, Seq<char>)>::empty() + ms.root_labels)) by {
        assert(forall|k: int|
            0 <= k < ms.root_labels.len() ==> (Seq::<(Seq<char>, Seq<char>)>::empty()
                + ms.root_labels)[k] == #[trigger] ms.root_labels[k]);
    }
    lemma_rt_labels(ms.root_labels, Seq::empty());
    assert(MetricSetV { metrics: ms.metrics, root_labels: ms.root_labels } == ms);
}

} // verus!
