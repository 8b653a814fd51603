//! Rendering the two wire formats as JSON trees.
//!
//! The Raw format is the identity re-serialization of a snapshot; the Monarch
//! format renders a converted `CollectionWrapper` with its interoperable
//! field names.  Both renderings are pinned member by member, and the payload
//! text follows from `json_text`.

use vstd::prelude::*;

use crate::json::{Json, JsonV, json_view_members, json_view_elems, lemma_json_view_members,
    lemma_json_view_elems, json_to_string, json_text};
use crate::model::{MetricSet, MetricSetV, Metric, MetricV, MetricValue, MetricValueV,
    MetricValueData, MetricValueDataV, NumberValue};
use crate::monarch::{CollectionWrapper, CollectionWrapperV, MetricsCollectionV, MetricsDataV,
    MetricDataV, FieldDescriptorV, FieldValueV, RootLabelV, Value, ValueV};
use crate::text::{dec_of, i64_to_dec};
use crate::time::{rfc3339_of, rfc3339_format};

verus! {

fn push_member(members: &mut Vec<(String, Json)>, key: &str, val: Json)
    ensures
        final(members)@.len() == old(members)@.len() + 1,
        forall|k: int| 0 <= k < old(members)@.len() ==> final(members)@[k] == old(members)@[k],
        final(members)@[old(members)@.len() as int].0@ == key@,
        final(members)@[old(members)@.len() as int].1 == val,
{
    members.push((String::from_str(key), val));
}

// ---------------------------------------------------------------------------
// The Raw format: the snapshot re-serialized as it is.
// ---------------------------------------------------------------------------

/// An observation's typed value on the wire: a bare boolean, number or string.
pub open spec fn data_jsonv(d: MetricValueDataV) -> JsonV {
    match d {
        MetricValueDataV::Bool(b) => JsonV::Bool(b),
        MetricValueDataV::Number(t) => JsonV::Num(t),
        MetricValueDataV::String(s) => JsonV::Str(s),
    }
}

/// One observation on the wire; timestamps are integer seconds.
pub open spec fn metric_value_jsonv(v: MetricValueV) -> JsonV {
    JsonV::Obj(
        seq![
            ("created"@, JsonV::Num(dec_of(v.created))),
            ("data"@, data_jsonv(v.data)),
            ("last_updated"@, JsonV::Num(dec_of(v.last_updated))),
            ("value"@, JsonV::Str(v.value)),
        ],
    )
}

/// One metric on the wire.
pub open spec fn metric_jsonv(m: MetricV) -> JsonV {
    JsonV::Obj(
        seq![
            ("description"@, JsonV::Str(m.description)),
            (
                "fields"@,
                JsonV::Obj(
                    m.fields.map_values(
                        |p: (Seq<char>, Seq<MetricValueV>)|
                            (
                                p.0,
                                JsonV::Arr(p.1.map_values(|v: MetricValueV| metric_value_jsonv(v))),
                            ),
                    ),
                ),
            ),
            ("type"@, JsonV::Num(dec_of(m.type_code))),
        ],
    )
}

/// One snapshot on the wire.
pub open spec fn raw_jsonv(ms: MetricSetV) -> JsonV {
    JsonV::Obj(
        seq![
            (
                "metrics"@,
                JsonV::Obj(
                    ms.metrics.map_values(
                        |p: (Seq<char>, MetricV)| (p.0, metric_jsonv(p.1)),
                    ),
                ),
            ),
            (
                "root_labels"@,
                JsonV::Obj(
                    ms.root_labels.map_values(
                        |p: (Seq<char>, Seq<char>)| (p.0, JsonV::Str(p.1)),
                    ),
                ),
            ),
        ],
    )
}

fn metric_value_to_json(v: &MetricValue) -> (j: Json)
    ensures
        j@ == metric_value_jsonv(v@),
{
    let mut members: Vec<(String, Json)> = Vec::new();
    push_member(&mut members, "created", Json::Num(NumberValue { text: i64_to_dec(v.created) }));
    let data = match &v.data {
        MetricValueData::Bool(b) => Json::Bool(*b),
        MetricValueData::Number(n) => Json::Num(NumberValue { text: n.text.clone() }),
        MetricValueData::String(s) => Json::Str(s.clone()),
    };
    proof {
        assert(data@ == data_jsonv(v@.data));
    }
    push_member(&mut members, "data", data);
    push_member(
        &mut members,
        "last_updated",
        Json::Num(NumberValue { text: i64_to_dec(v.last_updated) }),
    );
    push_member(&mut members, "value", Json::Str(v.value.clone()));
    let j = Json::Obj(members);
    proof {
        lemma_json_view_members(members@);
        assert(json_view_members(members@) =~= seq![
            ("created"@, JsonV::Num(dec_of(v@.created))),
            ("data"@, data_jsonv(v@.data)),
            ("last_updated"@, JsonV::Num(dec_of(v@.last_updated))),
            ("value"@, JsonV::Str(v@.value)),
        ]);
    }
    j
}

fn metric_to_json(m: &Metric) -> (j: Json)
    ensures
        j@ == metric_jsonv(m@),
{
    let ghost fv = m@.fields;
    let mut fmembers: Vec<(String, Json)> = Vec::new();
    let nf = m.fields.len();
    let mut fi: usize = 0;
    proof {
        assert(fv.len() == nf);
    }
    while fi < nf
        invariant
            fi <= nf,
            nf == m.fields@.len(),
            fv == m@.fields,
            fv.len() == nf,
            fmembers@.len() == fi,
            forall|k: int|
                0 <= k < fi ==> (#[trigger] fmembers@[k]).0@ == fv[k].0 && fmembers@[k].1@
                    == JsonV::Arr(fv[k].1.map_values(|v: MetricValueV| metric_value_jsonv(v))),
        decreases nf - fi,
    {
        let ghost entries_v = fv[fi as int].1;
        proof {
            assert(m.fields@[fi as int].0@ == fv[fi as int].0);
            assert(m.fields@[fi as int].1@.map_values(|v: MetricValue| v@) == entries_v);
        }
        let ne = m.fields[fi].1.len();
        let mut arr: Vec<Json> = Vec::new();
        let mut ei: usize = 0;
        while ei < ne
            invariant
                ei <= ne,
                fi < nf,
                nf == m.fields@.len(),
                fv == m@.fields,
                entries_v == fv[fi as int].1,
                ne == entries_v.len(),
                ne == m.fields@[fi as int].1@.len(),
                arr@.len() == ei,
                forall|k: int|
                    0 <= k < ei ==> (#[trigger] arr@[k])@ == metric_value_jsonv(entries_v[k]),
            decreases ne - ei,
        {
            proof {
                assert(m.fields@[fi as int].1@[ei as int]@ == entries_v[ei as int]);
            }
            let jv = metric_value_to_json(&m.fields[fi].1[ei]);
            arr.push(jv);
            ei = ei + 1;
        }
        let ghost arr_seq = arr@;
        fmembers.push((m.fields[fi].0.clone(), Json::Arr(arr)));
        proof {
            lemma_json_view_elems(arr_seq);
            assert forall|k: int| 0 <= k < arr_seq.len() implies json_view_elems(arr_seq)[k]
                == entries_v.map_values(|v: MetricValueV| metric_value_jsonv(v))[k] by {
                assert(arr_seq[k]@ == metric_value_jsonv(entries_v[k]));
                assert(json_view_elems(arr_seq)[k] == arr_seq[k]@);
            }
            assert(json_view_elems(arr_seq) =~= entries_v.map_values(
                |v: MetricValueV| metric_value_jsonv(v),
            ));
            assert(fmembers@[fi as int].1@ == JsonV::Arr(
                entries_v.map_values(|v: MetricValueV| metric_value_jsonv(v)),
            ));
        }
        fi = fi + 1;
    }
    let ghost fmembers_v = fmembers@;
    let mut members: Vec<(String, Json)> = Vec::new();
    push_member(&mut members, "description", Json::Str(m.description.clone()));
    push_member(&mut members, "fields", Json::Obj(fmembers));
    push_member(&mut members, "type", Json::Num(NumberValue { text: i64_to_dec(m.type_code as i64) }));
    let j = Json::Obj(members);
    proof {
        lemma_json_view_members(members@);
        lemma_json_view_members(fmembers_v);
        assert forall|k: int| 0 <= k < fmembers_v.len() implies json_view_members(fmembers_v)[k]
            == fv.map_values(
            |p: (Seq<char>, Seq<MetricValueV>)|
                (p.0, JsonV::Arr(p.1.map_values(|v: MetricValueV| metric_value_jsonv(v)))),
        )[k] by {
            assert((fmembers_v[k]).0@ == fv[k].0);
            assert((fmembers_v[k]).1@ == JsonV::Arr(
                fv[k].1.map_values(|v: MetricValueV| metric_value_jsonv(v)),
            ));
        }
        assert(json_view_members(fmembers_v) =~= fv.map_values(
            |p: (Seq<char>, Seq<MetricValueV>)|
                (p.0, JsonV::Arr(p.1.map_values(|v: MetricValueV| metric_value_jsonv(v)))),
        ));
        assert(json_view_members(members@) =~= seq![
            ("description"@, JsonV::Str(m@.description)),
            (
                "fields"@,
                JsonV::Obj(
                    fv.map_values(
                        |p: (Seq<char>, Seq<MetricValueV>)|
                            (
                                p.0,
                                JsonV::Arr(p.1.map_values(|v: MetricValueV| metric_value_jsonv(v))),
                            ),
                    ),
                ),
            ),
            ("type"@, JsonV::Num(dec_of(m@.type_code))),
        ]);
    }
    j
}

/// The Raw wire rendering of one snapshot as a JSON tree.
pub fn metric_set_to_json(ms: &MetricSet) -> (j: Json)
    ensures
        j@ == raw_jsonv(ms@),
{
    let ghost mv = ms@.metrics;
    let mut mmembers: Vec<(String, Json)> = Vec::new();
    let nm = ms.metrics.len();
    let mut mi: usize = 0;
    proof {
        assert(mv.len() == nm);
    }
    while mi < nm
        invariant
            mi <= nm,
            nm == ms.metrics@.len(),
            mv == ms@.metrics,
            mv.len() == nm,
            mmembers@.len() == mi,
            forall|k: int|
                0 <= k < mi ==> (#[trigger] mmembers@[k]).0@ == mv[k].0 && mmembers@[k].1@
                    == metric_jsonv(mv[k].1),
        decreases nm - mi,
    {
        proof {
            assert(ms.metrics@[mi as int].0@ == mv[mi as int].0);
            assert(ms.metrics@[mi as int].1@ == mv[mi as int].1);
        }
        let jm = metric_to_json(&ms.metrics[mi].1);
        mmembers.push((ms.metrics[mi].0.clone(), jm));
        mi = mi + 1;
    }
    let ghost rv = ms@.root_labels;
    let mut rmembers: Vec<(String, Json)> = Vec::new();
    let nr = ms.root_labels.len();
    let mut ri: usize = 0;
    proof {
        assert(rv.len() == nr);
    }
    while ri < nr
        invariant
            ri <= nr,
            nr == ms.root_labels@.len(),
            rv == ms@.root_labels,
            rv.len() == nr,
            rmembers@.len() == ri,
            forall|k: int|
                0 <= k < ri ==> (#[trigger] rmembers@[k]).0@ == rv[k].0 && rmembers@[k].1@
                    == JsonV::Str(rv[k].1),
        decreases nr - ri,
    {
        proof {
            assert(ms.root_labels@[ri as int].0@ == rv[ri as int].0);
            assert(ms.root_labels@[ri as int].1@ == rv[ri as int].1);
        }
        rmembers.push((ms.root_labels[ri].0.clone(), Json::Str(ms.root_labels[ri].1.clone())));
        ri = ri + 1;
    }
    let ghost mmembers_v = mmembers@;
    let ghost rmembers_v = rmembers@;
    let mut top: Vec<(String, Json)> = Vec::new();
    push_member(&mut top, "metrics", Json::Obj(mmembers));
    push_member(&mut top, "root_labels", Json::Obj(rmembers));
    let j = Json::Obj(top);
    proof {
        lemma_json_view_members(top@);
        lemma_json_view_members(mmembers_v);
        lemma_json_view_members(rmembers_v);
        assert forall|k: int| 0 <= k < mmembers_v.len() implies json_view_members(mmembers_v)[k]
            == mv.map_values(|p: (Seq<char>, MetricV)| (p.0, metric_jsonv(p.1)))[k] by {
            assert((mmembers_v[k]).0@ == mv[k].0);
            assert((mmembers_v[k]).1@ == metric_jsonv(mv[k].1));
        }
        assert(json_view_members(mmembers_v) =~= mv.map_values(
            |p: (Seq<char>, MetricV)| (p.0, metric_jsonv(p.1)),
        ));
        assert forall|k: int| 0 <= k < rmembers_v.len() implies json_view_members(rmembers_v)[k]
            == rv.map_values(|p: (Seq<char>, Seq<char>)| (p.0, JsonV::Str(p.1)))[k] by {
            assert((rmembers_v[k]).0@ == rv[k].0);
            assert((rmembers_v[k]).1@ == JsonV::Str(rv[k].1));
        }
        assert(json_view_members(rmembers_v) =~= rv.map_values(
            |p: (Seq<char>, Seq<char>)| (p.0, JsonV::Str(p.1)),
        ));
        assert(json_view_members(top@) =~= seq![
            (
                "metrics"@,
                JsonV::Obj(mv.map_values(|p: (Seq<char>, MetricV)| (p.0, metric_jsonv(p.1)))),
            ),
            (
                "root_labels"@,
                JsonV::Obj(rv.map_values(|p: (Seq<char>, Seq<char>)| (p.0, JsonV::Str(p.1)))),
            ),
        ]);
    }
    j
}

/// The Raw wire payload of one snapshot.
pub fn raw_payload(ms: &MetricSet) -> (r: String)
    ensures
        r@ == json_text(raw_jsonv(ms@)),
{
    let j = metric_set_to_json(ms);
    json_to_string(&j)
}

// ---------------------------------------------------------------------------
// The Monarch format, with its interoperable field names.
// ---------------------------------------------------------------------------

/// The member carrying a typed value: its name declares the type.
pub open spec fn value_member_v(v: ValueV) -> (Seq<char>, JsonV) {
    match v {
        ValueV::Bool(b) => ("boolValue"@, JsonV::Bool(b)),
        ValueV::I64(n) => ("int64Value"@, JsonV::Num(dec_of(n))),
        ValueV::Double(t) => ("doubleValue"@, JsonV::Num(t)),
        ValueV::String(s) => ("stringValue"@, JsonV::Str(s)),
    }
}

pub open spec fn field_value_jsonv(f: FieldValueV) -> JsonV {
    JsonV::Obj(seq![("name"@, JsonV::Str(f.name)), value_member_v(f.value)])
}

pub open spec fn field_descriptor_jsonv(f: FieldDescriptorV) -> JsonV {
    JsonV::Obj(seq![("name"@, JsonV::Str(f.name)), ("fieldType"@, JsonV::Str(f.field_type))])
}

/// One data point on the wire; its interval bounds render as RFC 3339 text,
/// and an absent field list is omitted.
pub open spec fn metric_data_jsonv(md: MetricDataV) -> JsonV {
    JsonV::Obj(
        seq![
            ("startTimestamp"@, JsonV::Str(rfc3339_of(md.start_timestamp))),
            ("endTimestamp"@, JsonV::Str(rfc3339_of(md.end_timestamp))),
        ] + (match md.field {
            Some(fvs) => seq![
                ("field"@, JsonV::Arr(fvs.map_values(|f: FieldValueV| field_value_jsonv(f)))),
            ],
            None => Seq::empty(),
        }) + seq![value_member_v(md.value)],
    )
}

/// One converted metric on the wire; empty optional parts are omitted.
pub open spec fn metrics_data_jsonv(d: MetricsDataV) -> JsonV {
    JsonV::Obj(
        seq![
            ("metricName"@, JsonV::Str(d.metric_name)),
            ("description"@, JsonV::Str(d.description)),
        ] + (match d.field_descriptor {
            Some(fds) => seq![
                (
                    "fieldDescriptor"@,
                    JsonV::Arr(fds.map_values(|f: FieldDescriptorV| field_descriptor_jsonv(f))),
                ),
            ],
            None => Seq::empty(),
        }) + seq![("valueType"@, JsonV::Str(d.value_type))] + (if d.stream_kind.len() == 0 {
            Seq::empty()
        } else {
            seq![("streamKind"@, JsonV::Str(d.stream_kind))]
        }) + seq![
            ("data"@, JsonV::Arr(d.data.map_values(|md: MetricDataV| metric_data_jsonv(md)))),
        ],
    )
}

pub open spec fn root_label_jsonv(l: RootLabelV) -> JsonV {
    JsonV::Obj(seq![("key"@, JsonV::Str(l.key)), value_member_v(l.value)])
}

pub open spec fn collection_jsonv(c: MetricsCollectionV) -> JsonV {
    JsonV::Obj(
        seq![
            (
                "metricsDataSet"@,
                JsonV::Arr(c.dataset.map_values(|d: MetricsDataV| metrics_data_jsonv(d))),
            ),
            (
                "rootLabels"@,
                JsonV::Arr(c.root_labels.map_values(|l: RootLabelV| root_label_jsonv(l))),
            ),
        ],
    )
}

/// The whole Monarch document.
pub open spec fn monarch_jsonv(w: CollectionWrapperV) -> JsonV {
    JsonV::Obj(
        seq![
            (
                "metricsCollection"@,
                JsonV::Arr(w.collection.map_values(|c: MetricsCollectionV| collection_jsonv(c))),
            ),
        ],
    )
}

fn push_value_member(members: &mut Vec<(String, Json)>, v: &Value)
    ensures
        final(members)@.len() == old(members)@.len() + 1,
        forall|k: int| 0 <= k < old(members)@.len() ==> final(members)@[k] == old(members)@[k],
        final(members)@[old(members)@.len() as int].0@ == value_member_v(v@).0,
        final(members)@[old(members)@.len() as int].1@ == value_member_v(v@).1,
{
    match v {
        Value::Bool(b) => push_member(members, "boolValue", Json::Bool(*b)),
        Value::I64(n) => push_member(
            members,
            "int64Value",
            Json::Num(NumberValue { text: i64_to_dec(*n) }),
        ),
        Value::Double(d) => push_member(
            members,
            "doubleValue",
            Json::Num(NumberValue { text: d.text.clone() }),
        ),
        Value::String(s) => push_member(members, "stringValue", Json::Str(s.clone())),
    }
}

fn field_value_to_json(f: &crate::monarch::FieldValue) -> (j: Json)
    ensures
        j@ == field_value_jsonv(f@),
{
    let mut members: Vec<(String, Json)> = Vec::new();
    push_member(&mut members, "name", Json::Str(f.name.clone()));
    push_value_member(&mut members, &f.value);
    let j = Json::Obj(members);
    proof {
        lemma_json_view_members(members@);
        assert(json_view_members(members@) =~= seq![
            ("name"@, JsonV::Str(f@.name)),
            value_member_v(f@.value),
        ]);
    }
    j
}

fn field_descriptor_to_json(f: &crate::monarch::FieldDescriptor) -> (j: Json)
    ensures
        j@ == field_descriptor_jsonv(f@),
{
    let mut members: Vec<(String, Json)> = Vec::new();
    push_member(&mut members, "name", Json::Str(f.name.clone()));
    push_member(&mut members, "fieldType", Json::Str(f.field_type.clone()));
    let j = Json::Obj(members);
    proof {
        lemma_json_view_members(members@);
        assert(json_view_members(members@) =~= seq![
            ("name"@, JsonV::Str(f@.name)),
            ("fieldType"@, JsonV::Str(f@.field_type)),
        ]);
    }
    j
}

fn metric_data_to_json(md: &crate::monarch::MetricData) -> (j: Json)
    requires
        crate::monarch::md_times_ok(md@),
    ensures
        j@ == metric_data_jsonv(md@),
{
    let mut members: Vec<(String, Json)> = Vec::new();
    push_member(&mut members, "startTimestamp", Json::Str(rfc3339_format(md.start_timestamp)));
    push_member(&mut members, "endTimestamp", Json::Str(rfc3339_format(md.end_timestamp)));
    match &md.field {
        Some(fvs) => {
            let ghost fvs_v = md@.field.unwrap();
            let n = fvs.len();
            let mut arr: Vec<Json> = Vec::new();
            let mut i: usize = 0;
            proof {
                assert(fvs_v.len() == n);
            }
            while i < n
                invariant
                    i <= n,
                    n == fvs@.len(),
                    fvs_v == fvs@.map_values(|f: crate::monarch::FieldValue| f@),
                    fvs_v.len() == n,
                    arr@.len() == i,
                    forall|k: int|
                        0 <= k < i ==> (#[trigger] arr@[k])@ == field_value_jsonv(fvs_v[k]),
                decreases n - i,
            {
                proof {
                    assert(fvs@[i as int]@ == fvs_v[i as int]);
                }
                let jf = field_value_to_json(&fvs[i]);
                arr.push(jf);
                i = i + 1;
            }
            let ghost arr_seq = arr@;
            push_member(&mut members, "field", Json::Arr(arr));
            proof {
                lemma_json_view_elems(arr_seq);
                assert forall|k: int| 0 <= k < arr_seq.len() implies json_view_elems(arr_seq)[k]
                    == fvs_v.map_values(|f: FieldValueV| field_value_jsonv(f))[k] by {
                    assert(arr_seq[k]@ == field_value_jsonv(fvs_v[k]));
                }
                assert(json_view_elems(arr_seq) =~= fvs_v.map_values(
                    |f: FieldValueV| field_value_jsonv(f),
                ));
            }
        },
        None => {
        },
    }
    push_value_member(&mut members, &md.value);
    let j = Json::Obj(members);
    proof {
        lemma_json_view_members(members@);
        match md@.field {
            Some(fvs_v) => {
                assert(json_view_members(members@) =~= seq![
                    ("startTimestamp"@, JsonV::Str(rfc3339_of(md@.start_timestamp))),
                    ("endTimestamp"@, JsonV::Str(rfc3339_of(md@.end_timestamp))),
                    (
                        "field"@,
                        JsonV::Arr(fvs_v.map_values(|f: FieldValueV| field_value_jsonv(f))),
                    ),
                    value_member_v(md@.value),
                ]);
                assert(metric_data_jsonv(md@) == JsonV::Obj(
                    seq![
                        ("startTimestamp"@, JsonV::Str(rfc3339_of(md@.start_timestamp))),
                        ("endTimestamp"@, JsonV::Str(rfc3339_of(md@.end_timestamp))),
                    ] + seq![
                        (
                            "field"@,
                            JsonV::Arr(fvs_v.map_values(|f: FieldValueV| field_value_jsonv(f))),
                        ),
                    ] + seq![value_member_v(md@.value)],
                ));
                assert(seq![
                    ("startTimestamp"@, JsonV::Str(rfc3339_of(md@.start_timestamp))),
                    ("endTimestamp"@, JsonV::Str(rfc3339_of(md@.end_timestamp))),
                ] + seq![
                    ("field"@, JsonV::Arr(fvs_v.map_values(|f: FieldValueV| field_value_jsonv(f)))),
                ] + seq![value_member_v(md@.value)] =~= seq![
                    ("startTimestamp"@, JsonV::Str(rfc3339_of(md@.start_timestamp))),
                    ("endTimestamp"@, JsonV::Str(rfc3339_of(md@.end_timestamp))),
                    (
                        "field"@,
                        JsonV::Arr(fvs_v.map_values(|f: FieldValueV| field_value_jsonv(f))),
                    ),
                    value_member_v(md@.value),
                ]);
            },
            None => {
                assert(json_view_members(members@) =~= seq![
                    ("startTimestamp"@, JsonV::Str(rfc3339_of(md@.start_timestamp))),
                    ("endTimestamp"@, JsonV::Str(rfc3339_of(md@.end_timestamp))),
                    value_member_v(md@.value),
                ]);
                assert(seq![
                    ("startTimestamp"@, JsonV::Str(rfc3339_of(md@.start_timestamp))),
                    ("endTimestamp"@, JsonV::Str(rfc3339_of(md@.end_timestamp))),
                ] + Seq::<(Seq<char>, JsonV)>::empty() + seq![value_member_v(md@.value)] =~= seq![
                    ("startTimestamp"@, JsonV::Str(rfc3339_of(md@.start_timestamp))),
                    ("endTimestamp"@, JsonV::Str(rfc3339_of(md@.end_timestamp))),
                    value_member_v(md@.value),
                ]);
            },
        }
    }
    j
}

fn metrics_data_to_json(d: &crate::monarch::MetricsData) -> (j: Json)
    requires
        crate::monarch::metric_times_ok(d@),
    ensures
        j@ == metrics_data_jsonv(d@),
{
    let mut members: Vec<(String, Json)> = Vec::new();
    push_member(&mut members, "metricName", Json::Str(d.metric_name.clone()));
    push_member(&mut members, "description", Json::Str(d.description.clone()));
    let ghost head = seq![
        ("metricName"@, JsonV::Str(d@.metric_name)),
        ("description"@, JsonV::Str(d@.description)),
    ] + (match d@.field_descriptor {
        Some(fds_v) => seq![
            (
                "fieldDescriptor"@,
                JsonV::Arr(fds_v.map_values(|f: FieldDescriptorV| field_descriptor_jsonv(f))),
            ),
        ],
        None => Seq::empty(),
    });
    match &d.field_descriptor {
        Some(fds) => {
            let ghost fds_v = d@.field_descriptor.unwrap();
            let n = fds.len();
            let mut arr: Vec<Json> = Vec::new();
            let mut i: usize = 0;
            proof {
                assert(fds_v.len() == n);
            }
            while i < n
                invariant
                    i <= n,
                    n == fds@.len(),
                    fds_v == fds@.map_values(|f: crate::monarch::FieldDescriptor| f@),
                    fds_v.len() == n,
                    arr@.len() == i,
                    forall|k: int|
                        0 <= k < i ==> (#[trigger] arr@[k])@ == field_descriptor_jsonv(fds_v[k]),
                decreases n - i,
            {
                proof {
                    assert(fds@[i as int]@ == fds_v[i as int]);
                }
                let jf = field_descriptor_to_json(&fds[i]);
                arr.push(jf);
                i = i + 1;
            }
            let ghost arr_seq = arr@;
            push_member(&mut members, "fieldDescriptor", Json::Arr(arr));
            proof {
                lemma_json_view_elems(arr_seq);
                assert forall|k: int| 0 <= k < arr_seq.len() implies json_view_elems(arr_seq)[k]
                    == fds_v.map_values(|f: FieldDescriptorV| field_descriptor_jsonv(f))[k] by {
                    assert(arr_seq[k]@ == field_descriptor_jsonv(fds_v[k]));
                }
                assert(json_view_elems(arr_seq) =~= fds_v.map_values(
                    |f: FieldDescriptorV| field_descriptor_jsonv(f),
                ));
            }
        },
        None => {
        },
    }
    proof {
        lemma_json_view_members(members@);
        assert(json_view_members(members@) =~= head);
    }
    push_member(&mut members, "valueType", Json::Str(d.value_type.clone()));
    let ghost head2 = head + seq![("valueType"@, JsonV::Str(d@.value_type))];
    if d.stream_kind.as_str().unicode_len() > 0 {
        push_member(&mut members, "streamKind", Json::Str(d.stream_kind.clone()));
    }
    let ghost head3 = head2 + (if d@.stream_kind.len() == 0 {
        Seq::<(Seq<char>, JsonV)>::empty()
    } else {
        seq![("streamKind"@, JsonV::Str(d@.stream_kind))]
    });
    proof {
        lemma_json_view_members(members@);
        assert(json_view_members(members@) =~= head3);
    }
    let ghost dv = d@.data;
    let n = d.data.len();
    let mut arr: Vec<Json> = Vec::new();
    let mut i: usize = 0;
    proof {
        assert(dv.len() == n);
    }
    while i < n
        invariant
            i <= n,
            n == d.data@.len(),
            dv == d@.data,
            dv.len() == n,
            crate::monarch::metric_times_ok(d@),
            arr@.len() == i,
            forall|k: int| 0 <= k < i ==> (#[trigger] arr@[k])@ == metric_data_jsonv(dv[k]),
        decreases n - i,
    {
        proof {
            assert(d.data@[i as int]@ == dv[i as int]);
            assert(crate::monarch::md_times_ok(dv[i as int]));
        }
        let jm = metric_data_to_json(&d.data[i]);
        arr.push(jm);
        i = i + 1;
    }
    let ghost arr_seq = arr@;
    push_member(&mut members, "data", Json::Arr(arr));
    let j = Json::Obj(members);
    proof {
        lemma_json_view_elems(arr_seq);
        assert forall|k: int| 0 <= k < arr_seq.len() implies json_view_elems(arr_seq)[k]
            == dv.map_values(|md: MetricDataV| metric_data_jsonv(md))[k] by {
            assert(arr_seq[k]@ == metric_data_jsonv(dv[k]));
        }
        assert(json_view_elems(arr_seq) =~= dv.map_values(
            |md: MetricDataV| metric_data_jsonv(md),
        ));
        lemma_json_view_members(members@);
        assert(json_view_members(members@) =~= head3 + seq![
            ("data"@, JsonV::Arr(dv.map_values(|md: MetricDataV| metric_data_jsonv(md)))),
        ]);
        assert(metrics_data_jsonv(d@) == JsonV::Obj(head3 + seq![
            ("data"@, JsonV::Arr(dv.map_values(|md: MetricDataV| metric_data_jsonv(md)))),
        ]));
    }
    j
}

fn root_label_to_json(l: &crate::monarch::RootLabel) -> (j: Json)
    ensures
        j@ == root_label_jsonv(l@),
{
    let mut members: Vec<(String, Json)> = Vec::new();
    push_member(&mut members, "key", Json::Str(l.key.clone()));
    push_value_member(&mut members, &l.value);
    let j = Json::Obj(members);
    proof {
        lemma_json_view_members(members@);
        assert(json_view_members(members@) =~= seq![
            ("key"@, JsonV::Str(l@.key)),
            value_member_v(l@.value),
        ]);
    }
    j
}

fn collection_to_json(c: &crate::monarch::MetricsCollection) -> (j: Json)
    requires
        forall|k: int|
            0 <= k < c@.dataset.len() ==> crate::monarch::metric_times_ok(#[trigger] c@.dataset[k]),
    ensures
        j@ == collection_jsonv(c@),
{
    let ghost dsv = c@.dataset;
    let nd = c.dataset.len();
    let mut darr: Vec<Json> = Vec::new();
    let mut i: usize = 0;
    proof {
        assert(dsv.len() == nd);
    }
    while i < nd
        invariant
            i <= nd,
            nd == c.dataset@.len(),
            dsv == c@.dataset,
            dsv.len() == nd,
            forall|k: int|
                0 <= k < dsv.len() ==> crate::monarch::metric_times_ok(#[trigger] dsv[k]),
            darr@.len() == i,
            forall|k: int| 0 <= k < i ==> (#[trigger] darr@[k])@ == metrics_data_jsonv(dsv[k]),
        decreases nd - i,
    {
        proof {
            assert(c.dataset@[i as int]@ == dsv[i as int]);
        }
        let jd = metrics_data_to_json(&c.dataset[i]);
        darr.push(jd);
        i = i + 1;
    }
    let ghost rlv = c@.root_labels;
    let nr = c.root_labels.len();
    let mut rarr: Vec<Json> = Vec::new();
    let mut ri: usize = 0;
    proof {
        assert(rlv.len() == nr);
    }
    while ri < nr
        invariant
            ri <= nr,
            nr == c.root_labels@.len(),
            rlv == c@.root_labels,
            rlv.len() == nr,
            rarr@.len() == ri,
            forall|k: int| 0 <= k < ri ==> (#[trigger] rarr@[k])@ == root_label_jsonv(rlv[k]),
        decreases nr - ri,
    {
        proof {
            assert(c.root_labels@[ri as int]@ == rlv[ri as int]);
        }
        let jl = root_label_to_json(&c.root_labels[ri]);
        rarr.push(jl);
        ri = ri + 1;
    }
    let ghost darr_seq = darr@;
    let ghost rarr_seq = rarr@;
    let mut members: Vec<(String, Json)> = Vec::new();
    push_member(&mut members, "metricsDataSet", Json::Arr(darr));
    push_member(&mut members, "rootLabels", Json::Arr(rarr));
    let j = Json::Obj(members);
    proof {
        lemma_json_view_elems(darr_seq);
        assert forall|k: int| 0 <= k < darr_seq.len() implies json_view_elems(darr_seq)[k]
            == dsv.map_values(|d: MetricsDataV| metrics_data_jsonv(d))[k] by {
            assert(darr_seq[k]@ == metrics_data_jsonv(dsv[k]));
        }
        assert(json_view_elems(darr_seq) =~= dsv.map_values(
            |d: MetricsDataV| metrics_data_jsonv(d),
        ));
        lemma_json_view_elems(rarr_seq);
        assert forall|k: int| 0 <= k < rarr_seq.len() implies json_view_elems(rarr_seq)[k]
            == rlv.map_values(|l: RootLabelV| root_label_jsonv(l))[k] by {
            assert(rarr_seq[k]@ == root_label_jsonv(rlv[k]));
        }
        assert(json_view_elems(rarr_seq) =~= rlv.map_values(|l: RootLabelV| root_label_jsonv(l)));
        lemma_json_view_members(members@);
        assert(json_view_members(members@) =~= seq![
            (
                "metricsDataSet"@,
                JsonV::Arr(dsv.map_values(|d: MetricsDataV| metrics_data_jsonv(d))),
            ),
            ("rootLabels"@, JsonV::Arr(rlv.map_values(|l: RootLabelV| root_label_jsonv(l)))),
        ]);
    }
    j
}

/// The Monarch wire rendering of a converted wrapper as a JSON tree.
pub fn collection_wrapper_to_json(w: &CollectionWrapper) -> (j: Json)
    requires
        crate::monarch::wrapper_times_ok(w@),
    ensures
        j@ == monarch_jsonv(w@),
{
    let ghost cv = w@.collection;
    let nc = w.collection.len();
    let mut carr: Vec<Json> = Vec::new();
    let mut i: usize = 0;
    proof {
        assert(cv.len() == nc);
    }
    while i < nc
        invariant
            i <= nc,
            nc == w.collection@.len(),
            cv == w@.collection,
            cv.len() == nc,
            crate::monarch::wrapper_times_ok(w@),
            carr@.len() == i,
            forall|k: int| 0 <= k < i ==> (#[trigger] carr@[k])@ == collection_jsonv(cv[k]),
        decreases nc - i,
    {
        proof {
            assert(w.collection@[i as int]@ == cv[i as int]);
            assert(forall|k: int|
                0 <= k < cv[i as int].dataset.len() ==> crate::monarch::metric_times_ok(
                    #[trigger] cv[i as int].dataset[k],
                ));
        }
        let jc = collection_to_json(&w.collection[i]);
        carr.push(jc);
        i = i + 1;
    }
    let ghost carr_seq = carr@;
    let mut members: Vec<(String, Json)> = Vec::new();
    push_member(&mut members, "metricsCollection", Json::Arr(carr));
    let j = Json::Obj(members);
    proof {
        lemma_json_view_elems(carr_seq);
        assert forall|k: int| 0 <= k < carr_seq.len() implies json_view_elems(carr_seq)[k]
            == cv.map_values(|c: MetricsCollectionV| collection_jsonv(c))[k] by {
            assert(carr_seq[k]@ == collection_jsonv(cv[k]));
        }
        assert(json_view_elems(carr_seq) =~= cv.map_values(
            |c: MetricsCollectionV| collection_jsonv(c),
        ));
        lemma_json_view_members(members@);
        assert(json_view_members(members@) =~= seq![
            (
                "metricsCollection"@,
                JsonV::Arr(cv.map_values(|c: MetricsCollectionV| collection_jsonv(c))),
            ),
        ]);
    }
    j
}

/// The Monarch wire payload of a converted wrapper.
pub fn monarch_payload(w: &CollectionWrapper) -> (r: String)
    requires
        crate::monarch::wrapper_times_ok(w@),
    ensures
        r@ == json_text(monarch_jsonv(w@)),
{
    let j = collection_wrapper_to_json(w);
    json_to_string(&j)
}

} // verus!
