//! The Monarch format converter: a pure function from one metric snapshot and
//! a collection end-time to a self-describing, sorted, field-annotated output
//! schema.
//!
//! The conversion is deterministic: root labels are sorted ascending by key
//! and metric datasets ascending by metric name, so two snapshots holding the
//! same entries in different orders convert to the same output
//! (`lemma_convert_deterministic`).

use vstd::prelude::*;

use crate::model::{Metric, MetricSet, MetricValue, MetricValueData, MetricValueDataV,
    MetricValueV, MetricV, MetricSetV, NumberValue};
use crate::order::{sorted_by_key, distinct_keys, str_le, lemma_sorted_unique,
    lemma_map_values_multiset};
use crate::text::{spec_split, str_lt, num_trunc, sat_i64, num_trunc_exec, split_exec,
    str_lt_exec, lemma_str_lt_trichotomy};
use crate::valid_type_code;

verus! {

/// A conversion failure: a type code outside the table, or a value whose kind
/// does not fit its metric's type code.
#[derive(Debug, Clone, Copy, PartialEq, Eq, Structural)]
pub enum ConvertError {
    InvalidMetricType,
    ValueKindMismatch,
}

// ---------------------------------------------------------------------------
// The output schema.
// ---------------------------------------------------------------------------

/// A typed output value.
#[derive(Debug, PartialEq)]
pub enum Value {
    Bool(bool),
    I64(i64),
    Double(NumberValue),
    String(String),
}

pub enum ValueV {
    Bool(bool),
    I64(int),
    Double(Seq<char>),
    String(Seq<char>),
}

impl View for Value {
    type V = ValueV;

    open spec fn view(&self) -> ValueV {
        match self {
            Value::Bool(b) => ValueV::Bool(*b),
            Value::I64(n) => ValueV::I64(*n as int),
            Value::Double(d) => ValueV::Double(d@),
            Value::String(s) => ValueV::String(s@),
        }
    }
}

/// One breakdown dimension of one data point.
#[derive(Debug, PartialEq)]
pub struct FieldValue {
    pub name: String,
    pub value: Value,
}

pub struct FieldValueV {
    pub name: Seq<char>,
    pub value: ValueV,
}

impl View for FieldValue {
    type V = FieldValueV;

    open spec fn view(&self) -> FieldValueV {
        FieldValueV { name: self.name@, value: self.value@ }
    }
}

/// One data point of one metric.
#[derive(Debug, PartialEq)]
pub struct MetricData {
    pub start_timestamp: i64,
    pub end_timestamp: i64,
    pub field: Option<Vec<FieldValue>>,
    pub value: Value,
}

pub struct MetricDataV {
    pub start_timestamp: int,
    pub end_timestamp: int,
    pub field: Option<Seq<FieldValueV>>,
    pub value: ValueV,
}

impl View for MetricData {
    type V = MetricDataV;

    open spec fn view(&self) -> MetricDataV {
        MetricDataV {
            start_timestamp: self.start_timestamp as int,
            end_timestamp: self.end_timestamp as int,
            field: match &self.field {
                Some(fvs) => Some(fvs@.map_values(|f: FieldValue| f@)),
                None => None,
            },
            value: self.value@,
        }
    }
}

/// The declaration of one breakdown dimension; its type is always STRING.
#[derive(Debug, PartialEq)]
pub struct FieldDescriptor {
    pub name: String,
    pub field_type: String,
}

pub struct FieldDescriptorV {
    pub name: Seq<char>,
    pub field_type: Seq<char>,
}

impl View for FieldDescriptor {
    type V = FieldDescriptorV;

    open spec fn view(&self) -> FieldDescriptorV {
        FieldDescriptorV { name: self.name@, field_type: self.field_type@ }
    }
}

/// One converted metric: its declaration and its data points.
#[derive(Debug, PartialEq)]
pub struct MetricsData {
    pub metric_name: String,
    pub description: String,
    pub field_descriptor: Option<Vec<FieldDescriptor>>,
    pub value_type: String,
    pub stream_kind: String,
    pub data: Vec<MetricData>,
}

pub struct MetricsDataV {
    pub metric_name: Seq<char>,
    pub description: Seq<char>,
    pub field_descriptor: Option<Seq<FieldDescriptorV>>,
    pub value_type: Seq<char>,
    pub stream_kind: Seq<char>,
    pub data: Seq<MetricDataV>,
}

impl View for MetricsData {
    type V = MetricsDataV;

    open spec fn view(&self) -> MetricsDataV {
        MetricsDataV {
            metric_name: self.metric_name@,
            description: self.description@,
            field_descriptor: match &self.field_descriptor {
                Some(fds) => Some(fds@.map_values(|f: FieldDescriptor| f@)),
                None => None,
            },
            value_type: self.value_type@,
            stream_kind: self.stream_kind@,
            data: self.data@.map_values(|d: MetricData| d@),
        }
    }
}

/// One process-wide label, attached to every metric of the snapshot.
#[derive(Debug, PartialEq)]
pub struct RootLabel {
    pub key: String,
    pub value: Value,
}

pub struct RootLabelV {
    pub key: Seq<char>,
    pub value: ValueV,
}

impl View for RootLabel {
    type V = RootLabelV;

    open spec fn view(&self) -> RootLabelV {
        RootLabelV { key: self.key@, value: self.value@ }
    }
}

/// One collection: the sorted dataset plus the sorted root labels.
#[derive(Debug, PartialEq)]
pub struct MetricsCollection {
    pub dataset: Vec<MetricsData>,
    pub root_labels: Vec<RootLabel>,
}

pub struct MetricsCollectionV {
    pub dataset: Seq<MetricsDataV>,
    pub root_labels: Seq<RootLabelV>,
}

impl View for MetricsCollection {
    type V = MetricsCollectionV;

    open spec fn view(&self) -> MetricsCollectionV {
        MetricsCollectionV {
            dataset: self.dataset@.map_values(|d: MetricsData| d@),
            root_labels: self.root_labels@.map_values(|l: RootLabel| l@),
        }
    }
}

/// The outermost wrapper; this pipeline always emits exactly one collection.
#[derive(Debug, PartialEq)]
pub struct CollectionWrapper {
    pub collection: Vec<MetricsCollection>,
}

pub struct CollectionWrapperV {
    pub collection: Seq<MetricsCollectionV>,
}

impl View for CollectionWrapper {
    type V = CollectionWrapperV;

    open spec fn view(&self) -> CollectionWrapperV {
        CollectionWrapperV { collection: self.collection@.map_values(|c: MetricsCollection| c@) }
    }
}

// ---------------------------------------------------------------------------
// The conversion, in specification.
// ---------------------------------------------------------------------------

/// The output value type for a type code in the table.
pub open spec fn spec_value_type(code: int) -> Seq<char> {
    if code == 1 || code == 5 {
        "BOOL"@
    } else if code == 2 || code == 6 {
        "STRING"@
    } else if code == 4 || code == 8 {
        "DOUBLE"@
    } else {
        "INT64"@
    }
}

/// The stream classification for a type code in the table: point-in-time
/// codes have none, gauge codes GAUGE, the counter code CUMULATIVE.
pub open spec fn spec_stream_kind(code: int) -> Seq<char> {
    if 1 <= code <= 4 {
        Seq::empty()
    } else if 5 <= code <= 8 {
        "GAUGE"@
    } else {
        "CUMULATIVE"@
    }
}

/// The typed output value for one observation: Bool codes take a boolean or
/// coerce a number's truncated form; String codes require a string; Int64 and
/// Double codes require a number.  Everything else is a kind mismatch.
pub open spec fn spec_value(code: int, d: MetricValueDataV) -> Result<ValueV, ConvertError> {
    if !valid_type_code(code) {
        Err(ConvertError::InvalidMetricType)
    } else if code == 1 || code == 5 {
        match d {
            MetricValueDataV::Bool(b) => Ok(ValueV::Bool(b)),
            MetricValueDataV::Number(t) => Ok(ValueV::Bool(sat_i64(num_trunc(t)) != 0)),
            MetricValueDataV::String(_) => Err(ConvertError::ValueKindMismatch),
        }
    } else if code == 2 || code == 6 {
        match d {
            MetricValueDataV::String(s) => Ok(ValueV::String(s)),
            _ => Err(ConvertError::ValueKindMismatch),
        }
    } else if code == 4 || code == 8 {
        match d {
            MetricValueDataV::Number(t) => Ok(ValueV::Double(t)),
            _ => Err(ConvertError::ValueKindMismatch),
        }
    } else {
        match d {
            MetricValueDataV::Number(t) => Ok(ValueV::I64(sat_i64(num_trunc(t)) as int)),
            _ => Err(ConvertError::ValueKindMismatch),
        }
    }
}

/// The field entries of one data point: a non-empty field key is split on
/// commas into dimension names, the observation's rendered value likewise
/// into dimension values, and the two are zipped positionally, truncating to
/// the shorter list.
pub open spec fn spec_zip_fields(names: Seq<Seq<char>>, vals: Seq<Seq<char>>) -> Seq<FieldValueV> {
    Seq::new(
        if names.len() <= vals.len() {
            names.len()
        } else {
            vals.len()
        },
        |i: int| FieldValueV { name: names[i], value: ValueV::String(vals[i]) },
    )
}

pub open spec fn spec_field(key: Seq<char>, valstr: Seq<char>) -> Option<Seq<FieldValueV>> {
    if key.len() == 0 {
        None
    } else {
        Some(spec_zip_fields(spec_split(key, ','), spec_split(valstr, ',')))
    }
}

/// One data point: interval start from the observation, interval end from the
/// caller, fields from the key, value by the type code.
pub open spec fn spec_metric_data(code: int, end: int, key: Seq<char>, v: MetricValueV) -> Result<
    MetricDataV,
    ConvertError,
> {
    match spec_value(code, v.data) {
        Ok(val) => Ok(
            MetricDataV {
                start_timestamp: v.created,
                end_timestamp: end,
                field: spec_field(key, v.value),
                value: val,
            },
        ),
        Err(e) => Err(e),
    }
}

pub open spec fn spec_encode_entries(
    code: int,
    end: int,
    key: Seq<char>,
    entries: Seq<MetricValueV>,
) -> Result<Seq<MetricDataV>, ConvertError>
    decreases entries.len(),
{
    if entries.len() == 0 {
        Ok(Seq::empty())
    } else {
        match spec_metric_data(code, end, key, entries[0]) {
            Err(e) => Err(e),
            Ok(d) => match spec_encode_entries(code, end, key, entries.skip(1)) {
                Err(e) => Err(e),
                Ok(ds) => Ok(seq![d] + ds),
            },
        }
    }
}

/// All data points of one metric, fields in order, entries in order; the
/// first failing observation's error, if any.
pub open spec fn spec_encode_data(
    code: int,
    end: int,
    fields: Seq<(Seq<char>, Seq<MetricValueV>)>,
) -> Result<Seq<MetricDataV>, ConvertError>
    decreases fields.len(),
{
    if fields.len() == 0 {
        Ok(Seq::empty())
    } else {
        match spec_encode_entries(code, end, fields[0].0, fields[0].1) {
            Err(e) => Err(e),
            Ok(ds) => match spec_encode_data(code, end, fields.skip(1)) {
                Err(e) => Err(e),
                Ok(rest) => Ok(ds + rest),
            },
        }
    }
}

/// The declared dimensions of one metric: each non-empty field key split on
/// commas, in order, every dimension declared STRING.
pub open spec fn spec_field_descriptors(fields: Seq<(Seq<char>, Seq<MetricValueV>)>) -> Seq<
    FieldDescriptorV,
>
    decreases fields.len(),
{
    if fields.len() == 0 {
        Seq::empty()
    } else {
        (if fields[0].0.len() == 0 {
            Seq::empty()
        } else {
            spec_split(fields[0].0, ',').map_values(
                |n: Seq<char>| FieldDescriptorV { name: n, field_type: "STRING"@ },
            )
        }) + spec_field_descriptors(fields.skip(1))
    }
}

/// One converted metric.
pub open spec fn spec_format_metric(name: Seq<char>, m: MetricV, end: int) -> Result<
    MetricsDataV,
    ConvertError,
> {
    if !valid_type_code(m.type_code) {
        Err(ConvertError::InvalidMetricType)
    } else {
        match spec_encode_data(m.type_code, end, m.fields) {
            Err(e) => Err(e),
            Ok(data) => Ok(
                MetricsDataV {
                    metric_name: name,
                    description: m.description,
                    field_descriptor: if spec_field_descriptors(m.fields).len() == 0 {
                        None
                    } else {
                        Some(spec_field_descriptors(m.fields))
                    },
                    value_type: spec_value_type(m.type_code),
                    stream_kind: spec_stream_kind(m.type_code),
                    data,
                },
            ),
        }
    }
}

/// All metrics converted in snapshot order; the first failing metric's error,
/// if any.
pub open spec fn spec_dataset(metrics: Seq<(Seq<char>, MetricV)>, end: int) -> Result<
    Seq<MetricsDataV>,
    ConvertError,
>
    decreases metrics.len(),
{
    if metrics.len() == 0 {
        Ok(Seq::empty())
    } else {
        match spec_format_metric(metrics[0].0, metrics[0].1, end) {
            Err(e) => Err(e),
            Ok(d) => match spec_dataset(metrics.skip(1), end) {
                Err(e) => Err(e),
                Ok(ds) => Ok(seq![d] + ds),
            },
        }
    }
}

/// The root labels, one per key, string-valued.
pub open spec fn spec_root_labels(rl: Seq<(Seq<char>, Seq<char>)>) -> Seq<RootLabelV> {
    rl.map_values(
        |p: (Seq<char>, Seq<char>)| RootLabelV { key: p.0, value: ValueV::String(p.1) },
    )
}

/// What a successful conversion returns: one collection, whose root labels
/// are the snapshot's root labels sorted by key and whose dataset is the
/// snapshot's converted metrics sorted by name.
pub open spec fn convert_post(ms: MetricSetV, end: int, w: CollectionWrapperV) -> bool {
    &&& spec_dataset(ms.metrics, end) is Ok
    &&& w.collection.len() == 1
    &&& sorted_by_key(w.collection[0].root_labels, (|l: RootLabelV| l.key))
    &&& w.collection[0].root_labels.to_multiset() == spec_root_labels(
        ms.root_labels,
    ).to_multiset()
    &&& sorted_by_key(w.collection[0].dataset, (|d: MetricsDataV| d.metric_name))
    &&& w.collection[0].dataset.to_multiset() == spec_dataset(ms.metrics, end).unwrap().to_multiset()
}

/// Both interval bounds of a data point lie in the wire range.
pub open spec fn md_times_ok(md: MetricDataV) -> bool {
    &&& crate::model::MIN_TIMESTAMP <= md.start_timestamp <= crate::model::MAX_TIMESTAMP
    &&& crate::model::MIN_TIMESTAMP <= md.end_timestamp <= crate::model::MAX_TIMESTAMP
}

/// Every data point of one converted metric has its bounds in range.
pub open spec fn metric_times_ok(d: MetricsDataV) -> bool {
    forall|j: int| 0 <= j < d.data.len() ==> md_times_ok(#[trigger] d.data[j])
}

/// Every data point anywhere in the wrapper has its bounds in range.
pub open spec fn wrapper_times_ok(w: CollectionWrapperV) -> bool {
    forall|i: int, k: int|
        0 <= i < w.collection.len() && 0 <= k < (#[trigger] w.collection[i]).dataset.len()
            ==> metric_times_ok(#[trigger] w.collection[i].dataset[k])
}

// ---------------------------------------------------------------------------
// The conversion, executable.
// ---------------------------------------------------------------------------

/// The output value for one observation under a type code.
pub fn value_for(code: i8, data: &MetricValueData) -> (r: Result<Value, ConvertError>)
    ensures
        (match r {
            Ok(v) => Ok(v@),
            Err(e) => Err::<ValueV, ConvertError>(e),
        }) == spec_value(code as int, data@),
{
    if code < 1 || code > 9 {
        return Err(ConvertError::InvalidMetricType);
    }
    if code == 1 || code == 5 {
        match data {
            MetricValueData::Bool(b) => Ok(Value::Bool(*b)),
            MetricValueData::Number(n) => {
                let t = num_trunc_exec(n.text.as_str());
                Ok(Value::Bool(t != 0))
            },
            MetricValueData::String(_) => Err(ConvertError::ValueKindMismatch),
        }
    } else if code == 2 || code == 6 {
        match data {
            MetricValueData::String(s) => Ok(Value::String(s.clone())),
            _ => Err(ConvertError::ValueKindMismatch),
        }
    } else if code == 4 || code == 8 {
        match data {
            MetricValueData::Number(n) => Ok(Value::Double(NumberValue { text: n.text.clone() })),
            _ => Err(ConvertError::ValueKindMismatch),
        }
    } else {
        match data {
            MetricValueData::Number(n) => Ok(Value::I64(num_trunc_exec(n.text.as_str()))),
            _ => Err(ConvertError::ValueKindMismatch),
        }
    }
}

/// The field entries of one data point, by positional zip.
fn field_values(key: &String, valstr: &String) -> (r: Option<Vec<FieldValue>>)
    ensures
        (match r {
            Some(fvs) => Some(fvs@.map_values(|f: FieldValue| f@)),
            None => None::<Seq<FieldValueV>>,
        }) == spec_field(key@, valstr@),
{
    if key.as_str().unicode_len() == 0 {
        None
    } else {
        let names = split_exec(key.as_str(), ',');
        let vals = split_exec(valstr.as_str(), ',');
        let ghost names_v = spec_split(key@, ',');
        let ghost vals_v = spec_split(valstr@, ',');
        let ghost zipped = spec_zip_fields(names_v, vals_v);
        let n = if names.len() <= vals.len() {
            names.len()
        } else {
            vals.len()
        };
        let mut fvs: Vec<FieldValue> = Vec::new();
        let mut i: usize = 0;
        proof {
            assert(fvs@.map_values(|f: FieldValue| f@) =~= zipped.take(0));
        }
        while i < n
            invariant
                i <= n,
                names@.map_values(|p: String| p@) == names_v,
                vals@.map_values(|p: String| p@) == vals_v,
                n == if names_v.len() <= vals_v.len() {
                    names_v.len()
                } else {
                    vals_v.len()
                },
                n == names@.len() || n == vals@.len(),
                n <= names@.len() && n <= vals@.len(),
                zipped == spec_zip_fields(names_v, vals_v),
                fvs@.map_values(|f: FieldValue| f@) == zipped.take(i as int),
            decreases n - i,
        {
            proof {
                assert(names@[i as int]@ == names_v[i as int]);
                assert(vals@[i as int]@ == vals_v[i as int]);
            }
            let ghost before = fvs@.map_values(|f: FieldValue| f@);
            let ghost item_v = FieldValueV {
                name: names_v[i as int],
                value: ValueV::String(vals_v[i as int]),
            };
            fvs.push(
                FieldValue { name: names[i].clone(), value: Value::String(vals[i].clone()) },
            );
            proof {
                assert(fvs@.map_values(|f: FieldValue| f@) =~= before.push(item_v));
                assert(item_v == zipped[i as int]);
                assert(before.push(item_v) =~= zipped.take(i as int + 1));
            }
            i = i + 1;
        }
        proof {
            assert(zipped.take(n as int) =~= zipped);
        }
        Some(fvs)
    }
}

/// All data points of one metric: every observation of every field, fields in
/// snapshot order, observations in list order.
pub fn encode_data(metric: &Metric, end_timestamp: i64) -> (r: Result<Vec<MetricData>, ConvertError>)
    ensures
        (match r {
            Ok(ds) => Ok(ds@.map_values(|d: MetricData| d@)),
            Err(e) => Err::<Seq<MetricDataV>, ConvertError>(e),
        }) == spec_encode_data(metric@.type_code, end_timestamp as int, metric@.fields),
        (metric@.wf() && crate::model::MIN_TIMESTAMP <= end_timestamp
            <= crate::model::MAX_TIMESTAMP && r is Ok) ==> forall|k: int|
            0 <= k < r.unwrap()@.len() ==> md_times_ok((#[trigger] r.unwrap()@[k])@),
{
    let ghost code = metric@.type_code;
    let ghost end = end_timestamp as int;
    let ghost fv = metric@.fields;
    let mut out: Vec<MetricData> = Vec::new();
    let nf = metric.fields.len();
    let mut fi: usize = 0;
    proof {
        assert(fv.len() == nf);
        assert(fv.skip(0) =~= fv);
        assert(out@.map_values(|d: MetricData| d@) =~= Seq::<MetricDataV>::empty());
    }
    while fi < nf
        invariant
            fi <= nf,
            nf == metric@.fields.len(),
            nf == metric.fields@.len(),
            fv == metric@.fields,
            code == metric@.type_code,
            end == end_timestamp as int,
            spec_encode_data(code, end, fv) == (match spec_encode_data(code, end, fv.skip(fi as int)) {
                Ok(rest) => Ok::<Seq<MetricDataV>, ConvertError>(
                    out@.map_values(|d: MetricData| d@) + rest,
                ),
                Err(e) => Err(e),
            }),
            (metric@.wf() && crate::model::MIN_TIMESTAMP <= end_timestamp
                <= crate::model::MAX_TIMESTAMP) ==> forall|k: int|
                0 <= k < out@.len() ==> md_times_ok((#[trigger] out@[k])@),
        decreases nf - fi,
    {
        let ghost key_v = fv[fi as int].0;
        let ghost entries_v = fv[fi as int].1;
        proof {
            assert(metric.fields@[fi as int].0@ == key_v);
            assert(metric.fields@[fi as int].1@.map_values(|v: MetricValue| v@) == entries_v);
            assert(fv.skip(fi as int)[0] == fv[fi as int]);
            assert(fv.skip(fi as int).skip(1) =~= fv.skip(fi as int + 1));
            assert(entries_v.skip(0) =~= entries_v);
            if spec_encode_entries(code, end, key_v, entries_v) is Ok && spec_encode_data(
                code,
                end,
                fv.skip(fi as int + 1),
            ) is Ok {
                let ds = spec_encode_entries(code, end, key_v, entries_v).unwrap();
                let rest = spec_encode_data(code, end, fv.skip(fi as int + 1)).unwrap();
                assert(out@.map_values(|d: MetricData| d@) + (ds + rest) =~= out@.map_values(
                    |d: MetricData| d@,
                ) + ds + rest);
            }
        }
        let ne = metric.fields[fi].1.len();
        let mut ei: usize = 0;
        while ei < ne
            invariant
                ei <= ne,
                fi < nf,
                nf == metric@.fields.len(),
                nf == metric.fields@.len(),
                fv == metric@.fields,
                code == metric@.type_code,
                end == end_timestamp as int,
                key_v == fv[fi as int].0,
                entries_v == fv[fi as int].1,
                ne == entries_v.len(),
                ne == metric.fields@[fi as int].1@.len(),
                spec_encode_data(code, end, fv) == (match spec_encode_entries(
                    code,
                    end,
                    key_v,
                    entries_v.skip(ei as int),
                ) {
                    Err(e) => Err::<Seq<MetricDataV>, ConvertError>(e),
                    Ok(ds) => match spec_encode_data(code, end, fv.skip(fi as int + 1)) {
                        Err(e) => Err(e),
                        Ok(rest) => Ok(out@.map_values(|d: MetricData| d@) + ds + rest),
                    },
                }),
                (metric@.wf() && crate::model::MIN_TIMESTAMP <= end_timestamp
                    <= crate::model::MAX_TIMESTAMP) ==> forall|k: int|
                    0 <= k < out@.len() ==> md_times_ok((#[trigger] out@[k])@),
            decreases ne - ei,
        {
            proof {
                assert(metric.fields@[fi as int].1@[ei as int]@ == entries_v[ei as int]);
                assert(entries_v.skip(ei as int)[0] == entries_v[ei as int]);
                assert(entries_v.skip(ei as int).skip(1) =~= entries_v.skip(ei as int + 1));
            }
            let entry = &metric.fields[fi].1[ei];
            match value_for(metric.type_code, &entry.data) {
                Err(e) => {
                    proof {
                        assert(spec_metric_data(code, end, key_v, entries_v[ei as int])
                            == Err::<MetricDataV, ConvertError>(e));
                        assert(spec_encode_data(code, end, fv) == Err::<
                            Seq<MetricDataV>,
                            ConvertError,
                        >(e));
                    }
                    return Err(e);
                },
                Ok(val) => {
                    let field = field_values(&metric.fields[fi].0, &entry.value);
                    let md = MetricData {
                        start_timestamp: entry.created,
                        end_timestamp,
                        field,
                        value: val,
                    };
                    let ghost d_v = spec_metric_data(code, end, key_v, entries_v[ei as int]).unwrap();
                    proof {
                        assert(md@ == d_v);
                        if metric@.wf() {
                            assert(entries_v[ei as int].wf());
                            assert(md@.start_timestamp == entries_v[ei as int].created);
                        }
                    }
                    let ghost out_before = out@.map_values(|d: MetricData| d@);
                    out.push(md);
                    proof {
                        assert(out@.map_values(|d: MetricData| d@) =~= out_before + seq![d_v]);
                        if spec_encode_entries(code, end, key_v, entries_v.skip(ei as int + 1)) is Ok
                            && spec_encode_data(code, end, fv.skip(fi as int + 1)) is Ok {
                            let ds1 = spec_encode_entries(
                                code,
                                end,
                                key_v,
                                entries_v.skip(ei as int + 1),
                            ).unwrap();
                            let rest = spec_encode_data(code, end, fv.skip(fi as int + 1)).unwrap();
                            assert(out_before + (seq![d_v] + ds1) + rest =~= (out_before + seq![d_v])
                                + ds1 + rest);
                        }
                    }
                },
            }
            ei = ei + 1;
        }
        proof {
            assert(entries_v.skip(ne as int).len() == 0);
            assert(spec_encode_entries(code, end, key_v, entries_v.skip(ne as int)) == Ok::<
                Seq<MetricDataV>,
                ConvertError,
            >(Seq::empty()));
            if spec_encode_data(code, end, fv.skip(fi as int + 1)) is Ok {
                let rest = spec_encode_data(code, end, fv.skip(fi as int + 1)).unwrap();
                assert(out@.map_values(|d: MetricData| d@) + Seq::<MetricDataV>::empty() + rest
                    =~= out@.map_values(|d: MetricData| d@) + rest);
            }
        }
        fi = fi + 1;
    }
    proof {
        assert(fv.skip(nf as int).len() == 0);
        assert(spec_encode_data(code, end, fv.skip(nf as int)) == Ok::<
            Seq<MetricDataV>,
            ConvertError,
        >(Seq::empty()));
        assert(out@.map_values(|d: MetricData| d@) + Seq::<MetricDataV>::empty() =~= out@.map_values(
            |d: MetricData| d@,
        ));
    }
    Ok(out)
}

/// The declared dimensions of one metric, or nothing where no field key
/// names any.
pub fn encode_field_descriptors(metric: &Metric) -> (r: Option<Vec<FieldDescriptor>>)
    ensures
        (match r {
            Some(fds) => fds@.map_values(|f: FieldDescriptor| f@),
            None => Seq::<FieldDescriptorV>::empty(),
        }) == spec_field_descriptors(metric@.fields),
        r is None ==> spec_field_descriptors(metric@.fields).len() == 0,
        r is Some ==> spec_field_descriptors(metric@.fields).len() > 0,
{
    let ghost fv = metric@.fields;
    let mut fds: Vec<FieldDescriptor> = Vec::new();
    let nf = metric.fields.len();
    let mut fi: usize = 0;
    proof {
        assert(fv.len() == nf);
        assert(fv.skip(0) =~= fv);
        assert(fds@.map_values(|f: FieldDescriptor| f@) =~= Seq::<FieldDescriptorV>::empty());
    }
    while fi < nf
        invariant
            fi <= nf,
            nf == metric@.fields.len(),
            nf == metric.fields@.len(),
            fv == metric@.fields,
            spec_field_descriptors(fv) == fds@.map_values(|f: FieldDescriptor| f@)
                + spec_field_descriptors(fv.skip(fi as int)),
        decreases nf - fi,
    {
        let ghost key_v = fv[fi as int].0;
        proof {
            assert(metric.fields@[fi as int].0@ == key_v);
            assert(fv.skip(fi as int)[0] == fv[fi as int]);
            assert(fv.skip(fi as int).skip(1) =~= fv.skip(fi as int + 1));
        }
        if metric.fields[fi].0.as_str().unicode_len() > 0 {
            let names = split_exec(metric.fields[fi].0.as_str(), ',');
            let ghost head = spec_split(key_v, ',').map_values(
                |n: Seq<char>| FieldDescriptorV { name: n, field_type: "STRING"@ },
            );
            let nn = names.len();
            let mut ni: usize = 0;
            proof {
                assert(head.len() == nn);
            }
            while ni < nn
                invariant
                    ni <= nn,
                    nn == names@.len(),
                    names@.map_values(|p: String| p@) == spec_split(key_v, ','),
                    head == spec_split(key_v, ',').map_values(
                        (|n: Seq<char>| FieldDescriptorV { name: n, field_type: "STRING"@ }),
                    ),
                    head.len() == nn,
                    spec_field_descriptors(fv) == fds@.map_values(|f: FieldDescriptor| f@)
                        + head.skip(ni as int) + spec_field_descriptors(fv.skip(fi as int + 1)),
                decreases nn - ni,
            {
                proof {
                    assert(names@[ni as int]@ == spec_split(key_v, ',')[ni as int]);
                    assert(head[ni as int] == FieldDescriptorV {
                        name: names@[ni as int]@,
                        field_type: "STRING"@,
                    });
                }
                let ghost before = fds@.map_values(|f: FieldDescriptor| f@);
                fds.push(
                    FieldDescriptor {
                        name: names[ni].clone(),
                        field_type: String::from_str("STRING"),
                    },
                );
                proof {
                    assert(fds@.map_values(|f: FieldDescriptor| f@) =~= before + seq![
                        head[ni as int],
                    ]);
                    assert(head.skip(ni as int) =~= seq![head[ni as int]] + head.skip(ni as int + 1));
                    assert(before + (seq![head[ni as int]] + head.skip(ni as int + 1))
                        + spec_field_descriptors(fv.skip(fi as int + 1)) =~= (before + seq![
                        head[ni as int],
                    ]) + head.skip(ni as int + 1) + spec_field_descriptors(fv.skip(fi as int + 1)));
                }
                ni = ni + 1;
            }
            proof {
                assert(head.skip(nn as int).len() == 0);
                assert(fds@.map_values(|f: FieldDescriptor| f@) + head.skip(nn as int)
                    + spec_field_descriptors(fv.skip(fi as int + 1)) =~= fds@.map_values(
                    |f: FieldDescriptor| f@,
                ) + spec_field_descriptors(fv.skip(fi as int + 1)));
            }
        } else {
            proof {
                assert(key_v.len() == 0);
                assert(spec_field_descriptors(fv.skip(fi as int)) == Seq::<
                    FieldDescriptorV,
                >::empty() + spec_field_descriptors(fv.skip(fi as int + 1)));
                assert(Seq::<FieldDescriptorV>::empty() + spec_field_descriptors(
                    fv.skip(fi as int + 1),
                ) =~= spec_field_descriptors(fv.skip(fi as int + 1)));
            }
        }
        fi = fi + 1;
    }
    proof {
        assert(fv.skip(nf as int).len() == 0);
        assert(spec_field_descriptors(fv.skip(nf as int)) =~= Seq::<FieldDescriptorV>::empty());
        assert(fds@.map_values(|f: FieldDescriptor| f@) + Seq::<FieldDescriptorV>::empty()
            =~= fds@.map_values(|f: FieldDescriptor| f@));
    }
    if fds.len() == 0 {
        proof {
            assert(fds@.map_values(|f: FieldDescriptor| f@).len() == 0);
        }
        None
    } else {
        proof {
            assert(fds@.map_values(|f: FieldDescriptor| f@).len() > 0);
        }
        Some(fds)
    }
}

fn value_type_string(code: i8) -> (r: String)
    requires
        valid_type_code(code as int),
    ensures
        r@ == spec_value_type(code as int),
{
    if code == 1 || code == 5 {
        String::from_str("BOOL")
    } else if code == 2 || code == 6 {
        String::from_str("STRING")
    } else if code == 4 || code == 8 {
        String::from_str("DOUBLE")
    } else {
        String::from_str("INT64")
    }
}

fn stream_kind_string(code: i8) -> (r: String)
    requires
        valid_type_code(code as int),
    ensures
        r@ == spec_stream_kind(code as int),
{
    if code <= 4 {
        String::new()
    } else if code <= 8 {
        String::from_str("GAUGE")
    } else {
        String::from_str("CUMULATIVE")
    }
}

/// One converted metric: declaration from the type-code table and the field
/// keys, data points from the observations.
pub fn format_metric(name: &String, metric: &Metric, end_timestamp: i64) -> (r: Result<
    MetricsData,
    ConvertError,
>)
    ensures
        (match r {
            Ok(d) => Ok(d@),
            Err(e) => Err::<MetricsDataV, ConvertError>(e),
        }) == spec_format_metric(name@, metric@, end_timestamp as int),
        r is Ok ==> r.unwrap()@.metric_name == name@,
        (metric@.wf() && crate::model::MIN_TIMESTAMP <= end_timestamp
            <= crate::model::MAX_TIMESTAMP && r is Ok) ==> metric_times_ok(r.unwrap()@),
{
    if metric.type_code < 1 || metric.type_code > 9 {
        return Err(ConvertError::InvalidMetricType);
    }
    let data = match encode_data(metric, end_timestamp) {
        Ok(d) => d,
        Err(e) => {
            return Err(e);
        },
    };
    let field_descriptor = encode_field_descriptors(metric);
    let r = MetricsData {
        metric_name: name.clone(),
        description: metric.description.clone(),
        field_descriptor,
        value_type: value_type_string(metric.type_code),
        stream_kind: stream_kind_string(metric.type_code),
        data,
    };
    Ok(r)
}

// ---------------------------------------------------------------------------
// Sorting the two output lists.
// ---------------------------------------------------------------------------

fn label_position(out: &Vec<RootLabel>, key: &String) -> (pos: usize)
    ensures
        pos <= out@.len(),
        forall|k: int| 0 <= k < pos ==> !str_lt(key@, (#[trigger] out@[k])@.key),
        pos < out@.len() ==> str_lt(key@, out@[pos as int]@.key),
{
    let mut pos: usize = 0;
    while pos < out.len()
        invariant
            pos <= out@.len(),
            forall|k: int| 0 <= k < pos ==> !str_lt(key@, (#[trigger] out@[k])@.key),
        decreases out@.len() - pos,
    {
        if str_lt_exec(key.as_str(), out[pos].key.as_str()) {
            return pos;
        }
        pos = pos + 1;
    }
    pos
}

fn dataset_position(out: &Vec<MetricsData>, name: &String) -> (pos: usize)
    ensures
        pos <= out@.len(),
        forall|k: int| 0 <= k < pos ==> !str_lt(name@, (#[trigger] out@[k])@.metric_name),
        pos < out@.len() ==> str_lt(name@, out@[pos as int]@.metric_name),
{
    let mut pos: usize = 0;
    while pos < out.len()
        invariant
            pos <= out@.len(),
            forall|k: int| 0 <= k < pos ==> !str_lt(name@, (#[trigger] out@[k])@.metric_name),
        decreases out@.len() - pos,
    {
        if str_lt_exec(name.as_str(), out[pos].metric_name.as_str()) {
            return pos;
        }
        pos = pos + 1;
    }
    pos
}

/// The entries of `s2` are those of `s1` with `x` put somewhere in between.
proof fn lemma_insert_multiset<T>(s1: Seq<T>, s2: Seq<T>, pos: int, x: T)
    requires
        0 <= pos <= s1.len(),
        s2 == s1.insert(pos, x),
    ensures
        s2.to_multiset() == s1.to_multiset().insert(x),
{
    broadcast use vstd::seq_lib::group_to_multiset_ensures;

    assert(s2.remove(pos) =~= s1);
    assert(s2[pos] == x);
    assert(s2.remove(pos).to_multiset() =~= s2.to_multiset().remove(x));
    assert(s2.contains(x));
    assert(s2.to_multiset().count(x) > 0);
    assert(s2.to_multiset() =~= s2.to_multiset().remove(x).insert(x));
}

/// Sorts root labels ascending by key, keeping the collection of entries.
fn sort_root_labels(v: Vec<RootLabel>) -> (r: Vec<RootLabel>)
    ensures
        r@.map_values(|l: RootLabel| l@).to_multiset() == v@.map_values(
            |l: RootLabel| l@,
        ).to_multiset(),
        sorted_by_key(r@.map_values(|l: RootLabel| l@), (|l: RootLabelV| l.key)),
{
    broadcast use vstd::seq_lib::group_to_multiset_ensures;

    let ghost all = v@.map_values(|l: RootLabel| l@);
    let mut src = v;
    let mut out: Vec<RootLabel> = Vec::new();
    proof {
        assert(out@.map_values(|l: RootLabel| l@).to_multiset().add(
            src@.map_values(|l: RootLabel| l@).to_multiset(),
        ) =~= all.to_multiset());
    }
    while src.len() > 0
        invariant
            out@.map_values(|l: RootLabel| l@).to_multiset().add(
                src@.map_values(|l: RootLabel| l@).to_multiset(),
            ) == all.to_multiset(),
            sorted_by_key(out@.map_values(|l: RootLabel| l@), (|l: RootLabelV| l.key)),
        decreases src@.len(),
    {
        let ghost src_seq0 = src@;
        let ghost src0 = src@.map_values(|l: RootLabel| l@);
        let ghost out0 = out@.map_values(|l: RootLabel| l@);
        let x = src.remove(0);
        let ghost xv = x@;
        proof {
            broadcast use vstd::seq_lib::group_to_multiset_ensures;
            broadcast use vstd::multiset::group_multiset_axioms;

            assert(src@ == src_seq0.remove(0));
            assert forall|k: int| 0 <= k < src@.len() implies src@.map_values(|l: RootLabel| l@)[k]
                == src0.remove(0)[k] by {
                assert(src@[k] == src_seq0[k + 1]);
                assert(src0.remove(0)[k] == src0[k + 1]);
            }
            assert(src@.map_values(|l: RootLabel| l@) =~= src0.remove(0));
            assert(src0.remove(0).to_multiset() =~= src0.to_multiset().remove(src0[0]));
            assert(src0[0] == xv);
        }
        let pos = label_position(&out, &x.key);
        let ghost posi = pos as int;
        out.insert(pos, x);
        proof {
            broadcast use vstd::seq_lib::group_to_multiset_ensures;
            broadcast use vstd::multiset::group_multiset_axioms;

            let out1 = out@.map_values(|l: RootLabel| l@);
            assert(out1 =~= out0.insert(posi, xv));
            lemma_insert_multiset(out0, out1, posi, xv);
            // the multisets still add up
            assert(out1.to_multiset().add(src0.remove(0).to_multiset()) =~= all.to_multiset());
            // sortedness is kept
            let key = |l: RootLabelV| l.key;
            assert forall|i: int, j: int| 0 <= i < j < out1.len() implies str_le(
                key(#[trigger] out1[i]),
                key(#[trigger] out1[j]),
            ) by {
                if j < posi {
                    assert(out1[i] == out0[i] && out1[j] == out0[j]);
                } else if j == posi {
                    assert(out1[i] == out0[i]);
                    lemma_str_lt_trichotomy(xv.key, out0[i].key);
                    assert(!str_lt(xv.key, out0[i].key));
                } else if i < posi {
                    assert(out1[i] == out0[i] && out1[j] == out0[j - 1]);
                    if i == j - 1 {
                    } else {
                        assert(str_le(key(out0[i]), key(out0[j - 1])));
                    }
                } else if i == posi {
                    assert(out1[j] == out0[j - 1] && j - 1 >= posi);
                    assert(str_lt(xv.key, out0[posi].key));
                    if j - 1 == posi {
                    } else {
                        assert(str_le(key(out0[posi]), key(out0[j - 1])));
                        crate::order::lemma_str_lt_le_trans(xv.key, out0[posi].key, out0[j - 1].key);
                    }
                } else {
                    assert(out1[i] == out0[i - 1] && out1[j] == out0[j - 1]);
                }
            }
        }
    }
    proof {
        assert(src@.map_values(|l: RootLabel| l@).to_multiset() =~= Seq::<
            RootLabelV,
        >::empty().to_multiset());
        assert(out@.map_values(|l: RootLabel| l@).to_multiset() =~= all.to_multiset());
    }
    out
}

/// Sorts converted metrics ascending by name, keeping the collection of
/// entries.
fn sort_dataset(v: Vec<MetricsData>) -> (r: Vec<MetricsData>)
    ensures
        r@.map_values(|d: MetricsData| d@).to_multiset() == v@.map_values(
            |d: MetricsData| d@,
        ).to_multiset(),
        sorted_by_key(r@.map_values(|d: MetricsData| d@), (|d: MetricsDataV| d.metric_name)),
{
    broadcast use vstd::seq_lib::group_to_multiset_ensures;

    let ghost all = v@.map_values(|d: MetricsData| d@);
    let mut src = v;
    let mut out: Vec<MetricsData> = Vec::new();
    proof {
        assert(out@.map_values(|d: MetricsData| d@).to_multiset().add(
            src@.map_values(|d: MetricsData| d@).to_multiset(),
        ) =~= all.to_multiset());
    }
    while src.len() > 0
        invariant
            out@.map_values(|d: MetricsData| d@).to_multiset().add(
                src@.map_values(|d: MetricsData| d@).to_multiset(),
            ) == all.to_multiset(),
            sorted_by_key(out@.map_values(|d: MetricsData| d@), (|d: MetricsDataV| d.metric_name)),
        decreases src@.len(),
    {
        let ghost src_seq0 = src@;
        let ghost src0 = src@.map_values(|d: MetricsData| d@);
        let ghost out0 = out@.map_values(|d: MetricsData| d@);
        let x = src.remove(0);
        let ghost xv = x@;
        proof {
            broadcast use vstd::seq_lib::group_to_multiset_ensures;
            broadcast use vstd::multiset::group_multiset_axioms;

            assert(src@ == src_seq0.remove(0));
            assert forall|k: int| 0 <= k < src@.len() implies src@.map_values(|d: MetricsData| d@)[k]
                == src0.remove(0)[k] by {
                assert(src@[k] == src_seq0[k + 1]);
                assert(src0.remove(0)[k] == src0[k + 1]);
            }
            assert(src@.map_values(|d: MetricsData| d@) =~= src0.remove(0));
            assert(src0.remove(0).to_multiset() =~= src0.to_multiset().remove(src0[0]));
            assert(src0[0] == xv);
        }
        let pos = dataset_position(&out, &x.metric_name);
        let ghost posi = pos as int;
        out.insert(pos, x);
        proof {
            broadcast use vstd::seq_lib::group_to_multiset_ensures;
            broadcast use vstd::multiset::group_multiset_axioms;

            let out1 = out@.map_values(|d: MetricsData| d@);
            assert(out1 =~= out0.insert(posi, xv));
            lemma_insert_multiset(out0, out1, posi, xv);
            assert(out1.to_multiset().add(src0.remove(0).to_multiset()) =~= all.to_multiset());
            let key = |d: MetricsDataV| d.metric_name;
            assert forall|i: int, j: int| 0 <= i < j < out1.len() implies str_le(
                key(#[trigger] out1[i]),
                key(#[trigger] out1[j]),
            ) by {
                if j < posi {
                    assert(out1[i] == out0[i] && out1[j] == out0[j]);
                } else if j == posi {
                    assert(out1[i] == out0[i]);
                    lemma_str_lt_trichotomy(xv.metric_name, out0[i].metric_name);
                    assert(!str_lt(xv.metric_name, out0[i].metric_name));
                } else if i < posi {
                    assert(out1[i] == out0[i] && out1[j] == out0[j - 1]);
                    if i == j - 1 {
                    } else {
                        assert(str_le(key(out0[i]), key(out0[j - 1])));
                    }
                } else if i == posi {
                    assert(out1[j] == out0[j - 1] && j - 1 >= posi);
                    assert(str_lt(xv.metric_name, out0[posi].metric_name));
                    if j - 1 == posi {
                    } else {
                        assert(str_le(key(out0[posi]), key(out0[j - 1])));
                        crate::order::lemma_str_lt_le_trans(
                            xv.metric_name,
                            out0[posi].metric_name,
                            out0[j - 1].metric_name,
                        );
                    }
                } else {
                    assert(out1[i] == out0[i - 1] && out1[j] == out0[j - 1]);
                }
            }
        }
    }
    proof {
        assert(src@.map_values(|d: MetricsData| d@).to_multiset() =~= Seq::<
            MetricsDataV,
        >::empty().to_multiset());
        assert(out@.map_values(|d: MetricsData| d@).to_multiset() =~= all.to_multiset());
    }
    out
}

/// Converts one snapshot: every metric converted, dataset sorted by name,
/// root labels sorted by key, all wrapped in a single collection.  Fails with
/// the first failing metric's error, in snapshot order.
pub fn convert(metrics: &MetricSet, end_timestamp: i64) -> (r: Result<CollectionWrapper, ConvertError>)
    ensures
        (r is Ok) == (spec_dataset(metrics@.metrics, end_timestamp as int) is Ok),
        r is Err ==> spec_dataset(metrics@.metrics, end_timestamp as int) == Err::<
            Seq<MetricsDataV>,
            ConvertError,
        >(r.unwrap_err()),
        r is Ok ==> convert_post(metrics@, end_timestamp as int, r.unwrap()@),
        (metrics@.wf() && crate::model::MIN_TIMESTAMP <= end_timestamp
            <= crate::model::MAX_TIMESTAMP && r is Ok) ==> wrapper_times_ok(r.unwrap()@),
{
    broadcast use vstd::seq_lib::group_to_multiset_ensures;

    let ghost mv = metrics@.metrics;
    let ghost end = end_timestamp as int;
    // convert every metric, in snapshot order
    let mut dataset: Vec<MetricsData> = Vec::new();
    let nm = metrics.metrics.len();
    let mut mi: usize = 0;
    proof {
        assert(mv.len() == nm);
        assert(mv.skip(0) =~= mv);
        assert(dataset@.map_values(|d: MetricsData| d@) =~= Seq::<MetricsDataV>::empty());
    }
    while mi < nm
        invariant
            mi <= nm,
            nm == metrics@.metrics.len(),
            nm == metrics.metrics@.len(),
            mv == metrics@.metrics,
            end == end_timestamp as int,
            spec_dataset(mv, end) == (match spec_dataset(mv.skip(mi as int), end) {
                Ok(rest) => Ok::<Seq<MetricsDataV>, ConvertError>(
                    dataset@.map_values(|d: MetricsData| d@) + rest,
                ),
                Err(e) => Err(e),
            }),
            (metrics@.wf() && crate::model::MIN_TIMESTAMP <= end_timestamp
                <= crate::model::MAX_TIMESTAMP) ==> forall|k: int|
                0 <= k < dataset@.len() ==> metric_times_ok((#[trigger] dataset@[k])@),
        decreases nm - mi,
    {
        proof {
            assert(metrics.metrics@[mi as int].0@ == mv[mi as int].0);
            assert(metrics.metrics@[mi as int].1@ == mv[mi as int].1);
            assert(mv.skip(mi as int)[0] == mv[mi as int]);
            assert(mv.skip(mi as int).skip(1) =~= mv.skip(mi as int + 1));
        }
        match format_metric(&metrics.metrics[mi].0, &metrics.metrics[mi].1, end_timestamp) {
            Err(e) => {
                proof {
                    assert(spec_dataset(mv, end) == Err::<Seq<MetricsDataV>, ConvertError>(e));
                }
                return Err(e);
            },
            Ok(d) => {
                let ghost d_v = spec_format_metric(mv[mi as int].0, mv[mi as int].1, end).unwrap();
                let ghost before = dataset@.map_values(|d: MetricsData| d@);
                proof {
                    assert(d@ == d_v);
                    if metrics@.wf() {
                        assert(mv[mi as int].1.wf());
                    }
                }
                dataset.push(d);
                proof {
                    assert(dataset@.map_values(|d: MetricsData| d@) =~= before.push(d_v));
                    if spec_dataset(mv.skip(mi as int + 1), end) is Ok {
                        let rest = spec_dataset(mv.skip(mi as int + 1), end).unwrap();
                        assert(before + (seq![d_v] + rest) =~= before.push(d_v) + rest);
                    }
                }
            },
        }
        mi = mi + 1;
    }
    proof {
        assert(mv.skip(nm as int).len() == 0);
        assert(spec_dataset(mv.skip(nm as int), end) == Ok::<Seq<MetricsDataV>, ConvertError>(
            Seq::empty(),
        ));
        assert(dataset@.map_values(|d: MetricsData| d@) + Seq::<MetricsDataV>::empty()
            =~= dataset@.map_values(|d: MetricsData| d@));
    }
    let ghost pre_sort_v = dataset@.map_values(|d: MetricsData| d@);
    let dataset = sort_dataset(dataset);
    // gather and sort the root labels
    let ghost rlv = metrics@.root_labels;
    let mut labels: Vec<RootLabel> = Vec::new();
    let nl = metrics.root_labels.len();
    let mut li: usize = 0;
    proof {
        assert(rlv.len() == nl);
        assert(labels@.map_values(|l: RootLabel| l@) =~= spec_root_labels(rlv).take(0));
    }
    while li < nl
        invariant
            li <= nl,
            nl == metrics@.root_labels.len(),
            nl == metrics.root_labels@.len(),
            rlv == metrics@.root_labels,
            labels@.map_values(|l: RootLabel| l@) == spec_root_labels(rlv).take(li as int),
        decreases nl - li,
    {
        let ghost before = labels@.map_values(|l: RootLabel| l@);
        proof {
            assert(metrics.root_labels@[li as int].0@ == rlv[li as int].0);
            assert(metrics.root_labels@[li as int].1@ == rlv[li as int].1);
            assert(spec_root_labels(rlv)[li as int] == RootLabelV {
                key: rlv[li as int].0,
                value: ValueV::String(rlv[li as int].1),
            });
        }
        labels.push(
            RootLabel {
                key: metrics.root_labels[li].0.clone(),
                value: Value::String(metrics.root_labels[li].1.clone()),
            },
        );
        proof {
            assert(labels@.map_values(|l: RootLabel| l@) =~= before.push(
                spec_root_labels(rlv)[li as int],
            ));
            assert(before.push(spec_root_labels(rlv)[li as int]) =~= spec_root_labels(rlv).take(
                li as int + 1,
            ));
        }
        li = li + 1;
    }
    proof {
        assert(spec_root_labels(rlv).take(nl as int) =~= spec_root_labels(rlv));
    }
    let root_labels = sort_root_labels(labels);
    let ghost ds_v = dataset@.map_values(|d: MetricsData| d@);
    let ghost rl_v = root_labels@.map_values(|l: RootLabel| l@);
    let collection = MetricsCollection { dataset, root_labels };
    proof {
        assert(collection@.dataset == ds_v);
        assert(collection@.root_labels == rl_v);
    }
    let ghost c_v = collection@;
    let mut collections: Vec<MetricsCollection> = Vec::new();
    collections.push(collection);
    let wrapper = CollectionWrapper { collection: collections };
    proof {
        broadcast use vstd::seq_lib::group_to_multiset_ensures;

        assert(wrapper@.collection =~= seq![c_v]);
        assert(wrapper@.collection.len() == 1);
        assert(wrapper@.collection[0].dataset == ds_v);
        assert(wrapper@.collection[0].root_labels == rl_v);
        if metrics@.wf() && crate::model::MIN_TIMESTAMP <= end_timestamp
            <= crate::model::MAX_TIMESTAMP {
            assert forall|k: int| 0 <= k < ds_v.len() implies metric_times_ok(
                #[trigger] ds_v[k],
            ) by {
                assert(ds_v.contains(ds_v[k]));
                assert(ds_v.to_multiset().count(ds_v[k]) > 0);
                assert(pre_sort_v.to_multiset().count(ds_v[k]) > 0);
                assert(pre_sort_v.contains(ds_v[k]));
                let j = choose|j: int| 0 <= j < pre_sort_v.len() && pre_sort_v[j] == ds_v[k];
                assert(metric_times_ok(pre_sort_v[j]));
            }
        }
    }
    Ok(wrapper)
}

// ---------------------------------------------------------------------------
// Laws of the conversion.
// ---------------------------------------------------------------------------

/// A converted metric's stream kind follows the type-code table: codes 1 to 4
/// carry none, 5 to 8 carry GAUGE, 9 carries CUMULATIVE, and any other code
/// fails the conversion.
pub proof fn lemma_stream_kind_table(name: Seq<char>, m: MetricV, end: int)
    ensures
        spec_format_metric(name, m, end) is Ok ==> spec_format_metric(
            name,
            m,
            end,
        ).unwrap().stream_kind == spec_stream_kind(m.type_code),
        1 <= m.type_code <= 4 ==> spec_stream_kind(m.type_code) == Seq::<char>::empty(),
        5 <= m.type_code <= 8 ==> spec_stream_kind(m.type_code) == "GAUGE"@,
        m.type_code == 9 ==> spec_stream_kind(m.type_code) == "CUMULATIVE"@,
        !valid_type_code(m.type_code) ==> spec_format_metric(name, m, end) == Err::<
            MetricsDataV,
            ConvertError,
        >(ConvertError::InvalidMetricType),
{
}

/// A converted metric's value type follows the type-code table, the same for
/// the plain, gauge and cumulative variants of one value kind.
pub proof fn lemma_value_type_table(name: Seq<char>, m: MetricV, end: int)
    ensures
        spec_format_metric(name, m, end) is Ok ==> spec_format_metric(
            name,
            m,
            end,
        ).unwrap().value_type == spec_value_type(m.type_code),
        m.type_code == 1 || m.type_code == 5 ==> spec_value_type(m.type_code) == "BOOL"@,
        m.type_code == 2 || m.type_code == 6 ==> spec_value_type(m.type_code) == "STRING"@,
        m.type_code == 3 || m.type_code == 7 || m.type_code == 9 ==> spec_value_type(m.type_code)
            == "INT64"@,
        m.type_code == 4 || m.type_code == 8 ==> spec_value_type(m.type_code) == "DOUBLE"@,
        !valid_type_code(m.type_code) ==> spec_format_metric(name, m, end) == Err::<
            MetricsDataV,
            ConvertError,
        >(ConvertError::InvalidMetricType),
{
}

/// Field encoding zips the comma-split key segments with the comma-split
/// value segments positionally, truncating to the shorter list; the empty key
/// yields no field entries.
pub proof fn lemma_field_zip(key: Seq<char>, valstr: Seq<char>)
    ensures
        key.len() == 0 ==> spec_field(key, valstr) is None,
        key.len() > 0 ==> spec_field(key, valstr) is Some,
        key.len() > 0 ==> ({
            let names = spec_split(key, ',');
            let vals = spec_split(valstr, ',');
            let fvs = spec_field(key, valstr).unwrap();
            &&& fvs.len() == (if names.len() <= vals.len() {
                names.len()
            } else {
                vals.len()
            })
            &&& forall|i: int|
                0 <= i < fvs.len() ==> #[trigger] fvs[i] == FieldValueV {
                    name: names[i],
                    value: ValueV::String(vals[i]),
                }
        }),
{
}

/// A whole snapshot converts exactly when each of its metrics does, and then
/// the dataset is the snapshot-order sequence of the converted metrics.
pub proof fn lemma_spec_dataset_map(metrics: Seq<(Seq<char>, MetricV)>, end: int)
    ensures
        (spec_dataset(metrics, end) is Ok) == (forall|i: int|
            0 <= i < metrics.len() ==> spec_format_metric(
                (#[trigger] metrics[i]).0,
                metrics[i].1,
                end,
            ) is Ok),
        spec_dataset(metrics, end) is Ok ==> spec_dataset(metrics, end).unwrap()
            == metrics.map_values(
            (|p: (Seq<char>, MetricV)| spec_format_metric(p.0, p.1, end).unwrap()),
        ),
    decreases metrics.len(),
{
    let f = |p: (Seq<char>, MetricV)| spec_format_metric(p.0, p.1, end).unwrap();
    if metrics.len() == 0 {
        assert(spec_dataset(metrics, end).unwrap() =~= metrics.map_values(f));
    } else {
        lemma_spec_dataset_map(metrics.skip(1), end);
        assert(forall|i: int|
            1 <= i < metrics.len() ==> metrics.skip(1)[i - 1] == #[trigger] metrics[i]);
        if spec_format_metric(metrics[0].0, metrics[0].1, end) is Ok {
            if spec_dataset(metrics.skip(1), end) is Ok {
                assert(forall|i: int|
                    0 <= i < metrics.skip(1).len() ==> spec_format_metric(
                        (#[trigger] metrics.skip(1)[i]).0,
                        metrics.skip(1)[i].1,
                        end,
                    ) is Ok);
                assert(spec_dataset(metrics, end).unwrap() =~= metrics.map_values(f)) by {
                    assert(spec_dataset(metrics.skip(1), end).unwrap() == metrics.skip(
                        1,
                    ).map_values(f));
                }
            } else {
                let ghost bad = choose|i: int|
                    0 <= i < metrics.skip(1).len() && !(spec_format_metric(
                        (#[trigger] metrics.skip(1)[i]).0,
                        metrics.skip(1)[i].1,
                        end,
                    ) is Ok);
                assert(!(spec_format_metric(
                    (metrics[bad + 1]).0,
                    metrics[bad + 1].1,
                    end,
                ) is Ok));
            }
        }
    }
}

/// The conversion is deterministic in the snapshot's contents: two
/// well-formed snapshots holding the same metrics and the same root labels,
/// in any insertion order, convert to equal outputs.
pub proof fn lemma_convert_deterministic(
    a: MetricSetV,
    b: MetricSetV,
    end: int,
    w1: CollectionWrapperV,
    w2: CollectionWrapperV,
)
    requires
        a.wf(),
        b.wf(),
        a.metrics.to_multiset() == b.metrics.to_multiset(),
        a.root_labels.to_multiset() == b.root_labels.to_multiset(),
        convert_post(a, end, w1),
        convert_post(b, end, w2),
    ensures
        w1 == w2,
{
    broadcast use vstd::seq_lib::group_to_multiset_ensures;

    let label_of = |p: (Seq<char>, Seq<char>)| RootLabelV { key: p.0, value: ValueV::String(p.1) };
    let lkey = |l: RootLabelV| l.key;
    let rl1 = w1.collection[0].root_labels;
    let rl2 = w2.collection[0].root_labels;
    // the two root-label lists hold the same entries
    crate::order::lemma_map_values_multiset(a.root_labels, b.root_labels, label_of);
    assert(spec_root_labels(a.root_labels) == a.root_labels.map_values(label_of));
    assert(spec_root_labels(b.root_labels) == b.root_labels.map_values(label_of));
    assert(rl1.to_multiset() == rl2.to_multiset());
    // distinct keys carry over from the snapshot to the sorted list
    assert(distinct_keys(spec_root_labels(a.root_labels), lkey)) by {
        assert(forall|i: int|
            0 <= i < a.root_labels.len() ==> (#[trigger] spec_root_labels(a.root_labels)[i]).key
                == a.root_labels[i].0);
    }
    crate::order::lemma_distinct_keys_transfer(spec_root_labels(a.root_labels), rl1, lkey);
    lemma_sorted_unique(rl1, rl2, lkey);
    // the two datasets hold the same entries
    let fmt = |p: (Seq<char>, MetricV)| spec_format_metric(p.0, p.1, end).unwrap();
    let nkey = |d: MetricsDataV| d.metric_name;
    let ds1 = w1.collection[0].dataset;
    let ds2 = w2.collection[0].dataset;
    lemma_spec_dataset_map(a.metrics, end);
    lemma_spec_dataset_map(b.metrics, end);
    crate::order::lemma_map_values_multiset(a.metrics, b.metrics, fmt);
    assert(ds1.to_multiset() == ds2.to_multiset());
    // a converted metric is named after its snapshot entry, so names stay
    // pairwise distinct
    assert(distinct_keys(a.metrics.map_values(fmt), nkey)) by {
        assert(forall|i: int|
            0 <= i < a.metrics.len() ==> (#[trigger] a.metrics.map_values(fmt)[i]).metric_name
                == a.metrics[i].0);
    }
    crate::order::lemma_distinct_keys_transfer(a.metrics.map_values(fmt), ds1, nkey);
    lemma_sorted_unique(ds1, ds2, nkey);
    // both wrappers hold one equal collection
    let c1 = w1.collection[0];
    let c2 = w2.collection[0];
    assert(c1 == MetricsCollectionV { dataset: ds1, root_labels: rl1 });
    assert(c2 == MetricsCollectionV { dataset: ds2, root_labels: rl2 });
    assert(w1.collection =~= w2.collection);
    assert(w1 == CollectionWrapperV { collection: w1.collection });
    assert(w2 == CollectionWrapperV { collection: w2.collection });
}

} // verus!
