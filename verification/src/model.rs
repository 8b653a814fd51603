//! The metric data model: the typed in-memory representation of one snapshot.
//!
//! A snapshot is immutable once constructed: it is built by the decoder,
//! consumed by exactly one conversion call, and then discarded.
//!
//! Timestamps are held as seconds since the Unix epoch.  Numbers are held as
//! their decimal text rendering from the wire, together with spec-level
//! functions giving their truncated integer form (see `text`).

use vstd::prelude::*;

verus! {

/// Earliest timestamp the wire format can carry (0000-01-01T00:00:00Z).
pub const MIN_TIMESTAMP: i64 = -62167219200;

/// Latest timestamp the wire format can carry (9999-12-31T23:59:59Z).
pub const MAX_TIMESTAMP: i64 = 253402300799;

/// A numeric observation, kept as the decimal text it had on the wire.
#[derive(Debug, PartialEq, Eq)]
pub struct NumberValue {
    pub text: String,
}

impl View for NumberValue {
    type V = Seq<char>;

    open spec fn view(&self) -> Seq<char> {
        self.text@
    }
}

/// The typed value of one observation: a closed variant.
#[derive(Debug, PartialEq, Eq)]
pub enum MetricValueData {
    Bool(bool),
    Number(NumberValue),
    String(String),
}

pub enum MetricValueDataV {
    Bool(bool),
    Number(Seq<char>),
    String(Seq<char>),
}

impl View for MetricValueData {
    type V = MetricValueDataV;

    open spec fn view(&self) -> MetricValueDataV {
        match self {
            MetricValueData::Bool(b) => MetricValueDataV::Bool(*b),
            MetricValueData::Number(n) => MetricValueDataV::Number(n@),
            MetricValueData::String(s) => MetricValueDataV::String(s@),
        }
    }
}

/// One observation of a metric.
#[derive(Debug, PartialEq, Eq)]
pub struct MetricValue {
    pub created: i64,
    pub data: MetricValueData,
    pub last_updated: i64,
    pub value: String,
}

pub struct MetricValueV {
    pub created: int,
    pub data: MetricValueDataV,
    pub last_updated: int,
    pub value: Seq<char>,
}

impl View for MetricValue {
    type V = MetricValueV;

    open spec fn view(&self) -> MetricValueV {
        MetricValueV {
            created: self.created as int,
            data: self.data@,
            last_updated: self.last_updated as int,
            value: self.value@,
        }
    }
}

impl MetricValueV {
    /// The interval start may not follow the most recent update, and both
    /// timestamps must be representable on the wire.
    pub open spec fn wf(self) -> bool {
        MIN_TIMESTAMP <= self.created <= self.last_updated <= MAX_TIMESTAMP
    }
}

/// One named metric definition within a snapshot.
#[derive(Debug, PartialEq, Eq)]
pub struct Metric {
    pub description: String,
    pub fields: Vec<(String, Vec<MetricValue>)>,
    pub type_code: i8,
}

pub struct MetricV {
    pub description: Seq<char>,
    pub fields: Seq<(Seq<char>, Seq<MetricValueV>)>,
    pub type_code: int,
}

impl View for Metric {
    type V = MetricV;

    open spec fn view(&self) -> MetricV {
        MetricV {
            description: self.description@,
            fields: self.fields@.map_values(
                |p: (String, Vec<MetricValue>)|
                    (p.0@, p.1@.map_values(|v: MetricValue| v@)),
            ),
            type_code: self.type_code as int,
        }
    }
}

/// Keys of an association list are pairwise distinct.
pub open spec fn keys_unique<T>(s: Seq<(Seq<char>, T)>) -> bool {
    forall|i: int, j: int| 0 <= i < j < s.len() ==> (#[trigger] s[i]).0 != (#[trigger] s[j]).0
}

impl MetricV {
    pub open spec fn wf(self) -> bool {
        &&& keys_unique(self.fields)
        &&& forall|i: int, j: int|
            0 <= i < self.fields.len() && 0 <= j < (#[trigger] self.fields[i]).1.len()
                ==> (#[trigger] self.fields[i].1[j]).wf()
    }
}

/// One snapshot: named metrics plus process-wide root labels.
#[derive(Debug, PartialEq, Eq)]
pub struct MetricSet {
    pub metrics: Vec<(String, Metric)>,
    pub root_labels: Vec<(String, String)>,
}

pub struct MetricSetV {
    pub metrics: Seq<(Seq<char>, MetricV)>,
    pub root_labels: Seq<(Seq<char>, Seq<char>)>,
}

impl View for MetricSet {
    type V = MetricSetV;

    open spec fn view(&self) -> MetricSetV {
        MetricSetV {
            metrics: self.metrics@.map_values(|p: (String, Metric)| (p.0@, p.1@)),
            root_labels: self.root_labels@.map_values(|p: (String, String)| (p.0@, p.1@)),
        }
    }
}

impl MetricSetV {
    pub open spec fn wf(self) -> bool {
        &&& keys_unique(self.metrics)
        &&& keys_unique(self.root_labels)
        &&& forall|i: int| 0 <= i < self.metrics.len() ==> (#[trigger] self.metrics[i]).1.wf()
    }
}

} // verus!
