//! Event metrics packaged as a one-row TSV batch for the metrics table:
//! a header line naming the columns, then one line of tab-separated
//! values whose payload is a ClickHouse `Map(String, String)` literal.

use vstd::prelude::*;
use serde_json::Value;
use crate::json::{entries_view, JsonLeaf, JsonNumber, LeafV};
use crate::text::{
    chars_of, concat_chars, int_text, int_text_chars, join, join_chars, replace_char,
    replace_chars, string_of, trim, trim_ws, views,
};

verus! {

broadcast use vstd::string::group_string_axioms;

/// One event to record.
pub struct EventMetric {
    pub event_type: String,
    pub event_name: String,
    pub duration_ms: i64,
    pub status: String,
    pub user: String,
    pub payload_json: String,
}

// ---------------------------------------------------------------------
// Specification
// ---------------------------------------------------------------------

pub open spec fn tsv_header() -> Seq<char> {
    "event_time\tevent_type\tevent_name\tduration_ms\tstatus\tuser\tcomment\tpayload\n"@
}

/// A field with its tabs and line feeds turned into spaces.
pub open spec fn clean_field(s: Seq<char>) -> Seq<char> {
    replace_char(replace_char(s, '\t', seq![' ']), '\n', seq![' '])
}

/// A single quote escaped with a backslash.
pub open spec fn escape_quotes(s: Seq<char>) -> Seq<char> {
    replace_char(s, '\'', seq!['\\', '\''])
}

/// `'key':'value'`.
pub open spec fn map_element(e: (Seq<char>, Seq<char>)) -> Seq<char> {
    seq!['\''] + escape_quotes(e.0) + seq!['\'', ':', '\''] + escape_quotes(e.1) + seq!['\'']
}

/// `{'k1':'v1','k2':'v2'}`: the ClickHouse map literal of the entries.
pub open spec fn map_literal(entries: Seq<(Seq<char>, Seq<char>)>) -> Seq<char> {
    seq!['{'] + join(entries.map_values(|e: (Seq<char>, Seq<char>)| map_element(e)), seq![','])
        + seq!['}']
}

/// What `serde_json` reads from `text` as a JSON object: its entries in
/// the order that `serde_json::Map` gives them, each value as a
/// `LeafV` (a number by the text that `Display` of the number writes, an
/// array or object by its compact JSON text); none where `text` is no
/// JSON object.
pub uninterp spec fn serde_object_entries(text: Seq<char>) -> Option<Seq<(Seq<char>, LeafV)>>;

/// The text a payload value is written as: a string by its contents,
/// any other value by its JSON text.
pub open spec fn payload_text(v: LeafV) -> Seq<char> {
    match v {
        LeafV::Null => "null"@,
        LeafV::Bool(b) => if b {
            "true"@
        } else {
            "false"@
        },
        LeafV::Number(t) => t,
        LeafV::Str(s) => s,
        LeafV::Nested(t) => t,
    }
}

/// Each payload entry with its value as written.
pub open spec fn payload_texts(es: Seq<(Seq<char>, LeafV)>) -> Seq<(Seq<char>, Seq<char>)> {
    es.map_values(|e: (Seq<char>, LeafV)| (e.0, payload_text(e.1)))
}

/// The payload entries of a metric, each value as written: none for a
/// blank payload or one that is no JSON object.
pub open spec fn payload_entries(payload: Seq<char>) -> Seq<(Seq<char>, Seq<char>)> {
    if trim(payload).len() == 0 {
        Seq::empty()
    } else {
        match serde_object_entries(payload) {
            Some(es) => payload_texts(es),
            None => Seq::empty(),
        }
    }
}

/// The TSV batch of a metric with the given payload entries.
pub open spec fn metric_tsv(
    event_type: Seq<char>,
    event_name: Seq<char>,
    duration_ms: int,
    status: Seq<char>,
    user: Seq<char>,
    entries: Seq<(Seq<char>, Seq<char>)>,
) -> Seq<char> {
    tsv_header() + seq!['\t'] + clean_field(event_type) + seq!['\t'] + clean_field(event_name)
        + seq!['\t'] + int_text(duration_ms) + seq!['\t'] + clean_field(status) + seq!['\t']
        + clean_field(user) + seq!['\t', '\t'] + map_literal(entries) + seq!['\n']
}

pub open spec fn pairs_view(v: Seq<(String, String)>) -> Seq<(Seq<char>, Seq<char>)> {
    v.map_values(|e: (String, String)| (e.0@, e.1@))
}

// ---------------------------------------------------------------------
// Implementation
// ---------------------------------------------------------------------

/// `serde_json::from_str` of `text` as a `serde_json::Map`, each value
/// handed over as the `JsonLeaf` of its variant, a number and an array or
/// object by their `to_string`. The result is `serde_object_entries` of
/// the text.
#[verifier::external_body]
fn object_entries_of(text: &str) -> (r: Option<Vec<(String, JsonLeaf)>>)
    ensures
        match r {
            Some(v) => serde_object_entries(text@) == Some(entries_view(v@)),
            None => serde_object_entries(text@) is None,
        },
{
    let map = serde_json::from_str::<serde_json::Map<String, Value>>(text).ok()?;
    Some(map.into_iter().map(|(k, v)| (k, match v {
        Value::Null => JsonLeaf::Null,
        Value::Bool(b) => JsonLeaf::Bool(b),
        Value::Number(n) => JsonLeaf::Number(JsonNumber::from_text(n.to_string())),
        Value::String(s) => JsonLeaf::String(s),
        o @ (Value::Array(_) | Value::Object(_)) => JsonLeaf::Nested(o.to_string()),
    })).collect())
}

/// The text of a payload value: a string by its contents, any other value
/// by its JSON text.
pub fn payload_value_text(v: &JsonLeaf) -> (t: String)
    ensures
        t@ == payload_text(v@),
{
    match v {
        JsonLeaf::Null => "null".to_string(),
        JsonLeaf::Bool(b) => if *b {
            "true".to_string()
        } else {
            "false".to_string()
        },
        JsonLeaf::Number(n) => n.text().clone(),
        JsonLeaf::String(s) => s.clone(),
        JsonLeaf::Nested(t) => t.clone(),
    }
}

/// Each payload entry with its value as written.
fn payload_pairs(es: &Vec<(String, JsonLeaf)>) -> (out: Vec<(String, String)>)
    ensures
        pairs_view(out@) == payload_texts(entries_view(es@)),
{
    let mut out: Vec<(String, String)> = Vec::new();
    let mut i: usize = 0;
    while i < es.len()
        invariant
            i <= es@.len(),
            pairs_view(out@) == payload_texts(entries_view(es@)).take(i as int),
        decreases es@.len() - i,
    {
        let ghost before = pairs_view(out@);
        out.push((es[i].0.clone(), payload_value_text(&es[i].1)));
        assert(pairs_view(out@) =~= before.push(payload_texts(entries_view(es@))[i as int]));
        assert(payload_texts(entries_view(es@)).take(i + 1) =~= before.push(
            payload_texts(entries_view(es@))[i as int],
        ));
        i = i + 1;
    }
    assert(payload_texts(entries_view(es@)).take(es@.len() as int) =~= payload_texts(
        entries_view(es@),
    ));
    out
}

fn clean_chars(s: &String) -> (out: Vec<char>)
    ensures
        out@ == clean_field(s@),
{
    let cs = chars_of(s.as_str());
    let sp = [' '];
    assert(sp@ =~= seq![' ']);
    let a = replace_chars(cs.as_slice(), '\t', &sp);
    replace_chars(a.as_slice(), '\n', &sp)
}

fn map_literal_chars(entries: &Vec<(String, String)>) -> (out: Vec<char>)
    ensures
        out@ == map_literal(pairs_view(entries@)),
{
    let ghost es = pairs_view(entries@);
    let mut elems: Vec<Vec<char>> = Vec::new();
    let mut i: usize = 0;
    while i < entries.len()
        invariant
            i <= entries@.len(),
            es == pairs_view(entries@),
            views(elems@) == es.map_values(|e: (Seq<char>, Seq<char>)| map_element(e)).take(
                i as int,
            ),
        decreases entries@.len() - i,
    {
        let k = chars_of(entries[i].0.as_str());
        let v = chars_of(entries[i].1.as_str());
        let mut el: Vec<char> = vec!['\''];
        concat_chars(&mut el, replace_chars(k.as_slice(), '\'', &['\\', '\'']).as_slice());
        concat_chars(&mut el, &['\'', ':', '\'']);
        concat_chars(&mut el, replace_chars(v.as_slice(), '\'', &['\\', '\'']).as_slice());
        el.push('\'');
        assert(el@ =~= map_element(es[i as int]));
        let ghost before = views(elems@);
        elems.push(el);
        assert(views(elems@) =~= before.push(el@));
        assert(es.map_values(|e: (Seq<char>, Seq<char>)| map_element(e)).take(i + 1) =~= before.push(
            el@,
        ));
        i = i + 1;
    }
    assert(es.map_values(|e: (Seq<char>, Seq<char>)| map_element(e)).take(entries@.len() as int)
        =~= es.map_values(|e: (Seq<char>, Seq<char>)| map_element(e)));
    let mut out: Vec<char> = vec!['{'];
    let comma = [','];
    assert(comma@ =~= seq![',']);
    concat_chars(&mut out, join_chars(&elems, &comma).as_slice());
    out.push('}');
    assert(out@ =~= map_literal(es));
    out
}

impl EventMetric {
    /// `new`: the metric with these fields.
    pub fn new(
        event_type: String,
        event_name: String,
        duration_ms: i64,
        status: String,
        user: String,
        payload_json: String,
    ) -> (m: Self)
        ensures
            m.event_type == event_type,
            m.event_name == event_name,
            m.duration_ms == duration_ms,
            m.status == status,
            m.user == user,
            m.payload_json == payload_json,
    {
        Self { event_type, event_name, duration_ms, status, user, payload_json }
    }

    /// The TSV batch of this metric with `entries` as its payload.
    pub fn to_tsv_with_entries(&self, entries: &Vec<(String, String)>) -> (tsv: String)
        ensures
            tsv@ == metric_tsv(
                self.event_type@,
                self.event_name@,
                self.duration_ms as int,
                self.status@,
                self.user@,
                pairs_view(entries@),
            ),
    {
        let mut out = chars_of(
            "event_time\tevent_type\tevent_name\tduration_ms\tstatus\tuser\tcomment\tpayload\n",
        );
        out.push('\t');
        concat_chars(&mut out, clean_chars(&self.event_type).as_slice());
        out.push('\t');
        concat_chars(&mut out, clean_chars(&self.event_name).as_slice());
        out.push('\t');
        concat_chars(&mut out, int_text_chars(self.duration_ms).as_slice());
        out.push('\t');
        concat_chars(&mut out, clean_chars(&self.status).as_slice());
        out.push('\t');
        concat_chars(&mut out, clean_chars(&self.user).as_slice());
        out.push('\t');
        out.push('\t');
        concat_chars(&mut out, map_literal_chars(entries).as_slice());
        out.push('\n');
        assert(out@ =~= metric_tsv(
            self.event_type@,
            self.event_name@,
            self.duration_ms as int,
            self.status@,
            self.user@,
            pairs_view(entries@),
        ));
        string_of(out.as_slice())
    }

    /// `to_tsv_package`: the TSV batch of this metric, its payload read
    /// from `payload_json`.
    pub fn to_tsv_package(&self) -> (tsv: String)
        ensures
            tsv@ == metric_tsv(
                self.event_type@,
                self.event_name@,
                self.duration_ms as int,
                self.status@,
                self.user@,
                payload_entries(self.payload_json@),
            ),
    {
        let payload = chars_of(self.payload_json.as_str());
        let entries: Vec<(String, String)> = if trim_ws(payload.as_slice()).len() == 0 {
            Vec::new()
        } else {
            match object_entries_of(self.payload_json.as_str()) {
                Some(es) => payload_pairs(&es),
                None => Vec::new(),
            }
        };
        assert(pairs_view(entries@) =~= payload_entries(self.payload_json@));
        self.to_tsv_with_entries(&entries)
    }

    /// `prepare_metric_tsv`: the TSV batch of the metric with these fields.
    pub fn prepare_metric_tsv(
        event_type: String,
        event_name: String,
        duration_ms: i64,
        status: String,
        user: String,
        payload_json: String,
    ) -> (tsv: String)
        ensures
            tsv@ == metric_tsv(
                event_type@,
                event_name@,
                duration_ms as int,
                status@,
                user@,
                payload_entries(payload_json@),
            ),
    {
        let metric = EventMetric::new(event_type, event_name, duration_ms, status, user, payload_json);
        metric.to_tsv_package()
    }
}

} // verus!
