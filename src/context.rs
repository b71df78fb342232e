//! The per-execution state threaded between nodes, and what each node returns.
use vstd::prelude::*;
use vstd::string::*;
use crate::json::{JsonData, JsonValue, entries_data, first_key, lemma_entries_data, clone_values, items_data};
use crate::text::same_text;

verus! {

/// An uploaded file.
pub struct FileInfo {
    pub filename: String,
    pub content_type: String,
    pub size: u64,
    pub path: String,
}

/// The mutable state of one execution. `data` is always a list, even for one item.
pub struct ExecutionContext {
    pub data: Vec<JsonValue>,
    pub files: Vec<(String, FileInfo)>,
    pub query: Vec<(String, String)>,
    pub headers: Vec<(String, String)>,
    pub metadata: Vec<(String, JsonValue)>,
    pub project_slug: String,
}

/// What a node hands on: the next `data`, the metadata, and whether to go on.
pub struct ExecutionResult {
    pub data: Vec<JsonValue>,
    pub metadata: Vec<(String, JsonValue)>,
    pub should_continue: bool,
}

/// Why one node failed.
pub enum NodeError {
    /// A trigger node was dispatched; triggers only start executions.
    TriggerMisuse,
    /// A required parameter is missing or malformed.
    BadNode(String),
    /// An identifier or an arity check failed.
    ValidationError(String),
    /// The node needs secrets and declares or resolves none.
    MissingSecret(String),
    /// The embedded script failed.
    ScriptError(String),
    /// The store or a tenant database failed.
    StorageError(String),
    /// An outbound HTTP request failed.
    HttpError(String),
}

/// `entries` with `k` set to `v`: the first entry with that key is replaced,
/// or the pair is appended.
pub open spec fn put_entry(entries: Seq<(Seq<char>, JsonData)>, k: Seq<char>, v: JsonData) -> Seq<(Seq<char>, JsonData)> {
    match first_key(entries, k) {
        Some(i) => entries.update(i, (k, v)),
        None => entries.push((k, v)),
    }
}

pub open spec fn meta(m: Seq<(String, JsonValue)>) -> Seq<(Seq<char>, JsonData)> {
    entries_data(m)
}

/// Sets `key` to `value` in an ordered string-keyed map of values.
pub fn put_value(m: &mut Vec<(String, JsonValue)>, key: String, value: JsonValue)
    ensures
        meta(final(m)@) == put_entry(meta(old(m)@), key@, value@),
{
    proof {
        lemma_entries_data(m@);
    }
    let ghost es = entries_data(m@);
    let mut i: usize = 0;
    while i < m.len()
        invariant
            m@ == old(m)@,
            es == entries_data(m@),
            es.len() == m@.len(),
            forall|j: int| 0 <= j < es.len() ==> #[trigger] es[j] == (m@[j].0@, m@[j].1.data()),
            i <= m.len(),
            forall|j: int| 0 <= j < i ==> es[j].0 != key@,
        decreases m.len() - i,
    {
        if same_text(m[i].0.as_str(), key.as_str()) {
            proof {
                crate::json::lemma_first_key_found_pub(es, key@, i as int);
            }
            let ghost k = key;
            let ghost v = value;
            m.set(i, (key, value));
            proof {
                lemma_entries_data(m@);
                assert(entries_data(m@) =~= es.update(i as int, (k@, v@)));
            }
            return;
        }
        i = i + 1;
    }
    proof {
        crate::json::lemma_first_key_absent(es, key@);
    }
    let ghost k = key;
    let ghost v = value;
    let ghost before = m@;
    m.push((key, value));
    assert(m@.drop_last() =~= before);
}

/// A copy of an ordered map of values.
pub fn clone_entries(m: &Vec<(String, JsonValue)>) -> (r: Vec<(String, JsonValue)>)
    ensures
        meta(r@) == meta(m@),
{
    let mut out: Vec<(String, JsonValue)> = Vec::new();
    let mut i: usize = 0;
    while i < m.len()
        invariant
            i <= m.len(),
            entries_data(out@) == entries_data(m@.subrange(0, i as int)),
        decreases m.len() - i,
    {
        let k = m[i].0.clone();
        let v = m[i].1.deep_clone();
        let ghost before = out@;
        out.push((k, v));
        assert(out@.drop_last() =~= before);
        assert(m@.subrange(0, i + 1).drop_last() =~= m@.subrange(0, i as int));
        i = i + 1;
    }
    assert(m@.subrange(0, m@.len() as int) =~= m@);
    out
}

/// The outline of an RFC 3339 UTC timestamp as chrono writes it: date, `T`,
/// time, then the `+00:00` offset; at least 25 characters.
pub open spec fn utc_timestamp(s: Seq<char>) -> bool {
    s.len() >= 25 && s.subrange(s.len() - 6, s.len() as int) == "+00:00"@
}

/// Relies on chrono::Utc::now and DateTime::to_rfc3339: the current UTC time
/// as RFC 3339 text, whose offset for UTC is written `+00:00`.
#[verifier::external_body]
pub fn now_rfc3339() -> (r: String)
    ensures
        utc_timestamp(r@),
{
    chrono::Utc::now().to_rfc3339()
}

fn text_value(s: &str) -> (r: JsonValue)
    ensures
        r@ == JsonData::Str(s@),
{
    JsonValue::from_text(s)
}

/// The metadata every execution starts with: `workflow_id`, then `started_at`.
pub open spec fn starts_with_ids(m: Seq<(Seq<char>, JsonData)>, workflow_id: Seq<char>) -> bool {
    &&& m.len() >= 2
    &&& m[0] == ("workflow_id"@, JsonData::Str(workflow_id))
    &&& m[m.len() - 1].0 == "started_at"@
    &&& m[m.len() - 1].1 matches JsonData::Str(t) && utc_timestamp(t)
}

impl ExecutionContext {
    /// A context for a webhook call: the payload becomes the single data item.
    pub fn from_webhook_data(workflow_id: String, data: JsonValue, project_slug: String) -> (r: Self)
        ensures
            items_data(r.data@) == seq![data@],
            meta(r.metadata@).len() == 2,
            starts_with_ids(meta(r.metadata@), workflow_id@),
            r.files@.len() == 0 && r.query@.len() == 0 && r.headers@.len() == 0,
            r.project_slug == project_slug,
    {
        let ghost dv = data@;
        let mut items: Vec<JsonValue> = Vec::new();
        items.push(data);
        assert(items@.drop_last().len() == 0);
        assert(items_data(items@.drop_last()) =~= Seq::<JsonData>::empty());
        let r = Self::from_array_data(workflow_id, items, project_slug);
        assert(items_data(r.data@) =~= seq![dv]);
        r
    }

    /// A context for a batch of items.
    pub fn from_array_data(workflow_id: String, data: Vec<JsonValue>, project_slug: String) -> (r: Self)
        ensures
            r.data == data,
            meta(r.metadata@).len() == 2,
            starts_with_ids(meta(r.metadata@), workflow_id@),
            r.files@.len() == 0 && r.query@.len() == 0 && r.headers@.len() == 0,
            r.project_slug == project_slug,
    {
        let mut metadata: Vec<(String, JsonValue)> = Vec::new();
        let ghost wid = workflow_id@;
        metadata.push((String::from_str("workflow_id"), JsonValue::Str(workflow_id)));
        let now = now_rfc3339();
        metadata.push((String::from_str("started_at"), JsonValue::Str(now)));
        proof {
            lemma_entries_data(metadata@);
        }
        ExecutionContext {
            data,
            files: Vec::new(),
            query: Vec::new(),
            headers: Vec::new(),
            metadata,
            project_slug,
        }
    }

    /// A context for a cron tick: one item that records the trigger.
    pub fn from_cron_trigger(workflow_id: String, trigger_node_id: String, project_slug: String) -> (r: Self)
        ensures
            meta(r.metadata@).len() == 4,
            starts_with_ids(meta(r.metadata@), workflow_id@),
            meta(r.metadata@)[1] == ("trigger_node_id"@, JsonData::Str(trigger_node_id@)),
            meta(r.metadata@)[2] == ("trigger_type"@, JsonData::Str("cron"@)),
            r.data@.len() == 1,
            r.data@[0]@.field("trigger_type"@) == Some(JsonData::Str("cron"@)),
            r.data@[0]@.field("workflow_id"@) == Some(JsonData::Str(workflow_id@)),
            r.data@[0]@.field("project_slug"@) == Some(JsonData::Str(project_slug@)),
            r.data@[0]@.field("timestamp"@) == Some(meta(r.metadata@)[3].1),
            r.files@.len() == 0 && r.query@.len() == 0 && r.headers@.len() == 0,
            r.project_slug == project_slug,
    {
        let mut metadata: Vec<(String, JsonValue)> = Vec::new();
        metadata.push((String::from_str("workflow_id"), JsonValue::Str(workflow_id.clone())));
        metadata.push((String::from_str("trigger_node_id"), JsonValue::Str(trigger_node_id)));
        metadata.push((String::from_str("trigger_type"), text_value("cron")));
        let started = now_rfc3339();
        let stamp = started.clone();
        metadata.push((String::from_str("started_at"), JsonValue::Str(started)));
        let mut item: Vec<(String, JsonValue)> = Vec::new();
        item.push((String::from_str("trigger_type"), text_value("cron")));
        item.push((String::from_str("timestamp"), JsonValue::Str(stamp)));
        item.push((String::from_str("workflow_id"), JsonValue::Str(workflow_id)));
        item.push((String::from_str("project_slug"), JsonValue::Str(project_slug.clone())));
        proof {
            lemma_entries_data(metadata@);
            lemma_entries_data(item@);
            reveal_strlit("trigger_type");
            reveal_strlit("timestamp");
            reveal_strlit("workflow_id");
            reveal_strlit("project_slug");
            let es = entries_data(item@);
            assert("trigger_type"@[0] != "workflow_id"@[0]);
            assert("timestamp"@[0] != "workflow_id"@[0]);
            assert("trigger_type"@[0] != "project_slug"@[0]);
            assert("timestamp"@[0] != "project_slug"@[0]);
            assert("workflow_id"@[0] != "project_slug"@[0]);
            assert("trigger_type"@[1] != "timestamp"@[1]);
            crate::json::lemma_first_key_found_pub(es, "trigger_type"@, 0);
            crate::json::lemma_first_key_found_pub(es, "workflow_id"@, 2);
            crate::json::lemma_first_key_found_pub(es, "project_slug"@, 3);
            crate::json::lemma_first_key_found_pub(es, "timestamp"@, 1);
        }
        let value = JsonValue::Object(item);
        let mut data: Vec<JsonValue> = Vec::new();
        data.push(value);
        ExecutionContext {
            data,
            files: Vec::new(),
            query: Vec::new(),
            headers: Vec::new(),
            metadata,
            project_slug,
        }
    }

    /// A copy of this context whose `data` and `metadata` are those of `result`.
    pub fn with_result(&self, result: &ExecutionResult) -> (r: Self)
        ensures
            items_data(r.data@) == items_data(result.data@),
            meta(r.metadata@) == meta(result.metadata@),
            r.project_slug@ == self.project_slug@,
            r.files@ == self.files@,
            r.query@ == self.query@,
            r.headers@ == self.headers@,
    {
        let mut files: Vec<(String, FileInfo)> = Vec::new();
        let mut i: usize = 0;
        while i < self.files.len()
            invariant
                i <= self.files.len(),
                files@ == self.files@.subrange(0, i as int),
            decreases self.files.len() - i,
        {
            let f = &self.files[i].1;
            files.push((
                self.files[i].0.clone(),
                FileInfo {
                    filename: f.filename.clone(),
                    content_type: f.content_type.clone(),
                    size: f.size,
                    path: f.path.clone(),
                },
            ));
            i = i + 1;
            assert(files@ =~= self.files@.subrange(0, i as int));
        }
        assert(files@ =~= self.files@);
        ExecutionContext {
            data: clone_values(&result.data),
            files,
            query: clone_pairs(&self.query),
            headers: clone_pairs(&self.headers),
            metadata: clone_entries(&result.metadata),
            project_slug: self.project_slug.clone(),
        }
    }
}

/// A copy of a list of string pairs.
pub fn clone_pairs(v: &Vec<(String, String)>) -> (r: Vec<(String, String)>)
    ensures
        r@ == v@,
{
    let mut out: Vec<(String, String)> = Vec::new();
    let mut i: usize = 0;
    while i < v.len()
        invariant
            i <= v.len(),
            out@ == v@.subrange(0, i as int),
        decreases v.len() - i,
    {
        out.push((v[i].0.clone(), v[i].1.clone()));
        i = i + 1;
        assert(out@ =~= v@.subrange(0, i as int));
    }
    assert(out@ =~= v@);
    out
}

} // verus!
