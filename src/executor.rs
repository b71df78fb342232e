//! The node dispatcher. For each node type, `prepare_node` checks the node's
//! parameters, evaluates its pins and says what outside work the node needs
//! (a script run, a table write, a query, an HTTP request); the `complete_*`
//! functions turn the outcome of that work into the node's result.
use vstd::prelude::*;
use vstd::string::*;
use crate::context::{ExecutionContext, ExecutionResult, NodeError, meta, now_rfc3339, put_entry, put_value, utc_timestamp};
use crate::json::{
    JsonData, JsonValue, clone_values, entries_data, items_data, lemma_entries_data, lemma_items_data,
    lua_literal, parse_json, parsed_json,
};
use crate::pins::{
    ScriptResults, evaluate_input_pins, evaluate_secret_pins, first_data_item, first_item,
    pins_value, secrets_value,
};
use crate::sql::{
    all_identifiers, build_create_table, build_insert, build_select, create_table_sql, filter_ok,
    identifier_ok, insert_sql, is_identifier, is_safe_filter, select_sql,
};
use crate::text::{same_text, to_upper, upper_of};
use crate::workflow::{Node, NodeType, NodeView, texts};

verus! {

/// The kind of a node failure, without its message.
#[derive(Clone, Copy, Debug, PartialEq, Eq, Structural)]
pub enum NodeErrorKind {
    TriggerMisuse,
    BadNode,
    ValidationError,
    MissingSecret,
    ScriptError,
    StorageError,
    HttpError,
}

impl NodeError {
    pub open spec fn kind(&self) -> NodeErrorKind {
        match self {
            NodeError::TriggerMisuse => NodeErrorKind::TriggerMisuse,
            NodeError::BadNode(_) => NodeErrorKind::BadNode,
            NodeError::ValidationError(_) => NodeErrorKind::ValidationError,
            NodeError::MissingSecret(_) => NodeErrorKind::MissingSecret,
            NodeError::ScriptError(_) => NodeErrorKind::ScriptError,
            NodeError::StorageError(_) => NodeErrorKind::StorageError,
            NodeError::HttpError(_) => NodeErrorKind::HttpError,
        }
    }
}

fn bad_node(msg: &str) -> (e: NodeError)
    ensures
        e.kind() == NodeErrorKind::BadNode,
{
    NodeError::BadNode(String::from_str(msg))
}

fn invalid(msg: &str) -> (e: NodeError)
    ensures
        e.kind() == NodeErrorKind::ValidationError,
{
    NodeError::ValidationError(String::from_str(msg))
}

fn missing_secret(msg: &str) -> (e: NodeError)
    ensures
        e.kind() == NodeErrorKind::MissingSecret,
{
    NodeError::MissingSecret(String::from_str(msg))
}

/// The string items of an array, in order; other items are skipped.
pub open spec fn string_items(items: Seq<JsonData>) -> Seq<Seq<char>>
    decreases items.len(),
{
    if items.len() == 0 {
        Seq::empty()
    } else {
        let r = string_items(items.drop_last());
        match items.last() {
            JsonData::Str(s) => r.push(s),
            _ => r,
        }
    }
}

/// The `columns` parameter: the strings of an array, or nothing when it is not an array.
pub open spec fn column_list(params: JsonData) -> Option<Seq<Seq<char>>> {
    match params.field("columns"@) {
        Some(JsonData::Array(items)) => Some(string_items(items)),
        _ => None,
    }
}

/// Reads the `columns` parameter.
pub fn columns_param(params: &JsonValue) -> (r: Option<Vec<String>>)
    ensures
        match r {
            Some(v) => column_list(params@) == Some(texts(v@)),
            None => column_list(params@) is None,
        },
{
    match params.get("columns") {
        Some(JsonValue::Array(items)) => {
            proof {
                lemma_items_data(items@);
            }
            let ghost ds = items_data(items@);
            let mut out: Vec<String> = Vec::new();
            let mut i: usize = 0;
            while i < items.len()
                invariant
                    ds == items_data(items@),
                    ds.len() == items@.len(),
                    forall|k: int| 0 <= k < ds.len() ==> #[trigger] ds[k] == items@[k].data(),
                    i <= items.len(),
                    texts(out@) == string_items(ds.subrange(0, i as int)),
                decreases items.len() - i,
            {
                let ghost pre = ds.subrange(0, i as int);
                let ghost post = ds.subrange(0, i + 1);
                assert(post.drop_last() =~= pre);
                assert(post.last() == items@[i as int].data());
                match &items[i] {
                    JsonValue::Str(s) => {
                        let ghost before = out@;
                        out.push(s.clone());
                        assert(texts(out@) =~= texts(before).push(s@));
                    },
                    _ => {},
                }
                i = i + 1;
            }
            assert(ds.subrange(0, ds.len() as int) =~= ds);
            Some(out)
        },
        _ => None,
    }
}

/// The value of each column in `item` (null where it has none).
pub open spec fn by_columns(item: JsonData, cols: Seq<Seq<char>>) -> Seq<JsonData> {
    cols.map_values(
        |c: Seq<char>|
            match item.field(c) {
                Some(v) => v,
                None => JsonData::Null,
            },
    )
}

/// A planned simple-table insert.
pub struct TableWrite {
    pub table: String,
    pub columns: Vec<String>,
    pub values: Vec<JsonValue>,
    pub create_sql: String,
    pub insert_sql: String,
}

pub struct TableWriteView {
    pub table: Seq<char>,
    pub columns: Seq<Seq<char>>,
    pub values: Seq<JsonData>,
    pub create_sql: Seq<char>,
    pub insert_sql: Seq<char>,
}

impl View for TableWrite {
    type V = TableWriteView;

    open spec fn view(&self) -> TableWriteView {
        TableWriteView {
            table: self.table@,
            columns: texts(self.columns@),
            values: items_data(self.values@),
            create_sql: self.create_sql@,
            insert_sql: self.insert_sql@,
        }
    }
}

pub open spec fn all_idents(cols: Seq<Seq<char>>) -> bool {
    forall|k: int| 0 <= k < cols.len() ==> is_identifier(#[trigger] cols[k])
}

pub open spec fn write_view(t: Seq<char>, cols: Seq<Seq<char>>, values: Seq<JsonData>) -> TableWriteView {
    TableWriteView {
        table: t,
        columns: cols,
        values,
        create_sql: create_table_sql(t, cols),
        insert_sql: insert_sql(t, cols),
    }
}

/// What a `SimpleTableWriter` node plans: the table, its columns, the row's
/// values (from the input pins, else by column name from the first item) and
/// the SQL; or why it cannot.
pub open spec fn write_plan(
    n: NodeView,
    ctx: ExecutionContext,
    scripts: Seq<(String, Result<JsonValue, String>)>,
) -> Result<TableWriteView, NodeErrorKind> {
    match n.params.text_field("table"@) {
        None => Err(NodeErrorKind::BadNode),
        Some(t) => match column_list(n.params) {
            None => Err(NodeErrorKind::BadNode),
            Some(cols) => if cols.len() == 0 {
                Err(NodeErrorKind::BadNode)
            } else if !is_identifier(t) || !all_idents(cols) {
                Err(NodeErrorKind::ValidationError)
            } else {
                match n.inputs {
                    Some(pins) => if pins.len() != cols.len() {
                        Err(NodeErrorKind::ValidationError)
                    } else {
                        match pins_value(pins, ctx, scripts) {
                            Ok(vs) => Ok(write_view(t, cols, vs)),
                            Err(_) => Err(NodeErrorKind::ScriptError),
                        }
                    },
                    None => Ok(write_view(t, cols, by_columns(first_item(items_data(ctx.data@)), cols))),
                }
            },
        },
    }
}

#[verifier::rlimit(60)]
fn values_by_columns(item: &JsonValue, cols: &Vec<String>) -> (r: Vec<JsonValue>)
    ensures
        items_data(r@) == by_columns(item@, texts(cols@)),
{
    let mut out: Vec<JsonValue> = Vec::new();
    let mut i: usize = 0;
    while i < cols.len()
        invariant
            i <= cols.len(),
            items_data(out@) == by_columns(item@, texts(cols@).subrange(0, i as int)),
        decreases cols.len() - i,
    {
        let v = match item.get(cols[i].as_str()) {
            Some(v) => v.deep_clone(),
            None => JsonValue::Null,
        };
        let ghost before = out@;
        out.push(v);
        assert(out@.drop_last() =~= before);
        assert(by_columns(item@, texts(cols@).subrange(0, i + 1)) =~= by_columns(item@, texts(cols@).subrange(0, i as int)).push(
            v@,
        ));
        i = i + 1;
    }
    assert(texts(cols@).subrange(0, cols@.len() as int) =~= texts(cols@));
    out
}

/// Plans a `SimpleTableWriter` node.
#[verifier::rlimit(80)]
pub fn plan_table_write(node: &Node, ctx: &ExecutionContext, scripts: &ScriptResults) -> (r: Result<TableWrite, NodeError>)
    ensures
        match r {
            Ok(tw) => write_plan(node@, *ctx, scripts@) == Ok::<TableWriteView, NodeErrorKind>(tw@),
            Err(e) => write_plan(node@, *ctx, scripts@) == Err::<TableWriteView, NodeErrorKind>(e.kind()),
        },
{
    let table = match node.params.text_field("table") {
        Some(t) => t,
        None => {
            return Err(bad_node("SimpleTableWriter needs a 'table' parameter"));
        },
    };
    let columns = match columns_param(&node.params) {
        Some(c) => c,
        None => {
            return Err(bad_node("SimpleTableWriter needs a 'columns' parameter"));
        },
    };
    if columns.len() == 0 {
        return Err(bad_node("SimpleTableWriter 'columns' cannot be empty"));
    }
    if !identifier_ok(table.as_str()) {
        return Err(invalid("invalid table name"));
    }
    if !all_identifiers(&columns) {
        proof {
            let k = choose|k: int| 0 <= k < columns@.len() && !is_identifier(#[trigger] columns@[k]@);
            assert(texts(columns@)[k] == columns@[k]@);
        }
        return Err(invalid("invalid column name"));
    }
    assert forall|k: int| 0 <= k < texts(columns@).len() implies is_identifier(#[trigger] texts(columns@)[k]) by {
        assert(texts(columns@)[k] == columns@[k]@);
    }
    let values = match &node.inputs {
        Some(inputs) => {
            if inputs.len() != columns.len() {
                return Err(invalid("input pin count must match column count"));
            }
            match evaluate_input_pins(inputs, ctx, scripts) {
                Ok(vs) => vs,
                Err(e) => {
                    return Err(e);
                },
            }
        },
        None => {
            let first = first_data_item(&ctx.data);
            values_by_columns(&first, &columns)
        },
    };
    let create_sql = build_create_table(table.as_str(), &columns);
    let insert_sql = build_insert(table.as_str(), &columns);
    Ok(TableWrite { table: table.clone(), columns, values, create_sql, insert_sql })
}

/// The `limit` parameter when it is a non-negative integer, else 100.
pub open spec fn limit_of(params: JsonData) -> nat {
    match params.field("limit"@) {
        Some(v) => match v.unsigned() {
            Some(l) => l,
            None => 100,
        },
        None => 100,
    }
}

/// The `where` parameter when it is a safe filter; an unsafe one is dropped.
pub open spec fn filter_of(params: JsonData) -> Option<Seq<char>> {
    match params.text_field("where"@) {
        Some(w) => if is_safe_filter(w) {
            Some(w)
        } else {
            None
        },
        None => None,
    }
}

/// What a `SimpleTableReader` node plans: its SELECT and its table.
pub open spec fn read_plan(n: NodeView) -> Result<(Seq<char>, Seq<char>), NodeErrorKind> {
    match n.params.text_field("table"@) {
        None => Err(NodeErrorKind::BadNode),
        Some(t) => if !is_identifier(t) {
            Err(NodeErrorKind::ValidationError)
        } else {
            Ok((select_sql(t, filter_of(n.params), limit_of(n.params)), t))
        },
    }
}

/// Plans a `SimpleTableReader` node: the query to run and the table name.
pub fn plan_table_read(node: &Node) -> (r: Result<(String, String), NodeError>)
    ensures
        match r {
            Ok((sql, table)) => read_plan(node@) == Ok::<(Seq<char>, Seq<char>), NodeErrorKind>((sql@, table@)),
            Err(e) => read_plan(node@) == Err::<(Seq<char>, Seq<char>), NodeErrorKind>(e.kind()),
        },
{
    let table = match node.params.text_field("table") {
        Some(t) => t,
        None => {
            return Err(bad_node("SimpleTableReader needs a 'table' parameter"));
        },
    };
    if !identifier_ok(table.as_str()) {
        return Err(invalid("invalid table name"));
    }
    let filter = match node.params.text_field("where") {
        Some(w) => if filter_ok(w.as_str()) {
            Some(w)
        } else {
            None
        },
        None => None,
    };
    let limit: u64 = match node.params.get("limit") {
        Some(v) => match v.as_u64() {
            Some(l) => l,
            None => 100,
        },
        None => 100,
    };
    let sql = build_select(table.as_str(), filter, limit);
    Ok((sql, table.clone()))
}

/// What a `SimpleTableQuery` node plans: its query, the bind values from its
/// input pins, and its table name (`unknown_table` when absent).
pub open spec fn query_plan(
    n: NodeView,
    ctx: ExecutionContext,
    scripts: Seq<(String, Result<JsonValue, String>)>,
) -> Result<(Seq<char>, Seq<JsonData>, Seq<char>), NodeErrorKind> {
    match n.params.text_field("query"@) {
        None => Err(NodeErrorKind::BadNode),
        Some(q) => {
            let t = match n.params.text_field("table"@) {
                Some(t) => t,
                None => "unknown_table"@,
            };
            match n.inputs {
                Some(pins) => match pins_value(pins, ctx, scripts) {
                    Ok(vs) => Ok((q, vs, t)),
                    Err(_) => Err(NodeErrorKind::ScriptError),
                },
                None => Ok((q, Seq::empty(), t)),
            }
        },
    }
}

/// Plans a `SimpleTableQuery` node: the query, its bind values, the table name.
pub fn plan_table_query(node: &Node, ctx: &ExecutionContext, scripts: &ScriptResults) -> (r: Result<(String, Vec<JsonValue>, String), NodeError>)
    ensures
        match r {
            Ok((q, binds, t)) => query_plan(node@, *ctx, scripts@) == Ok::<(Seq<char>, Seq<JsonData>, Seq<char>), NodeErrorKind>(
                (q@, items_data(binds@), t@),
            ),
            Err(e) => query_plan(node@, *ctx, scripts@) == Err::<(Seq<char>, Seq<JsonData>, Seq<char>), NodeErrorKind>(
                e.kind(),
            ),
        },
{
    let query = match node.params.text_field("query") {
        Some(q) => q.clone(),
        None => {
            return Err(bad_node("SimpleTableQuery needs a 'query' parameter"));
        },
    };
    let table = match node.params.text_field("table") {
        Some(t) => t.clone(),
        None => String::from_str("unknown_table"),
    };
    let binds = match &node.inputs {
        Some(inputs) => match evaluate_input_pins(inputs, ctx, scripts) {
            Ok(vs) => vs,
            Err(e) => {
                return Err(e);
            },
        },
        None => Vec::new(),
    };
    assert(items_data(binds@) =~= items_data(binds@));
    proof {
        if node.inputs is None {
            assert(items_data(binds@) =~= Seq::<JsonData>::empty());
        }
    }
    Ok((query, binds, table))
}

/// What a `FunLogic` node plans: the setup statement that binds `data`, and the script.
pub open spec fn fun_logic_plan(n: NodeView, data: Seq<JsonData>) -> Result<(Seq<char>, Seq<char>), NodeErrorKind> {
    match n.params.text_field("script"@) {
        Some(script) => Ok(("data = "@ + lua_literal(JsonData::Array(data)), script)),
        None => Err(NodeErrorKind::BadNode),
    }
}

/// Plans a `FunLogic` node: `data = {...}` to run first, then the script.
pub fn plan_fun_logic(node: &Node, ctx: &ExecutionContext) -> (r: Result<(String, String), NodeError>)
    ensures
        match r {
            Ok((setup, script)) => fun_logic_plan(node@, items_data(ctx.data@)) == Ok::<(Seq<char>, Seq<char>), NodeErrorKind>(
                (setup@, script@),
            ),
            Err(e) => fun_logic_plan(node@, items_data(ctx.data@)) == Err::<(Seq<char>, Seq<char>), NodeErrorKind>(
                e.kind(),
            ),
        },
{
    let script = match node.params.text_field("script") {
        Some(s) => s.clone(),
        None => {
            return Err(bad_node("FunLogic needs a 'script' parameter"));
        },
    };
    let items = JsonValue::Array(clone_values(&ctx.data));
    let mut setup = String::from_str("data = ");
    items.write_lua(&mut setup);
    Ok((setup, script))
}

/// The data a script's value becomes: an array's items, or the value alone.
pub open spec fn script_data(v: JsonData) -> Seq<JsonData> {
    match v {
        JsonData::Array(items) => items,
        _ => seq![v],
    }
}

/// The result of a `FunLogic` node whose script returned `value`.
pub fn complete_fun_logic(value: JsonValue, metadata: Vec<(String, JsonValue)>) -> (r: ExecutionResult)
    ensures
        items_data(r.data@) == script_data(value@),
        r.metadata == metadata,
        r.should_continue,
{
    let ghost v = value@;
    let data = match value {
        JsonValue::Array(items) => items,
        other => {
            let mut d: Vec<JsonValue> = Vec::new();
            d.push(other);
            proof {
                lemma_items_data(d@);
            }
            assert(items_data(d@) =~= seq![v]);
            d
        },
    };
    ExecutionResult { data, metadata, should_continue: true }
}

fn text_entry(k: &str, v: &str) -> (r: (String, JsonValue))
    ensures
        r.0@ == k@,
        r.1@ == JsonData::Str(v@),
{
    (String::from_str(k), JsonValue::from_text(v))
}

fn one_item(v: JsonValue) -> (r: Vec<JsonValue>)
    ensures
        items_data(r@) == seq![v@],
        r@.len() == 1,
        r@[0]@ == v@,
{
    let ghost d = v@;
    let mut out: Vec<JsonValue> = Vec::new();
    out.push(v);
    proof {
        lemma_items_data(out@);
    }
    assert(items_data(out@) =~= seq![d]);
    out
}

fn texts_value(v: &Vec<String>) -> (r: JsonValue)
    ensures
        r@ == JsonData::Array(texts(v@).map_values(|s: Seq<char>| JsonData::Str(s))),
{
    let mut out: Vec<JsonValue> = Vec::new();
    let mut i: usize = 0;
    while i < v.len()
        invariant
            i <= v.len(),
            items_data(out@) == texts(v@).subrange(0, i as int).map_values(|s: Seq<char>| JsonData::Str(s)),
        decreases v.len() - i,
    {
        let x = JsonValue::Str(v[i].clone());
        assert(x@ == JsonData::Str(v@[i as int]@));
        let ghost before = out@;
        out.push(x);
        assert(out@.drop_last() =~= before);
        assert(items_data(out@) == items_data(before).push(x@));
        assert(texts(v@).subrange(0, i + 1).map_values(|s: Seq<char>| JsonData::Str(s)) =~= texts(v@).subrange(
            0,
            i as int,
        ).map_values(|s: Seq<char>| JsonData::Str(s)).push(JsonData::Str(v@[i as int]@)));
        i = i + 1;
    }
    assert(texts(v@).subrange(0, v@.len() as int) =~= texts(v@));
    JsonValue::Array(out)
}

/// The record a table write yields.
pub open spec fn write_record(w: TableWriteView, inserted_id: int, rows: int) -> JsonData {
    JsonData::Object(
        seq![
            (
                "inserted_data"@,
                JsonData::Object(
                    seq![
                        ("table"@, JsonData::Str(w.table)),
                        ("columns"@, JsonData::Array(w.columns.map_values(|s: Seq<char>| JsonData::Str(s)))),
                        ("values"@, JsonData::Array(w.values)),
                    ],
                ),
            ),
            ("_inserted_id"@, JsonData::Int(inserted_id)),
            ("_rows_affected"@, JsonData::Int(rows)),
            ("_success"@, JsonData::Bool(true)),
        ],
    )
}

/// The result of a `SimpleTableWriter` node once its row was inserted.
pub fn complete_table_write(write: TableWrite, inserted_id: i64, rows_affected: u64, metadata: Vec<(String, JsonValue)>) -> (r: ExecutionResult)
    ensures
        items_data(r.data@) == seq![write_record(write@, inserted_id as int, rows_affected as int)],
        r.metadata == metadata,
        r.should_continue,
{
    let ghost wv = write@;
    let columns = texts_value(&write.columns);
    let mut inner: Vec<(String, JsonValue)> = Vec::new();
    inner.push((String::from_str("table"), JsonValue::Str(write.table)));
    inner.push((String::from_str("columns"), columns));
    inner.push((String::from_str("values"), JsonValue::Array(write.values)));
    let mut outer: Vec<(String, JsonValue)> = Vec::new();
    outer.push((String::from_str("inserted_data"), JsonValue::Object(inner)));
    outer.push((String::from_str("_inserted_id"), JsonValue::Int(inserted_id as i128)));
    outer.push((String::from_str("_rows_affected"), JsonValue::Int(rows_affected as i128)));
    outer.push((String::from_str("_success"), JsonValue::Bool(true)));
    proof {
        lemma_entries_data(inner@);
        lemma_entries_data(outer@);
        assert(entries_data(inner@) =~= seq![
            ("table"@, JsonData::Str(wv.table)),
            ("columns"@, JsonData::Array(wv.columns.map_values(|s: Seq<char>| JsonData::Str(s)))),
            ("values"@, JsonData::Array(wv.values)),
        ]);
    }
    let record = JsonValue::Object(outer);
    proof {
        let ci = entries_data(inner@);
        assert(entries_data(outer@) =~= seq![
            ("inserted_data"@, JsonData::Object(ci)),
            ("_inserted_id"@, JsonData::Int(inserted_id as int)),
            ("_rows_affected"@, JsonData::Int(rows_affected as int)),
            ("_success"@, JsonData::Bool(true)),
        ]);
    }
    assert(record@ == write_record(wv, inserted_id as int, rows_affected as int));
    ExecutionResult { data: one_item(record), metadata, should_continue: true }
}

/// The envelope a read returns: the rows, their count and the table.
pub open spec fn rows_envelope(rows: Seq<JsonData>, table: Seq<char>) -> JsonData {
    JsonData::Object(
        seq![
            ("results"@, JsonData::Array(rows)),
            ("count"@, JsonData::Int(rows.len() as int)),
            ("table"@, JsonData::Str(table)),
        ],
    )
}

fn envelope(rows: Vec<JsonValue>, table: String) -> (r: JsonValue)
    ensures
        r@ == rows_envelope(items_data(rows@), table@),
{
    proof {
        lemma_items_data(rows@);
    }
    let n = rows.len();
    let mut es: Vec<(String, JsonValue)> = Vec::new();
    es.push((String::from_str("results"), JsonValue::Array(rows)));
    es.push((String::from_str("count"), JsonValue::Int(n as i128)));
    es.push((String::from_str("table"), JsonValue::Str(table)));
    proof {
        lemma_entries_data(es@);
        assert(entries_data(es@) =~= seq![
            ("results"@, JsonData::Array(items_data(rows@))),
            ("count"@, JsonData::Int(rows@.len() as int)),
            ("table"@, JsonData::Str(table@)),
        ]);
    }
    JsonValue::Object(es)
}

/// The result of a `SimpleTableReader` node that read `rows`.
pub fn complete_table_read(table: String, rows: Vec<JsonValue>, metadata: Vec<(String, JsonValue)>) -> (r: ExecutionResult)
    ensures
        items_data(r.data@) == seq![rows_envelope(items_data(rows@), table@)],
        r.metadata == metadata,
        r.should_continue,
{
    ExecutionResult { data: one_item(envelope(rows, table)), metadata, should_continue: true }
}

/// What a query returns: the row itself when there is exactly one, else the envelope.
pub open spec fn query_data(rows: Seq<JsonData>, table: Seq<char>) -> JsonData {
    if rows.len() == 1 {
        rows[0]
    } else {
        rows_envelope(rows, table)
    }
}

/// The result of a `SimpleTableQuery` node that returned `rows`.
pub fn complete_table_query(table: String, rows: Vec<JsonValue>, metadata: Vec<(String, JsonValue)>) -> (r: ExecutionResult)
    ensures
        items_data(r.data@) == seq![query_data(items_data(rows@), table@)],
        r.metadata == metadata,
        r.should_continue,
{
    proof {
        lemma_items_data(rows@);
    }
    let mut rows = rows;
    let item = if rows.len() == 1 {
        rows.pop().unwrap()
    } else {
        envelope(rows, table)
    };
    ExecutionResult { data: one_item(item), metadata, should_continue: true }
}

/// The body of an outbound request.
pub enum HttpBody {
    Empty,
    Json(JsonValue),
    Text(String),
}

pub enum HttpBodyView {
    Empty,
    Json(JsonData),
    Text(Seq<char>),
}

/// A planned HTTP request.
pub struct HttpRequest {
    pub method: String,
    pub url: String,
    pub headers: Vec<(String, String)>,
    pub body: HttpBody,
}

pub struct HttpRequestView {
    pub method: Seq<char>,
    pub url: Seq<char>,
    pub headers: Seq<(Seq<char>, Seq<char>)>,
    pub body: HttpBodyView,
}

pub open spec fn pairs_view(v: Seq<(String, String)>) -> Seq<(Seq<char>, Seq<char>)> {
    v.map_values(|p: (String, String)| (p.0@, p.1@))
}

impl View for HttpRequest {
    type V = HttpRequestView;

    open spec fn view(&self) -> HttpRequestView {
        HttpRequestView {
            method: self.method@,
            url: self.url@,
            headers: pairs_view(self.headers@),
            body: match self.body {
                HttpBody::Empty => HttpBodyView::Empty,
                HttpBody::Json(v) => HttpBodyView::Json(v@),
                HttpBody::Text(t) => HttpBodyView::Text(t@),
            },
        }
    }
}

/// The entries of an object whose values are strings, in order.
pub open spec fn string_entries(es: Seq<(Seq<char>, JsonData)>) -> Seq<(Seq<char>, Seq<char>)>
    decreases es.len(),
{
    if es.len() == 0 {
        Seq::empty()
    } else {
        let r = string_entries(es.drop_last());
        match es.last().1 {
            JsonData::Str(s) => r.push((es.last().0, s)),
            _ => r,
        }
    }
}

/// The `headers` parameter: its string-valued entries.
pub open spec fn header_params(params: JsonData) -> Seq<(Seq<char>, Seq<char>)> {
    match params.field("headers"@) {
        Some(JsonData::Object(es)) => string_entries(es),
        _ => Seq::empty(),
    }
}

pub open spec fn known_method(m: Seq<char>) -> bool {
    m == "GET"@ || m == "POST"@ || m == "PUT"@ || m == "DELETE"@ || m == "PATCH"@
}

pub open spec fn sends_body(m: Seq<char>) -> bool {
    m == "POST"@ || m == "PUT"@ || m == "PATCH"@
}

/// The request with `body` as its body, and the content type it calls for.
pub open spec fn with_body(m: Seq<char>, u: Seq<char>, hs: Seq<(Seq<char>, Seq<char>)>, body: JsonData) -> HttpRequestView {
    match body {
        JsonData::Object(_) | JsonData::Array(_) => HttpRequestView {
            method: m,
            url: u,
            headers: hs.push(("Content-Type"@, "application/json"@)),
            body: HttpBodyView::Json(body),
        },
        JsonData::Str(t) => HttpRequestView {
            method: m,
            url: u,
            headers: hs.push(("Content-Type"@, "text/plain"@)),
            body: HttpBodyView::Text(t),
        },
        _ => HttpRequestView { method: m, url: u, headers: hs, body: HttpBodyView::Empty },
    }
}

/// What an `HTTPClient` node plans: method (upper-cased, `GET` by default), URL,
/// string headers, and as body the first input pin's value for POST, PUT and PATCH.
pub open spec fn http_plan(
    n: NodeView,
    ctx: ExecutionContext,
    scripts: Seq<(String, Result<JsonValue, String>)>,
) -> Result<HttpRequestView, NodeErrorKind> {
    match n.params.text_field("url"@) {
        None => Err(NodeErrorKind::BadNode),
        Some(u) => {
            let m = upper_of(
                match n.params.text_field("method"@) {
                    Some(m) => m,
                    None => "GET"@,
                },
            );
            let hs = header_params(n.params);
            if !known_method(m) {
                Err(NodeErrorKind::BadNode)
            } else {
                match n.inputs {
                    None => Ok(HttpRequestView { method: m, url: u, headers: hs, body: HttpBodyView::Empty }),
                    Some(pins) => match pins_value(pins, ctx, scripts) {
                        Err(_) => Err(NodeErrorKind::ScriptError),
                        Ok(vs) => if vs.len() > 0 && sends_body(m) {
                            Ok(with_body(m, u, hs, vs[0]))
                        } else {
                            Ok(HttpRequestView { method: m, url: u, headers: hs, body: HttpBodyView::Empty })
                        },
                    },
                }
            }
        },
    }
}

fn headers_param(params: &JsonValue) -> (r: Vec<(String, String)>)
    ensures
        pairs_view(r@) == header_params(params@),
{
    match params.get("headers") {
        Some(JsonValue::Object(es)) => {
            proof {
                lemma_entries_data(es@);
            }
            let ghost ds = entries_data(es@);
            let mut out: Vec<(String, String)> = Vec::new();
            let mut i: usize = 0;
            while i < es.len()
                invariant
                    ds == entries_data(es@),
                    ds.len() == es@.len(),
                    forall|k: int| 0 <= k < ds.len() ==> #[trigger] ds[k] == (es@[k].0@, es@[k].1.data()),
                    i <= es.len(),
                    pairs_view(out@) == string_entries(ds.subrange(0, i as int)),
                decreases es.len() - i,
            {
                let ghost pre = ds.subrange(0, i as int);
                let ghost post = ds.subrange(0, i + 1);
                assert(post.drop_last() =~= pre);
                assert(post.last() == (es@[i as int].0@, es@[i as int].1.data()));
                match &es[i].1 {
                    JsonValue::Str(s) => {
                        let ghost before = out@;
                        let k = es[i].0.clone();
                        out.push((k, s.clone()));
                        assert(pairs_view(out@) =~= pairs_view(before).push((es@[i as int].0@, s@)));
                    },
                    _ => {},
                }
                i = i + 1;
            }
            assert(ds.subrange(0, ds.len() as int) =~= ds);
            out
        },
        _ => {
            assert(pairs_view(Seq::<(String, String)>::empty()) =~= Seq::<(Seq<char>, Seq<char>)>::empty());
            Vec::new()
        },
    }
}

fn push_header(hs: &mut Vec<(String, String)>, k: &str, v: &str)
    ensures
        pairs_view(final(hs)@) == pairs_view(old(hs)@).push((k@, v@)),
{
    let ghost before = hs@;
    hs.push((String::from_str(k), String::from_str(v)));
    assert(pairs_view(hs@) =~= pairs_view(before).push((k@, v@)));
}

/// Plans an `HTTPClient` node.
#[verifier::rlimit(100)]
pub fn plan_http(node: &Node, ctx: &ExecutionContext, scripts: &ScriptResults) -> (r: Result<HttpRequest, NodeError>)
    ensures
        match r {
            Ok(req) => http_plan(node@, *ctx, scripts@) == Ok::<HttpRequestView, NodeErrorKind>(req@),
            Err(e) => http_plan(node@, *ctx, scripts@) == Err::<HttpRequestView, NodeErrorKind>(e.kind()),
        },
{
    let url = match node.params.text_field("url") {
        Some(u) => u.clone(),
        None => {
            return Err(bad_node("HTTPClient needs a 'url' parameter"));
        },
    };
    let method = match node.params.text_field("method") {
        Some(m) => to_upper(m.as_str()),
        None => to_upper("GET"),
    };
    let mut headers = headers_param(&node.params);
    let m = method.as_str();
    let known = same_text(m, "GET") || same_text(m, "POST") || same_text(m, "PUT") || same_text(m, "DELETE")
        || same_text(m, "PATCH");
    if !known {
        return Err(bad_node("unsupported HTTP method"));
    }
    let with_payload = same_text(m, "POST") || same_text(m, "PUT") || same_text(m, "PATCH");
    let body = match &node.inputs {
        None => HttpBody::Empty,
        Some(inputs) => {
            let values = match evaluate_input_pins(inputs, ctx, scripts) {
                Ok(vs) => vs,
                Err(e) => {
                    return Err(e);
                },
            };
            proof {
                lemma_items_data(values@);
            }
            if values.len() > 0 && with_payload {
                let first = &values[0];
                match first {
                    JsonValue::Object(_) | JsonValue::Array(_) => {
                        push_header(&mut headers, "Content-Type", "application/json");
                        HttpBody::Json(first.deep_clone())
                    },
                    JsonValue::Str(t) => {
                        push_header(&mut headers, "Content-Type", "text/plain");
                        HttpBody::Text(t.clone())
                    },
                    _ => HttpBody::Empty,
                }
            } else {
                HttpBody::Empty
            }
        },
    };
    Ok(HttpRequest { method, url, headers, body })
}

/// The record an HTTP response yields: status, headers, body (parsed when it
/// is JSON, else its text) and whether the status is 2xx.
pub open spec fn http_record(status: int, headers: Seq<(Seq<char>, Seq<char>)>, body: Seq<char>) -> JsonData {
    JsonData::Object(
        seq![
            ("status"@, JsonData::Int(status)),
            ("headers"@, JsonData::Object(headers.map_values(|p: (Seq<char>, Seq<char>)| (p.0, JsonData::Str(p.1))))),
            (
                "data"@,
                match parsed_json(body) {
                    Some(v) => v,
                    None => JsonData::Str(body),
                },
            ),
            ("success"@, JsonData::Bool(200 <= status < 300)),
        ],
    )
}

/// The result of an `HTTPClient` node that got a response; the run goes on
/// only after a 2xx status.
pub fn complete_http(status: u16, headers: Vec<(String, String)>, body: String, metadata: Vec<(String, JsonValue)>) -> (r: ExecutionResult)
    ensures
        items_data(r.data@) == seq![http_record(status as int, pairs_view(headers@), body@)],
        r.metadata == metadata,
        r.should_continue == (200 <= status < 300),
{
    let ghost hv = pairs_view(headers@);
    let mut hs: Vec<(String, JsonValue)> = Vec::new();
    let mut i: usize = 0;
    while i < headers.len()
        invariant
            hv == pairs_view(headers@),
            i <= headers.len(),
            entries_data(hs@) == hv.subrange(0, i as int).map_values(|p: (Seq<char>, Seq<char>)| (p.0, JsonData::Str(p.1))),
        decreases headers.len() - i,
    {
        let k = headers[i].0.clone();
        let v = JsonValue::Str(headers[i].1.clone());
        assert(v@ == JsonData::Str(headers@[i as int].1@));
        let ghost before = hs@;
        hs.push((k, v));
        assert(hs@.drop_last() =~= before);
        assert(entries_data(hs@) == entries_data(before).push((k@, v@)));
        assert(hv[i as int] == (headers@[i as int].0@, headers@[i as int].1@));
        assert(hv.subrange(0, i + 1).map_values(|p: (Seq<char>, Seq<char>)| (p.0, JsonData::Str(p.1))) =~= hv.subrange(
            0,
            i as int,
        ).map_values(|p: (Seq<char>, Seq<char>)| (p.0, JsonData::Str(p.1))).push((headers@[i as int].0@, JsonData::Str(headers@[i as int].1@))));
        i = i + 1;
    }
    assert(hv.subrange(0, hv.len() as int) =~= hv);
    let ghost bv = body@;
    let data = match parse_json(body.as_str()) {
        Some(v) => v,
        None => JsonValue::Str(body),
    };
    let ok = 200 <= status && status < 300;
    let mut es: Vec<(String, JsonValue)> = Vec::new();
    es.push((String::from_str("status"), JsonValue::Int(status as i128)));
    es.push((String::from_str("headers"), JsonValue::Object(hs)));
    es.push((String::from_str("data"), data));
    es.push((String::from_str("success"), JsonValue::Bool(ok)));
    proof {
        lemma_entries_data(es@);
        assert(entries_data(es@) =~= seq![
            ("status"@, JsonData::Int(status as int)),
            ("headers"@, JsonData::Object(hv.map_values(|p: (Seq<char>, Seq<char>)| (p.0, JsonData::Str(p.1))))),
            ("data"@, match parsed_json(bv) {
                Some(v) => v,
                None => JsonData::Str(bv),
            }),
            ("success"@, JsonData::Bool(200 <= status < 300)),
        ]);
    }
    let record = JsonValue::Object(es);
    ExecutionResult { data: one_item(record), metadata, should_continue: ok }
}

/// The secrets of a node resolve: declared, not empty, each found in the vault.
pub open spec fn secrets_ok(n: NodeView, vault: Seq<(String, String)>) -> bool {
    match n.secrets {
        Some(ss) => ss.len() > 0 && secrets_value(ss, vault) is Some,
        None => false,
    }
}

#[verifier::opaque]
/// What a `PGQuery` node yields at time `now`: a record of the query and its
/// bind values (the connection itself is not shown).
pub open spec fn pg_query_outcome(
    n: NodeView,
    ctx: ExecutionContext,
    scripts: Seq<(String, Result<JsonValue, String>)>,
    vault: Seq<(String, String)>,
    now: Seq<char>,
) -> Result<JsonData, NodeErrorKind> {
    if !secrets_ok(n, vault) {
        Err(NodeErrorKind::MissingSecret)
    } else {
        match n.params.text_field("query"@) {
            None => Err(NodeErrorKind::BadNode),
            Some(q) => {
                let binds = match n.inputs {
                    Some(pins) => pins_value(pins, ctx, scripts),
                    None => Ok(Seq::empty()),
                };
                match binds {
                    Err(_) => Err(NodeErrorKind::ScriptError),
                    Ok(vs) => Ok(
                        JsonData::Object(
                            seq![
                                ("query"@, JsonData::Str(q)),
                                ("connection"@, JsonData::Str("REDACTED"@)),
                                ("bind_params"@, JsonData::Array(vs)),
                                ("rows"@, JsonData::Array(Seq::empty())),
                                ("row_count"@, JsonData::Int(0)),
                                ("executed_at"@, JsonData::Str(now)),
                            ],
                        ),
                    ),
                }
            },
        }
    }
}

#[verifier::opaque]
/// What a `PGDynTableWriter` node yields at time `now`: a record of the row
/// written to its table in the `mway_dynamic_tables` schema.
pub open spec fn pg_write_outcome(
    n: NodeView,
    ctx: ExecutionContext,
    scripts: Seq<(String, Result<JsonValue, String>)>,
    vault: Seq<(String, String)>,
    now: Seq<char>,
) -> Result<JsonData, NodeErrorKind> {
    if !secrets_ok(n, vault) {
        Err(NodeErrorKind::MissingSecret)
    } else {
        match n.params.text_field("table"@) {
            None => Err(NodeErrorKind::BadNode),
            Some(t) => match column_list(n.params) {
                None => Err(NodeErrorKind::BadNode),
                Some(cols) => if cols.len() == 0 {
                    Err(NodeErrorKind::BadNode)
                } else {
                    match n.inputs {
                        None => Err(NodeErrorKind::ValidationError),
                        Some(pins) => if pins.len() != cols.len() {
                            Err(NodeErrorKind::ValidationError)
                        } else {
                            match pins_value(pins, ctx, scripts) {
                                Err(_) => Err(NodeErrorKind::ScriptError),
                                Ok(vs) => Ok(
                                    JsonData::Object(
                                        seq![
                                            ("operation"@, JsonData::Str("pgdyn_table_write"@)),
                                            ("schema"@, JsonData::Str("mway_dynamic_tables"@)),
                                            ("table"@, JsonData::Str(t)),
                                            ("columns"@, JsonData::Array(cols.map_values(|s: Seq<char>| JsonData::Str(s)))),
                                            ("data_values"@, JsonData::Array(vs)),
                                            ("connection"@, JsonData::Str("REDACTED"@)),
                                            ("rows_affected"@, JsonData::Int(1)),
                                            ("executed_at"@, JsonData::Str(now)),
                                        ],
                                    ),
                                ),
                            }
                        },
                    }
                },
            },
        }
    }
}

fn check_secrets(node: &Node, vault: &Vec<(String, String)>) -> (r: Result<(), NodeError>)
    ensures
        match r {
            Ok(_) => secrets_ok(node@, vault@),
            Err(e) => !secrets_ok(node@, vault@) && e.kind() == NodeErrorKind::MissingSecret,
        },
{
    match &node.secrets {
        None => Err(missing_secret("this node requires secrets")),
        Some(ss) => {
            if ss.len() == 0 {
                return Err(missing_secret("this node requires at least one secret"));
            }
            match evaluate_secret_pins(ss, vault) {
                Ok(_) => Ok(()),
                Err(e) => Err(e),
            }
        },
    }
}

/// Runs a `PGQuery` node: it checks and resolves the node's secrets, then
/// records the query and its bind values.
#[verifier::rlimit(60)]
pub fn run_pg_query(node: &Node, ctx: &ExecutionContext, scripts: &ScriptResults, vault: &Vec<(String, String)>) -> (r: Result<JsonValue, NodeError>)
    ensures
        exists|now: Seq<char>|
            #![trigger pg_query_outcome(node@, *ctx, scripts@, vault@, now)]
            match r {
                Ok(v) => pg_query_outcome(node@, *ctx, scripts@, vault@, now) == Ok::<JsonData, NodeErrorKind>(v@),
                Err(e) => pg_query_outcome(node@, *ctx, scripts@, vault@, now) == Err::<JsonData, NodeErrorKind>(e.kind()),
            },
{
    proof {
        reveal(pg_query_outcome);
    }
    let ghost any_time = Seq::<char>::empty();
    match check_secrets(node, vault) {
        Ok(_) => {},
        Err(e) => {
            assert(pg_query_outcome(node@, *ctx, scripts@, vault@, any_time) == Err::<JsonData, NodeErrorKind>(e.kind()));
            return Err(e);
        },
    }
    let query = match node.params.text_field("query") {
        Some(q) => q.clone(),
        None => {
            let e = bad_node("PGQuery needs a 'query' parameter");
            assert(pg_query_outcome(node@, *ctx, scripts@, vault@, any_time) == Err::<JsonData, NodeErrorKind>(e.kind()));
            return Err(e);
        },
    };
    let binds = match &node.inputs {
        Some(inputs) => match evaluate_input_pins(inputs, ctx, scripts) {
            Ok(vs) => vs,
            Err(e) => {
                assert(pg_query_outcome(node@, *ctx, scripts@, vault@, any_time) == Err::<JsonData, NodeErrorKind>(e.kind()));
                return Err(e);
            },
        },
        None => {
            let v: Vec<JsonValue> = Vec::new();
            assert(items_data(v@) =~= Seq::<JsonData>::empty());
            v
        },
    };
    let now = now_rfc3339();
    let ghost nv = now@;
    let ghost bv = items_data(binds@);
    let mut es: Vec<(String, JsonValue)> = Vec::new();
    es.push((String::from_str("query"), JsonValue::Str(query)));
    es.push(text_entry("connection", "REDACTED"));
    es.push((String::from_str("bind_params"), JsonValue::Array(binds)));
    es.push((String::from_str("rows"), JsonValue::Array(Vec::new())));
    es.push((String::from_str("row_count"), JsonValue::Int(0)));
    es.push((String::from_str("executed_at"), JsonValue::Str(now)));
    proof {
        lemma_entries_data(es@);
        assert(items_data(Seq::<JsonValue>::empty()) =~= Seq::<JsonData>::empty());
    }
    let record = JsonValue::Object(es);
    proof {
        let q = node@.params.text_field("query"@).unwrap();
        assert(entries_data(es@) =~= seq![
            ("query"@, JsonData::Str(q)),
            ("connection"@, JsonData::Str("REDACTED"@)),
            ("bind_params"@, JsonData::Array(bv)),
            ("rows"@, JsonData::Array(Seq::empty())),
            ("row_count"@, JsonData::Int(0)),
            ("executed_at"@, JsonData::Str(nv)),
        ]);
        assert(pg_query_outcome(node@, *ctx, scripts@, vault@, nv) == Ok::<JsonData, NodeErrorKind>(record@));
    }
    Ok(record)
}

/// Runs a `PGDynTableWriter` node: it checks its secrets, table, columns and
/// input pins, then records the row written.
#[verifier::rlimit(80)]
pub fn run_pg_dyn_write(node: &Node, ctx: &ExecutionContext, scripts: &ScriptResults, vault: &Vec<(String, String)>) -> (r: Result<JsonValue, NodeError>)
    ensures
        exists|now: Seq<char>|
            #![trigger pg_write_outcome(node@, *ctx, scripts@, vault@, now)]
            match r {
                Ok(v) => pg_write_outcome(node@, *ctx, scripts@, vault@, now) == Ok::<JsonData, NodeErrorKind>(v@),
                Err(e) => pg_write_outcome(node@, *ctx, scripts@, vault@, now) == Err::<JsonData, NodeErrorKind>(e.kind()),
            },
{
    proof {
        reveal(pg_write_outcome);
    }
    let ghost any_time = Seq::<char>::empty();
    match check_secrets(node, vault) {
        Ok(_) => {},
        Err(e) => {
            assert(pg_write_outcome(node@, *ctx, scripts@, vault@, any_time) == Err::<JsonData, NodeErrorKind>(e.kind()));
            return Err(e);
        },
    }
    let table = match node.params.text_field("table") {
        Some(t) => t.clone(),
        None => {
            let e = bad_node("PGDynTableWriter needs a 'table' parameter");
            assert(pg_write_outcome(node@, *ctx, scripts@, vault@, any_time) == Err::<JsonData, NodeErrorKind>(e.kind()));
            return Err(e);
        },
    };
    let columns = match columns_param(&node.params) {
        Some(c) => c,
        None => {
            let e = bad_node("PGDynTableWriter needs a 'columns' parameter");
            assert(pg_write_outcome(node@, *ctx, scripts@, vault@, any_time) == Err::<JsonData, NodeErrorKind>(e.kind()));
            return Err(e);
        },
    };
    if columns.len() == 0 {
        let e = bad_node("PGDynTableWriter requires at least one column");
        assert(pg_write_outcome(node@, *ctx, scripts@, vault@, any_time) == Err::<JsonData, NodeErrorKind>(e.kind()));
        return Err(e);
    }
    let values = match &node.inputs {
        None => {
            let e = invalid("PGDynTableWriter requires one input pin per column");
            assert(pg_write_outcome(node@, *ctx, scripts@, vault@, any_time) == Err::<JsonData, NodeErrorKind>(e.kind()));
            return Err(e);
        },
        Some(inputs) => {
            if inputs.len() != columns.len() {
                let e = invalid("input pin count must match column count");
                assert(pg_write_outcome(node@, *ctx, scripts@, vault@, any_time) == Err::<JsonData, NodeErrorKind>(e.kind()));
                return Err(e);
            }
            match evaluate_input_pins(inputs, ctx, scripts) {
                Ok(vs) => vs,
                Err(e) => {
                    assert(pg_write_outcome(node@, *ctx, scripts@, vault@, any_time) == Err::<JsonData, NodeErrorKind>(e.kind()));
                    return Err(e);
                },
            }
        },
    };
    let now = now_rfc3339();
    let ghost nv = now@;
    let ghost vv = items_data(values@);
    let ghost cv = texts(columns@);
    let cols = texts_value(&columns);
    let mut es: Vec<(String, JsonValue)> = Vec::new();
    es.push(text_entry("operation", "pgdyn_table_write"));
    es.push(text_entry("schema", "mway_dynamic_tables"));
    es.push((String::from_str("table"), JsonValue::Str(table)));
    es.push((String::from_str("columns"), cols));
    es.push((String::from_str("data_values"), JsonValue::Array(values)));
    es.push(text_entry("connection", "REDACTED"));
    es.push((String::from_str("rows_affected"), JsonValue::Int(1)));
    es.push((String::from_str("executed_at"), JsonValue::Str(now)));
    proof {
        lemma_entries_data(es@);
    }
    let record = JsonValue::Object(es);
    proof {
        let t = node@.params.text_field("table"@).unwrap();
        assert(entries_data(es@) =~= seq![
            ("operation"@, JsonData::Str("pgdyn_table_write"@)),
            ("schema"@, JsonData::Str("mway_dynamic_tables"@)),
            ("table"@, JsonData::Str(t)),
            ("columns"@, JsonData::Array(cv.map_values(|s: Seq<char>| JsonData::Str(s)))),
            ("data_values"@, JsonData::Array(vv)),
            ("connection"@, JsonData::Str("REDACTED"@)),
            ("rows_affected"@, JsonData::Int(1)),
            ("executed_at"@, JsonData::Str(nv)),
        ]);
        assert(pg_write_outcome(node@, *ctx, scripts@, vault@, nv) == Ok::<JsonData, NodeErrorKind>(record@));
    }
    Ok(record)
}

/// The outside work a node needs, or its result when it needs none.
pub enum NodeAction {
    /// The node's result; nothing is left to do.
    Finished(ExecutionResult),
    /// Run the setup statement, then the script, in a fresh script state;
    /// hand the script's value to `complete_fun_logic`.
    RunScript(String, String),
    /// Create the table if needed and insert the row; then `complete_table_write`.
    WriteRow(TableWrite),
    /// Run the SELECT on the tenant's simple-table store; then `complete_table_read`
    /// (the second field is the table name).
    ReadRows(String, String),
    /// Run the query with these bind values; then `complete_table_query`
    /// (the third field is the table name).
    QueryRows(String, Vec<JsonValue>, String),
    /// Send the request; then `complete_http`.
    SendHttp(HttpRequest),
}

/// The metadata a node starts with: `current_node_id`, `current_node_type`
/// and `execution_start` set on the context's metadata.
pub open spec fn stamped(m: Seq<(Seq<char>, JsonData)>, n: NodeView, start: Seq<char>) -> Seq<(Seq<char>, JsonData)> {
    put_entry(
        put_entry(put_entry(m, "current_node_id"@, JsonData::Str(n.id)), "current_node_type"@, JsonData::Str(n.node_type.spec_name())),
        "execution_start"@,
        JsonData::Str(start),
    )
}

/// A `PGQuery` node's action records its outcome at some time.
pub open spec fn pg_query_matches(
    n: NodeView,
    ctx: ExecutionContext,
    scripts: Seq<(String, Result<JsonValue, String>)>,
    vault: Seq<(String, String)>,
    r: Result<NodeAction, NodeError>,
) -> bool {
    exists|now: Seq<char>|
        #![trigger pg_query_outcome(n, ctx, scripts, vault, now)]
        match r {
            Ok(NodeAction::Finished(res)) => res.should_continue && res.data@.len() == 1 && pg_query_outcome(
                n,
                ctx,
                scripts,
                vault,
                now,
            ) == Ok::<JsonData, NodeErrorKind>(res.data@[0]@),
            Err(e) => pg_query_outcome(n, ctx, scripts, vault, now) == Err::<JsonData, NodeErrorKind>(e.kind()),
            _ => false,
        }
}

/// A `PGDynTableWriter` node's action records its outcome at some time.
pub open spec fn pg_write_matches(
    n: NodeView,
    ctx: ExecutionContext,
    scripts: Seq<(String, Result<JsonValue, String>)>,
    vault: Seq<(String, String)>,
    r: Result<NodeAction, NodeError>,
) -> bool {
    exists|now: Seq<char>|
        #![trigger pg_write_outcome(n, ctx, scripts, vault, now)]
        match r {
            Ok(NodeAction::Finished(res)) => res.should_continue && res.data@.len() == 1 && pg_write_outcome(
                n,
                ctx,
                scripts,
                vault,
                now,
            ) == Ok::<JsonData, NodeErrorKind>(res.data@[0]@),
            Err(e) => pg_write_outcome(n, ctx, scripts, vault, now) == Err::<JsonData, NodeErrorKind>(e.kind()),
            _ => false,
        }
}

/// The action (or failure) that node `n` calls for, type by type.
pub open spec fn action_matches(
    n: NodeView,
    ctx: ExecutionContext,
    scripts: Seq<(String, Result<JsonValue, String>)>,
    vault: Seq<(String, String)>,
    r: Result<NodeAction, NodeError>,
) -> bool {
    if n.node_type.spec_is_trigger() {
        r matches Err(e) && e is TriggerMisuse
    } else if n.node_type == NodeType::FunLogic {
        match r {
            Ok(NodeAction::RunScript(setup, script)) => fun_logic_plan(n, items_data(ctx.data@)) == Ok::<
                (Seq<char>, Seq<char>),
                NodeErrorKind,
            >((setup@, script@)),
            Err(e) => fun_logic_plan(n, items_data(ctx.data@)) == Err::<(Seq<char>, Seq<char>), NodeErrorKind>(e.kind()),
            _ => false,
        }
    } else if n.node_type == NodeType::SimpleTableWriter {
        match r {
            Ok(NodeAction::WriteRow(tw)) => write_plan(n, ctx, scripts) == Ok::<TableWriteView, NodeErrorKind>(tw@),
            Err(e) => write_plan(n, ctx, scripts) == Err::<TableWriteView, NodeErrorKind>(e.kind()),
            _ => false,
        }
    } else if n.node_type == NodeType::SimpleTableReader {
        match r {
            Ok(NodeAction::ReadRows(sql, t)) => read_plan(n) == Ok::<(Seq<char>, Seq<char>), NodeErrorKind>((sql@, t@)),
            Err(e) => read_plan(n) == Err::<(Seq<char>, Seq<char>), NodeErrorKind>(e.kind()),
            _ => false,
        }
    } else if n.node_type == NodeType::SimpleTableQuery {
        match r {
            Ok(NodeAction::QueryRows(q, binds, t)) => query_plan(n, ctx, scripts) == Ok::<
                (Seq<char>, Seq<JsonData>, Seq<char>),
                NodeErrorKind,
            >((q@, items_data(binds@), t@)),
            Err(e) => query_plan(n, ctx, scripts) == Err::<(Seq<char>, Seq<JsonData>, Seq<char>), NodeErrorKind>(e.kind()),
            _ => false,
        }
    } else if n.node_type == NodeType::HTTPClient {
        match r {
            Ok(NodeAction::SendHttp(req)) => http_plan(n, ctx, scripts) == Ok::<HttpRequestView, NodeErrorKind>(req@),
            Err(e) => http_plan(n, ctx, scripts) == Err::<HttpRequestView, NodeErrorKind>(e.kind()),
            _ => false,
        }
    } else if n.node_type == NodeType::PGQuery {
        pg_query_matches(n, ctx, scripts, vault, r)
    } else {
        pg_write_matches(n, ctx, scripts, vault, r)
    }
}

/// Checks `node`'s parameters and evaluates its pins against `ctx`: the
/// outside work it needs, or its result. Script pins take their values from
/// `scripts`; secret pins resolve against `vault`. Trigger nodes are refused.
#[verifier::rlimit(100)]
pub fn plan_node(node: &Node, ctx: &ExecutionContext, scripts: &ScriptResults, vault: &Vec<(String, String)>) -> (r: Result<NodeAction, NodeError>)
    ensures
        action_matches(node@, *ctx, scripts@, vault@, r),
{
    match node.node_type {
        NodeType::Webhook | NodeType::CronTrigger | NodeType::MCPTrigger | NodeType::WebSocketTrigger
        | NodeType::MQTTTrigger => Err(NodeError::TriggerMisuse),
        NodeType::FunLogic => match plan_fun_logic(node, ctx) {
            Ok((setup, script)) => Ok(NodeAction::RunScript(setup, script)),
            Err(e) => Err(e),
        },
        NodeType::SimpleTableWriter => match plan_table_write(node, ctx, scripts) {
            Ok(tw) => Ok(NodeAction::WriteRow(tw)),
            Err(e) => Err(e),
        },
        NodeType::SimpleTableReader => match plan_table_read(node) {
            Ok((sql, t)) => Ok(NodeAction::ReadRows(sql, t)),
            Err(e) => Err(e),
        },
        NodeType::SimpleTableQuery => match plan_table_query(node, ctx, scripts) {
            Ok((q, binds, t)) => Ok(NodeAction::QueryRows(q, binds, t)),
            Err(e) => Err(e),
        },
        NodeType::HTTPClient => match plan_http(node, ctx, scripts) {
            Ok(req) => Ok(NodeAction::SendHttp(req)),
            Err(e) => Err(e),
        },
        NodeType::PGQuery => pg_query_action(node, ctx, scripts, vault),
        NodeType::PGDynTableWriter => pg_write_action(node, ctx, scripts, vault),
    }
}

fn pg_query_action(node: &Node, ctx: &ExecutionContext, scripts: &ScriptResults, vault: &Vec<(String, String)>) -> (r: Result<NodeAction, NodeError>)
    ensures
        pg_query_matches(node@, *ctx, scripts@, vault@, r),
{
    let out = run_pg_query(node, ctx, scripts, vault);
    let ghost now = choose|now: Seq<char>|
        #![trigger pg_query_outcome(node@, *ctx, scripts@, vault@, now)]
        match out {
            Ok(v) => pg_query_outcome(node@, *ctx, scripts@, vault@, now) == Ok::<JsonData, NodeErrorKind>(v@),
            Err(e) => pg_query_outcome(node@, *ctx, scripts@, vault@, now) == Err::<JsonData, NodeErrorKind>(e.kind()),
        };
    match out {
        Ok(v) => {
            let ghost vv = v@;
            let d = one_item(v);
            let r = Ok(NodeAction::Finished(ExecutionResult { data: d, metadata: Vec::new(), should_continue: true }));
            assert(pg_query_outcome(node@, *ctx, scripts@, vault@, now) == Ok::<JsonData, NodeErrorKind>(vv));
            r
        },
        Err(e) => {
            assert(pg_query_outcome(node@, *ctx, scripts@, vault@, now) == Err::<JsonData, NodeErrorKind>(e.kind()));
            Err(e)
        },
    }
}

fn pg_write_action(node: &Node, ctx: &ExecutionContext, scripts: &ScriptResults, vault: &Vec<(String, String)>) -> (r: Result<NodeAction, NodeError>)
    ensures
        pg_write_matches(node@, *ctx, scripts@, vault@, r),
{
    let out = run_pg_dyn_write(node, ctx, scripts, vault);
    let ghost now = choose|now: Seq<char>|
        #![trigger pg_write_outcome(node@, *ctx, scripts@, vault@, now)]
        match out {
            Ok(v) => pg_write_outcome(node@, *ctx, scripts@, vault@, now) == Ok::<JsonData, NodeErrorKind>(v@),
            Err(e) => pg_write_outcome(node@, *ctx, scripts@, vault@, now) == Err::<JsonData, NodeErrorKind>(e.kind()),
        };
    match out {
        Ok(v) => {
            let ghost vv = v@;
            let d = one_item(v);
            let r = Ok(NodeAction::Finished(ExecutionResult { data: d, metadata: Vec::new(), should_continue: true }));
            assert(pg_write_outcome(node@, *ctx, scripts@, vault@, now) == Ok::<JsonData, NodeErrorKind>(vv));
            r
        },
        Err(e) => {
            assert(pg_write_outcome(node@, *ctx, scripts@, vault@, now) == Err::<JsonData, NodeErrorKind>(e.kind()));
            Err(e)
        },
    }
}

/// Starts executing `node`: plans it as `plan_node` does, and records it in
/// the context's metadata (`current_node_id`, `current_node_type`,
/// `execution_start`); a finished node's result carries that metadata.
pub fn prepare_node(node: &Node, ctx: &mut ExecutionContext, scripts: &ScriptResults, vault: &Vec<(String, String)>) -> (r: Result<NodeAction, NodeError>)
    ensures
        final(ctx).data == old(ctx).data,
        final(ctx).files == old(ctx).files,
        final(ctx).query == old(ctx).query,
        final(ctx).headers == old(ctx).headers,
        final(ctx).project_slug == old(ctx).project_slug,
        exists|start: Seq<char>|
            #![trigger stamped(meta(old(ctx).metadata@), node@, start)]
            utc_timestamp(start) && meta(final(ctx).metadata@) == stamped(meta(old(ctx).metadata@), node@, start),
        action_matches(node@, *old(ctx), scripts@, vault@, r),
        r matches Ok(NodeAction::Finished(res)) ==> meta(res.metadata@) == meta(final(ctx).metadata@),
{
    let planned = plan_node(node, ctx, scripts, vault);
    let ghost m0 = meta(ctx.metadata@);
    put_value(&mut ctx.metadata, String::from_str("current_node_id"), JsonValue::Str(node.id.clone()));
    put_value(&mut ctx.metadata, String::from_str("current_node_type"), JsonValue::Str(node.node_type.name()));
    let start = now_rfc3339();
    let ghost sv = start@;
    put_value(&mut ctx.metadata, String::from_str("execution_start"), JsonValue::Str(start));
    assert(meta(ctx.metadata@) == stamped(m0, node@, sv));
    match planned {
        Ok(NodeAction::Finished(res)) => {
            let ghost old_data = res.data;
            let metadata = crate::context::clone_entries(&ctx.metadata);
            let r = Ok(NodeAction::Finished(ExecutionResult { data: res.data, metadata, should_continue: res.should_continue }));
            proof {
                if node.node_type == NodeType::PGQuery {
                    let now = choose|now: Seq<char>|
                        #![trigger pg_query_outcome(node@, *old(ctx), scripts@, vault@, now)]
                        match planned {
                            Ok(NodeAction::Finished(res)) => res.should_continue && res.data@.len() == 1 && pg_query_outcome(
                                node@, *old(ctx), scripts@, vault@, now) == Ok::<JsonData, NodeErrorKind>(res.data@[0]@),
                            Err(e) => pg_query_outcome(node@, *old(ctx), scripts@, vault@, now) == Err::<JsonData, NodeErrorKind>(e.kind()),
                            _ => false,
                        };
                    assert(pg_query_outcome(node@, *old(ctx), scripts@, vault@, now) == pg_query_outcome(node@, *old(ctx), scripts@, vault@, now));
                } else if node.node_type == NodeType::PGDynTableWriter {
                    let now = choose|now: Seq<char>|
                        #![trigger pg_write_outcome(node@, *old(ctx), scripts@, vault@, now)]
                        match planned {
                            Ok(NodeAction::Finished(res)) => res.should_continue && res.data@.len() == 1 && pg_write_outcome(
                                node@, *old(ctx), scripts@, vault@, now) == Ok::<JsonData, NodeErrorKind>(res.data@[0]@),
                            Err(e) => pg_write_outcome(node@, *old(ctx), scripts@, vault@, now) == Err::<JsonData, NodeErrorKind>(e.kind()),
                            _ => false,
                        };
                    assert(pg_write_outcome(node@, *old(ctx), scripts@, vault@, now) == pg_write_outcome(node@, *old(ctx), scripts@, vault@, now));
                }
            }
            r
        },
        other => other,
    }
}

} // verus!
