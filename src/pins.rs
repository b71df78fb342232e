//! Pin expressions: how a node's input and secret pins are evaluated against
//! the execution context.
use vstd::prelude::*;
use vstd::string::*;
use crate::context::{ExecutionContext, FileInfo, NodeError};
use crate::workflow::texts;
use crate::json::{JsonData, JsonValue, items_data, lemma_items_data, parse_json, parsed_json};
use crate::text::{
    alnum, contains_text, has_prefix, is_alnum, is_prefix, lower_of, occurs_in, same_text, to_lower,
    split_at_char, split_char, suffix_from, chars_of,
};

verus! {

/// Follows the field names in `parts` from `cur`; a step into anything but an
/// object gives null.
pub open spec fn walk_path(cur: JsonData, parts: Seq<Seq<char>>) -> JsonData
    decreases parts.len(),
{
    if parts.len() == 0 {
        cur
    } else {
        match cur {
            JsonData::Object(_) => walk_path(
                match cur.field(parts[0]) {
                    Some(v) => v,
                    None => JsonData::Null,
                },
                parts.drop_first(),
            ),
            _ => JsonData::Null,
        }
    }
}

/// The first data item, or null when there is none.
pub open spec fn first_item(data: Seq<JsonData>) -> JsonData {
    if data.len() > 0 {
        data[0]
    } else {
        JsonData::Null
    }
}

/// The value at dot-separated `path` inside the first data item.
pub open spec fn json_path(data: Seq<JsonData>, path: Seq<char>) -> JsonData {
    walk_path(first_item(data), split_at_char(path, '.'))
}

/// Field `f` of the sub-object `section` of the first data item, or null.
pub open spec fn section_field(data: Seq<JsonData>, section: Seq<char>, f: Seq<char>) -> JsonData {
    match first_item(data).field(section) {
        Some(sub) => match sub.field(f) {
            Some(v) => v,
            None => JsonData::Null,
        },
        None => JsonData::Null,
    }
}

/// The value of the first pair whose key is `k`.
pub open spec fn lookup_text(pairs: Seq<(String, String)>, k: Seq<char>) -> Option<Seq<char>> {
    if exists|i: int| 0 <= i < pairs.len() && pairs[i].0@ == k {
        Some(
            pairs[choose|i: int|
                0 <= i < pairs.len() && pairs[i].0@ == k && forall|j: int| 0 <= j < i ==> pairs[j].0@ != k].1@,
        )
    } else {
        None
    }
}

pub open spec fn dangerous_patterns() -> Seq<Seq<char>> {
    seq![
        "os."@, "io."@, "debug."@, "package."@, "require"@, "load"@, "dofile"@, "loadfile"@,
        "loadstring"@, "rawget"@, "rawset"@, "getmetatable"@, "setmetatable"@, "_G"@, "_ENV"@,
        "coroutine"@, "collectgarbage"@,
    ]
}

pub open spec fn script_patterns() -> Seq<Seq<char>> {
    seq!["date("@, "time()"@, "now()"@, "math."@, "string."@, "uuid()"@, "hash("@]
}

pub open spec fn occurs_any(pats: Seq<Seq<char>>, s: Seq<char>) -> bool {
    exists|i: int| 0 <= i < pats.len() && occurs_in(#[trigger] pats[i], s)
}

pub open spec fn plain_symbol(c: char) -> bool {
    c == ' ' || c == '+' || c == '-' || c == '*' || c == '/' || c == '(' || c == ')' || c == '['
        || c == ']' || c == '{' || c == '}' || c == '.' || c == ',' || c == '"' || c == '\''
        || c == '_' || c == '%'
}

/// The expression may go to the script sandbox: it holds no blocked name,
/// and either calls an allowed helper or is a short plain expression.
pub open spec fn safe_expression(e: Seq<char>) -> bool {
    if occurs_any(dangerous_patterns(), e) {
        false
    } else if occurs_any(script_patterns(), e) {
        true
    } else {
        e.len() < 200 && forall|i: int| 0 <= i < e.len() ==> alnum(#[trigger] e[i]) || plain_symbol(e[i])
    }
}

/// Scripts already run by the sandbox: each expression with its value or its error.
pub type ScriptResults = Vec<(String, Result<JsonValue, String>)>;

/// The outcome recorded for `expr`: the first entry with that expression.
pub open spec fn script_outcome(scripts: Seq<(String, Result<JsonValue, String>)>, expr: Seq<char>) -> Option<Result<JsonData, ()>> {
    if exists|i: int| 0 <= i < scripts.len() && scripts[i].0@ == expr {
        let i = choose|i: int|
            0 <= i < scripts.len() && scripts[i].0@ == expr && forall|j: int| 0 <= j < i ==> scripts[j].0@ != expr;
        match scripts[i].1 {
            Ok(v) => Some(Ok(v@)),
            Err(_) => Some(Err(())),
        }
    } else {
        None
    }
}

/// What a pin evaluates to, or `Err` when it is a script that failed or did not run.
/// Header names are looked up in lower case, as the context stores them.
pub open spec fn pin_value(
    pin: Seq<char>,
    ctx: ExecutionContext,
    scripts: Seq<(String, Result<JsonValue, String>)>,
) -> Result<JsonData, ()> {
    let data = items_data(ctx.data@);
    if is_prefix("$json."@, pin) {
        Ok(json_path(data, pin.subrange(6, pin.len() as int)))
    } else if pin == "$json"@ {
        Ok(first_item(data))
    } else if is_prefix("$file."@, pin) {
        Ok(file_value(ctx.files@, pin.subrange(6, pin.len() as int)))
    } else if is_prefix("$query."@, pin) {
        Ok(text_or_null(lookup_text(ctx.query@, pin.subrange(7, pin.len() as int))))
    } else if is_prefix("$headers."@, pin) {
        Ok(text_or_null(lookup_text(ctx.headers@, lower_of(pin.subrange(9, pin.len() as int)))))
    } else if is_prefix("$websocket."@, pin) {
        Ok(section_field(data, "websocket"@, pin.subrange(11, pin.len() as int)))
    } else if is_prefix("$mqtt."@, pin) {
        Ok(section_field(data, "mqtt"@, pin.subrange(6, pin.len() as int)))
    } else if is_prefix("$mcp."@, pin) {
        Ok(section_field(data, "mcp"@, pin.subrange(5, pin.len() as int)))
    } else if safe_expression(pin) {
        match script_outcome(scripts, pin) {
            Some(Ok(v)) => Ok(v),
            _ => Err(()),
        }
    } else {
        match parsed_json(pin) {
            Some(v) => Ok(v),
            None => Ok(JsonData::Str(pin)),
        }
    }
}

pub open spec fn text_or_null(t: Option<Seq<char>>) -> JsonData {
    match t {
        Some(s) => JsonData::Str(s),
        None => JsonData::Null,
    }
}

/// The record of the first file named `name`, or null.
pub open spec fn file_value(files: Seq<(String, FileInfo)>, name: Seq<char>) -> JsonData {
    if exists|i: int| 0 <= i < files.len() && files[i].0@ == name {
        let i = choose|i: int|
            0 <= i < files.len() && files[i].0@ == name && forall|j: int| 0 <= j < i ==> files[j].0@ != name;
        file_record(files[i].1)
    } else {
        JsonData::Null
    }
}

pub open spec fn file_record(f: FileInfo) -> JsonData {
    JsonData::Object(
        seq![
            ("filename"@, JsonData::Str(f.filename@)),
            ("content_type"@, JsonData::Str(f.content_type@)),
            ("size"@, JsonData::Int(f.size as int)),
            ("path"@, JsonData::Str(f.path@)),
        ],
    )
}

proof fn lemma_first_match_text(pairs: Seq<(String, String)>, k: Seq<char>, i: int)
    requires
        0 <= i < pairs.len(),
        pairs[i].0@ == k,
        forall|j: int| 0 <= j < i ==> pairs[j].0@ != k,
    ensures
        lookup_text(pairs, k) == Some(pairs[i].1@),
{
    let c = choose|c: int| 0 <= c < pairs.len() && pairs[c].0@ == k && forall|j: int| 0 <= j < c ==> pairs[j].0@ != k;
    assert(0 <= c < pairs.len() && pairs[c].0@ == k && forall|j: int| 0 <= j < c ==> pairs[j].0@ != k);
    if c < i {
        assert(pairs[c].0@ != k);
    }
    if i < c {
        assert(pairs[i].0@ != k);
    }
}

/// The value of the first pair whose key is `k`.
pub fn find_text<'a>(pairs: &'a Vec<(String, String)>, k: &str) -> (r: Option<&'a String>)
    ensures
        match r {
            Some(s) => lookup_text(pairs@, k@) == Some(s@),
            None => lookup_text(pairs@, k@) is None,
        },
{
    let mut i: usize = 0;
    while i < pairs.len()
        invariant
            i <= pairs.len(),
            forall|j: int| 0 <= j < i ==> pairs@[j].0@ != k@,
        decreases pairs.len() - i,
    {
        if same_text(pairs[i].0.as_str(), k) {
            proof {
                lemma_first_match_text(pairs@, k@, i as int);
            }
            return Some(&pairs[i].1);
        }
        i = i + 1;
    }
    None
}

fn text_or_null_value(t: Option<&String>) -> (r: JsonValue)
    ensures
        r@ == text_or_null(match t {
            Some(s) => Some(s@),
            None => None,
        }),
{
    match t {
        Some(s) => JsonValue::Str(s.clone()),
        None => JsonValue::Null,
    }
}

/// The record of the first file named `name`, or null.
pub fn file_field(files: &Vec<(String, FileInfo)>, name: &str) -> (r: JsonValue)
    ensures
        r@ == file_value(files@, name@),
{
    let mut i: usize = 0;
    while i < files.len()
        invariant
            i <= files.len(),
            forall|j: int| 0 <= j < i ==> files@[j].0@ != name@,
        decreases files.len() - i,
    {
        if same_text(files[i].0.as_str(), name) {
            let f = &files[i].1;
            let ghost fs = files@;
            proof {
                let c = choose|c: int| 0 <= c < fs.len() && fs[c].0@ == name@ && forall|j: int| 0 <= j < c ==> fs[j].0@ != name@;
                assert(0 <= c < fs.len() && fs[c].0@ == name@ && forall|j: int| 0 <= j < c ==> fs[j].0@ != name@);
                if c < i {
                    assert(fs[c].0@ != name@);
                }
                if i < c {
                    assert(fs[i as int].0@ != name@);
                }
            }
            let mut entries: Vec<(String, JsonValue)> = Vec::new();
            entries.push((String::from_str("filename"), JsonValue::Str(f.filename.clone())));
            entries.push((String::from_str("content_type"), JsonValue::Str(f.content_type.clone())));
            entries.push((String::from_str("size"), JsonValue::Int(f.size as i128)));
            entries.push((String::from_str("path"), JsonValue::Str(f.path.clone())));
            proof {
                crate::json::lemma_entries_data(entries@);
            }
            let r = JsonValue::Object(entries);
            assert(crate::json::entries_data(entries@) =~= seq![
                ("filename"@, JsonData::Str(f.filename@)),
                ("content_type"@, JsonData::Str(f.content_type@)),
                ("size"@, JsonData::Int(f.size as int)),
                ("path"@, JsonData::Str(f.path@)),
            ]);
            return r;
        }
        i = i + 1;
    }
    JsonValue::Null
}

/// The first data item, or null.
pub fn first_data_item(data: &Vec<JsonValue>) -> (r: JsonValue)
    ensures
        r@ == first_item(items_data(data@)),
{
    proof {
        lemma_items_data(data@);
    }
    if data.len() > 0 {
        data[0].deep_clone()
    } else {
        JsonValue::Null
    }
}

/// The value at dot-separated `path` inside the first data item.
pub fn extract_json_field(data: &Vec<JsonValue>, path: &str) -> (r: JsonValue)
    ensures
        r@ == json_path(items_data(data@), path@),
{
    let first = first_data_item(data);
    let parts = split_char(path, '.');
    let ghost ps = parts@.map_values(|p: String| p@);
    let null = JsonValue::Null;
    let mut cur: &JsonValue = &first;
    let mut i: usize = 0;
    assert(ps.subrange(0, ps.len() as int) =~= ps);
    while i < parts.len()
        invariant
            ps == parts@.map_values(|p: String| p@),
            ps == split_at_char(path@, '.'),
            null@ == JsonData::Null,
            i <= parts.len(),
            walk_path(cur@, ps.subrange(i as int, ps.len() as int)) == json_path(items_data(data@), path@),
        decreases parts.len() - i,
    {
        assert(ps.subrange(i as int, ps.len() as int).drop_first() =~= ps.subrange(i + 1, ps.len() as int));
        assert(ps.subrange(i as int, ps.len() as int)[0] == parts@[i as int]@);
        if cur.is_object() {
            cur = match cur.get(parts[i].as_str()) {
                Some(v) => v,
                None => &null,
            };
        } else {
            return JsonValue::Null;
        }
        i = i + 1;
    }
    assert(ps.subrange(i as int, ps.len() as int).len() == 0);
    cur.deep_clone()
}

/// Field `f` of the sub-object `section` of the first data item, or null.
pub fn extract_section_field(data: &Vec<JsonValue>, section: &str, f: &str) -> (r: JsonValue)
    ensures
        r@ == section_field(items_data(data@), section@, f@),
{
    let first = first_data_item(data);
    match first.get(section) {
        Some(sub) => match sub.get(f) {
            Some(v) => v.deep_clone(),
            None => JsonValue::Null,
        },
        None => JsonValue::Null,
    }
}

fn occurs_in_any(s: &str, pats: &Vec<&str>) -> (r: bool)
    ensures
        r == occurs_any(pats@.map_values(|p: &str| p@), s@),
{
    let ghost ps = pats@.map_values(|p: &str| p@);
    let mut i: usize = 0;
    while i < pats.len()
        invariant
            ps == pats@.map_values(|p: &str| p@),
            i <= pats.len(),
            forall|j: int| 0 <= j < i ==> !occurs_in(#[trigger] ps[j], s@),
        decreases pats.len() - i,
    {
        if contains_text(s, pats[i]) {
            assert(occurs_in(ps[i as int], s@));
            return true;
        }
        i = i + 1;
    }
    false
}

fn dangerous_list() -> (r: Vec<&'static str>)
    ensures
        r@.map_values(|p: &str| p@) == dangerous_patterns(),
{
    let mut v: Vec<&'static str> = Vec::new();
    v.push("os.");
    v.push("io.");
    v.push("debug.");
    v.push("package.");
    v.push("require");
    v.push("load");
    v.push("dofile");
    v.push("loadfile");
    v.push("loadstring");
    v.push("rawget");
    v.push("rawset");
    v.push("getmetatable");
    v.push("setmetatable");
    v.push("_G");
    v.push("_ENV");
    v.push("coroutine");
    v.push("collectgarbage");
    assert(v@.map_values(|p: &str| p@) =~= dangerous_patterns());
    v
}

fn script_list() -> (r: Vec<&'static str>)
    ensures
        r@.map_values(|p: &str| p@) == script_patterns(),
{
    let mut v: Vec<&'static str> = Vec::new();
    v.push("date(");
    v.push("time()");
    v.push("now()");
    v.push("math.");
    v.push("string.");
    v.push("uuid()");
    v.push("hash(");
    assert(v@.map_values(|p: &str| p@) =~= script_patterns());
    v
}

fn is_plain_symbol(c: char) -> (r: bool)
    ensures
        r == plain_symbol(c),
{
    c == ' ' || c == '+' || c == '-' || c == '*' || c == '/' || c == '(' || c == ')' || c == '['
        || c == ']' || c == '{' || c == '}' || c == '.' || c == ',' || c == '"' || c == '\''
        || c == '_' || c == '%'
}

/// Whether `expr` may be evaluated by the script sandbox.
pub fn is_safe_expression(expr: &str) -> (r: bool)
    ensures
        r == safe_expression(expr@),
{
    if occurs_in_any(expr, &dangerous_list()) {
        return false;
    }
    if occurs_in_any(expr, &script_list()) {
        return true;
    }
    let cs = chars_of(expr);
    if cs.len() >= 200 {
        return false;
    }
    let mut i: usize = 0;
    while i < cs.len()
        invariant
            cs@ == expr@,
            !occurs_any(dangerous_patterns(), expr@),
            !occurs_any(script_patterns(), expr@),
            cs.len() < 200,
            i <= cs.len(),
            forall|j: int| 0 <= j < i ==> alnum(#[trigger] cs@[j]) || plain_symbol(cs@[j]),
        decreases cs.len() - i,
    {
        if !(is_alnum(cs[i]) || is_plain_symbol(cs[i])) {
            assert(!(alnum(expr@[i as int]) || plain_symbol(expr@[i as int])));
            return false;
        }
        i = i + 1;
    }
    true
}

/// The outcome recorded for `expr`.
pub fn find_script<'a>(scripts: &'a ScriptResults, expr: &str) -> (r: Option<&'a Result<JsonValue, String>>)
    ensures
        match r {
            Some(Ok(v)) => script_outcome(scripts@, expr@) == Some(Ok::<JsonData, ()>(v@)),
            Some(Err(_)) => script_outcome(scripts@, expr@) == Some(Err::<JsonData, ()>(())),
            None => script_outcome(scripts@, expr@) is None,
        },
{
    let mut i: usize = 0;
    while i < scripts.len()
        invariant
            i <= scripts.len(),
            forall|j: int| 0 <= j < i ==> scripts@[j].0@ != expr@,
        decreases scripts.len() - i,
    {
        if same_text(scripts[i].0.as_str(), expr) {
            let ghost ss = scripts@;
            proof {
                let c = choose|c: int| 0 <= c < ss.len() && ss[c].0@ == expr@ && forall|j: int| 0 <= j < c ==> ss[j].0@ != expr@;
                assert(0 <= c < ss.len() && ss[c].0@ == expr@ && forall|j: int| 0 <= j < c ==> ss[j].0@ != expr@);
                if c < i {
                    assert(ss[c].0@ != expr@);
                }
                if i < c {
                    assert(ss[i as int].0@ != expr@);
                }
            }
            return Some(&scripts[i].1);
        }
        i = i + 1;
    }
    None
}

/// Evaluates one input pin against `ctx`; script pins take their value from `scripts`.
pub fn evaluate_input_pin(pin: &str, ctx: &ExecutionContext, scripts: &ScriptResults) -> (r: Result<JsonValue, NodeError>)
    ensures
        match r {
            Ok(v) => pin_value(pin@, *ctx, scripts@) == Ok::<JsonData, ()>(v@),
            Err(e) => pin_value(pin@, *ctx, scripts@) is Err && e is ScriptError,
        },
{
    proof {
        reveal_strlit("$json.");
        reveal_strlit("$file.");
        reveal_strlit("$query.");
        reveal_strlit("$headers.");
        reveal_strlit("$websocket.");
        reveal_strlit("$mqtt.");
        reveal_strlit("$mcp.");
    }
    if has_prefix(pin, "$json.") {
        let rest = suffix_from(pin, 6);
        Ok(extract_json_field(&ctx.data, rest.as_str()))
    } else if same_text(pin, "$json") {
        Ok(first_data_item(&ctx.data))
    } else if has_prefix(pin, "$file.") {
        let rest = suffix_from(pin, 6);
        Ok(file_field(&ctx.files, rest.as_str()))
    } else if has_prefix(pin, "$query.") {
        let rest = suffix_from(pin, 7);
        Ok(text_or_null_value(find_text(&ctx.query, rest.as_str())))
    } else if has_prefix(pin, "$headers.") {
        let rest = to_lower(suffix_from(pin, 9).as_str());
        Ok(text_or_null_value(find_text(&ctx.headers, rest.as_str())))
    } else if has_prefix(pin, "$websocket.") {
        let rest = suffix_from(pin, 11);
        Ok(extract_section_field(&ctx.data, "websocket", rest.as_str()))
    } else if has_prefix(pin, "$mqtt.") {
        let rest = suffix_from(pin, 6);
        Ok(extract_section_field(&ctx.data, "mqtt", rest.as_str()))
    } else if has_prefix(pin, "$mcp.") {
        let rest = suffix_from(pin, 5);
        Ok(extract_section_field(&ctx.data, "mcp", rest.as_str()))
    } else if is_safe_expression(pin) {
        match find_script(scripts, pin) {
            Some(Ok(v)) => Ok(v.deep_clone()),
            Some(Err(msg)) => Err(NodeError::ScriptError(msg.clone())),
            None => Err(NodeError::ScriptError(String::from_str("script was not evaluated"))),
        }
    } else {
        match parse_json(pin) {
            Some(v) => Ok(v),
            None => Ok(JsonValue::Str(String::from_str(pin))),
        }
    }
}

/// What a list of pins evaluates to: the values in order, or the first failure.
pub open spec fn pins_value(
    pins: Seq<Seq<char>>,
    ctx: ExecutionContext,
    scripts: Seq<(String, Result<JsonValue, String>)>,
) -> Result<Seq<JsonData>, ()>
    decreases pins.len(),
{
    if pins.len() == 0 {
        Ok(Seq::empty())
    } else {
        match pins_value(pins.drop_last(), ctx, scripts) {
            Ok(vs) => match pin_value(pins.last(), ctx, scripts) {
                Ok(v) => Ok(vs.push(v)),
                Err(_) => Err(()),
            },
            Err(_) => Err(()),
        }
    }
}

proof fn lemma_pins_fail_extends(pins: Seq<Seq<char>>, ctx: ExecutionContext, scripts: Seq<(String, Result<JsonValue, String>)>, i: int)
    requires
        0 <= i <= pins.len(),
        pins_value(pins.subrange(0, i), ctx, scripts) is Err,
    ensures
        pins_value(pins, ctx, scripts) is Err,
    decreases pins.len() - i,
{
    if i < pins.len() {
        assert(pins.subrange(0, i + 1).drop_last() =~= pins.subrange(0, i));
        lemma_pins_fail_extends(pins, ctx, scripts, i + 1);
    } else {
        assert(pins.subrange(0, i) =~= pins);
    }
}

/// Evaluates input pins in order.
pub fn evaluate_input_pins(pins: &Vec<String>, ctx: &ExecutionContext, scripts: &ScriptResults) -> (r: Result<Vec<JsonValue>, NodeError>)
    ensures
        match r {
            Ok(vs) => pins_value(texts(pins@), *ctx, scripts@) == Ok::<Seq<JsonData>, ()>(items_data(vs@)),
            Err(e) => pins_value(texts(pins@), *ctx, scripts@) is Err && e is ScriptError,
        },
{
    let mut out: Vec<JsonValue> = Vec::new();
    let mut i: usize = 0;
    while i < pins.len()
        invariant
            i <= pins.len(),
            pins_value(texts(pins@).subrange(0, i as int), *ctx, scripts@) == Ok::<Seq<JsonData>, ()>(items_data(out@)),
        decreases pins.len() - i,
    {
        let ghost pre = texts(pins@).subrange(0, i as int);
        let ghost post = texts(pins@).subrange(0, i + 1);
        assert(post.drop_last() =~= pre);
        assert(post.last() == pins@[i as int]@);
        match evaluate_input_pin(pins[i].as_str(), ctx, scripts) {
            Ok(v) => {
                let ghost before = out@;
                out.push(v);
                assert(out@.drop_last() =~= before);
            },
            Err(e) => {
                proof {
                    lemma_pins_fail_extends(texts(pins@), *ctx, scripts@, i + 1);
                }
                return Err(e);
            },
        }
        i = i + 1;
    }
    assert(texts(pins@).subrange(0, pins@.len() as int) =~= texts(pins@));
    Ok(out)
}

/// What secret pins resolve to: each must read `$secret.<key>` with `key` in
/// the vault; the first that does not is reported.
pub open spec fn secrets_value(pins: Seq<Seq<char>>, vault: Seq<(String, String)>) -> Option<Seq<Seq<char>>>
    decreases pins.len(),
{
    if pins.len() == 0 {
        Some(Seq::empty())
    } else {
        match secrets_value(pins.drop_last(), vault) {
            Some(vs) => {
                let p = pins.last();
                if is_prefix("$secret."@, p) {
                    match lookup_text(vault, p.subrange(8, p.len() as int)) {
                        Some(v) => Some(vs.push(v)),
                        None => None,
                    }
                } else {
                    None
                }
            },
            None => None,
        }
    }
}

proof fn lemma_secrets_fail_extends(pins: Seq<Seq<char>>, vault: Seq<(String, String)>, i: int)
    requires
        0 <= i <= pins.len(),
        secrets_value(pins.subrange(0, i), vault) is None,
    ensures
        secrets_value(pins, vault) is None,
    decreases pins.len() - i,
{
    if i < pins.len() {
        assert(pins.subrange(0, i + 1).drop_last() =~= pins.subrange(0, i));
        lemma_secrets_fail_extends(pins, vault, i + 1);
    } else {
        assert(pins.subrange(0, i) =~= pins);
    }
}

/// Resolves secret pins against `vault`, a list of credential names and values.
pub fn evaluate_secret_pins(pins: &Vec<String>, vault: &Vec<(String, String)>) -> (r: Result<Vec<String>, NodeError>)
    ensures
        match r {
            Ok(vs) => secrets_value(texts(pins@), vault@) == Some(texts(vs@)),
            Err(e) => secrets_value(texts(pins@), vault@) is None && e is MissingSecret,
        },
{
    proof {
        reveal_strlit("$secret.");
    }
    let mut out: Vec<String> = Vec::new();
    let mut i: usize = 0;
    while i < pins.len()
        invariant
            i <= pins.len(),
            secrets_value(texts(pins@).subrange(0, i as int), vault@) == Some(texts(out@)),
        decreases pins.len() - i,
    {
        let ghost pre = texts(pins@).subrange(0, i as int);
        let ghost post = texts(pins@).subrange(0, i + 1);
        assert(post.drop_last() =~= pre);
        assert(post.last() == pins@[i as int]@);
        let p = pins[i].as_str();
        proof {
            reveal_strlit("$secret.");
        }
        if has_prefix(p, "$secret.") {
            let key = suffix_from(p, 8);
            match find_text(vault, key.as_str()) {
                Some(v) => {
                    let ghost before = out@;
                    out.push(v.clone());
                    assert(texts(out@) =~= texts(before).push(v@));
                },
                None => {
                    proof {
                        lemma_secrets_fail_extends(texts(pins@), vault@, i + 1);
                    }
                    return Err(NodeError::MissingSecret(key));
                },
            }
        } else {
            proof {
                lemma_secrets_fail_extends(texts(pins@), vault@, i + 1);
            }
            return Err(NodeError::MissingSecret(String::from_str(p)));
        }
        i = i + 1;
    }
    assert(texts(pins@).subrange(0, pins@.len() as int) =~= texts(pins@));
    Ok(out)
}

/// The pins of `pins` that go to the script sandbox, in order.
pub fn script_pins(pins: &Vec<String>) -> (r: Vec<String>)
    ensures
        forall|k: int| 0 <= k < r@.len() ==> safe_expression(#[trigger] r@[k]@),
{
    let mut out: Vec<String> = Vec::new();
    let mut i: usize = 0;
    while i < pins.len()
        invariant
            i <= pins.len(),
            forall|k: int| 0 <= k < out@.len() ==> safe_expression(#[trigger] out@[k]@),
        decreases pins.len() - i,
    {
        let p = pins[i].as_str();
        if !is_reference(p) && is_safe_expression(p) {
            out.push(pins[i].clone());
        }
        i = i + 1;
    }
    out
}

/// Whether a pin reads from the context (`$json`, `$file.`, ...) rather than
/// being a script or a literal.
pub fn is_reference(pin: &str) -> (r: bool)
    ensures
        r == (is_prefix("$json."@, pin@) || pin@ == "$json"@ || is_prefix("$file."@, pin@)
            || is_prefix("$query."@, pin@) || is_prefix("$headers."@, pin@) || is_prefix(
            "$websocket."@,
            pin@,
        ) || is_prefix("$mqtt."@, pin@) || is_prefix("$mcp."@, pin@)),
{
    has_prefix(pin, "$json.") || same_text(pin, "$json") || has_prefix(pin, "$file.") || has_prefix(pin, "$query.")
        || has_prefix(pin, "$headers.") || has_prefix(pin, "$websocket.") || has_prefix(pin, "$mqtt.")
        || has_prefix(pin, "$mcp.")
}

} // verus!
