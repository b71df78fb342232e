//! Structured values that flow between nodes: the JSON data model, its
//! mathematical view, field lookup, copying, and rendering as a Lua literal.
use vstd::prelude::*;
use vstd::string::*;
use crate::text::{int_text, int_to_text, owned, push_char, same_text};

verus! {

/// The mathematical form of a structured value.
pub enum JsonData {
    Null,
    Bool(bool),
    Int(int),
    Float(Seq<char>),
    Str(Seq<char>),
    Array(Seq<JsonData>),
    Object(Seq<(Seq<char>, JsonData)>),
}

/// A structured value. Numbers are integers, or the decimal text of a
/// non-integral number; an object keeps its fields in order.
pub enum JsonValue {
    Null,
    Bool(bool),
    Int(i128),
    Float(String),
    Str(String),
    Array(Vec<JsonValue>),
    Object(Vec<(String, JsonValue)>),
}

pub open spec fn items_data(items: Seq<JsonValue>) -> Seq<JsonData>
    decreases items,
{
    if items.len() == 0 {
        Seq::empty()
    } else {
        items_data(items.drop_last()).push(items.last().data())
    }
}

pub open spec fn entries_data(entries: Seq<(String, JsonValue)>) -> Seq<(Seq<char>, JsonData)>
    decreases entries,
{
    if entries.len() == 0 {
        Seq::empty()
    } else {
        entries_data(entries.drop_last()).push((entries.last().0@, entries.last().1.data()))
    }
}

impl JsonValue {
    pub open spec fn data(&self) -> JsonData
        decreases self,
    {
        match self {
            JsonValue::Null => JsonData::Null,
            JsonValue::Bool(b) => JsonData::Bool(*b),
            JsonValue::Int(n) => JsonData::Int(*n as int),
            JsonValue::Float(t) => JsonData::Float(t@),
            JsonValue::Str(s) => JsonData::Str(s@),
            JsonValue::Array(items) => JsonData::Array(items_data(items@)),
            JsonValue::Object(entries) => JsonData::Object(entries_data(entries@)),
        }
    }
}

impl View for JsonValue {
    type V = JsonData;

    open spec fn view(&self) -> JsonData {
        self.data()
    }
}

pub proof fn lemma_items_data(items: Seq<JsonValue>)
    ensures
        items_data(items).len() == items.len(),
        forall|i: int| 0 <= i < items.len() ==> #[trigger] items_data(items)[i] == items[i].data(),
    decreases items.len(),
{
    if items.len() > 0 {
        lemma_items_data(items.drop_last());
    }
}

pub proof fn lemma_entries_data(entries: Seq<(String, JsonValue)>)
    ensures
        entries_data(entries).len() == entries.len(),
        forall|i: int|
            0 <= i < entries.len() ==> #[trigger] entries_data(entries)[i] == (
            entries[i].0@,
            entries[i].1.data(),
        ),
    decreases entries.len(),
{
    if entries.len() > 0 {
        lemma_entries_data(entries.drop_last());
    }
}

/// The position of the first entry whose key is `k`, if any.
pub open spec fn first_key(entries: Seq<(Seq<char>, JsonData)>, k: Seq<char>) -> Option<int> {
    if exists|i: int| 0 <= i < entries.len() && entries[i].0 == k {
        Some(
            choose|i: int|
                0 <= i < entries.len() && entries[i].0 == k && forall|j: int|
                    0 <= j < i ==> entries[j].0 != k,
        )
    } else {
        None
    }
}

impl JsonData {
    /// The value of field `k` of an object (its first entry with that key).
    pub open spec fn field(self, k: Seq<char>) -> Option<JsonData> {
        match self {
            JsonData::Object(entries) => match first_key(entries, k) {
                Some(i) => Some(entries[i].1),
                None => None,
            },
            _ => None,
        }
    }

    /// The text of a string value.
    pub open spec fn text(self) -> Option<Seq<char>> {
        match self {
            JsonData::Str(s) => Some(s),
            _ => None,
        }
    }

    /// The text of field `k` when that field holds a string.
    pub open spec fn text_field(self, k: Seq<char>) -> Option<Seq<char>> {
        match self.field(k) {
            Some(v) => v.text(),
            None => None,
        }
    }

    /// The value as an unsigned 64-bit integer, when it is one.
    pub open spec fn unsigned(self) -> Option<nat> {
        match self {
            JsonData::Int(n) => if 0 <= n <= u64::MAX {
                Some(n as nat)
            } else {
                None
            },
            _ => None,
        }
    }

    pub open spec fn is_array(self) -> bool {
        self is Array
    }

    pub open spec fn is_object(self) -> bool {
        self is Object
    }
}

pub proof fn lemma_first_key_found_pub(entries: Seq<(Seq<char>, JsonData)>, k: Seq<char>, i: int)
    requires
        0 <= i < entries.len(),
        entries[i].0 == k,
        forall|j: int| 0 <= j < i ==> entries[j].0 != k,
    ensures
        first_key(entries, k) == Some(i),
{
    let c = choose|c: int|
        0 <= c < entries.len() && entries[c].0 == k && forall|j: int| 0 <= j < c ==> entries[j].0 != k;
    assert(0 <= c < entries.len() && entries[c].0 == k && forall|j: int| 0 <= j < c ==> entries[j].0 != k);
    if c < i {
        assert(entries[c].0 != k);
    }
    if i < c {
        assert(entries[i].0 != k);
    }
}

pub proof fn lemma_first_key_absent(entries: Seq<(Seq<char>, JsonData)>, k: Seq<char>)
    requires
        forall|j: int| 0 <= j < entries.len() ==> entries[j].0 != k,
    ensures
        first_key(entries, k) is None,
{
}

impl JsonValue {
    /// The value of field `key`, when this is an object that has it.
    #[verifier::loop_isolation(false)]
    pub fn get(&self, key: &str) -> (r: Option<&JsonValue>)
        ensures
            match r {
                Some(v) => self@.field(key@) == Some(v@),
                None => self@.field(key@) is None,
            },
    {
        match self {
            JsonValue::Object(entries) => {
                proof {
                    lemma_entries_data(entries@);
                }
                let ghost es = entries_data(entries@);
                assert(self@ == JsonData::Object(es));
                let mut i: usize = 0;
                while i < entries.len()
                    invariant
                        es == entries_data(entries@),
                        es.len() == entries@.len(),
                        forall|j: int| 0 <= j < es.len() ==> #[trigger] es[j] == (entries@[j].0@, entries@[j].1.data()),
                        i <= entries.len(),
                        forall|j: int| 0 <= j < i ==> es[j].0 != key@,
                    decreases entries.len() - i,
                {
                    if same_text(entries[i].0.as_str(), key) {
                        proof {
                            lemma_first_key_found_pub(es, key@, i as int);
                            assert(es[i as int] == (entries@[i as int].0@, entries@[i as int].1.data()));
                        }
                        return Some(&entries[i].1);
                    }
                    i = i + 1;
                }
                None
            },
            _ => None,
        }
    }

    /// The text of a string value.
    pub fn as_text(&self) -> (r: Option<&String>)
        ensures
            match r {
                Some(s) => self@.text() == Some(s@),
                None => self@.text() is None,
            },
    {
        match self {
            JsonValue::Str(s) => Some(s),
            _ => None,
        }
    }

    /// The text of field `key`, when it holds a string.
    pub fn text_field(&self, key: &str) -> (r: Option<&String>)
        ensures
            match r {
                Some(s) => self@.text_field(key@) == Some(s@),
                None => self@.text_field(key@) is None,
            },
    {
        match self.get(key) {
            Some(v) => v.as_text(),
            None => None,
        }
    }

    /// The value as a `u64`, when it is a non-negative integer in range.
    pub fn as_u64(&self) -> (r: Option<u64>)
        ensures
            match r {
                Some(n) => self@.unsigned() == Some(n as nat),
                None => self@.unsigned() is None,
            },
    {
        match self {
            JsonValue::Int(n) => if 0 <= *n && *n <= u64::MAX as i128 {
                Some(*n as u64)
            } else {
                None
            },
            _ => None,
        }
    }

    pub fn is_array(&self) -> (r: bool)
        ensures
            r == self@.is_array(),
    {
        match self {
            JsonValue::Array(_) => true,
            _ => false,
        }
    }

    pub fn is_object(&self) -> (r: bool)
        ensures
            r == self@.is_object(),
    {
        match self {
            JsonValue::Object(_) => true,
            _ => false,
        }
    }

    /// A string value holding the characters of `s`.
    pub fn from_text(s: &str) -> (r: JsonValue)
        ensures
            r@ == JsonData::Str(s@),
    {
        JsonValue::Str(owned(s))
    }

    /// A copy of this value.
    #[verifier::loop_isolation(false)]
    #[verifier::rlimit(60)]
    pub fn deep_clone(&self) -> (r: JsonValue)
        ensures
            r@ == self@,
        decreases self,
    {
        match self {
            JsonValue::Null => JsonValue::Null,
            JsonValue::Bool(b) => JsonValue::Bool(*b),
            JsonValue::Int(n) => JsonValue::Int(*n),
            JsonValue::Float(t) => JsonValue::Float(t.clone()),
            JsonValue::Str(s) => JsonValue::Str(s.clone()),
            JsonValue::Array(items) => {
                let mut out: Vec<JsonValue> = Vec::new();
                let mut i: usize = 0;
                while i < items.len()
                    invariant
                        i <= items.len(),
                        items_data(out@) == items_data(items@.subrange(0, i as int)),
                    decreases items.len() - i,
                {
                    proof {
                        assert(decreases_to!(items => items[i as int]));
                    }
                    let c = items[i].deep_clone();
                    let ghost before = out@;
                    out.push(c);
                    assert(out@.drop_last() =~= before);
                    assert(items@.subrange(0, i + 1).drop_last() =~= items@.subrange(0, i as int));
                    i = i + 1;
                }
                assert(items@.subrange(0, items@.len() as int) =~= items@);
                JsonValue::Array(out)
            },
            JsonValue::Object(entries) => {
                let mut out: Vec<(String, JsonValue)> = Vec::new();
                let mut i: usize = 0;
                while i < entries.len()
                    invariant
                        i <= entries.len(),
                        entries_data(out@) == entries_data(entries@.subrange(0, i as int)),
                    decreases entries.len() - i,
                {
                    proof {
                        assert(decreases_to!(entries => entries[i as int]));
                        assert(decreases_to!(entries[i as int] => entries[i as int].1));
                    }
                    let c = entries[i].1.deep_clone();
                    let k = entries[i].0.clone();
                    let ghost before = out@;
                    out.push((k, c));
                    assert(out@.drop_last() =~= before);
                    assert(entries@.subrange(0, i + 1).drop_last() =~= entries@.subrange(0, i as int));
                    i = i + 1;
                }
                assert(entries@.subrange(0, entries@.len() as int) =~= entries@);
                JsonValue::Object(out)
            },
        }
    }
}

/// A copy of a list of values.
pub fn clone_values(v: &Vec<JsonValue>) -> (r: Vec<JsonValue>)
    ensures
        items_data(r@) == items_data(v@),
{
    let mut out: Vec<JsonValue> = Vec::new();
    let mut i: usize = 0;
    while i < v.len()
        invariant
            i <= v.len(),
            items_data(out@) == items_data(v@.subrange(0, i as int)),
        decreases v.len() - i,
    {
        let c = v[i].deep_clone();
        let ghost before = out@;
        out.push(c);
        assert(out@.drop_last() =~= before);
        assert(v@.subrange(0, i + 1).drop_last() =~= v@.subrange(0, i as int));
        i = i + 1;
    }
    assert(v@.subrange(0, v@.len() as int) =~= v@);
    out
}

/// The value type of serde_json, carried opaquely through the parser wrapper.
#[verifier::external_type_specification]
#[verifier::external_body]
pub struct ExSerdeValue(serde_json::Value);

pub uninterp spec fn parsed_json(text: Seq<char>) -> Option<JsonData>;

/// Relies on serde_json::from_str: the text parsed as one JSON document,
/// or nothing when it is not one.
#[verifier::external_body]
pub fn parse_json(text: &str) -> (r: Option<JsonValue>)
    ensures
        match r {
            Some(v) => parsed_json(text@) == Some(v@),
            None => parsed_json(text@) is None,
        },
{
    serde_json::from_str::<serde_json::Value>(text).ok().map(from_serde)
}

/// Moves a `serde_json::Value` into a `JsonValue`, variant by variant; relies
/// on serde_json's `Number::as_i128` and `Number::to_string` for numbers.
#[verifier::external_body]
fn from_serde(v: serde_json::Value) -> JsonValue {
    match v {
        serde_json::Value::Null => JsonValue::Null,
        serde_json::Value::Bool(b) => JsonValue::Bool(b),
        serde_json::Value::Number(n) => match n.as_i128() {
            Some(i) => JsonValue::Int(i),
            None => JsonValue::Float(n.to_string()),
        },
        serde_json::Value::String(s) => JsonValue::Str(s),
        serde_json::Value::Array(a) => JsonValue::Array(a.into_iter().map(from_serde).collect()),
        serde_json::Value::Object(m) => JsonValue::Object(m.into_iter().map(|(k, x)| (k, from_serde(x))).collect()),
    }
}

/// A string with `"` escaped, and newlines too when `newlines` holds.
pub open spec fn lua_escaped(s: Seq<char>, newlines: bool) -> Seq<char>
    decreases s.len(),
{
    if s.len() == 0 {
        Seq::empty()
    } else {
        let c = s.last();
        lua_escaped(s.drop_last(), newlines) + if c == '"' {
            seq!['\\', '"']
        } else if newlines && c == '\n' {
            seq!['\\', 'n']
        } else {
            seq![c]
        }
    }
}

/// The Lua literal that denotes a structured value: `nil`, booleans, numbers,
/// quoted strings, `{a, b}` for arrays and `{["k"] = v}` for objects.
pub open spec fn lua_literal(d: JsonData) -> Seq<char>
    decreases d,
{
    match d {
        JsonData::Null => "nil"@,
        JsonData::Bool(b) => if b {
            "true"@
        } else {
            "false"@
        },
        JsonData::Int(n) => int_text(n),
        JsonData::Float(t) => t,
        JsonData::Str(s) => seq!['"'] + lua_escaped(s, true) + seq!['"'],
        JsonData::Array(items) => seq!['{'] + lua_items(items) + seq!['}'],
        JsonData::Object(entries) => seq!['{'] + lua_entries(entries) + seq!['}'],
    }
}

pub open spec fn lua_items(items: Seq<JsonData>) -> Seq<char>
    decreases items,
{
    if items.len() == 0 {
        Seq::empty()
    } else {
        let prefix = lua_items(items.drop_last());
        let sep = if items.len() > 1 {
            ", "@
        } else {
            Seq::empty()
        };
        prefix + sep + lua_literal(items.last())
    }
}

pub open spec fn lua_entries(entries: Seq<(Seq<char>, JsonData)>) -> Seq<char>
    decreases entries,
{
    if entries.len() == 0 {
        Seq::empty()
    } else {
        let prefix = lua_entries(entries.drop_last());
        let sep = if entries.len() > 1 {
            ", "@
        } else {
            Seq::empty()
        };
        let e = entries.last();
        prefix + sep + "[\""@ + lua_escaped(e.0, false) + "\"] = "@ + lua_literal(e.1)
    }
}

fn append_lit(out: &mut String, s: &str)
    ensures
        final(out)@ == old(out)@ + s@,
{
    out.append(s);
}

fn append_escaped(out: &mut String, s: &str, newlines: bool)
    ensures
        final(out)@ == old(out)@ + lua_escaped(s@, newlines),
{
    let cs = crate::text::chars_of(s);
    let mut i: usize = 0;
    while i < cs.len()
        invariant
            cs@ == s@,
            i <= cs.len(),
            out@ == old(out)@ + lua_escaped(s@.subrange(0, i as int), newlines),
        decreases cs.len() - i,
    {
        let c = cs[i];
        let ghost pre = s@.subrange(0, i as int);
        assert(s@.subrange(0, i + 1).drop_last() =~= pre);
        assert(s@.subrange(0, i + 1).last() == c);
        if c == '"' {
            push_char(out, '\\');
            push_char(out, '"');
            assert(out@ =~= old(out)@ + lua_escaped(s@.subrange(0, i + 1), newlines));
        } else if newlines && c == '\n' {
            push_char(out, '\\');
            push_char(out, 'n');
            assert(out@ =~= old(out)@ + lua_escaped(s@.subrange(0, i + 1), newlines));
        } else {
            push_char(out, c);
            assert(out@ =~= old(out)@ + lua_escaped(s@.subrange(0, i + 1), newlines));
        }
        i = i + 1;
    }
    assert(s@.subrange(0, s@.len() as int) =~= s@);
}

impl JsonValue {
    /// Appends the Lua literal of this value to `out`.
    #[verifier::loop_isolation(false)]
    #[verifier::rlimit(100)]
    pub fn write_lua(&self, out: &mut String)
        ensures
            final(out)@ == old(out)@ + lua_literal(self@),
        decreases self,
    {
        match self {
            JsonValue::Null => {
                append_lit(out, "nil");
                proof { reveal_strlit("nil"); }
            },
            JsonValue::Bool(b) => {
                if *b {
                    append_lit(out, "true");
                } else {
                    append_lit(out, "false");
                }
            },
            JsonValue::Int(n) => {
                let t = int_to_text(*n);
                append_lit(out, t.as_str());
            },
            JsonValue::Float(t) => {
                append_lit(out, t.as_str());
            },
            JsonValue::Str(s) => {
                push_char(out, '"');
                append_escaped(out, s.as_str(), true);
                push_char(out, '"');
                assert(out@ =~= old(out)@ + lua_literal(self@));
            },
            JsonValue::Array(items) => {
                push_char(out, '{');
                let ghost start = out@;
                let mut i: usize = 0;
                while i < items.len()
                    invariant
                        i <= items.len(),
                        out@ == start + lua_items(items_data(items@.subrange(0, i as int))),
                    decreases items.len() - i,
                {
                    proof {
                        assert(decreases_to!(items => items[i as int]));
                    }
                    let ghost pre = items@.subrange(0, i as int);
                    let ghost post = items@.subrange(0, i + 1);
                    assert(post.drop_last() =~= pre);
                    proof {
                        lemma_items_data(pre);
                        lemma_items_data(post);
                        assert(items_data(post).drop_last() =~= items_data(pre));
                    }
                    if i > 0 {
                        append_lit(out, ", ");
                    }
                    items[i].write_lua(out);
                    assert(out@ =~= start + lua_items(items_data(post)));
                    i = i + 1;
                }
                assert(items@.subrange(0, items@.len() as int) =~= items@);
                push_char(out, '}');
                assert(out@ =~= old(out)@ + lua_literal(self@));
            },
            JsonValue::Object(entries) => {
                push_char(out, '{');
                let ghost start = out@;
                let mut i: usize = 0;
                while i < entries.len()
                    invariant
                        i <= entries.len(),
                        out@ == start + lua_entries(entries_data(entries@.subrange(0, i as int))),
                    decreases entries.len() - i,
                {
                    proof {
                        assert(decreases_to!(entries => entries[i as int]));
                        assert(decreases_to!(entries[i as int] => entries[i as int].1));
                    }
                    let ghost pre = entries@.subrange(0, i as int);
                    let ghost post = entries@.subrange(0, i + 1);
                    assert(post.drop_last() =~= pre);
                    proof {
                        lemma_entries_data(pre);
                        lemma_entries_data(post);
                        assert(entries_data(post).drop_last() =~= entries_data(pre));
                    }
                    if i > 0 {
                        append_lit(out, ", ");
                    }
                    append_lit(out, "[\"");
                    append_escaped(out, entries[i].0.as_str(), false);
                    append_lit(out, "\"] = ");
                    entries[i].1.write_lua(out);
                    assert(out@ =~= start + lua_entries(entries_data(post)));
                    i = i + 1;
                }
                assert(entries@.subrange(0, entries@.len() as int) =~= entries@);
                push_char(out, '}');
                assert(out@ =~= old(out)@ + lua_literal(self@));
            },
        }
    }
}

} // verus!
