//! Values returned by the script runtime, and how they become structured
//! values: a table whose keys are exactly 1..n becomes an array in key order;
//! any other table becomes an object keyed by the text of its string and
//! number keys.
use vstd::prelude::*;
use crate::json::{JsonData, JsonValue, entries_data, items_data, lemma_entries_data, lemma_items_data};
use crate::text::{int_text, int_to_text};

verus! {

/// A script value. `Number` holds the decimal text of a finite non-integral
/// number; `Other` stands for functions, threads, userdata and non-finite numbers.
pub enum LuaData {
    Nil,
    Bool(bool),
    Int(i64),
    Number(String),
    Text(String),
    Table(Vec<(LuaData, LuaData)>),
    Other,
}

/// The table's keys, each with the structured form of its value.
pub open spec fn lua_pairs(es: Seq<(LuaData, LuaData)>) -> Seq<(LuaData, JsonData)>
    decreases es,
{
    if es.len() == 0 {
        Seq::empty()
    } else {
        lua_pairs(es.drop_last()).push((es.last().0, lua_json(es.last().1)))
    }
}

/// The structured form of a script value.
pub open spec fn lua_json(v: LuaData) -> JsonData
    decreases v,
{
    match v {
        LuaData::Nil => JsonData::Null,
        LuaData::Bool(b) => JsonData::Bool(b),
        LuaData::Int(i) => JsonData::Int(i as int),
        LuaData::Number(t) => JsonData::Float(t@),
        LuaData::Text(s) => JsonData::Str(s@),
        LuaData::Table(es) => table_json(lua_pairs(es@)),
        LuaData::Other => JsonData::Null,
    }
}

pub open spec fn is_int_key(k: LuaData, i: int) -> bool {
    k matches LuaData::Int(n) && n as int == i
}

/// Every key is an integer in 1..n and every one of 1..n is a key, n > 0.
pub open spec fn dense(ps: Seq<(LuaData, JsonData)>) -> bool {
    &&& ps.len() > 0
    &&& forall|j: int| 0 <= j < ps.len() ==> (#[trigger] ps[j].0 matches LuaData::Int(n) && 1 <= n <= ps.len())
    &&& forall|i: int| 1 <= i <= ps.len() ==> #[trigger] has_int_key(ps, i)
}

/// Some key is the integer `i`.
pub open spec fn has_int_key(ps: Seq<(LuaData, JsonData)>, i: int) -> bool {
    exists|j: int| 0 <= j < ps.len() && #[trigger] is_int_key(ps[j].0, i)
}

/// The first entry whose key is the integer `i`.
pub open spec fn first_int_key(ps: Seq<(LuaData, JsonData)>, i: int) -> int {
    choose|j: int|
        0 <= j < ps.len() && is_int_key(ps[j].0, i) && forall|k: int| 0 <= k < j ==> !is_int_key(ps[k].0, i)
}

/// The object entries of a table: text keys as they are, number keys as
/// their decimal text; other keys are skipped.
pub open spec fn object_entries(ps: Seq<(LuaData, JsonData)>) -> Seq<(Seq<char>, JsonData)>
    decreases ps.len(),
{
    if ps.len() == 0 {
        Seq::empty()
    } else {
        let r = object_entries(ps.drop_last());
        let (k, v) = ps.last();
        match k {
            LuaData::Text(s) => r.push((s@, v)),
            LuaData::Int(n) => r.push((int_text(n as int), v)),
            LuaData::Number(t) => r.push((t@, v)),
            _ => r,
        }
    }
}

pub open spec fn table_json(ps: Seq<(LuaData, JsonData)>) -> JsonData {
    if dense(ps) {
        JsonData::Array(Seq::new(ps.len(), |i: int| ps[first_int_key(ps, i + 1)].1))
    } else {
        JsonData::Object(object_entries(ps))
    }
}

proof fn lemma_first_int_key(ps: Seq<(LuaData, JsonData)>, i: int, j: int)
    requires
        0 <= j < ps.len(),
        is_int_key(ps[j].0, i),
        forall|k: int| 0 <= k < j ==> !is_int_key(ps[k].0, i),
    ensures
        first_int_key(ps, i) == j,
{
    let c = first_int_key(ps, i);
    assert(0 <= c < ps.len() && is_int_key(ps[c].0, i) && forall|k: int| 0 <= k < c ==> !is_int_key(ps[k].0, i));
    if c < j {
        assert(!is_int_key(ps[c].0, i));
    }
    if j < c {
        assert(!is_int_key(ps[j].0, i));
    }
}

/// The structured form of a script value, as `lua_json` states it.
#[verifier::loop_isolation(false)]
pub fn lua_to_json(v: &LuaData) -> (r: JsonValue)
    ensures
        r@ == lua_json(*v),
    decreases v,
{
    match v {
        LuaData::Nil => JsonValue::Null,
        LuaData::Bool(b) => JsonValue::Bool(*b),
        LuaData::Int(i) => JsonValue::Int(*i as i128),
        LuaData::Number(t) => JsonValue::Float(t.clone()),
        LuaData::Text(s) => JsonValue::Str(s.clone()),
        LuaData::Other => JsonValue::Null,
        LuaData::Table(es) => {
            // the values, converted, each beside its key
            let mut vals: Vec<JsonValue> = Vec::new();
            let mut i: usize = 0;
            while i < es.len()
                invariant
                    i <= es.len(),
                    vals@.len() == i,
                    forall|k: int| 0 <= k < i ==> #[trigger] vals@[k]@ == lua_json(es@[k].1),
                decreases es.len() - i,
            {
                proof {
                    assert(decreases_to!(es => es[i as int]));
                    assert(decreases_to!(es[i as int] => es[i as int].1));
                }
                let c = lua_to_json(&es[i].1);
                vals.push(c);
                i = i + 1;
            }
            let ghost ps = lua_pairs(es@);
            proof {
                lemma_lua_pairs(es@);
                assert forall|k: int| 0 <= k < es@.len() implies #[trigger] ps[k] == (es@[k].0, vals@[k]@) by {
                    assert(ps[k] == (es@[k].0, lua_json(es@[k].1)));
                }
            }
            table_from(es, &vals, Ghost(ps))
        },
    }
}

pub proof fn lemma_lua_pairs(es: Seq<(LuaData, LuaData)>)
    ensures
        lua_pairs(es).len() == es.len(),
        forall|k: int| 0 <= k < es.len() ==> #[trigger] lua_pairs(es)[k] == (es[k].0, lua_json(es[k].1)),
    decreases es.len(),
{
    if es.len() > 0 {
        lemma_lua_pairs(es.drop_last());
    }
}

#[verifier::loop_isolation(false)]
fn is_dense(keys: &Vec<(LuaData, LuaData)>, ps: Ghost<Seq<(LuaData, JsonData)>>) -> (r: bool)
    requires
        ps@.len() == keys@.len(),
        forall|k: int| 0 <= k < keys@.len() ==> #[trigger] ps@[k].0 == keys@[k].0,
    ensures
        r == dense(ps@),
{
    let n = keys.len();
    if n == 0 {
        return false;
    }
    if (n as u64) > 9223372036854775807u64 {
        // a key of 1..n is out of i64's range, so not every one of them is a key
        proof {
            let big = 9223372036854775807int;
            assert(1 <= big + 1 <= ps@.len());
            assert forall|b: int| 0 <= b < n implies !#[trigger] is_int_key(ps@[b].0, big + 1) by {
                assert(ps@[b].0 == keys@[b].0);
            }
            assert(!has_int_key(ps@, big + 1));
        }
        return false;
    }
    let mut j: usize = 0;
    while j < n
        invariant
            n == keys@.len(),
            j <= n,
            forall|k: int| 0 <= k < j ==> (#[trigger] ps@[k].0 matches LuaData::Int(m) && 1 <= m <= n),
        decreases n - j,
    {
        assert(ps@[j as int].0 == keys@[j as int].0);
        match &keys[j].0 {
            LuaData::Int(m) => {
                if !(1 <= *m && (*m as i128) <= (n as i128)) {
                    assert(!(ps@[j as int].0 matches LuaData::Int(q) && 1 <= q <= n));
                    return false;
                }
            },
            _ => {
                assert(!(ps@[j as int].0 matches LuaData::Int(q) && 1 <= q <= n));
                return false;
            },
        }
        j = j + 1;
    }
    let mut i: usize = 0;
    while i < n
        invariant
            n == keys@.len(),
            n <= 9223372036854775807,
            0 <= i <= n,
            forall|k: int| 0 <= k < n ==> (#[trigger] ps@[k].0 matches LuaData::Int(m) && 1 <= m <= n),
            forall|a: int| 1 <= a <= i ==> #[trigger] has_int_key(ps@, a),
        decreases n - i,
    {
        match find_int_key(keys, (i + 1) as i64, ps) {
            Some(_) => {},
            None => {
                assert(!has_int_key(ps@, i + 1));
                return false;
            },
        }
        i = i + 1;
    }
    true
}

fn find_int_key(keys: &Vec<(LuaData, LuaData)>, target: i64, ps: Ghost<Seq<(LuaData, JsonData)>>) -> (r: Option<usize>)
    requires
        ps@.len() == keys@.len(),
        forall|k: int| 0 <= k < keys@.len() ==> #[trigger] ps@[k].0 == keys@[k].0,
    ensures
        match r {
            Some(j) => j < ps@.len() && is_int_key(ps@[j as int].0, target as int) && forall|k: int|
                0 <= k < j ==> !is_int_key(ps@[k].0, target as int),
            None => forall|k: int| 0 <= k < ps@.len() ==> !is_int_key(ps@[k].0, target as int),
        },
{
    let mut j: usize = 0;
    while j < keys.len()
        invariant
            j <= keys.len(),
            ps@.len() == keys@.len(),
            forall|k: int| 0 <= k < keys@.len() ==> #[trigger] ps@[k].0 == keys@[k].0,
            forall|k: int| 0 <= k < j ==> !is_int_key(ps@[k].0, target as int),
        decreases keys.len() - j,
    {
        assert(ps@[j as int].0 == keys@[j as int].0);
        match &keys[j].0 {
            LuaData::Int(m) => {
                if *m == target {
                    return Some(j);
                }
            },
            _ => {},
        }
        j = j + 1;
    }
    None
}

#[verifier::loop_isolation(false)]
fn table_from(keys: &Vec<(LuaData, LuaData)>, vals: &Vec<JsonValue>, ps: Ghost<Seq<(LuaData, JsonData)>>) -> (r: JsonValue)
    requires
        ps@.len() == keys@.len(),
        vals@.len() == keys@.len(),
        forall|k: int| 0 <= k < keys@.len() ==> #[trigger] ps@[k] == (keys@[k].0, vals@[k]@),
    ensures
        r@ == table_json(ps@),
{
    let n = keys.len();
    if is_dense(keys, ps) {
        proof {
            if n > 9223372036854775807 {
                let big = 9223372036854775807int;
                assert(has_int_key(ps@, big + 1));
                let b = choose|b: int| 0 <= b < ps@.len() && #[trigger] is_int_key(ps@[b].0, big + 1);
            }
        }
        let mut out: Vec<JsonValue> = Vec::new();
        let mut i: usize = 0;
        while i < n
            invariant
                n == keys@.len(),
                dense(ps@),
                ps@.len() == keys@.len(),
                vals@.len() == keys@.len(),
                forall|k: int| 0 <= k < keys@.len() ==> #[trigger] ps@[k] == (keys@[k].0, vals@[k]@),
                i <= n,
                items_data(out@) == Seq::new(i as nat, |a: int| ps@[first_int_key(ps@, a + 1)].1),
            decreases n - i,
        {
            assert(has_int_key(ps@, i + 1));
            assert((i + 1) as int <= ps@.len());
            let j = find_int_key(keys, (i + 1) as i64, ps).unwrap();
            proof {
                lemma_first_int_key(ps@, i + 1, j as int);
            }
            let x = vals[j].deep_clone();
            let ghost before = out@;
            out.push(x);
            assert(out@.drop_last() =~= before);
            assert(items_data(out@) == items_data(before).push(x@));
            assert(items_data(out@) =~= Seq::new((i + 1) as nat, |a: int| ps@[first_int_key(ps@, a + 1)].1));
            i = i + 1;
        }
        JsonValue::Array(out)
    } else {
        let mut out: Vec<(String, JsonValue)> = Vec::new();
        let mut j: usize = 0;
        while j < n
            invariant
                n == keys@.len(),
                ps@.len() == keys@.len(),
                vals@.len() == keys@.len(),
                forall|k: int| 0 <= k < keys@.len() ==> #[trigger] ps@[k] == (keys@[k].0, vals@[k]@),
                j <= n,
                entries_data(out@) == object_entries(ps@.subrange(0, j as int)),
            decreases n - j,
        {
            let ghost pre = ps@.subrange(0, j as int);
            let ghost post = ps@.subrange(0, j + 1);
            assert(post.drop_last() =~= pre);
            assert(post.last() == ps@[j as int]);
            let ghost before = out@;
            match &keys[j].0 {
                LuaData::Text(s) => {
                    out.push((s.clone(), vals[j].deep_clone()));
                    assert(out@.drop_last() =~= before);
                },
                LuaData::Int(m) => {
                    out.push((int_to_text(*m as i128), vals[j].deep_clone()));
                    assert(out@.drop_last() =~= before);
                },
                LuaData::Number(t) => {
                    out.push((t.clone(), vals[j].deep_clone()));
                    assert(out@.drop_last() =~= before);
                },
                _ => {},
            }
            j = j + 1;
        }
        assert(ps@.subrange(0, n as int) =~= ps@);
        JsonValue::Object(out)
    }
}

} // verus!
