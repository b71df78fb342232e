//! SQL text for the simple-table nodes, built only from validated identifiers.
use vstd::prelude::*;
use vstd::string::*;
use crate::text::{alnum, chars_of, int_text, int_to_text, is_alnum};
use crate::workflow::texts;

verus! {

/// Letters, digits (`alnum`) and `_` only.
pub open spec fn is_identifier(s: Seq<char>) -> bool {
    forall|i: int| 0 <= i < s.len() ==> alnum(#[trigger] s[i]) || s[i] == '_'
}

pub open spec fn where_symbol(c: char) -> bool {
    c == ' ' || c == '>' || c == '<' || c == '=' || c == '!' || c == '(' || c == ')' || c == '.'
        || c == '_'
}

/// A filter the reader accepts: alphanumerics, spaces, comparison signs,
/// parentheses, dots and underscores only.
pub open spec fn is_safe_filter(s: Seq<char>) -> bool {
    forall|i: int| 0 <= i < s.len() ==> alnum(#[trigger] s[i]) || where_symbol(s[i])
}

pub fn identifier_ok(s: &str) -> (r: bool)
    ensures
        r == is_identifier(s@),
{
    let cs = chars_of(s);
    let mut i: usize = 0;
    while i < cs.len()
        invariant
            cs@ == s@,
            i <= cs.len(),
            forall|j: int| 0 <= j < i ==> alnum(#[trigger] cs@[j]) || cs@[j] == '_',
        decreases cs.len() - i,
    {
        if !(is_alnum(cs[i]) || cs[i] == '_') {
            assert(!(alnum(s@[i as int]) || s@[i as int] == '_'));
            return false;
        }
        i = i + 1;
    }
    true
}

pub fn all_identifiers(v: &Vec<String>) -> (r: bool)
    ensures
        r == forall|k: int| 0 <= k < v@.len() ==> is_identifier(#[trigger] v@[k]@),
{
    let mut i: usize = 0;
    while i < v.len()
        invariant
            i <= v.len(),
            forall|k: int| 0 <= k < i ==> is_identifier(#[trigger] v@[k]@),
        decreases v.len() - i,
    {
        if !identifier_ok(v[i].as_str()) {
            return false;
        }
        i = i + 1;
    }
    true
}

pub fn filter_ok(s: &str) -> (r: bool)
    ensures
        r == is_safe_filter(s@),
{
    let cs = chars_of(s);
    let mut i: usize = 0;
    while i < cs.len()
        invariant
            cs@ == s@,
            i <= cs.len(),
            forall|j: int| 0 <= j < i ==> alnum(#[trigger] cs@[j]) || where_symbol(cs@[j]),
        decreases cs.len() - i,
    {
        let c = cs[i];
        let sym = c == ' ' || c == '>' || c == '<' || c == '=' || c == '!' || c == '(' || c == ')'
            || c == '.' || c == '_';
        if !(is_alnum(c) || sym) {
            assert(!(alnum(s@[i as int]) || where_symbol(s@[i as int])));
            return false;
        }
        i = i + 1;
    }
    true
}

/// `parts`, each followed by `suffix`, separated by `sep`.
pub open spec fn joined(parts: Seq<Seq<char>>, suffix: Seq<char>, sep: Seq<char>) -> Seq<char>
    decreases parts.len(),
{
    if parts.len() == 0 {
        Seq::empty()
    } else {
        let prefix = joined(parts.drop_last(), suffix, sep);
        (if parts.len() > 1 {
            prefix + sep
        } else {
            prefix
        }) + parts.last() + suffix
    }
}

/// Appends `parts` joined as `joined` describes.
pub fn append_joined(out: &mut String, parts: &Vec<String>, suffix: &str, sep: &str)
    ensures
        final(out)@ == old(out)@ + joined(texts(parts@), suffix@, sep@),
{
    let mut i: usize = 0;
    while i < parts.len()
        invariant
            i <= parts.len(),
            out@ == old(out)@ + joined(texts(parts@).subrange(0, i as int), suffix@, sep@),
        decreases parts.len() - i,
    {
        let ghost pre = texts(parts@).subrange(0, i as int);
        let ghost post = texts(parts@).subrange(0, i + 1);
        assert(post.drop_last() =~= pre);
        assert(post.last() == parts@[i as int]@);
        if i > 0 {
            out.append(sep);
        }
        out.append(parts[i].as_str());
        out.append(suffix);
        assert(out@ =~= old(out)@ + joined(post, suffix@, sep@));
        i = i + 1;
    }
    assert(texts(parts@).subrange(0, parts@.len() as int) =~= texts(parts@));
}

pub open spec fn marks(n: nat) -> Seq<Seq<char>> {
    Seq::new(n, |i: int| "?"@)
}

/// `CREATE TABLE IF NOT EXISTS t (id INTEGER PRIMARY KEY AUTOINCREMENT, c1 TEXT, ...)`.
pub open spec fn create_table_sql(table: Seq<char>, columns: Seq<Seq<char>>) -> Seq<char> {
    "CREATE TABLE IF NOT EXISTS "@ + table + " (id INTEGER PRIMARY KEY AUTOINCREMENT, "@ + joined(
        columns,
        " TEXT"@,
        ", "@,
    ) + ")"@
}

/// `INSERT INTO t (c1, ...) VALUES (?, ...)`.
pub open spec fn insert_sql(table: Seq<char>, columns: Seq<Seq<char>>) -> Seq<char> {
    "INSERT INTO "@ + table + " ("@ + joined(columns, Seq::empty(), ", "@) + ") VALUES ("@ + joined(
        marks(columns.len()),
        Seq::empty(),
        ", "@,
    ) + ")"@
}

/// `SELECT * FROM t [WHERE f] ORDER BY id DESC LIMIT n`.
pub open spec fn select_sql(table: Seq<char>, filter: Option<Seq<char>>, limit: nat) -> Seq<char> {
    "SELECT * FROM "@ + table + match filter {
        Some(f) => " WHERE "@ + f,
        None => Seq::empty(),
    } + " ORDER BY id DESC LIMIT "@ + int_text(limit as int)
}

pub fn build_create_table(table: &str, columns: &Vec<String>) -> (r: String)
    ensures
        r@ == create_table_sql(table@, texts(columns@)),
{
    let mut s = String::from_str("CREATE TABLE IF NOT EXISTS ");
    s.append(table);
    s.append(" (id INTEGER PRIMARY KEY AUTOINCREMENT, ");
    append_joined(&mut s, columns, " TEXT", ", ");
    s.append(")");
    proof {
        reveal_strlit("");
    }
    assert(s@ =~= create_table_sql(table@, texts(columns@)));
    s
}

pub fn build_insert(table: &str, columns: &Vec<String>) -> (r: String)
    ensures
        r@ == insert_sql(table@, texts(columns@)),
{
    let mut qs: Vec<String> = Vec::new();
    let mut i: usize = 0;
    while i < columns.len()
        invariant
            i <= columns.len(),
            texts(qs@) == marks(i as nat),
        decreases columns.len() - i,
    {
        let ghost before = qs@;
        let q = String::from_str("?");
        qs.push(q);
        assert(qs@ == before.push(q));
        assert(texts(qs@) =~= texts(before).push("?"@));
        assert(texts(qs@) =~= marks((i + 1) as nat));
        i = i + 1;
    }
    let mut s = String::from_str("INSERT INTO ");
    s.append(table);
    s.append(" (");
    append_joined(&mut s, columns, "", ", ");
    s.append(") VALUES (");
    append_joined(&mut s, &qs, "", ", ");
    s.append(")");
    proof {
        reveal_strlit("");
        assert(""@ =~= Seq::<char>::empty());
    }
    assert(s@ =~= insert_sql(table@, texts(columns@)));
    s
}

pub fn build_select(table: &str, filter: Option<&String>, limit: u64) -> (r: String)
    ensures
        r@ == select_sql(
            table@,
            match filter {
                Some(f) => Some(f@),
                None => None,
            },
            limit as nat,
        ),
{
    let mut s = String::from_str("SELECT * FROM ");
    s.append(table);
    match filter {
        Some(f) => {
            s.append(" WHERE ");
            s.append(f.as_str());
        },
        None => {},
    }
    s.append(" ORDER BY id DESC LIMIT ");
    let n = int_to_text(limit as i128);
    s.append(n.as_str());
    assert(s@ =~= select_sql(
        table@,
        match filter {
            Some(f) => Some(f@),
            None => None,
        },
        limit as nat,
    ));
    s
}

} // verus!
