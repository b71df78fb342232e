//! Server and storage configuration.
use vstd::prelude::*;
use vstd::string::*;
use crate::text::chars_of;

verus! {

/// The whole configuration.
pub struct Config {
    pub server: ServerConfig,
    pub database: DatabaseConfig,
}

/// Where the HTTP server listens.
pub struct ServerConfig {
    pub host: String,
    pub port: u16,
}

/// Where tenant databases live.
pub struct DatabaseConfig {
    pub project_data_dir: String,
}

pub open spec fn digit_value(c: char) -> int {
    c as int - '0' as int
}

pub open spec fn is_digit(c: char) -> bool {
    '0' <= c <= '9'
}

/// The value of a string of decimal digits.
pub open spec fn digits_value(s: Seq<char>) -> int
    decreases s.len(),
{
    if s.len() == 0 {
        0
    } else {
        digits_value(s.drop_last()) * 10 + digit_value(s.last())
    }
}

/// A port number as decimal text, as `u16`'s parser reads it: an optional
/// `+`, then at least one digit, worth at most 65535.
pub open spec fn port_value(s: Seq<char>) -> Option<u16> {
    digits_port(without_plus(s))
}

/// `s` without one leading `+`.
pub open spec fn without_plus(s: Seq<char>) -> Seq<char> {
    if s.len() > 0 && s[0] == '+' {
        s.subrange(1, s.len() as int)
    } else {
        s
    }
}

/// The port that the digit string `d` denotes, if it is one.
pub open spec fn digits_port(d: Seq<char>) -> Option<u16> {
    if d.len() > 0 && (forall|i: int| 0 <= i < d.len() ==> is_digit(#[trigger] d[i])) && digits_value(d) <= 65535 {
        Some(digits_value(d) as u16)
    } else {
        None
    }
}

proof fn lemma_digits_nonneg(s: Seq<char>)
    requires
        forall|i: int| 0 <= i < s.len() ==> is_digit(#[trigger] s[i]),
    ensures
        digits_value(s) >= 0,
    decreases s.len(),
{
    if s.len() > 0 {
        lemma_digits_nonneg(s.drop_last());
    }
}

proof fn lemma_digits_grow(s: Seq<char>, c: char)
    requires
        forall|i: int| 0 <= i < s.len() ==> is_digit(#[trigger] s[i]),
        is_digit(c),
    ensures
        digits_value(s.push(c)) >= digits_value(s),
{
    lemma_digits_nonneg(s);
    assert(s.push(c).drop_last() =~= s);
}

/// Reads a port number.
pub fn parse_port(s: &str) -> (r: Option<u16>)
    ensures
        r == port_value(s@),
{
    let cs = chars_of(s);
    let start: usize = if cs.len() > 0 && cs[0] == '+' { 1 } else { 0 };
    let ghost d = without_plus(s@);
    assert(d =~= cs@.subrange(start as int, cs@.len() as int));
    if start >= cs.len() {
        return None;
    }
    let mut value: u32 = 0;
    let mut i: usize = start;
    while i < cs.len()
        invariant
            cs@ == s@,
            start <= i <= cs.len(),
            d == cs@.subrange(start as int, cs@.len() as int),
            d == without_plus(s@),
            forall|k: int| start <= k < i ==> is_digit(#[trigger] cs@[k]),
            value as int == digits_value(cs@.subrange(start as int, i as int)),
            value <= 65535,
        decreases cs.len() - i,
    {
        let c = cs[i];
        let ghost pre = cs@.subrange(start as int, i as int);
        assert(cs@.subrange(start as int, i + 1) =~= pre.push(c));
        if !('0' <= c && c <= '9') {
            assert(d[i - start] == c);
            assert(!is_digit(d[i - start]));
            assert(!(forall|k: int| 0 <= k < d.len() ==> is_digit(#[trigger] d[k])));
            assert(digits_port(d) is None);
            return None;
        }
        let next: u32 = value * 10 + (c as u32 - '0' as u32);
        proof {
            assert(pre.push(c).drop_last() =~= pre);
        }
        if next > 65535 {
            proof {
                lemma_prefix_bound(d, (i + 1 - start) as int);
                assert(d.subrange(0, (i + 1 - start) as int) =~= pre.push(c));
                assert(digits_value(pre.push(c)) == next as int);
                if forall|k: int| 0 <= k < d.len() ==> is_digit(#[trigger] d[k]) {
                    assert(digits_value(d) > 65535);
                }
                assert(digits_port(d) is None);
            }
            return None;
        }
        value = next;
        i = i + 1;
    }
    assert(cs@.subrange(start as int, cs@.len() as int) == d);
    Some(value as u16)
}

/// A digit string's value is at least that of each of its prefixes.
proof fn lemma_prefix_bound(d: Seq<char>, k: int)
    requires
        0 <= k <= d.len(),
    ensures
        (forall|i: int| 0 <= i < d.len() ==> is_digit(#[trigger] d[i])) ==> digits_value(d) >= digits_value(
            d.subrange(0, k),
        ),
    decreases d.len() - k,
{
    if forall|i: int| 0 <= i < d.len() ==> is_digit(#[trigger] d[i]) {
        if k < d.len() {
            lemma_prefix_bound(d, k + 1);
            let p = d.subrange(0, k);
            assert(d.subrange(0, k + 1) =~= p.push(d[k]));
            assert forall|i: int| 0 <= i < p.len() implies is_digit(#[trigger] p[i]) by {
                assert(p[i] == d[i]);
            }
            lemma_digits_grow(p, d[k]);
        } else {
            assert(d.subrange(0, k) =~= d);
        }
    }
}

impl Config {
    /// The configuration from the settings given, each with its default when
    /// absent: host `0.0.0.0`, port 3004 (also when the text is not a port),
    /// data directory `data`.
    pub fn from_settings(host: Option<String>, port: Option<String>, data_dir: Option<String>) -> (r: Config)
        ensures
            r.server.host@ == match host {
                Some(h) => h@,
                None => "0.0.0.0"@,
            },
            r.server.port == match port {
                Some(p) => match port_value(p@) {
                    Some(n) => n,
                    None => 3004u16,
                },
                None => 3004u16,
            },
            r.database.project_data_dir@ == match data_dir {
                Some(d) => d@,
                None => "data"@,
            },
    {
        let host = match host {
            Some(h) => h,
            None => String::from_str("0.0.0.0"),
        };
        let port: u16 = match port {
            Some(p) => match parse_port(p.as_str()) {
                Some(n) => n,
                None => 3004,
            },
            None => 3004,
        };
        let dir = match data_dir {
            Some(d) => d,
            None => String::from_str("data"),
        };
        Config { server: ServerConfig { host, port }, database: DatabaseConfig { project_data_dir: dir } }
    }
}

} // verus!
