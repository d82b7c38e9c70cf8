//! Normalisation helpers: line truncation, address grouping, query-parameter
//! clamping, SQL quoting, feed-update detection and JSON alert/decision
//! normalisation.

use vstd::prelude::*;
use vstd::utf8::encode_utf8;
use crate::json::{
    array_field, as_array, as_i64, as_number, as_str, first_of, get, opt_get, or_else, str_field,
    str_field_in, str_view, unwrap_or, deref_opt, i64_in, number_in, or_str, str_or, JsonValue,
    JsonNumber,
};
use crate::aggregate::{counts_view, is_top_label, CountMap};
use crate::models::{ActiveBan, Alert};
use crate::patterns::{regex_compiles, regex_matches, Pattern};
use crate::text::{
    append_chars, append_str, char_vecs_view, decimal, push_decimal, signed_decimal,
    i64_to_string, usize_to_string, chars_of, in_set, parse_unsigned,
    parse_unsigned_bounded, replace_all, replace_str, split_at_any, split_by, starts_with,
    lemma_split_by_concat, lemma_split_by_pieces, lemma_split_by_whole,
    starts_with_str, str_eq, string_from_chars, string_from_range, to_owned_string, trim,
    trim_str,
};

verus! {

/// The length of `s` in UTF-8 bytes, as `str::len` reports it.
pub open spec fn byte_len(s: Seq<char>) -> usize {
    encode_utf8(s).len() as usize
}

/// `line` unchanged when it fits in `max` bytes, otherwise its first `max`
/// characters followed by `...`.
pub open spec fn truncated(line: Seq<char>, max: usize) -> Seq<char> {
    if byte_len(line) <= max {
        line
    } else if max <= line.len() {
        line.take(max as int) + "..."@
    } else {
        line + "..."@
    }
}

/// Shortens a line for display.
pub fn truncate_line(line: &str, max: usize) -> (r: String)
    ensures
        r@ == truncated(line@, max),
{
    if line.len() <= max {
        return to_owned_string(line);
    }
    let v = chars_of(line);
    let n = if max <= v.len() {
        max
    } else {
        v.len()
    };
    let mut out = string_from_range(&v, 0, n);
    append_str(&mut out, "...");
    proof {
        if max <= v.len() {
            assert(v@.subrange(0, n as int) =~= line@.take(max as int));
        } else {
            assert(v@.subrange(0, n as int) =~= line@);
        }
    }
    out
}

/// The /24 network of a dotted address (`a.b.c.*`); anything that does not
/// split into four dot-separated parts is returned unchanged.
pub open spec fn cidr24(ip: Seq<char>) -> Seq<char> {
    let parts = split_by(ip, |c: char| c == '.');
    if parts.len() == 4 {
        parts[0] + "."@ + parts[1] + "."@ + parts[2] + ".*"@
    } else {
        ip
    }
}

pub fn to_cidr24(ip: &str) -> (r: String)
    ensures
        r@ == cidr24(ip@),
{
    let v = chars_of(ip);
    let seps = vec!['.'];
    let parts = split_at_any(&v, &seps);
    proof {
        assert((|c: char| in_set(seps@, c)) =~= (|c: char| c == '.')) by {
            assert forall|c: char| in_set(seps@, c) == (c == '.') by {
                if c == '.' {
                    assert(seps@[0] == c);
                }
            }
        }
    }
    if parts.len() == 4 {
        let mut r = string_from_chars(&parts[0]);
        append_str(&mut r, ".");
        append_chars(&mut r, &parts[1]);
        append_str(&mut r, ".");
        append_chars(&mut r, &parts[2]);
        append_str(&mut r, ".*");
        proof {
            let pv = char_vecs_view(parts@);
            assert(pv[0] == parts@[0]@ && pv[1] == parts@[1]@ && pv[2] == parts@[2]@);
        }
        r
    } else {
        to_owned_string(ip)
    }
}

proof fn lemma_network_parts(p0: Seq<char>, p1: Seq<char>, p2: Seq<char>)
    requires
        forall|j: int| 0 <= j < p0.len() ==> #[trigger] p0[j] != '.',
        forall|j: int| 0 <= j < p1.len() ==> #[trigger] p1[j] != '.',
        forall|j: int| 0 <= j < p2.len() ==> #[trigger] p2[j] != '.',
    ensures
        split_by(p0 + "."@ + p1 + "."@ + p2 + ".*"@, |c: char| c == '.') == seq![p0, p1, p2, "*"@],
{
    reveal_strlit(".");
    reveal_strlit(".*");
    reveal_strlit("*");
    let dot = |c: char| c == '.';
    let star = "*"@;
    let r = p0 + "."@ + p1 + "."@ + p2 + ".*"@;
    assert(r =~= p0.push('.') + (p1.push('.') + (p2.push('.') + star)));
    lemma_split_by_concat(p0, '.', p1.push('.') + (p2.push('.') + star), dot);
    lemma_split_by_concat(p1, '.', p2.push('.') + star, dot);
    lemma_split_by_concat(p2, '.', star, dot);
    lemma_split_by_whole(p0, dot);
    lemma_split_by_whole(p1, dot);
    lemma_split_by_whole(p2, dot);
    assert forall|j: int| 0 <= j < star.len() implies !dot(#[trigger] star[j]) by {}
    lemma_split_by_whole(star, dot);
    assert(seq![p0] + (seq![p1] + (seq![p2] + seq![star])) =~= seq![p0, p1, p2, star]);
}

proof fn lemma_network_of_parts(ip: Seq<char>)
    requires
        split_by(ip, |c: char| c == '.').len() == 4,
    ensures
        ({
            let p = split_by(ip, |c: char| c == '.');
            split_by(cidr24(ip), |c: char| c == '.') == seq![p[0], p[1], p[2], "*"@]
        }),
{
    let dot = |c: char| c == '.';
    let p = split_by(ip, dot);
    lemma_split_by_pieces(ip, dot);
    assert forall|j: int| 0 <= j < p[0].len() implies #[trigger] p[0][j] != '.' by {
        assert(!dot(p[0][j]));
    }
    assert forall|j: int| 0 <= j < p[1].len() implies #[trigger] p[1][j] != '.' by {
        assert(!dot(p[1][j]));
    }
    assert forall|j: int| 0 <= j < p[2].len() implies #[trigger] p[2][j] != '.' by {
        assert(!dot(p[2][j]));
    }
    lemma_network_parts(p[0], p[1], p[2]);
}

/// Taking the /24 network of a network gives it back.
pub proof fn cidr24_idempotent(ip: Seq<char>)
    ensures
        cidr24(cidr24(ip)) == cidr24(ip),
{
    reveal_strlit(".*");
    reveal_strlit("*");
    if split_by(ip, |c: char| c == '.').len() == 4 {
        lemma_network_of_parts(ip);
    }
}

/// Two dotted addresses of four parts are in the same /24 network exactly
/// when their first three parts agree.
pub proof fn cidr24_same_network(a: Seq<char>, b: Seq<char>)
    requires
        split_by(a, |c: char| c == '.').len() == 4,
        split_by(b, |c: char| c == '.').len() == 4,
    ensures
        cidr24(a) == cidr24(b) <==> ({
            let pa = split_by(a, |c: char| c == '.');
            let pb = split_by(b, |c: char| c == '.');
            pa[0] == pb[0] && pa[1] == pb[1] && pa[2] == pb[2]
        }),
{
    lemma_network_of_parts(a);
    lemma_network_of_parts(b);
    let pa = split_by(a, |c: char| c == '.');
    let pb = split_by(b, |c: char| c == '.');
    if cidr24(a) == cidr24(b) {
        let sa = seq![pa[0], pa[1], pa[2], "*"@];
        let sb = seq![pb[0], pb[1], pb[2], "*"@];
        assert(sa == sb);
        assert(sa[0] == sb[0] && sa[1] == sb[1] && sa[2] == sb[2]);
    }
}

/// `x.clamp(lo, hi)`.
pub open spec fn clamp(x: nat, lo: nat, hi: nat) -> nat {
    if x < lo {
        lo
    } else if x > hi {
        hi
    } else {
        x
    }
}

/// A query parameter read as an unsigned number no greater than `max_value`,
/// or `fallback` when it is missing or does not parse, then clamped.
pub open spec fn clamped_param(
    value: Option<Seq<char>>,
    fallback: nat,
    lo: nat,
    hi: nat,
    max_value: nat,
) -> nat {
    let parsed = match value {
        Some(s) => unwrap_or_nat(parse_unsigned(s, max_value), fallback),
        None => fallback,
    };
    clamp(parsed, lo, hi)
}

pub open spec fn unwrap_or_nat(a: Option<nat>, d: nat) -> nat {
    match a {
        Some(x) => x,
        None => d,
    }
}

/// The view of an optional string slice.
pub open spec fn opt_view(v: Option<&str>) -> Option<Seq<char>> {
    match v {
        Some(s) => Some(s@),
        None => None,
    }
}

/// A clamped parameter lies within its bounds, and one that reads as a
/// number within them is taken as it is.
pub proof fn clamped_param_in_bounds(
    value: Option<Seq<char>>,
    fallback: nat,
    lo: nat,
    hi: nat,
    max_value: nat,
)
    requires
        lo <= hi,
    ensures
        lo <= clamped_param(value, fallback, lo, hi, max_value) <= hi,
        forall|s: Seq<char>, n: nat|
            value == Some(s) && parse_unsigned(s, max_value) == Some(n) && lo <= n <= hi
                ==> #[trigger] clamped_param(value, fallback, lo, hi, max_value) == n,
{
}

/// Reads a `u64` query parameter (`parse().ok().unwrap_or(fallback).clamp(min, max)`).
pub fn clamp_u64(value: Option<&str>, fallback: u64, min: u64, max: u64) -> (r: u64)
    requires
        min <= max,
    ensures
        r as nat == clamped_param(opt_view(value), fallback as nat, min as nat, max as nat, u64::MAX as nat),
{
    let parsed: u64 = match value {
        Some(s) => match parse_unsigned_bounded(s, u64::MAX) {
            Some(v) => v,
            None => fallback,
        },
        None => fallback,
    };
    if parsed < min {
        min
    } else if parsed > max {
        max
    } else {
        parsed
    }
}

/// Reads a `usize` query parameter (`parse().ok().unwrap_or(fallback).clamp(min, max)`).
pub fn clamp_usize(value: Option<&str>, fallback: usize, min: usize, max: usize) -> (r: usize)
    requires
        min <= max,
    ensures
        r as nat == clamped_param(opt_view(value), fallback as nat, min as nat, max as nat, usize::MAX as nat),
{
    let parsed: usize = match value {
        Some(s) => match parse_unsigned_bounded(s, usize::MAX as u64) {
            Some(v) => v as usize,
            None => fallback,
        },
        None => fallback,
    };
    if parsed < min {
        min
    } else if parsed > max {
        max
    } else {
        parsed
    }
}

/// The grouping key of the history view: one of `ip`, `asn`, `country`,
/// `scenario` and `cidr24`, with `cidr24` for anything else.
pub open spec fn group_by_key(value: Option<Seq<char>>) -> Seq<char> {
    let v = match value {
        Some(s) => s,
        None => "cidr24"@,
    };
    if v == "ip"@ || v == "asn"@ || v == "country"@ || v == "scenario"@ || v == "cidr24"@ {
        v
    } else {
        "cidr24"@
    }
}

pub fn normalize_group_by(value: Option<&str>) -> (r: String)
    ensures
        r@ == group_by_key(opt_view(value)),
{
    let v: &str = match value {
        Some(s) => s,
        None => "cidr24",
    };
    if str_eq(v, "ip") || str_eq(v, "asn") || str_eq(v, "country") || str_eq(v, "scenario")
        || str_eq(v, "cidr24") {
        to_owned_string(v)
    } else {
        to_owned_string("cidr24")
    }
}

/// Doubles every single quote, for use inside a quoted SQL literal.
pub fn sql_escape(value: &str) -> (r: String)
    ensures
        r@ == replace_all(value@, "'"@, "''"@),
{
    proof {
        reveal_strlit("'");
    }
    replace_str(value, "'", "''")
}

/// Reading a quoted value back, each doubled quote as one, gives the value:
/// no quote of the value can end the SQL literal it is put in.
pub proof fn sql_escape_round_trip(value: Seq<char>)
    ensures
        replace_all(replace_all(value, "'"@, "''"@), "''"@, "'"@) == value,
    decreases value.len(),
{
    reveal_strlit("'");
    reveal_strlit("''");
    let q = "'"@;
    let qq = "''"@;
    if value.len() > 0 {
        sql_escape_round_trip(value.drop_first());
        let rest = replace_all(value.drop_first(), q, qq);
        if starts_with(value, q) {
            assert(value.skip(1) =~= value.drop_first());
            let t = qq + rest;
            assert(t.subrange(0, 2) =~= qq);
            assert(t.skip(2) =~= rest);
            assert(replace_all(t, qq, q) == q + replace_all(rest, qq, q));
            assert(q + value.drop_first() =~= value) by {
                assert(value.subrange(0, 1) == q);
                assert(value[0] == q[0]);
            }
        } else {
            assert(value[0] != '\'') by {
                if value[0] == '\'' {
                    assert(value.subrange(0, 1) =~= q);
                }
            }
            let t = seq![value[0]] + rest;
            assert(!starts_with(t, qq)) by {
                if t.len() >= 2 && t.subrange(0, 2) == qq {
                    assert(t.subrange(0, 2)[0] == t[0]);
                }
            }
            assert(t.drop_first() =~= rest);
            assert(seq![value[0]] + value.drop_first() =~= value);
        }
    }
}

/// The number of single quotes in `s`.
pub open spec fn quote_count(s: Seq<char>) -> nat
    decreases s.len(),
{
    if s.len() == 0 {
        0
    } else {
        (if s[0] == '\'' {
            1nat
        } else {
            0nat
        }) + quote_count(s.drop_first())
    }
}

/// `[i, j)` is a maximal run of single quotes in `s`.
pub open spec fn quote_run(s: Seq<char>, i: int, j: int) -> bool {
    &&& 0 <= i <= j <= s.len()
    &&& (i == 0 || s[i - 1] != '\'')
    &&& (j == s.len() || s[j] != '\'')
    &&& forall|k: int| i <= k < j ==> s[k] == '\''
}

/// `s` reads as a sequence of doubled quotes and other characters.
pub open spec fn quotes_paired(s: Seq<char>) -> bool
    decreases s.len(),
{
    if s.len() == 0 {
        true
    } else if s[0] == '\'' {
        s.len() >= 2 && s[1] == '\'' && quotes_paired(s.skip(2))
    } else {
        quotes_paired(s.drop_first())
    }
}

proof fn lemma_escape_shape(value: Seq<char>)
    ensures
        replace_all(value, "'"@, "''"@).len() == value.len() + quote_count(value),
        quotes_paired(replace_all(value, "'"@, "''"@)),
    decreases value.len(),
{
    reveal_strlit("'");
    reveal_strlit("''");
    let q = "'"@;
    let qq = "''"@;
    if value.len() > 0 {
        lemma_escape_shape(value.drop_first());
        let rest = replace_all(value.drop_first(), q, qq);
        if starts_with(value, q) {
            assert(value.subrange(0, 1)[0] == value[0]);
            assert(value.skip(1) =~= value.drop_first());
            let t = qq + rest;
            assert(t.skip(2) =~= rest);
            assert(t[0] == '\'' && t[1] == '\'');
        } else {
            assert(value[0] != '\'') by {
                if value[0] == '\'' {
                    assert(value.subrange(0, 1) =~= q);
                }
            }
            let t = seq![value[0]] + rest;
            assert(t.drop_first() =~= rest);
        }
    }
}

proof fn lemma_paired_runs(s: Seq<char>)
    requires
        quotes_paired(s),
    ensures
        forall|i: int, j: int| #[trigger] quote_run(s, i, j) ==> (j - i) % 2 == 0,
    decreases s.len(),
{
    if s.len() == 0 {
    } else if s[0] == '\'' {
        let t = s.skip(2);
        lemma_paired_runs(t);
        assert forall|i: int, j: int| #[trigger] quote_run(s, i, j) implies (j - i) % 2 == 0 by {
            if i == 0 {
                assert(j != 0 && j != 1) by {
                    if j == 0 {
                        assert(s[j] == '\'');
                    }
                    if j == 1 {
                        assert(s[j] == '\'');
                    }
                }
                assert forall|k: int| 0 <= k < j - 2 implies t[k] == '\'' by {
                    assert(s[k + 2] == '\'');
                }
                if j - 2 < t.len() {
                    assert(t[j - 2] == s[j]);
                }
                assert(quote_run(t, 0, j - 2));
            } else {
                assert(i != 1) by {
                    if i == 1 {
                        assert(s[i - 1] == '\'');
                    }
                }
                assert forall|k: int| i - 2 <= k < j - 2 implies t[k] == '\'' by {
                    assert(s[k + 2] == '\'');
                }
                if i - 2 > 0 {
                    assert(t[i - 3] == s[i - 1]);
                }
                if j - 2 < t.len() {
                    assert(t[j - 2] == s[j]);
                }
                assert(quote_run(t, i - 2, j - 2));
            }
        }
    } else {
        let t = s.drop_first();
        lemma_paired_runs(t);
        assert forall|i: int, j: int| #[trigger] quote_run(s, i, j) implies (j - i) % 2 == 0 by {
            if i == 0 {
                if j > 0 {
                    assert(s[0] == '\'');
                }
            } else {
                assert forall|k: int| i - 1 <= k < j - 1 implies t[k] == '\'' by {
                    assert(s[k + 1] == '\'');
                }
                if i - 1 > 0 {
                    assert(t[i - 2] == s[i - 1]);
                }
                if j - 1 < t.len() {
                    assert(t[j - 1] == s[j]);
                }
                assert(quote_run(t, i - 1, j - 1));
            }
        }
    }
}

/// Escaping adds exactly one character per quote of the value, and every
/// maximal run of quotes in the result has even length, so the quoted
/// literal `'…'` holds the whole value and nothing after it.
pub proof fn sql_escape_doubles_quotes(value: Seq<char>)
    ensures
        replace_all(value, "'"@, "''"@).len() == value.len() + quote_count(value),
        forall|i: int, j: int|
            #[trigger] quote_run(replace_all(value, "'"@, "''"@), i, j) ==> (j - i) % 2 == 0,
{
    lemma_escape_shape(value);
    lemma_paired_runs(replace_all(value, "'"@, "''"@));
}

/// The expression that recognises CrowdSec feed-update pseudo-scenarios
/// such as `update : +12/-3 IPs`.
pub const FEED_UPDATE_PATTERN: &'static str = "(?i)^update\\s*:\\s*\\+\\d+/-\\d+\\s+ips?$";

/// A scenario is a feed update when the expression compiles and matches the
/// trimmed scenario.
pub open spec fn feed_update(scenario: Seq<char>) -> bool {
    regex_compiles(FEED_UPDATE_PATTERN@) && regex_matches(FEED_UPDATE_PATTERN@, trim(scenario))
}

pub fn is_feed_update(scenario: &str) -> (r: bool)
    ensures
        r == feed_update(scenario@),
{
    match Pattern::compile(FEED_UPDATE_PATTERN) {
        Some(p) => {
            let t = trim_str(scenario);
            p.is_match(t.as_str())
        },
        None => false,
    }
}

/// The label with the largest count.
pub fn top_count_label(map: &CountMap) -> (r: String)
    ensures
        is_top_label(counts_view(map@), r@),
{
    if map.len() == 0 {
        return to_owned_string("unknown");
    }
    let ghost t = counts_view(map@);
    let mut best: usize = 0;
    let mut i: usize = 1;
    while i < map.len()
        invariant
            1 <= i <= map.len(),
            t == counts_view(map@),
            best < i,
            forall|j: int| 0 <= j < i ==> t[j].1 <= t[best as int].1,
            forall|j: int| best < j < i ==> t[j].1 < t[best as int].1,
        decreases map.len() - i,
    {
        if map[i].1 >= map[best].1 {
            best = i;
        }
        i = i + 1;
    }
    let r = to_owned_string(map[best].0.as_str());
    assert(t[best as int].0 == r@);
    r
}

/// `p` with the separator `/` inserted where `Path::join` puts one, for a
/// relative `p`.
pub open spec fn path_join(dir: Seq<char>, p: Seq<char>) -> Seq<char> {
    if dir.len() == 0 || dir.last() == '/' {
        dir + p
    } else {
        dir + "/"@ + p
    }
}

pub fn join_path(dir: &str, p: &str) -> (r: String)
    ensures
        r@ == path_join(dir@, p@),
{
    proof {
        reveal_strlit("/");
    }
    let dv = chars_of(dir);
    let mut r = to_owned_string(dir);
    if dv.len() > 0 && dv[dv.len() - 1] != '/' {
        append_str(&mut r, "/");
    }
    append_str(&mut r, p);
    assert(r@ =~= path_join(dir@, p@));
    r
}

/// A log path pattern made absolute: a leading `~` is replaced by the home
/// directory when one is known, an absolute pattern is kept, and a relative
/// one is placed under the working directory when that is known.
pub open spec fn expanded_pattern(
    pattern: Seq<char>,
    home: Option<Seq<char>>,
    cwd: Option<Seq<char>>,
) -> Seq<char> {
    if starts_with(pattern, "~"@) && home is Some {
        home.unwrap() + pattern.skip(1)
    } else if starts_with(pattern, "/"@) {
        pattern
    } else if cwd is Some {
        path_join(cwd.unwrap(), pattern)
    } else {
        pattern
    }
}

pub fn expand_pattern(pattern: &str, home: Option<&str>, cwd: Option<&str>) -> (r: String)
    ensures
        r@ == expanded_pattern(pattern@, opt_view(home), opt_view(cwd)),
{
    proof {
        reveal_strlit("~");
        reveal_strlit("/");
    }
    let pv = chars_of(pattern);
    if starts_with_str(pattern, "~") {
        if let Some(h) = home {
            let mut r = to_owned_string(h);
            let rest = string_from_range(&pv, 1, pv.len());
            append_str(&mut r, rest.as_str());
            assert(pv@.subrange(1, pv@.len() as int) =~= pattern@.skip(1));
            return r;
        }
    }
    if starts_with_str(pattern, "/") {
        return to_owned_string(pattern);
    }
    match cwd {
        Some(c) => join_path(c, pattern),
        None => to_owned_string(pattern),
    }
}

/// The list of records in a payload: the payload itself when it is an array,
/// else its `items`, `alerts` or `decisions` array, else nothing.
pub open spec fn alert_items(p: JsonValue) -> Seq<JsonValue> {
    unwrap_or(
        or_else(
            as_array(Some(p)),
            or_else(
                as_array(get(p, "items"@)),
                or_else(as_array(get(p, "alerts"@)), as_array(get(p, "decisions"@))),
            ),
        ),
        Seq::empty(),
    )
}

/// The record that holds the attacker details: `source` when present, else
/// the item itself.
pub open spec fn alert_source(item: JsonValue) -> JsonValue {
    unwrap_or(get(item, "source"@), item)
}

/// The first entry of the item's `decisions` array.
pub open spec fn first_decision(item: JsonValue) -> Option<JsonValue> {
    first_of(as_array(get(item, "decisions"@)))
}

/// The string at `key` of `v`.
pub open spec fn sf(v: JsonValue, key: Seq<char>) -> Option<Seq<char>> {
    as_str(get(v, key))
}

/// The string at `key` of the first decision.
pub open spec fn df(item: JsonValue, key: Seq<char>) -> Option<Seq<char>> {
    as_str(opt_get(first_decision(item), key))
}

/// The scenario name with every `crowdsecurity/` removed.
pub open spec fn alert_scenario(item: JsonValue) -> Seq<char> {
    replace_all(
        unwrap_or(
            or_else(sf(item, "scenario"@), or_else(sf(item, "reason"@), sf(item, "type"@))),
            "unknown"@,
        ),
        "crowdsecurity/"@,
        Seq::empty(),
    )
}

pub open spec fn alert_ip(item: JsonValue) -> Seq<char> {
    unwrap_or(
        or_else(
            sf(alert_source(item), "ip"@),
            or_else(sf(item, "ip"@), or_else(sf(item, "value"@), df(item, "value"@))),
        ),
        Seq::empty(),
    )
}

/// An item becomes an alert unless it is a feed update or has no address.
pub open spec fn alert_kept(item: JsonValue) -> bool {
    !feed_update(alert_scenario(item)) && alert_ip(item).len() > 0
}

pub open spec fn alert_created_at(item: JsonValue, label: Seq<char>, now: Seq<char>) -> Seq<char> {
    unwrap_or(
        or_else(
            sf(item, "created_at"@),
            or_else(sf(item, "start_at"@), sf(item, "createdAt"@)),
        ),
        if label == "lapi-decisions"@ {
            Seq::empty()
        } else {
            now
        },
    )
}

pub open spec fn alert_id(item: JsonValue, index: nat, label: Seq<char>, now: Seq<char>) -> Seq<
    char,
> {
    unwrap_or(
        sf(item, "id"@),
        alert_ip(item) + "-"@ + alert_created_at(item, label, now) + "-"@ + decimal(index),
    )
}

/// Every field of `a` is what the rules read from `item`, the `index`-th
/// record of a payload labelled `label` and read at time `now`.
pub open spec fn alert_fields(
    a: Alert,
    item: JsonValue,
    index: nat,
    label: Seq<char>,
    now: Seq<char>,
) -> bool {
    let src = alert_source(item);
    let fd = first_decision(item);
    &&& a.id@ == alert_id(item, index, label, now)
    &&& a.ip@ == alert_ip(item)
    &&& a.country@ == unwrap_or(
        or_else(sf(src, "cn"@), or_else(sf(src, "country"@), sf(item, "country"@))),
        Seq::empty(),
    )
    &&& a.city@ == unwrap_or(sf(src, "city"@), Seq::empty())
    &&& a.latitude == or_else(
        as_number(get(src, "latitude"@)),
        as_number(get(src, "lat"@)),
    )
    &&& a.longitude == or_else(
        as_number(get(src, "longitude"@)),
        or_else(as_number(get(src, "lon"@)), as_number(get(src, "lng"@))),
    )
    &&& a.scenario@ == alert_scenario(item)
    &&& a.decision_type@ == unwrap_or(
        or_else(df(item, "type"@), or_else(sf(item, "decisionType"@), sf(item, "type"@))),
        "alert"@,
    )
    &&& a.value@ == unwrap_or(or_else(df(item, "value"@), sf(item, "value"@)), alert_ip(item))
    &&& a.created_at@ == alert_created_at(item, label, now)
    &&& a.count == unwrap_or(
        or_else(as_i64(get(item, "events_count"@)), as_i64(get(item, "count"@))),
        1i64,
    )
    &&& a.as_name@ == unwrap_or(
        or_else(sf(src, "as_name"@), sf(src, "asName"@)),
        Seq::empty(),
    )
    &&& a.origin@ == unwrap_or(or_else(sf(item, "origin"@), df(item, "origin"@)), Seq::empty())
    &&& a.scope@ == unwrap_or(or_else(sf(item, "scope"@), df(item, "scope"@)), "Ip"@)
    &&& a.duration@ == unwrap_or(
        or_else(sf(item, "duration"@), df(item, "duration"@)),
        Seq::empty(),
    )
    &&& a.until@ == unwrap_or(
        or_else(sf(item, "until"@), or_else(sf(item, "expires_at"@), df(item, "until"@))),
        Seq::empty(),
    )
}

/// The positions of the items that become alerts, in order.
pub open spec fn kept_indices(items: Seq<JsonValue>) -> Seq<int>
    decreases items.len(),
{
    if items.len() == 0 {
        Seq::empty()
    } else {
        let r = kept_indices(items.drop_last());
        if alert_kept(items.last()) {
            r.push(items.len() - 1)
        } else {
            r
        }
    }
}

fn alert_items_of(p: &JsonValue) -> (r: Option<&Vec<JsonValue>>)
    ensures
        match r {
            Some(a) => alert_items(*p) == a@,
            None => alert_items(*p) == Seq::<JsonValue>::empty(),
        },
{
    match p.as_array() {
        Some(a) => Some(a),
        None => match array_field(p, "items") {
            Some(a) => Some(a),
            None => match array_field(p, "alerts") {
                Some(a) => Some(a),
                None => array_field(p, "decisions"),
            },
        },
    }
}

fn first_decision_of(item: &JsonValue) -> (r: Option<&JsonValue>)
    ensures
        deref_opt(r) == first_decision(*item),
{
    match array_field(item, "decisions") {
        Some(a) => if a.len() > 0 {
            Some(&a[0])
        } else {
            None
        },
        None => None,
    }
}

fn scenario_of(item: &JsonValue) -> (r: String)
    ensures
        r@ == alert_scenario(*item),
{
    proof {
        reveal_strlit("");
        reveal_strlit("crowdsecurity/");
    }
    let raw = str_or(
        or_str(
            str_field(item, "scenario"),
            or_str(str_field(item, "reason"), str_field(item, "type")),
        ),
        "unknown",
    );
    assert(""@ =~= Seq::<char>::empty());
    replace_str(raw.as_str(), "crowdsecurity/", "")
}

fn ip_of(item: &JsonValue, src: &JsonValue, fd: Option<&JsonValue>) -> (r: String)
    requires
        *src == alert_source(*item),
        deref_opt(fd) == first_decision(*item),
    ensures
        r@ == alert_ip(*item),
{
    proof {
        reveal_strlit("");
    }
    str_or(
        or_str(
            str_field(src, "ip"),
            or_str(
                str_field(item, "ip"),
                or_str(str_field(item, "value"), str_field_in(fd, "value")),
            ),
        ),
        "",
    )
}

fn created_at_of(item: &JsonValue, source_label: &str, now: &str) -> (r: String)
    ensures
        r@ == alert_created_at(*item, source_label@, now@),
{
    proof {
        reveal_strlit("");
    }
    let fallback: &str = if str_eq(source_label, "lapi-decisions") {
        ""
    } else {
        now
    };
    str_or(
        or_str(
            str_field(item, "created_at"),
            or_str(str_field(item, "start_at"), str_field(item, "createdAt")),
        ),
        fallback,
    )
}

fn id_of(item: &JsonValue, ip: &String, created_at: &String, index: usize) -> (r: String)
    ensures
        r@ == unwrap_or(sf(*item, "id"@), ip@ + "-"@ + created_at@ + "-"@ + decimal(index as nat)),
{
    match str_field(item, "id") {
        Some(s) => to_owned_string(s),
        None => {
            let mut r = to_owned_string(ip.as_str());
            append_str(&mut r, "-");
            append_str(&mut r, created_at.as_str());
            append_str(&mut r, "-");
            push_decimal(&mut r, index as u64);
            assert(r@ =~= ip@ + "-"@ + created_at@ + "-"@ + decimal(index as nat));
            r
        },
    }
}

fn source_of(item: &JsonValue) -> (r: &JsonValue)
    ensures
        *r == alert_source(*item),
{
    match item.get("source") {
        Some(s) => s,
        None => item,
    }
}

/// The alert for one record, or `None` when it is skipped.
pub fn normalize_alert_item(item: &JsonValue, index: usize, source_label: &str, now: &str) -> (r:
    Option<Alert>)
    ensures
        r is Some <==> alert_kept(*item),
        r matches Some(a) ==> alert_fields(a, *item, index as nat, source_label@, now@),
{
    proof {
        reveal_strlit("");
    }
    let src = source_of(item);
    let fd = first_decision_of(item);
    let scenario = scenario_of(item);
    if is_feed_update(scenario.as_str()) {
        return None;
    }
    let ip = ip_of(item, src, fd);
    if ip.as_str().is_empty() {
        return None;
    }
    let created_at = created_at_of(item, source_label, now);
    let id = id_of(item, &ip, &created_at, index);
    let country = str_or(
        or_str(
            str_field(src, "cn"),
            or_str(str_field(src, "country"), str_field(item, "country")),
        ),
        "",
    );
    let city = str_or(str_field(src, "city"), "");
    let latitude = match number_in(src.get("latitude")) {
        Some(n) => Some(n),
        None => number_in(src.get("lat")),
    };
    let longitude = match number_in(src.get("longitude")) {
        Some(n) => Some(n),
        None => match number_in(src.get("lon")) {
            Some(n) => Some(n),
            None => number_in(src.get("lng")),
        },
    };
    let decision_type = str_or(
        or_str(
            str_field_in(fd, "type"),
            or_str(str_field(item, "decisionType"), str_field(item, "type")),
        ),
        "alert",
    );
    let value = match or_str(str_field_in(fd, "value"), str_field(item, "value")) {
        Some(v) => to_owned_string(v),
        None => to_owned_string(ip.as_str()),
    };
    let count = match i64_in(item.get("events_count")) {
        Some(c) => c,
        None => match i64_in(item.get("count")) {
            Some(c) => c,
            None => 1,
        },
    };
    let as_name = str_or(or_str(str_field(src, "as_name"), str_field(src, "asName")), "");
    let origin = str_or(or_str(str_field(item, "origin"), str_field_in(fd, "origin")), "");
    let scope = str_or(or_str(str_field(item, "scope"), str_field_in(fd, "scope")), "Ip");
    let duration = str_or(or_str(str_field(item, "duration"), str_field_in(fd, "duration")), "");
    let until = str_or(
        or_str(
            str_field(item, "until"),
            or_str(str_field(item, "expires_at"), str_field_in(fd, "until")),
        ),
        "",
    );
    let a = Alert {
            id,
            ip,
            country,
            city,
            latitude,
            longitude,
            scenario,
            decision_type,
            value,
            created_at,
            count,
            as_name,
            origin,
            scope,
            duration,
            until,
        };
    assert(a.id@ == alert_id(*item, index as nat, source_label@, now@));
    assert(a.country@ == unwrap_or(
        or_else(sf(*src, "cn"@), or_else(sf(*src, "country"@), sf(*item, "country"@))),
        Seq::empty(),
    ));
    assert(a.latitude == or_else(
        as_number(get(*src, "latitude"@)),
        as_number(get(*src, "lat"@)),
    ));
    assert(a.longitude == or_else(
        as_number(get(*src, "longitude"@)),
        or_else(as_number(get(*src, "lon"@)), as_number(get(*src, "lng"@))),
    ));
    assert(a.count == unwrap_or(
        or_else(as_i64(get(*item, "events_count"@)), as_i64(get(*item, "count"@))),
        1i64,
    ));
    assert(a.ip@ == alert_ip(*item));
    assert(a.city@ == unwrap_or(sf(*src, "city"@), Seq::empty()));
    assert(a.scenario@ == alert_scenario(*item));
    assert(a.decision_type@ == unwrap_or(
        or_else(df(*item, "type"@), or_else(sf(*item, "decisionType"@), sf(*item, "type"@))),
        "alert"@,
    ));
    assert(a.value@ == unwrap_or(or_else(df(*item, "value"@), sf(*item, "value"@)), alert_ip(*item)));
    assert(a.created_at@ == alert_created_at(*item, source_label@, now@));
    assert(a.as_name@ == unwrap_or(
        or_else(sf(*src, "as_name"@), sf(*src, "asName"@)),
        Seq::empty(),
    ));
    assert(a.origin@ == unwrap_or(or_else(sf(*item, "origin"@), df(*item, "origin"@)), Seq::empty()));
    assert(a.scope@ == unwrap_or(or_else(sf(*item, "scope"@), df(*item, "scope"@)), "Ip"@));
    assert(a.duration@ == unwrap_or(
        or_else(sf(*item, "duration"@), df(*item, "duration"@)),
        Seq::empty(),
    ));
    assert(a.until@ == unwrap_or(
        or_else(sf(*item, "until"@), or_else(sf(*item, "expires_at"@), df(*item, "until"@))),
        Seq::empty(),
    ));
    Some(a)
}

/// Turns a CrowdSec alert payload (from LAPI, `cscli` or a snapshot) into
/// alerts, skipping feed updates and records without an address. `now` is
/// the creation time given to records that carry none.
pub fn normalize_alert_payload(payload: &JsonValue, source_label: &str, now: &str) -> (r: Vec<
    Alert,
>)
    ensures
        ({
            let items = alert_items(*payload);
            let ks = kept_indices(items);
            &&& r.len() == ks.len()
            &&& forall|j: int|
                0 <= j < ks.len() ==> alert_fields(
                    #[trigger] r@[j],
                    items[ks[j]],
                    ks[j] as nat,
                    source_label@,
                    now@,
                )
        }),
{
    let mut out: Vec<Alert> = Vec::new();
    let items_opt = alert_items_of(payload);
    let empty: Vec<JsonValue> = Vec::new();
    let items: &Vec<JsonValue> = match items_opt {
        Some(a) => a,
        None => &empty,
    };
    assert(items@ == alert_items(*payload));
    let mut i: usize = 0;
    while i < items.len()
        invariant
            i <= items.len(),
            ({
                let ks = kept_indices(items@.take(i as int));
                &&& out.len() == ks.len()
                &&& forall|j: int| 0 <= j < ks.len() ==> 0 <= #[trigger] ks[j] < i
                &&& forall|j: int|
                    0 <= j < ks.len() ==> alert_fields(
                        #[trigger] out@[j],
                        items@[ks[j]],
                        ks[j] as nat,
                        source_label@,
                        now@,
                    )
            }),
        decreases items.len() - i,
    {
        assert(items@.take(i + 1).drop_last() =~= items@.take(i as int));
        assert(items@.take(i + 1).last() == items@[i as int]);
        let ghost prev = kept_indices(items@.take(i as int));
        match normalize_alert_item(&items[i], i, source_label, now) {
            Some(a) => {
                out.push(a);
                assert(kept_indices(items@.take(i + 1)) == prev.push(i as int));
            },
            None => {
                assert(kept_indices(items@.take(i + 1)) == prev);
            },
        }
        i = i + 1;
    }
    assert(items@.take(items.len() as int) =~= items@);
    out
}

/// The list of decisions in a payload: the payload itself when it is an
/// array, else its `data`, `items` or `decisions` array, else nothing.
pub open spec fn decision_items(p: JsonValue) -> Seq<JsonValue> {
    unwrap_or(
        or_else(
            as_array(Some(p)),
            or_else(
                as_array(get(p, "data"@)),
                or_else(as_array(get(p, "items"@)), as_array(get(p, "decisions"@))),
            ),
        ),
        Seq::empty(),
    )
}

/// Every field of `b` is what the rules read from `item`, the `index`-th
/// decision of a payload.
pub open spec fn ban_fields(b: ActiveBan, item: JsonValue, index: nat) -> bool {
    let ip = unwrap_or(or_else(sf(item, "ip"@), sf(item, "value"@)), Seq::empty());
    &&& b.id@ == match as_i64(get(item, "id"@)) {
        Some(n) => signed_decimal(n as int),
        None => "decision-"@ + decimal(index),
    }
    &&& b.ip@ == ip
    &&& b.value@ == unwrap_or(sf(item, "value"@), ip)
    &&& b.country@ == unwrap_or(sf(item, "country"@), Seq::empty())
    &&& b.scenario@ == unwrap_or(sf(item, "scenario"@), "unknown"@)
    &&& b.origin@ == unwrap_or(sf(item, "origin"@), "unknown"@)
    &&& b.scope@ == unwrap_or(sf(item, "scope"@), "Ip"@)
    &&& b.duration@ == unwrap_or(sf(item, "duration"@), Seq::empty())
    &&& b.until@ == unwrap_or(or_else(sf(item, "until"@), sf(item, "expires_at"@)), Seq::empty())
    &&& b.ban_type@ == unwrap_or(sf(item, "type"@), "ban"@)
    &&& b.created_at@ == unwrap_or(sf(item, "created_at"@), Seq::empty())
}

/// An alert record that carries a `created_at` text keeps it as its
/// creation time, whatever `start_at`, `createdAt` or the time of
/// normalisation say; a record with none of the three takes the time of
/// normalisation (outside local-API decision payloads).
pub proof fn alert_keeps_created_at(
    a: Alert,
    item: JsonValue,
    index: nat,
    label: Seq<char>,
    now: Seq<char>,
)
    requires
        alert_fields(a, item, index, label, now),
    ensures
        forall|s: String| get(item, "created_at"@) == Some(JsonValue::Str(s)) ==> a.created_at@ == s@,
        (as_str(get(item, "created_at"@)) is None && as_str(get(item, "start_at"@)) is None
            && as_str(get(item, "createdAt"@)) is None && label != "lapi-decisions"@) ==> a.created_at@
            == now,
{
}

/// An alert record keeps what its attacker details say: the address, city,
/// country code (`cn`) and network name of its `source`, and the event
/// count, origin, scope and duration it carries itself.
pub proof fn alert_keeps_record_fields(
    a: Alert,
    item: JsonValue,
    index: nat,
    label: Seq<char>,
    now: Seq<char>,
)
    requires
        alert_fields(a, item, index, label, now),
    ensures
        forall|src: JsonValue, s: String|
            get(item, "source"@) == Some(src) && get(src, "ip"@) == Some(JsonValue::Str(s))
                ==> a.ip@ == s@,
        forall|src: JsonValue, s: String|
            get(item, "source"@) == Some(src) && get(src, "city"@) == Some(JsonValue::Str(s))
                ==> a.city@ == s@,
        forall|src: JsonValue, s: String|
            get(item, "source"@) == Some(src) && get(src, "cn"@) == Some(JsonValue::Str(s))
                ==> a.country@ == s@,
        forall|src: JsonValue, s: String|
            get(item, "source"@) == Some(src) && get(src, "as_name"@) == Some(JsonValue::Str(s))
                ==> a.as_name@ == s@,
        forall|n: u64|
            get(item, "events_count"@) == Some(JsonValue::Number(JsonNumber::PosInt(n))) && n
                <= i64::MAX ==> a.count == n,
        forall|s: String| get(item, "origin"@) == Some(JsonValue::Str(s)) ==> a.origin@ == s@,
        forall|s: String| get(item, "scope"@) == Some(JsonValue::Str(s)) ==> a.scope@ == s@,
        forall|s: String| get(item, "duration"@) == Some(JsonValue::Str(s)) ==> a.duration@ == s@,
{
}

/// Each text field of a decision record is carried into its ban as it
/// stands: `value`, `country`, `scenario`, `origin`, `scope`, `duration`,
/// `type` and `created_at`.
pub proof fn ban_keeps_record_fields(b: ActiveBan, item: JsonValue, index: nat)
    requires
        ban_fields(b, item, index),
    ensures
        forall|s: String| get(item, "duration"@) == Some(JsonValue::Str(s)) ==> b.duration@ == s@,
        forall|s: String| get(item, "value"@) == Some(JsonValue::Str(s)) ==> b.value@ == s@,
        forall|s: String| get(item, "country"@) == Some(JsonValue::Str(s)) ==> b.country@ == s@,
        forall|s: String| get(item, "scenario"@) == Some(JsonValue::Str(s)) ==> b.scenario@ == s@,
        forall|s: String| get(item, "origin"@) == Some(JsonValue::Str(s)) ==> b.origin@ == s@,
        forall|s: String| get(item, "scope"@) == Some(JsonValue::Str(s)) ==> b.scope@ == s@,
        forall|s: String| get(item, "type"@) == Some(JsonValue::Str(s)) ==> b.ban_type@ == s@,
        forall|s: String| get(item, "created_at"@) == Some(JsonValue::Str(s)) ==> b.created_at@ == s@,
{
}

fn decision_items_of(p: &JsonValue) -> (r: Option<&Vec<JsonValue>>)
    ensures
        match r {
            Some(a) => decision_items(*p) == a@,
            None => decision_items(*p) == Seq::<JsonValue>::empty(),
        },
{
    match p.as_array() {
        Some(a) => Some(a),
        None => match array_field(p, "data") {
            Some(a) => Some(a),
            None => match array_field(p, "items") {
                Some(a) => Some(a),
                None => array_field(p, "decisions"),
            },
        },
    }
}

/// The decision for one record.
pub fn normalize_decision_item(item: &JsonValue, index: usize) -> (b: ActiveBan)
    ensures
        ban_fields(b, *item, index as nat),
{
    proof {
        reveal_strlit("");
    }
    let ip = str_or(or_str(str_field(item, "ip"), str_field(item, "value")), "");
    let value = match str_field(item, "value") {
        Some(v) => to_owned_string(v),
        None => to_owned_string(ip.as_str()),
    };
    let id = match i64_in(item.get("id")) {
        Some(n) => i64_to_string(n),
        None => {
            let mut r = to_owned_string("decision-");
            push_decimal(&mut r, index as u64);
            assert(r@ == "decision-"@ + decimal(index as nat));
            r
        },
    };
    let b = ActiveBan {
        id,
        ip,
        value,
        country: str_or(str_field(item, "country"), ""),
        scenario: str_or(str_field(item, "scenario"), "unknown"),
        origin: str_or(str_field(item, "origin"), "unknown"),
        scope: str_or(str_field(item, "scope"), "Ip"),
        duration: str_or(str_field(item, "duration"), ""),
        until: str_or(or_str(str_field(item, "until"), str_field(item, "expires_at")), ""),
        ban_type: str_or(str_field(item, "type"), "ban"),
        created_at: str_or(str_field(item, "created_at"), ""),
    };
    assert(b.value@ == unwrap_or(sf(*item, "value"@), b.ip@));
    assert(b.id@ == match as_i64(get(*item, "id"@)) {
        Some(n) => signed_decimal(n as int),
        None => "decision-"@ + decimal(index as nat),
    });
    let ghost ip = unwrap_or(or_else(sf(*item, "ip"@), sf(*item, "value"@)), Seq::empty());
    assert(b.ip@ == ip);
    assert(b.country@ == unwrap_or(sf(*item, "country"@), Seq::empty()));
    assert(b.scenario@ == unwrap_or(sf(*item, "scenario"@), "unknown"@));
    assert(b.origin@ == unwrap_or(sf(*item, "origin"@), "unknown"@));
    assert(b.scope@ == unwrap_or(sf(*item, "scope"@), "Ip"@));
    assert(b.duration@ == unwrap_or(sf(*item, "duration"@), Seq::empty()));
    assert(b.until@ == unwrap_or(or_else(sf(*item, "until"@), sf(*item, "expires_at"@)), Seq::empty()));
    assert(b.ban_type@ == unwrap_or(sf(*item, "type"@), "ban"@));
    assert(b.created_at@ == unwrap_or(sf(*item, "created_at"@), Seq::empty()));
    b
}

/// Turns a CrowdSec decisions payload into active bans, one per record.
pub fn normalize_decisions_as_bans(value: &JsonValue) -> (r: Vec<ActiveBan>)
    ensures
        r.len() == decision_items(*value).len(),
        forall|j: int|
            0 <= j < r.len() ==> ban_fields(#[trigger] r@[j], decision_items(*value)[j], j as nat),
{
    let mut out: Vec<ActiveBan> = Vec::new();
    let empty: Vec<JsonValue> = Vec::new();
    let items: &Vec<JsonValue> = match decision_items_of(value) {
        Some(a) => a,
        None => &empty,
    };
    assert(items@ == decision_items(*value));
    let mut i: usize = 0;
    while i < items.len()
        invariant
            i <= items.len(),
            out.len() == i,
            forall|j: int| 0 <= j < i ==> ban_fields(#[trigger] out@[j], items@[j], j as nat),
        decreases items.len() - i,
    {
        out.push(normalize_decision_item(&items[i], i));
        i = i + 1;
    }
    out
}

} // verus!
