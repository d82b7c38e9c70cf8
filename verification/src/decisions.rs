//! The Decisions view: field selection, search, ordering, country
//! enrichment and the summary counts.

use vstd::prelude::*;
use crate::aggregate::{
    count_nonempty, is_top_counts, map_counts, unit_pairs, lemma_distinct_unique,
    counts_view, distinct, find, is_perm, order_by_text, text_before, order_desc, stable_by_text, stable_desc,
    tally, tally_add, add_distinct, lemma_find, lemma_tally_bound, abs_total,
    lemma_abs_total_nonneg, CountMap,
};
use crate::json::{or_else, unwrap_or};
use crate::models::ActiveBan;
use crate::normaliser::{cidr24, to_cidr24};
use crate::text::{
    ascii_lower, ascii_lower_char, chars_of, char_vecs_view, contains, contains_chars, keep_nonempty,
    split_whitespace, str_eq, str_to_lowercase, strings_view, to_owned_string, trim, trim_str,
    unicode_lowercase, words,
};

verus! {

/// All fields of two decisions read the same.
pub open spec fn same_ban(a: ActiveBan, b: ActiveBan) -> bool {
    &&& a.id@ == b.id@
    &&& a.ip@ == b.ip@
    &&& a.value@ == b.value@
    &&& a.country@ == b.country@
    &&& a.scenario@ == b.scenario@
    &&& a.origin@ == b.origin@
    &&& a.scope@ == b.scope@
    &&& a.duration@ == b.duration@
    &&& a.until@ == b.until@
    &&& a.ban_type@ == b.ban_type@
    &&& a.created_at@ == b.created_at@
}

/// A copy of a decision.
pub fn copy_ban(b: &ActiveBan) -> (r: ActiveBan)
    ensures
        same_ban(r, *b),
{
    ActiveBan {
        id: to_owned_string(b.id.as_str()),
        ip: to_owned_string(b.ip.as_str()),
        value: to_owned_string(b.value.as_str()),
        country: to_owned_string(b.country.as_str()),
        scenario: to_owned_string(b.scenario.as_str()),
        origin: to_owned_string(b.origin.as_str()),
        scope: to_owned_string(b.scope.as_str()),
        duration: to_owned_string(b.duration.as_str()),
        until: to_owned_string(b.until.as_str()),
        ban_type: to_owned_string(b.ban_type.as_str()),
        created_at: to_owned_string(b.created_at.as_str()),
    }
}

/// The value a decision is ordered by for a sort key: `value` falls back to
/// the address, `duration` to the expiry, and an unknown key gives the empty
/// string.
pub open spec fn field_value(b: ActiveBan, field: Seq<char>) -> Seq<char> {
    if field == "value"@ {
        if b.value@.len() == 0 {
            b.ip@
        } else {
            b.value@
        }
    } else if field == "ip"@ {
        b.ip@
    } else if field == "scope"@ {
        b.scope@
    } else if field == "country"@ {
        b.country@
    } else if field == "scenario"@ {
        b.scenario@
    } else if field == "origin"@ {
        b.origin@
    } else if field == "duration"@ {
        if b.duration@.len() == 0 {
            b.until@
        } else {
            b.duration@
        }
    } else if field == "until"@ {
        b.until@
    } else {
        Seq::empty()
    }
}

pub fn decision_field(item: &ActiveBan, field: &str) -> (r: String)
    ensures
        r@ == field_value(*item, field@),
{
    proof {
        reveal_strlit("");
    }
    if str_eq(field, "value") {
        if item.value.as_str().is_empty() {
            to_owned_string(item.ip.as_str())
        } else {
            to_owned_string(item.value.as_str())
        }
    } else if str_eq(field, "ip") {
        to_owned_string(item.ip.as_str())
    } else if str_eq(field, "scope") {
        to_owned_string(item.scope.as_str())
    } else if str_eq(field, "country") {
        to_owned_string(item.country.as_str())
    } else if str_eq(field, "scenario") {
        to_owned_string(item.scenario.as_str())
    } else if str_eq(field, "origin") {
        to_owned_string(item.origin.as_str())
    } else if str_eq(field, "duration") {
        if item.duration.as_str().is_empty() {
            to_owned_string(item.until.as_str())
        } else {
            to_owned_string(item.duration.as_str())
        }
    } else if str_eq(field, "until") {
        to_owned_string(item.until.as_str())
    } else {
        String::new()
    }
}

/// The text a decision is searched in: its address, value, scope, country,
/// scenario, origin and duration, each lower-cased, separated by spaces.
/// (A space is not a cased or case-ignorable character, so lower-casing the
/// fields apart gives the text that lower-casing them joined gives.)
pub open spec fn search_text(b: ActiveBan) -> Seq<char> {
    unicode_lowercase(b.ip@) + " "@ + unicode_lowercase(b.value@) + " "@ + unicode_lowercase(
        b.scope@,
    ) + " "@ + unicode_lowercase(b.country@) + " "@ + unicode_lowercase(b.scenario@) + " "@
        + unicode_lowercase(b.origin@) + " "@ + unicode_lowercase(b.duration@)
}

/// Every search term occurs in the decision's search text.
pub open spec fn matches_terms(b: ActiveBan, terms: Seq<Seq<char>>) -> bool {
    forall|t: int| 0 <= t < terms.len() ==> contains(search_text(b), #[trigger] terms[t])
}

/// The search terms of a query: the words of the trimmed, lower-cased query.
pub open spec fn search_terms(search: Seq<char>) -> Seq<Seq<char>> {
    words(unicode_lowercase(trim(search)))
}

/// The decisions that match every term, in order.
pub open spec fn matching(items: Seq<ActiveBan>, terms: Seq<Seq<char>>) -> Seq<ActiveBan>
    decreases items.len(),
{
    if items.len() == 0 {
        Seq::empty()
    } else {
        let r = matching(items.drop_last(), terms);
        if matches_terms(items.last(), terms) {
            r.push(items.last())
        } else {
            r
        }
    }
}

/// The decisions a search keeps: all of them for a blank query.
pub open spec fn search_result(items: Seq<ActiveBan>, search: Seq<char>) -> Seq<ActiveBan> {
    if unicode_lowercase(trim(search)).len() == 0 {
        items
    } else {
        matching(items, search_terms(search))
    }
}

/// `a` and `b` are the same list of decisions, field by field.
pub open spec fn same_bans(a: Seq<ActiveBan>, b: Seq<ActiveBan>) -> bool {
    a.len() == b.len() && forall|j: int| 0 <= j < a.len() ==> same_ban(#[trigger] a[j], b[j])
}

proof fn lemma_matching_keeps(items: Seq<ActiveBan>, terms: Seq<Seq<char>>, i: int)
    requires
        0 <= i < items.len(),
        matches_terms(items[i], terms),
    ensures
        matching(items, terms).contains(items[i]),
    decreases items.len(),
{
    let r = matching(items.drop_last(), terms);
    if i < items.len() - 1 {
        lemma_matching_keeps(items.drop_last(), terms, i);
        assert(items.drop_last()[i] == items[i]);
        let k = choose|k: int| 0 <= k < r.len() && r[k] == items[i];
        if matches_terms(items.last(), terms) {
            assert(r.push(items.last())[k] == items[i]);
        }
    } else {
        assert(items.last() == items[i]);
        assert(r.push(items.last())[r.len() as int] == items[i]);
    }
}

/// A decision whose lower-cased origin holds every search term is kept by
/// the search.
pub proof fn search_finds_by_origin(items: Seq<ActiveBan>, search: Seq<char>, i: int)
    requires
        0 <= i < items.len(),
        forall|t: int|
            0 <= t < search_terms(search).len() ==> contains(
                unicode_lowercase(items[i].origin@),
                #[trigger] search_terms(search)[t],
            ),
    ensures
        search_result(items, search).contains(items[i]),
{
    reveal_strlit(" ");
    let b = items[i];
    if unicode_lowercase(trim(search)).len() == 0 {
        assert(items[i] == items[i]);
    } else {
        let terms = search_terms(search);
        let before = unicode_lowercase(b.ip@) + " "@ + unicode_lowercase(b.value@) + " "@
            + unicode_lowercase(b.scope@) + " "@ + unicode_lowercase(b.country@) + " "@
            + unicode_lowercase(b.scenario@) + " "@;
        let after = " "@ + unicode_lowercase(b.duration@);
        assert(search_text(b) =~= before + unicode_lowercase(b.origin@) + after);
        assert forall|t: int| 0 <= t < terms.len() implies contains(search_text(b), #[trigger] terms[t]) by {
            crate::text::lemma_contains_within(before, unicode_lowercase(b.origin@), after, terms[t]);
        }
        lemma_matching_keeps(items, terms, i);
    }
}

/// The fields of a decision that a search looks in: its address, value,
/// scope, country, scenario, origin and duration.
pub open spec fn searched_fields(b: ActiveBan) -> Seq<Seq<char>> {
    seq![b.ip@, b.value@, b.scope@, b.country@, b.scenario@, b.origin@, b.duration@]
}

/// A decision one of whose searched fields, lower-cased, holds every search
/// term is kept by the search.
pub proof fn search_finds_by_any_field(items: Seq<ActiveBan>, search: Seq<char>, i: int, f: int)
    requires
        0 <= i < items.len(),
        0 <= f < 7,
        forall|t: int|
            0 <= t < search_terms(search).len() ==> contains(
                unicode_lowercase(searched_fields(items[i])[f]),
                #[trigger] search_terms(search)[t],
            ),
    ensures
        search_result(items, search).contains(items[i]),
{
    reveal_strlit(" ");
    let b = items[i];
    if unicode_lowercase(trim(search)).len() == 0 {
        assert(items[i] == items[i]);
    } else {
        let terms = search_terms(search);
        let l = seq![
            unicode_lowercase(b.ip@),
            unicode_lowercase(b.value@),
            unicode_lowercase(b.scope@),
            unicode_lowercase(b.country@),
            unicode_lowercase(b.scenario@),
            unicode_lowercase(b.origin@),
            unicode_lowercase(b.duration@),
        ];
        assert(l[f] == unicode_lowercase(searched_fields(b)[f]));
        let sp = " "@;
        let st = search_text(b);
        assert(st =~= l[0] + sp + l[1] + sp + l[2] + sp + l[3] + sp + l[4] + sp + l[5] + sp + l[6]);
        let pre = if f == 0 {
            Seq::<char>::empty()
        } else if f == 1 {
            l[0] + sp
        } else if f == 2 {
            l[0] + sp + l[1] + sp
        } else if f == 3 {
            l[0] + sp + l[1] + sp + l[2] + sp
        } else if f == 4 {
            l[0] + sp + l[1] + sp + l[2] + sp + l[3] + sp
        } else if f == 5 {
            l[0] + sp + l[1] + sp + l[2] + sp + l[3] + sp + l[4] + sp
        } else {
            l[0] + sp + l[1] + sp + l[2] + sp + l[3] + sp + l[4] + sp + l[5] + sp
        };
        let post = if f == 0 {
            sp + l[1] + sp + l[2] + sp + l[3] + sp + l[4] + sp + l[5] + sp + l[6]
        } else if f == 1 {
            sp + l[2] + sp + l[3] + sp + l[4] + sp + l[5] + sp + l[6]
        } else if f == 2 {
            sp + l[3] + sp + l[4] + sp + l[5] + sp + l[6]
        } else if f == 3 {
            sp + l[4] + sp + l[5] + sp + l[6]
        } else if f == 4 {
            sp + l[5] + sp + l[6]
        } else if f == 5 {
            sp + l[6]
        } else {
            Seq::<char>::empty()
        };
        assert(st =~= pre + l[f] + post);
        assert forall|t: int| 0 <= t < terms.len() implies contains(st, #[trigger] terms[t]) by {
            crate::text::lemma_contains_within(pre, l[f], post, terms[t]);
        }
        lemma_matching_keeps(items, terms, i);
    }
}

/// Searching for a decision's exact origin (one without white space at
/// either end) keeps that decision.
pub proof fn search_by_exact_origin_keeps(items: Seq<ActiveBan>, i: int)
    requires
        0 <= i < items.len(),
        trim(items[i].origin@) == items[i].origin@,
    ensures
        search_result(items, items[i].origin@).contains(items[i]),
{
    let o = items[i].origin@;
    crate::text::lemma_words_occur(unicode_lowercase(o));
    assert(search_terms(o) == words(unicode_lowercase(o)));
    search_finds_by_origin(items, o, i);
}

/// Sorting by a column orders the decisions by that column: `ip`, `scope`,
/// `country`, `scenario`, `origin` and `until` by the field itself,
/// `value` by the value (the address where it is empty) and `duration` by
/// the duration (the expiry where it is empty); ascending, or descending
/// when asked, by byte order.
pub proof fn sort_orders_by_column(
    items: Seq<ActiveBan>,
    sort: Seq<char>,
    descending: bool,
    r: Seq<ActiveBan>,
    order: Seq<usize>,
)
    requires
        stable_by_text(field_values(items, sort), descending, order),
        r.len() == items.len(),
        forall|j: int| 0 <= j < r.len() ==> same_ban(#[trigger] r[j], items[order[j] as int]),
    ensures
        forall|j: int, l: int|
            0 <= j < l < r.len() ==> {
                &&& sort == "ip"@ ==> !text_before(r[l].ip@, r[j].ip@, descending)
                &&& sort == "scope"@ ==> !text_before(r[l].scope@, r[j].scope@, descending)
                &&& sort == "country"@ ==> !text_before(r[l].country@, r[j].country@, descending)
                &&& sort == "scenario"@ ==> !text_before(r[l].scenario@, r[j].scenario@, descending)
                &&& sort == "origin"@ ==> !text_before(r[l].origin@, r[j].origin@, descending)
                &&& sort == "until"@ ==> !text_before(r[l].until@, r[j].until@, descending)
                &&& sort == "value"@ ==> !text_before(
                    if r[l].value@.len() == 0 { r[l].ip@ } else { r[l].value@ },
                    if r[j].value@.len() == 0 { r[j].ip@ } else { r[j].value@ },
                    descending,
                )
                &&& sort == "duration"@ ==> !text_before(
                    if r[l].duration@.len() == 0 { r[l].until@ } else { r[l].duration@ },
                    if r[j].duration@.len() == 0 { r[j].until@ } else { r[j].duration@ },
                    descending,
                )
            },
{
    reveal_strlit("value");
    reveal_strlit("ip");
    reveal_strlit("scope");
    reveal_strlit("country");
    reveal_strlit("scenario");
    reveal_strlit("origin");
    reveal_strlit("duration");
    reveal_strlit("until");
    assert("value"@.len() == 5 && "ip"@.len() == 2 && "scope"@.len() == 5 && "country"@.len() == 7);
    assert("scenario"@.len() == 8 && "origin"@.len() == 6 && "duration"@.len() == 8 && "until"@.len() == 5);
    assert("value"@[0] != "scope"@[0] && "value"@[0] != "until"@[0] && "scope"@[0] != "until"@[0]);
    assert("scenario"@[0] != "duration"@[0]);
    let keys = field_values(items, sort);
    assert forall|j: int, l: int| 0 <= j < l < r.len() implies {
        &&& sort == "ip"@ ==> !text_before(r[l].ip@, r[j].ip@, descending)
        &&& sort == "scope"@ ==> !text_before(r[l].scope@, r[j].scope@, descending)
        &&& sort == "country"@ ==> !text_before(r[l].country@, r[j].country@, descending)
        &&& sort == "scenario"@ ==> !text_before(r[l].scenario@, r[j].scenario@, descending)
        &&& sort == "origin"@ ==> !text_before(r[l].origin@, r[j].origin@, descending)
        &&& sort == "until"@ ==> !text_before(r[l].until@, r[j].until@, descending)
        &&& sort == "value"@ ==> !text_before(
            if r[l].value@.len() == 0 { r[l].ip@ } else { r[l].value@ },
            if r[j].value@.len() == 0 { r[j].ip@ } else { r[j].value@ },
            descending,
        )
        &&& sort == "duration"@ ==> !text_before(
            if r[l].duration@.len() == 0 { r[l].until@ } else { r[l].duration@ },
            if r[j].duration@.len() == 0 { r[j].until@ } else { r[j].duration@ },
            descending,
        )
    } by {
        let oj = order[j] as int;
        let ol = order[l] as int;
        assert(same_ban(r[j], items[oj]));
        assert(same_ban(r[l], items[ol]));
        assert(keys[oj] == field_value(items[oj], sort));
        assert(keys[ol] == field_value(items[ol], sort));
        assert(0 <= oj < items.len() && 0 <= ol < items.len());
        assert(!text_before(keys[ol], keys[oj], descending));
    }
}

fn search_text_of(b: &ActiveBan) -> (r: Vec<char>)
    ensures
        r@ == search_text(*b),
{
    let mut s = str_to_lowercase(b.ip.as_str());
    crate::text::append_str(&mut s, " ");
    let l = str_to_lowercase(b.value.as_str());
    crate::text::append_str(&mut s, l.as_str());
    crate::text::append_str(&mut s, " ");
    let l = str_to_lowercase(b.scope.as_str());
    crate::text::append_str(&mut s, l.as_str());
    crate::text::append_str(&mut s, " ");
    let l = str_to_lowercase(b.country.as_str());
    crate::text::append_str(&mut s, l.as_str());
    crate::text::append_str(&mut s, " ");
    let l = str_to_lowercase(b.scenario.as_str());
    crate::text::append_str(&mut s, l.as_str());
    crate::text::append_str(&mut s, " ");
    let l = str_to_lowercase(b.origin.as_str());
    crate::text::append_str(&mut s, l.as_str());
    crate::text::append_str(&mut s, " ");
    let l = str_to_lowercase(b.duration.as_str());
    crate::text::append_str(&mut s, l.as_str());
    chars_of(s.as_str())
}

fn matches_all(b: &ActiveBan, terms: &Vec<Vec<char>>) -> (r: bool)
    ensures
        r == matches_terms(*b, char_vecs_view(terms@)),
{
    let hay = search_text_of(b);
    let mut t: usize = 0;
    while t < terms.len()
        invariant
            t <= terms.len(),
            hay@ == search_text(*b),
            forall|q: int| 0 <= q < t ==> contains(hay@, #[trigger] char_vecs_view(terms@)[q]),
        decreases terms.len() - t,
    {
        if !contains_chars(&hay, &terms[t]) {
            assert(char_vecs_view(terms@)[t as int] == terms@[t as int]@);
            return false;
        }
        assert(char_vecs_view(terms@)[t as int] == terms@[t as int]@);
        t = t + 1;
    }
    true
}

/// Keeps the decisions that match a search query (`search` as given; it is
/// trimmed and lower-cased here).
pub fn filter_decisions(items: Vec<ActiveBan>, search: &str) -> (r: Vec<ActiveBan>)
    ensures
        same_bans(r@, search_result(items@, search@)),
{
    let trimmed = trim_str(search);
    let lowered = str_to_lowercase(trimmed.as_str());
    if lowered.as_str().is_empty() {
        let r = items;
        assert forall|j: int| 0 <= j < r.len() implies same_ban(#[trigger] r@[j], r@[j]) by {}
        return r;
    }
    let terms = split_whitespace(lowered.as_str());
    let ghost ts = search_terms(search@);
    let mut out: Vec<ActiveBan> = Vec::new();
    let mut i: usize = 0;
    while i < items.len()
        invariant
            i <= items.len(),
            char_vecs_view(terms@) == ts,
            same_bans(out@, matching(items@.take(i as int), ts)),
        decreases items.len() - i,
    {
        assert(items@.take(i + 1).drop_last() =~= items@.take(i as int));
        assert(items@.take(i + 1).last() == items@[i as int]);
        if matches_all(&items[i], &terms) {
            let ghost prev = out@;
            out.push(copy_ban(&items[i]));
            assert(same_bans(out@, matching(items@.take(i + 1), ts)));
        }
        i = i + 1;
    }
    assert(items@.take(items.len() as int) =~= items@);
    out
}

/// The sort values of a list of decisions.
pub open spec fn field_values(items: Seq<ActiveBan>, field: Seq<char>) -> Seq<Seq<char>> {
    items.map_values(|b: ActiveBan| field_value(b, field))
}

/// Orders decisions by a field, ascending or descending, equal values in
/// their original order; an empty sort key keeps the order.
pub fn sort_decisions(items: Vec<ActiveBan>, sort: &str, descending: bool) -> (r: Vec<ActiveBan>)
    ensures
        sort@.len() == 0 ==> same_bans(r@, items@),
        sort@.len() > 0 ==> exists|order: Seq<usize>|
            stable_by_text(field_values(items@, sort@), descending, order) && r.len() == items.len()
                && forall|j: int|
                0 <= j < r.len() ==> same_ban(#[trigger] r@[j], items@[order[j] as int]),
{
    if sort.is_empty() {
        let r = items;
        assert forall|j: int| 0 <= j < r.len() implies same_ban(#[trigger] r@[j], r@[j]) by {}
        return r;
    }
    let mut keys: Vec<String> = Vec::new();
    let mut i: usize = 0;
    while i < items.len()
        invariant
            i <= items.len(),
            strings_view(keys@) == field_values(items@, sort@).take(i as int),
        decreases items.len() - i,
    {
        let ghost prev = strings_view(keys@);
        keys.push(decision_field(&items[i], sort));
        assert(strings_view(keys@) =~= prev.push(field_value(items@[i as int], sort@)));
        assert(field_values(items@, sort@).take(i + 1) =~= field_values(items@, sort@).take(
            i as int,
        ).push(field_value(items@[i as int], sort@)));
        i = i + 1;
    }
    assert(field_values(items@, sort@).take(items.len() as int) =~= field_values(items@, sort@));
    let order = order_by_text(&keys, descending);
    let mut out: Vec<ActiveBan> = Vec::new();
    let mut j: usize = 0;
    while j < order.len()
        invariant
            j <= order.len(),
            order.len() == items.len(),
            stable_by_text(field_values(items@, sort@), descending, order@),
            out.len() == j,
            forall|q: int| 0 <= q < j ==> same_ban(#[trigger] out@[q], items@[order@[q] as int]),
        decreases order.len() - j,
    {
        let ix = order[j];
        out.push(copy_ban(&items[ix]));
        j = j + 1;
    }
    out
}

/// A scope of `ip` in any letter case.
pub open spec fn scope_is_ip(s: Seq<char>) -> bool {
    s.len() == 2 && ascii_lower(s[0]) == 'i' && ascii_lower(s[1]) == 'p'
}

/// A decision that blocks one address.
pub open spec fn blocks_ip(b: ActiveBan) -> bool {
    scope_is_ip(b.scope@) && b.ip@.len() > 0
}

/// The addresses of the blocking decisions, in order.
pub open spec fn blocked_ips(items: Seq<ActiveBan>) -> Seq<Seq<char>>
    decreases items.len(),
{
    if items.len() == 0 {
        Seq::empty()
    } else {
        let r = blocked_ips(items.drop_last());
        if blocks_ip(items.last()) {
            r.push(items.last().ip@)
        } else {
            r
        }
    }
}

/// The lower-cased origins of the blocking decisions, in order.
pub open spec fn blocked_origins(items: Seq<ActiveBan>) -> Seq<Seq<char>>
    decreases items.len(),
{
    if items.len() == 0 {
        Seq::empty()
    } else {
        let r = blocked_origins(items.drop_last());
        if blocks_ip(items.last()) {
            r.push(unicode_lowercase(items.last().origin@))
        } else {
            r
        }
    }
}

/// The addresses blocked by decisions of origin `k` (lower-cased).
pub open spec fn origin_ips(items: Seq<ActiveBan>, k: Seq<char>) -> Seq<Seq<char>>
    decreases items.len(),
{
    if items.len() == 0 {
        Seq::empty()
    } else {
        let r = origin_ips(items.drop_last(), k);
        if blocks_ip(items.last()) && unicode_lowercase(items.last().origin@) == k {
            r.push(items.last().ip@)
        } else {
            r
        }
    }
}

pub fn is_ip_scope(scope: &str) -> (r: bool)
    ensures
        r == scope_is_ip(scope@),
{
    let v = chars_of(scope);
    v.len() == 2 && ascii_lower_char(v[0]) == 'i' && ascii_lower_char(v[1]) == 'p'
}

/// The blocked addresses of one origin.
pub struct OriginCount {
    pub key: String,
    pub label: String,
    pub count: usize,
}

/// The summary counts of the Decisions view.
pub struct DecisionStats {
    /// Distinct non-empty countries.
    pub countries: usize,
    /// Distinct non-empty scenarios.
    pub scenarios: usize,
    /// Distinct addresses blocked by an address-scoped decision.
    pub unique_blocked_ips: usize,
    /// Distinct blocked addresses by lower-cased origin, origins in
    /// ascending order.
    pub blocked_by_origin: Vec<OriginCount>,
    pub top_countries: Vec<(String, i64)>,
    pub top_scenarios: Vec<(String, i64)>,
    pub top_origins: Vec<(String, i64)>,
}

pub open spec fn countries_of(items: Seq<ActiveBan>) -> Seq<Seq<char>> {
    items.map_values(|b: ActiveBan| b.country@)
}

pub open spec fn scenarios_of(items: Seq<ActiveBan>) -> Seq<Seq<char>> {
    items.map_values(|b: ActiveBan| b.scenario@)
}

pub open spec fn origins_of(items: Seq<ActiveBan>) -> Seq<Seq<char>> {
    items.map_values(|b: ActiveBan| b.origin@)
}

/// `r` lists each origin of `keys` once, in ascending order, with the number
/// of distinct addresses that it blocks and the label `Unknown` for the
/// empty origin.
pub open spec fn origin_counts(items: Seq<ActiveBan>, r: Seq<OriginCount>) -> bool {
    let keys = distinct(blocked_origins(items));
    &&& r.len() == keys.len()
    &&& exists|order: Seq<usize>|
        #[trigger] stable_by_text(keys, false, order) && forall|j: int|
            0 <= j < r.len() ==> {
                let k = keys[order[j] as int];
                &&& (#[trigger] r[j]).key@ == k
                &&& r[j].label@ == if k.len() == 0 {
                    "Unknown"@
                } else {
                    k
                }
                &&& r[j].count == distinct(origin_ips(items, k)).len()
            }
}

fn field_strings(items: &Vec<ActiveBan>, which: u8) -> (r: Vec<String>)
    requires
        which < 3,
    ensures
        strings_view(r@) == if which == 0 {
            countries_of(items@)
        } else if which == 1 {
            scenarios_of(items@)
        } else {
            origins_of(items@)
        },
{
    let ghost target = if which == 0 {
        countries_of(items@)
    } else if which == 1 {
        scenarios_of(items@)
    } else {
        origins_of(items@)
    };
    let mut r: Vec<String> = Vec::new();
    let mut i: usize = 0;
    while i < items.len()
        invariant
            i <= items.len(),
            which < 3,
            target == if which == 0 {
                countries_of(items@)
            } else if which == 1 {
                scenarios_of(items@)
            } else {
                origins_of(items@)
            },
            strings_view(r@) == target.take(i as int),
        decreases items.len() - i,
    {
        let ghost prev = strings_view(r@);
        let v = if which == 0 {
            to_owned_string(items[i].country.as_str())
        } else if which == 1 {
            to_owned_string(items[i].scenario.as_str())
        } else {
            to_owned_string(items[i].origin.as_str())
        };
        r.push(v);
        assert(strings_view(r@) =~= prev.push(target[i as int]));
        assert(target.take(i + 1) =~= target.take(i as int).push(target[i as int]));
        i = i + 1;
    }
    assert(target.take(items.len() as int) =~= target);
    r
}

fn distinct_nonempty_count(values: &Vec<String>) -> (n: usize)
    ensures
        n == distinct(keep_nonempty(strings_view(values@))).len(),
{
    let ghost vs = strings_view(values@);
    let mut d: Vec<String> = Vec::new();
    let mut i: usize = 0;
    while i < values.len()
        invariant
            i <= values.len(),
            vs == strings_view(values@),
            strings_view(d@) == distinct(keep_nonempty(vs.take(i as int))),
        decreases values.len() - i,
    {
        assert(vs.take(i + 1).drop_last() =~= vs.take(i as int));
        assert(vs.take(i + 1).last() == values@[i as int]@);
        if !values[i].as_str().is_empty() {
            let ghost kn = keep_nonempty(vs.take(i + 1));
            assert(kn.drop_last() =~= keep_nonempty(vs.take(i as int)));
            crate::aggregate::add_distinct(&mut d, values[i].as_str());
        }
        i = i + 1;
    }
    assert(vs.take(values.len() as int) =~= vs);
    d.len()
}

/// Computes the summary counts of a list of decisions.
pub fn decision_stats(items: &Vec<ActiveBan>) -> (r: DecisionStats)
    requires
        items.len() <= i64::MAX,
    ensures
        r.countries == distinct(keep_nonempty(countries_of(items@))).len(),
        r.scenarios == distinct(keep_nonempty(scenarios_of(items@))).len(),
        r.unique_blocked_ips == distinct(blocked_ips(items@)).len(),
        origin_counts(items@, r.blocked_by_origin@),
        is_top_counts(tally(unit_pairs(countries_of(items@))), 8, r.top_countries@),
        is_top_counts(tally(unit_pairs(scenarios_of(items@))), 8, r.top_scenarios@),
        is_top_counts(tally(unit_pairs(origins_of(items@))), 8, r.top_origins@),
{
    let countries = field_strings(items, 0);
    let scenarios = field_strings(items, 1);
    let origins = field_strings(items, 2);
    let country_count = distinct_nonempty_count(&countries);
    let scenario_count = distinct_nonempty_count(&scenarios);
    let top_countries = map_counts(&count_nonempty(&countries), 8);
    let top_scenarios = map_counts(&count_nonempty(&scenarios), 8);
    let top_origins = map_counts(&count_nonempty(&origins), 8);
    // distinct blocked addresses, and blocked addresses by lower-cased origin
    let mut blocked: Vec<String> = Vec::new();
    let mut groups: Vec<(String, Vec<String>)> = Vec::new();
    let mut i: usize = 0;
    while i < items.len()
        invariant
            i <= items.len(),
            strings_view(blocked@) == distinct(blocked_ips(items@.take(i as int))),
            groups.len() == distinct(blocked_origins(items@.take(i as int))).len(),
            forall|j: int|
                0 <= j < groups.len() ==> (#[trigger] groups@[j]).0@ == distinct(
                    blocked_origins(items@.take(i as int)),
                )[j] && strings_view(groups@[j].1@) == distinct(
                    origin_ips(
                        items@.take(i as int),
                        distinct(blocked_origins(items@.take(i as int)))[j],
                    ),
                ),
        decreases items.len() - i,
    {
        let ghost pre = items@.take(i as int);
        let ghost nxt = items@.take(i + 1);
        let ghost keys = distinct(blocked_origins(pre));
        assert(nxt.drop_last() =~= pre);
        assert(nxt.last() == items@[i as int]);
        let b = &items[i];
        if is_ip_scope(b.scope.as_str()) && !b.ip.as_str().is_empty() {
            crate::aggregate::add_distinct(&mut blocked, b.ip.as_str());
            let key = str_to_lowercase(b.origin.as_str());
            let mut j: usize = 0;
            while j < groups.len()
                invariant
                    j <= groups.len(),
                    groups.len() == keys.len(),
                    forall|q: int| 0 <= q < groups.len() ==> (#[trigger] groups@[q]).0@ == keys[q],
                    forall|q: int| 0 <= q < j ==> keys[q] != key@,
                ensures
                    j <= groups.len(),
                    j < groups.len() ==> keys[j as int] == key@,
                    forall|q: int| 0 <= q < j ==> keys[q] != key@,
                decreases groups.len() - j,
            {
                if str_eq(groups[j].0.as_str(), key.as_str()) {
                    break;
                }
                j = j + 1;
            }
            proof {
                lemma_distinct_unique(blocked_origins(pre));
                assert(blocked_origins(nxt) == blocked_origins(pre).push(key@));
                assert(blocked_origins(nxt).drop_last() =~= blocked_origins(pre));
                assert(blocked_ips(nxt) == blocked_ips(pre).push(b.ip@));
                assert(blocked_ips(nxt).drop_last() =~= blocked_ips(pre));
            }
            if j < groups.len() {
                let ghost old_groups = groups@;
                let (k, mut ips) = groups.remove(j);
                crate::aggregate::add_distinct(&mut ips, b.ip.as_str());
                groups.insert(j, (k, ips));
                proof {
                    assert(keys.contains(key@));
                    assert(distinct(blocked_origins(nxt)) == keys);
                    assert forall|q: int| 0 <= q < groups.len() implies (#[trigger] groups@[q]).0@
                        == keys[q] && strings_view(groups@[q].1@) == distinct(
                        origin_ips(nxt, keys[q]),
                    ) by {
                        if q != j {
                            assert(groups@[q] == old_groups[q]);
                            assert(keys[q] != keys[j as int]);
                            assert(origin_ips(nxt, keys[q]) =~= origin_ips(pre, keys[q]));
                        } else {
                            let s = origin_ips(nxt, key@);
                            assert(s == origin_ips(pre, key@).push(b.ip@));
                            assert(s.drop_last() =~= origin_ips(pre, key@));
                            assert(s.last() == b.ip@);
                            assert(strings_view(old_groups[q].1@) == distinct(origin_ips(pre, key@)));
                        }
                    }
                }
            } else {
                let mut ips: Vec<String> = Vec::new();
                crate::aggregate::add_distinct(&mut ips, b.ip.as_str());
                let ghost old_groups = groups@;
                groups.push((key, ips));
                proof {
                    assert(!keys.contains(key@));
                    assert(distinct(blocked_origins(nxt)) == keys.push(key@));
                    lemma_no_origin_ips(pre, key@);
                    assert(strings_view(Seq::<String>::empty()) =~= Seq::<Seq<char>>::empty());
                    assert forall|q: int| 0 <= q < groups.len() implies (#[trigger] groups@[q]).0@
                        == keys.push(key@)[q] && strings_view(groups@[q].1@) == distinct(
                        origin_ips(nxt, keys.push(key@)[q]),
                    ) by {
                        if q < keys.len() {
                            assert(groups@[q] == old_groups[q]);
                            assert(keys[q] != key@);
                            assert(origin_ips(nxt, keys[q]) =~= origin_ips(pre, keys[q]));
                        } else {
                            assert(origin_ips(pre, key@) == Seq::<Seq<char>>::empty());
                            let s = origin_ips(nxt, key@);
                            assert(s == origin_ips(pre, key@).push(b.ip@));
                            assert(s.drop_last() =~= origin_ips(pre, key@));
                            assert(distinct(Seq::<Seq<char>>::empty()) =~= Seq::<Seq<char>>::empty());
                        }
                    }
                }
            }
        } else {
            proof {
                assert(blocked_origins(nxt) == blocked_origins(pre));
                assert(blocked_ips(nxt) == blocked_ips(pre));
                assert(distinct(blocked_origins(nxt)) == keys);
                assert forall|q: int| 0 <= q < groups.len() implies (#[trigger] groups@[q]).0@
                    == keys[q] && strings_view(groups@[q].1@) == distinct(origin_ips(nxt, keys[q])) by {}
            }
        }
        i = i + 1;
    }
    assert(items@.take(items.len() as int) =~= items@);
    let mut keys: Vec<String> = Vec::new();
    let mut q: usize = 0;
    while q < groups.len()
        invariant
            q <= groups.len(),
            keys.len() == q,
            forall|j: int| 0 <= j < q ==> (#[trigger] keys@[j])@ == groups@[j].0@,
        decreases groups.len() - q,
    {
        keys.push(to_owned_string(groups[q].0.as_str()));
        q = q + 1;
    }
    let ghost okeys = distinct(blocked_origins(items@));
    assert(strings_view(keys@) =~= okeys);
    let order = order_by_text(&keys, false);
    let mut by_origin: Vec<OriginCount> = Vec::new();
    let mut j: usize = 0;
    while j < order.len()
        invariant
            j <= order.len(),
            order.len() == groups.len(),
            groups.len() == okeys.len(),
            stable_by_text(okeys, false, order@),
            forall|p: int|
                0 <= p < groups.len() ==> (#[trigger] groups@[p]).0@ == okeys[p] && strings_view(
                    groups@[p].1@,
                ) == distinct(origin_ips(items@, okeys[p])),
            by_origin.len() == j,
            forall|p: int|
                0 <= p < j ==> {
                    let k = okeys[order@[p] as int];
                    &&& (#[trigger] by_origin@[p]).key@ == k
                    &&& by_origin@[p].label@ == if k.len() == 0 {
                        "Unknown"@
                    } else {
                        k
                    }
                    &&& by_origin@[p].count == distinct(origin_ips(items@, k)).len()
                },
        decreases order.len() - j,
    {
        let ix = order[j];
        let k = to_owned_string(groups[ix].0.as_str());
        let label = if k.as_str().is_empty() {
            to_owned_string("Unknown")
        } else {
            to_owned_string(k.as_str())
        };
        by_origin.push(OriginCount { key: k, label, count: groups[ix].1.len() });
        j = j + 1;
    }
    DecisionStats {
        countries: country_count,
        scenarios: scenario_count,
        unique_blocked_ips: blocked.len(),
        blocked_by_origin: by_origin,
        top_countries,
        top_scenarios,
        top_origins,
    }
}

proof fn lemma_origin_ips_listed(items: Seq<ActiveBan>, k: Seq<char>)
    ensures
        origin_ips(items, k).len() > 0 ==> blocked_origins(items).contains(k),
    decreases items.len(),
{
    if items.len() > 0 {
        lemma_origin_ips_listed(items.drop_last(), k);
        let o = blocked_origins(items.drop_last());
        if blocks_ip(items.last()) {
            let o2 = o.push(unicode_lowercase(items.last().origin@));
            if o.contains(k) {
                let x = choose|x: int| 0 <= x < o.len() && o[x] == k;
                assert(o2[x] == k);
            }
            if unicode_lowercase(items.last().origin@) == k {
                assert(o2[o.len() as int] == k);
            }
        }
    }
}

proof fn lemma_no_origin_ips(items: Seq<ActiveBan>, k: Seq<char>)
    requires
        !distinct(blocked_origins(items)).contains(k),
    ensures
        origin_ips(items, k) == Seq::<Seq<char>>::empty(),
{
    lemma_origin_ips_listed(items, k);
    let o = blocked_origins(items);
    if o.contains(k) {
        let x = choose|x: int| 0 <= x < o.len() && o[x] == k;
        crate::aggregate::lemma_distinct_contains(o, x);
    }
    assert(origin_ips(items, k) =~= Seq::<Seq<char>>::empty());
}

/// Whether a decision's country still has to be filled in: blank or `??`.
pub fn country_is_missing(country: &str) -> (r: bool)
    ensures
        r == crate::geodb::missing_country(country@, false),
{
    let t = trim_str(country);
    t.as_str().is_empty() || str_eq(country, "??")
}

/// The page `[offset, offset + limit)` of a list of decisions and the
/// offset of the next page, when there is one.
pub fn decisions_page(items: &Vec<ActiveBan>, offset: usize, limit: usize) -> (r: (
    Vec<ActiveBan>,
    Option<usize>,
))
    requires
        offset + limit <= usize::MAX,
    ensures
        ({
            let (lo, hi) = crate::aggregate::page_bounds(
                items.len() as nat,
                offset as nat,
                limit as nat,
            );
            &&& r.0.len() == hi - lo
            &&& forall|j: int| 0 <= j < r.0.len() ==> same_ban(#[trigger] r.0@[j], items@[lo + j])
            &&& match r.1 {
                Some(n) => crate::aggregate::next_offset(
                    items.len() as nat,
                    offset as nat,
                    limit as nat,
                ) == Some(n as nat),
                None => crate::aggregate::next_offset(
                    items.len() as nat,
                    offset as nat,
                    limit as nat,
                ) is None,
            }
        }),
{
    let (lo, hi, next) = crate::aggregate::page(items.len(), offset, limit);
    let mut out: Vec<ActiveBan> = Vec::new();
    let mut k: usize = lo;
    while k < hi
        invariant
            lo <= k <= hi <= items.len(),
            out.len() == k - lo,
            forall|j: int| 0 <= j < out.len() ==> same_ban(#[trigger] out@[j], items@[lo + j]),
        decreases hi - k,
    {
        out.push(copy_ban(&items[k]));
        k = k + 1;
    }
    (out, next)
}

} // verus!
