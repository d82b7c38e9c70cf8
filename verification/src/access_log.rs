//! The summary of the visitor access log: visits in a window, distinct
//! addresses, the busiest addresses and countries, and the latest entries.

use vstd::prelude::*;
use crate::aggregate::{
    abs_total, add_distinct, counts_view, distinct, is_top_counts, lemma_abs_total_nonneg,
    lemma_tally_bound, map_counts, tally, tally_add, CountMap,
};
use crate::json::{as_str, get, str_field, str_or, unwrap_or, JsonValue};
use crate::text::strings_view;
use crate::time::{parse_rfc3339, rfc3339_parse, UtcTime};

verus! {

/// How many of the busiest addresses and countries a summary lists.
pub const TOP_LIMIT: usize = 10;

/// How many of the latest entries a summary lists.
pub const RECENT_LIMIT: usize = 80;

/// The instant of an entry's `ts` member, when it holds RFC 3339 text.
pub open spec fn entry_instant(v: JsonValue) -> Option<(i64, u32)> {
    rfc3339_parse(unwrap_or(as_str(get(v, "ts"@)), Seq::empty()))
}

/// The entry is stamped no earlier than `since`.
pub open spec fn entry_since(v: JsonValue, since: UtcTime) -> bool {
    match entry_instant(v) {
        Some((secs, nanos)) => !(UtcTime { secs, nanos }).earlier(since),
        None => false,
    }
}

/// The positions of the entries stamped no earlier than `since`.
pub open spec fn window(entries: Seq<JsonValue>, since: UtcTime) -> Seq<int>
    decreases entries.len(),
{
    if entries.len() == 0 {
        Seq::empty()
    } else {
        let r = window(entries.drop_last(), since);
        if entry_since(entries.last(), since) {
            r.push(entries.len() - 1)
        } else {
            r
        }
    }
}

/// The entries at `positions`.
pub open spec fn at(entries: Seq<JsonValue>, positions: Seq<int>) -> Seq<JsonValue> {
    positions.map_values(|p: int| entries[p])
}

/// How many `entries` are stamped no earlier than `since`.
pub open spec fn count_since(entries: Seq<JsonValue>, since: UtcTime) -> nat
    decreases entries.len(),
{
    if entries.len() == 0 {
        0
    } else {
        count_since(entries.drop_last(), since) + if entry_since(entries.last(), since) {
            1nat
        } else {
            0nat
        }
    }
}

/// The string addresses of `entries`, in order.
pub open spec fn string_ips(entries: Seq<JsonValue>) -> Seq<Seq<char>>
    decreases entries.len(),
{
    if entries.len() == 0 {
        Seq::empty()
    } else {
        let r = string_ips(entries.drop_last());
        match as_str(get(entries.last(), "ip"@)) {
            Some(ip) => r.push(ip),
            None => r,
        }
    }
}

/// One visit for the string member `key` of each entry, or for the empty
/// label where there is none.
pub open spec fn visits_by(entries: Seq<JsonValue>, key: Seq<char>) -> Seq<(Seq<char>, int)> {
    entries.map_values(|v: JsonValue| (unwrap_or(as_str(get(v, key)), Seq::empty()), 1int))
}

/// The access log summary over a window.
pub struct AccessLogSummary {
    /// Entries in the window.
    pub total: usize,
    /// Those of them in the last day.
    pub visits_24h: usize,
    /// Distinct addresses among them.
    pub unique_ips: usize,
    pub top_ips: Vec<(String, i64)>,
    pub top_countries: Vec<(String, i64)>,
    /// The positions of the first entries of the window.
    pub recent: Vec<usize>,
}

proof fn lemma_count_since_bound(entries: Seq<JsonValue>, since: UtcTime)
    ensures
        count_since(entries, since) <= entries.len(),
    decreases entries.len(),
{
    if entries.len() > 0 {
        lemma_count_since_bound(entries.drop_last(), since);
    }
}

proof fn lemma_window_facts(entries: Seq<JsonValue>, since: UtcTime)
    ensures
        window(entries, since).len() <= entries.len(),
        forall|j: int|
            0 <= j < window(entries, since).len() ==> 0 <= #[trigger] window(entries, since)[j]
                < entries.len(),
    decreases entries.len(),
{
    if entries.len() > 0 {
        lemma_window_facts(entries.drop_last(), since);
    }
}

proof fn lemma_visits_abs(entries: Seq<JsonValue>, key: Seq<char>)
    ensures
        abs_total(visits_by(entries, key)) == entries.len(),
    decreases entries.len(),
{
    if entries.len() > 0 {
        lemma_visits_abs(entries.drop_last(), key);
        assert(visits_by(entries, key).drop_last() =~= visits_by(entries.drop_last(), key));
    }
}

fn entry_is_since(v: &JsonValue, since: &UtcTime) -> (r: bool)
    ensures
        r == entry_since(*v, *since),
{
    let ts = str_or(str_field(v, "ts"), "");
    proof {
        reveal_strlit("");
        assert(""@ =~= Seq::<char>::empty());
    }
    match parse_rfc3339(ts.as_str()) {
        Some(t) => !t.is_before(since),
        None => false,
    }
}

/// Counts one visit per entry by the string member `key`.
fn count_by(entries: &Vec<JsonValue>, positions: &Vec<usize>, key: &str) -> (m: CountMap)
    requires
        positions.len() <= i64::MAX,
        forall|j: int| 0 <= j < positions.len() ==> #[trigger] positions@[j] < entries.len(),
    ensures
        counts_view(m@) == tally(
            visits_by(at(entries@, positions@.map_values(|p: usize| p as int)), key@),
        ),
{
    let ghost sel = at(entries@, positions@.map_values(|p: usize| p as int));
    let mut m: CountMap = Vec::new();
    assert(counts_view(m@) =~= Seq::<(Seq<char>, int)>::empty());
    let mut i: usize = 0;
    while i < positions.len()
        invariant
            i <= positions.len() <= i64::MAX,
            forall|j: int| 0 <= j < positions.len() ==> #[trigger] positions@[j] < entries.len(),
            sel == at(entries@, positions@.map_values(|p: usize| p as int)),
            counts_view(m@) == tally(visits_by(sel.take(i as int), key@)),
        decreases positions.len() - i,
    {
        let ghost pre = sel.take(i as int);
        assert(sel.take(i + 1).drop_last() =~= pre);
        assert(sel[i as int] == entries@[positions@[i as int] as int]);
        proof {
            lemma_visits_abs(pre, key@);
            lemma_tally_bound(visits_by(pre, key@));
            assert forall|j: int| 0 <= j < m.len() implies i64::MIN <= #[trigger] m@[j].1 + 1
                <= i64::MAX by {
                assert(counts_view(m@)[j].1 == m@[j].1);
            }
            assert(visits_by(sel.take(i + 1), key@).drop_last() =~= visits_by(pre, key@));
        }
        let label = str_or(str_field(&entries[positions[i]], key), "");
        proof {
            reveal_strlit("");
            assert(""@ =~= Seq::<char>::empty());
            assert(visits_by(sel.take(i + 1), key@).last() == (label@, 1int));
        }
        tally_add(&mut m, label.as_str(), 1);
        i = i + 1;
    }
    assert(sel.take(positions.len() as int) =~= sel);
    m
}

/// Summarises the access log entries stamped no earlier than `since`:
/// their number, those no earlier than `since_24h`, their distinct string
/// addresses, the ten busiest addresses and countries (an entry without one
/// counts for the empty label) and the positions of the first eighty.
pub fn summarize_access_log(entries: &Vec<JsonValue>, since: &UtcTime, since_24h: &UtcTime) -> (r:
    AccessLogSummary)
    requires
        entries.len() <= i64::MAX,
    ensures
        ({
            let w = window(entries@, *since);
            let kept = at(entries@, w);
            &&& r.total == w.len()
            &&& r.visits_24h == count_since(kept, *since_24h)
            &&& r.unique_ips == distinct(string_ips(kept)).len()
            &&& is_top_counts(tally(visits_by(kept, "ip"@)), TOP_LIMIT as nat, r.top_ips@)
            &&& is_top_counts(tally(visits_by(kept, "country"@)), TOP_LIMIT as nat, r.top_countries@)
            &&& r.recent@.map_values(|p: usize| p as int) == w.take(
                if RECENT_LIMIT < w.len() {
                    RECENT_LIMIT as int
                } else {
                    w.len() as int
                },
            )
        }),
{
    let ghost w = window(entries@, *since);
    let mut positions: Vec<usize> = Vec::new();
    let mut i: usize = 0;
    while i < entries.len()
        invariant
            i <= entries.len(),
            positions@.map_values(|p: usize| p as int) == window(entries@.take(i as int), *since),
            forall|j: int| 0 <= j < positions.len() ==> #[trigger] positions@[j] < i,
        decreases entries.len() - i,
    {
        let ghost pre = entries@.take(i as int);
        assert(entries@.take(i + 1).drop_last() =~= pre);
        proof {
            lemma_window_facts(pre, *since);
        }
        let ghost before = positions@;
        if entry_is_since(&entries[i], since) {
            positions.push(i);
            assert(positions@.map_values(|p: usize| p as int) =~= before.map_values(
                |p: usize| p as int,
            ).push(i as int));
        }
        assert(window(entries@.take(i + 1), *since) == if entry_since(entries@[i as int], *since) {
            window(pre, *since).push(i as int)
        } else {
            window(pre, *since)
        }) by {
            assert(entries@.take(i + 1).last() == entries@[i as int]);
        }
        i = i + 1;
    }
    assert(entries@.take(entries.len() as int) =~= entries@);
    let ghost pv = positions@.map_values(|p: usize| p as int);
    let ghost kept = at(entries@, pv);
    proof {
        lemma_window_facts(entries@, *since);
    }
    let mut visits: usize = 0;
    let mut ips: Vec<String> = Vec::new();
    let mut k: usize = 0;
    while k < positions.len()
        invariant
            k <= positions.len() <= entries.len(),
            forall|j: int| 0 <= j < positions.len() ==> #[trigger] positions@[j] < entries.len(),
            pv == positions@.map_values(|p: usize| p as int),
            kept == at(entries@, pv),
            visits == count_since(kept.take(k as int), *since_24h),
            strings_view(ips@) == distinct(string_ips(kept.take(k as int))),
        decreases positions.len() - k,
    {
        let ghost pre = kept.take(k as int);
        assert(kept.take(k + 1).drop_last() =~= pre);
        assert(kept[k as int] == entries@[positions@[k as int] as int]);
        proof {
            lemma_count_since_bound(pre, *since_24h);
        }
        let e = &entries[positions[k]];
        if entry_is_since(e, since_24h) {
            visits = visits + 1;
        }
        match str_field(e, "ip") {
            Some(ip) => {
                assert(string_ips(kept.take(k + 1)).drop_last() =~= string_ips(pre));
                add_distinct(&mut ips, ip);
            },
            None => {},
        }
        k = k + 1;
    }
    assert(kept.take(positions.len() as int) =~= kept);
    let ip_counts = count_by(entries, &positions, "ip");
    let country_counts = count_by(entries, &positions, "country");
    let top_ips = map_counts(&ip_counts, TOP_LIMIT);
    let top_countries = map_counts(&country_counts, TOP_LIMIT);
    let n = if RECENT_LIMIT < positions.len() {
        RECENT_LIMIT
    } else {
        positions.len()
    };
    let mut recent: Vec<usize> = Vec::new();
    let mut q: usize = 0;
    while q < n
        invariant
            q <= n <= positions.len(),
            recent.len() == q,
            forall|j: int| 0 <= j < q ==> #[trigger] recent@[j] == positions@[j],
        decreases n - q,
    {
        recent.push(positions[q]);
        q = q + 1;
    }
    assert(recent@.map_values(|p: usize| p as int) =~= pv.take(n as int));
    AccessLogSummary {
        total: positions.len(),
        visits_24h: visits,
        unique_ips: ips.len(),
        top_ips,
        top_countries,
        recent,
    }
}

proof fn lemma_string_ips_bound(entries: Seq<JsonValue>)
    ensures
        string_ips(entries).len() <= entries.len(),
    decreases entries.len(),
{
    if entries.len() > 0 {
        lemma_string_ips_bound(entries.drop_last());
    }
}

/// The visits of the last day and the distinct addresses are no more than
/// the visits of the window.
pub proof fn summary_counts_are_bounded(entries: Seq<JsonValue>, since: UtcTime, since_24h: UtcTime)
    ensures
        count_since(at(entries, window(entries, since)), since_24h) <= window(entries, since).len(),
        distinct(string_ips(at(entries, window(entries, since)))).len() <= window(
            entries,
            since,
        ).len(),
{
    let kept = at(entries, window(entries, since));
    lemma_count_since_bound(kept, since_24h);
    lemma_string_ips_bound(kept);
    crate::aggregate::lemma_distinct_unique(string_ips(kept));
}

} // verus!
