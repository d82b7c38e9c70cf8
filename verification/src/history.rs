//! Alert history: the rows recorded per alert and the summaries the history
//! views show (by group, for one group, for one address).

use vstd::prelude::*;
use crate::aggregate::{
    page, page_bounds, next_offset, abs_total, add_distinct, counts_view, distinct, is_top_label, lemma_abs_total_nonneg,
    lemma_tally_bound, less_than, order_desc, stable_desc, str_less, tally, tally_add, CountMap,
};
use crate::normaliser::{sql_escape, top_count_label};
use crate::text::{
    append_str, chars_of, i64_to_string, replace_all, signed_decimal, str_eq, string_from_range,
    strings_view, to_owned_string,
};

verus! {

/// One recorded alert as the history tables hold it.
pub struct HistoryRow {
    pub ip: String,
    pub cidr24: String,
    pub as_name: String,
    pub country: String,
    pub scenario: String,
    pub seen_at: String,
    pub event_count: i64,
}

/// The label of a row under a grouping (`ip`, `asn`, `country`, `scenario`,
/// and the /24 network for anything else).
pub open spec fn row_key(r: HistoryRow, group_by: Seq<char>) -> Seq<char> {
    if group_by == "ip"@ {
        r.ip@
    } else if group_by == "asn"@ {
        r.as_name@
    } else if group_by == "country"@ {
        r.country@
    } else if group_by == "scenario"@ {
        r.scenario@
    } else {
        r.cidr24@
    }
}

/// The day of a `seen_at` timestamp: its first ten characters.
pub open spec fn day_of(seen_at: Seq<char>) -> Seq<char> {
    if seen_at.len() <= 10 {
        seen_at
    } else {
        seen_at.take(10)
    }
}

/// The rows of `rows` whose label is `k`.
pub open spec fn rows_with_key(rows: Seq<HistoryRow>, group_by: Seq<char>, k: Seq<char>) -> Seq<
    HistoryRow,
>
    decreases rows.len(),
{
    if rows.len() == 0 {
        Seq::empty()
    } else {
        let g = rows_with_key(rows.drop_last(), group_by, k);
        if row_key(rows.last(), group_by) == k {
            g.push(rows.last())
        } else {
            g
        }
    }
}

/// The labels of the rows in order of first appearance.
pub open spec fn group_labels(rows: Seq<HistoryRow>, group_by: Seq<char>) -> Seq<Seq<char>> {
    distinct(rows.map_values(|r: HistoryRow| row_key(r, group_by)))
}

pub open spec fn event_pairs(g: Seq<HistoryRow>) -> Seq<(Seq<char>, int)> {
    g.map_values(|r: HistoryRow| (r.ip@, r.event_count as int))
}

/// The total number of alerts (the sum of the event counts) of the rows.
pub open spec fn total_alerts(g: Seq<HistoryRow>) -> int
    decreases g.len(),
{
    if g.len() == 0 {
        0
    } else {
        total_alerts(g.drop_last()) + g.last().event_count
    }
}

pub open spec fn days_of(g: Seq<HistoryRow>) -> Seq<Seq<char>> {
    g.map_values(|r: HistoryRow| day_of(r.seen_at@))
}

pub open spec fn ips_of(g: Seq<HistoryRow>) -> Seq<Seq<char>> {
    g.map_values(|r: HistoryRow| r.ip@)
}

pub open spec fn scenario_pairs(g: Seq<HistoryRow>) -> Seq<(Seq<char>, int)> {
    g.map_values(|r: HistoryRow| (r.scenario@, r.event_count as int))
}

pub open spec fn country_pairs(g: Seq<HistoryRow>) -> Seq<(Seq<char>, int)> {
    g.map_values(|r: HistoryRow| (r.country@, r.event_count as int))
}

pub open spec fn as_name_pairs(g: Seq<HistoryRow>) -> Seq<(Seq<char>, int)> {
    g.map_values(|r: HistoryRow| (r.as_name@, r.event_count as int))
}

/// The largest `seen_at` of the rows (by byte order), or the empty string.
pub open spec fn last_seen(g: Seq<HistoryRow>) -> Seq<char>
    decreases g.len(),
{
    if g.len() == 0 {
        Seq::empty()
    } else {
        let m = last_seen(g.drop_last());
        if str_less(m, g.last().seen_at@) {
            g.last().seen_at@
        } else {
            m
        }
    }
}

/// The smallest `seen_at` of the rows (by byte order), or the empty string.
pub open spec fn first_seen(g: Seq<HistoryRow>) -> Seq<char>
    decreases g.len(),
{
    if g.len() == 0 {
        Seq::empty()
    } else {
        let m = first_seen(g.drop_last());
        if m.len() == 0 || str_less(g.last().seen_at@, m) {
            g.last().seen_at@
        } else {
            m
        }
    }
}

/// What the history views show of a group of rows.
pub struct GroupStats {
    pub label: String,
    pub alerts: i64,
    pub events: usize,
    pub days_seen: usize,
    pub ip_count: usize,
    pub last_seen: String,
    pub top_scenario: String,
    pub top_country: String,
    pub top_as_name: String,
}

/// `s` summarises the rows `g` labelled `k`.
pub open spec fn stats_of(s: GroupStats, g: Seq<HistoryRow>, k: Seq<char>) -> bool {
    &&& s.label@ == k
    &&& s.alerts == total_alerts(g)
    &&& s.events == g.len()
    &&& s.days_seen == distinct(days_of(g)).len()
    &&& s.ip_count == distinct(ips_of(g)).len()
    &&& s.last_seen@ == last_seen(g)
    &&& is_top_label(tally(scenario_pairs(g)), s.top_scenario@)
    &&& is_top_label(tally(country_pairs(g)), s.top_country@)
    &&& is_top_label(tally(as_name_pairs(g)), s.top_as_name@)
}

proof fn lemma_distinct_counts_set(s: Seq<Seq<char>>)
    ensures
        distinct(s).len() == s.to_set().len(),
{
    crate::aggregate::lemma_distinct_unique(s);
    let d = distinct(s);
    assert(d.no_duplicates());
    assert forall|x: Seq<char>| d.to_set().contains(x) <==> s.to_set().contains(x) by {
        if s.contains(x) {
            let q = choose|q: int| 0 <= q < s.len() && s[q] == x;
            crate::aggregate::lemma_distinct_contains(s, q);
        }
    }
    assert(d.to_set() =~= s.to_set());
    d.unique_seq_to_set();
}

/// A group is seen on as many days as there are distinct calendar days
/// (the `YYYY-MM-DD` of `seen_at`, its first ten characters) among its
/// rows: rows of one day count once, rows of different days apart.
pub proof fn days_seen_counts_calendar_days(s: GroupStats, g: Seq<HistoryRow>, k: Seq<char>)
    requires
        stats_of(s, g, k),
        forall|i: int| 0 <= i < g.len() ==> (#[trigger] g[i]).seen_at@.len() >= 10,
    ensures
        s.days_seen == g.map_values(|r: HistoryRow| r.seen_at@.subrange(0, 10)).to_set().len(),
{
    let cal = g.map_values(|r: HistoryRow| r.seen_at@.subrange(0, 10));
    assert forall|i: int| 0 <= i < g.len() implies #[trigger] days_of(g)[i] == cal[i] by {
        assert(g[i].seen_at@.len() >= 10);
    }
    assert(days_of(g) =~= cal);
    lemma_distinct_counts_set(cal);
}

/// A group's address count is the number of distinct addresses among its
/// rows, and its event count the number of rows.
pub proof fn group_counts_addresses(s: GroupStats, g: Seq<HistoryRow>, k: Seq<char>)
    requires
        stats_of(s, g, k),
    ensures
        s.ip_count == g.map_values(|r: HistoryRow| r.ip@).to_set().len(),
        s.events == g.len(),
{
    let ips = g.map_values(|r: HistoryRow| r.ip@);
    assert(ips_of(g) =~= ips);
    lemma_distinct_counts_set(ips);
}

struct GroupAcc {
    label: String,
    alerts: i64,
    events: usize,
    days: Vec<String>,
    ips: Vec<String>,
    scenarios: CountMap,
    countries: CountMap,
    as_names: CountMap,
    last_seen: String,
}

spec fn acc_of(a: GroupAcc, g: Seq<HistoryRow>, k: Seq<char>) -> bool {
    &&& a.label@ == k
    &&& a.alerts == total_alerts(g)
    &&& a.events == g.len()
    &&& strings_view(a.days@) == distinct(days_of(g))
    &&& strings_view(a.ips@) == distinct(ips_of(g))
    &&& counts_view(a.scenarios@) == tally(scenario_pairs(g))
    &&& counts_view(a.countries@) == tally(country_pairs(g))
    &&& counts_view(a.as_names@) == tally(as_name_pairs(g))
    &&& a.last_seen@ == last_seen(g)
}

proof fn lemma_total_alerts_bound(g: Seq<HistoryRow>)
    ensures
        -abs_total(event_pairs(g)) <= total_alerts(g) <= abs_total(event_pairs(g)),
    decreases g.len(),
{
    lemma_abs_total_nonneg(event_pairs(g));
    if g.len() > 0 {
        lemma_total_alerts_bound(g.drop_last());
        assert(event_pairs(g).drop_last() =~= event_pairs(g.drop_last()));
    }
}

/// The pairs of each kind have the same absolute total as the event pairs.
proof fn lemma_pairs_abs(g: Seq<HistoryRow>)
    ensures
        abs_total(scenario_pairs(g)) == abs_total(event_pairs(g)),
        abs_total(country_pairs(g)) == abs_total(event_pairs(g)),
        abs_total(as_name_pairs(g)) == abs_total(event_pairs(g)),
    decreases g.len(),
{
    if g.len() > 0 {
        lemma_pairs_abs(g.drop_last());
        assert(event_pairs(g).drop_last() =~= event_pairs(g.drop_last()));
        assert(scenario_pairs(g).drop_last() =~= scenario_pairs(g.drop_last()));
        assert(country_pairs(g).drop_last() =~= country_pairs(g.drop_last()));
        assert(as_name_pairs(g).drop_last() =~= as_name_pairs(g.drop_last()));
    }
}

proof fn lemma_rows_with_key_abs(rows: Seq<HistoryRow>, group_by: Seq<char>, k: Seq<char>)
    ensures
        abs_total(event_pairs(rows_with_key(rows, group_by, k))) <= abs_total(event_pairs(rows)),
        rows_with_key(rows, group_by, k).len() <= rows.len(),
    decreases rows.len(),
{
    if rows.len() > 0 {
        lemma_rows_with_key_abs(rows.drop_last(), group_by, k);
        assert(event_pairs(rows).drop_last() =~= event_pairs(rows.drop_last()));
        let g = rows_with_key(rows.drop_last(), group_by, k);
        if row_key(rows.last(), group_by) == k {
            assert(event_pairs(g.push(rows.last())).drop_last() =~= event_pairs(g));
        }
    }
}

proof fn lemma_abs_total_prefix(rows: Seq<HistoryRow>, i: int)
    requires
        0 <= i <= rows.len(),
    ensures
        abs_total(event_pairs(rows.take(i))) <= abs_total(event_pairs(rows)),
    decreases rows.len() - i,
{
    if i < rows.len() {
        lemma_abs_total_prefix(rows.drop_last(), i);
        assert(rows.drop_last().take(i) =~= rows.take(i));
        assert(event_pairs(rows).drop_last() =~= event_pairs(rows.drop_last()));
    } else {
        assert(rows.take(i) =~= rows);
    }
}

fn empty_acc(label: &str) -> (a: GroupAcc)
    ensures
        acc_of(a, Seq::empty(), label@),
{
    let a = GroupAcc {
        label: to_owned_string(label),
        alerts: 0,
        events: 0,
        days: Vec::new(),
        ips: Vec::new(),
        scenarios: Vec::new(),
        countries: Vec::new(),
        as_names: Vec::new(),
        last_seen: String::new(),
    };
    assert(strings_view(a.days@) =~= Seq::<Seq<char>>::empty());
    assert(strings_view(a.ips@) =~= Seq::<Seq<char>>::empty());
    assert(counts_view(a.scenarios@) =~= Seq::<(Seq<char>, int)>::empty());
    assert(counts_view(a.countries@) =~= Seq::<(Seq<char>, int)>::empty());
    assert(counts_view(a.as_names@) =~= Seq::<(Seq<char>, int)>::empty());
    a
}

/// The first ten characters of a timestamp.
fn day_text(seen_at: &String) -> (r: String)
    ensures
        r@ == day_of(seen_at@),
{
    let v = chars_of(seen_at.as_str());
    let n = if v.len() <= 10 {
        v.len()
    } else {
        10
    };
    let r = string_from_range(&v, 0, n);
    assert(v@.subrange(0, n as int) =~= day_of(seen_at@));
    r
}

fn acc_add(a: GroupAcc, r: &HistoryRow, Ghost(g): Ghost<Seq<HistoryRow>>) -> (b: GroupAcc)
    requires
        acc_of(a, g, a.label@),
        abs_total(event_pairs(g.push(*r))) <= i64::MAX,
        g.len() + 1 <= usize::MAX,
    ensures
        acc_of(b, g.push(*r), a.label@),
{
    let ghost g2 = g.push(*r);
    assert(g2.drop_last() =~= g);
    assert(event_pairs(g2).drop_last() =~= event_pairs(g));
    assert(days_of(g2).drop_last() =~= days_of(g));
    assert(ips_of(g2).drop_last() =~= ips_of(g));
    assert(scenario_pairs(g2).drop_last() =~= scenario_pairs(g));
    assert(country_pairs(g2).drop_last() =~= country_pairs(g));
    assert(as_name_pairs(g2).drop_last() =~= as_name_pairs(g));
    proof {
        lemma_total_alerts_bound(g2);
        lemma_pairs_abs(g);
        lemma_pairs_abs(g2);
        lemma_tally_bound(scenario_pairs(g));
        lemma_tally_bound(country_pairs(g));
        lemma_tally_bound(as_name_pairs(g));
    }
    let GroupAcc {
        label,
        alerts,
        events,
        mut days,
        mut ips,
        mut scenarios,
        mut countries,
        mut as_names,
        last_seen: prev_last,
    } = a;
    proof {
        let ab = abs_total(event_pairs(g));
        assert(abs_total(event_pairs(g2)) == ab + if r.event_count < 0 {
            -r.event_count
        } else {
            r.event_count as int
        });
        assert forall|j: int| 0 <= j < a.scenarios.len() implies i64::MIN <= #[trigger] a.scenarios@[j].1
            + r.event_count <= i64::MAX by {
            assert(counts_view(a.scenarios@)[j].1 == a.scenarios@[j].1);
        }
        assert forall|j: int| 0 <= j < a.countries.len() implies i64::MIN <= #[trigger] a.countries@[j].1
            + r.event_count <= i64::MAX by {
            assert(counts_view(a.countries@)[j].1 == a.countries@[j].1);
        }
        assert forall|j: int| 0 <= j < a.as_names.len() implies i64::MIN <= #[trigger] a.as_names@[j].1
            + r.event_count <= i64::MAX by {
            assert(counts_view(a.as_names@)[j].1 == a.as_names@[j].1);
        }
    }
    let day = day_text(&r.seen_at);
    add_distinct(&mut days, day.as_str());
    add_distinct(&mut ips, r.ip.as_str());
    tally_add(&mut scenarios, r.scenario.as_str(), r.event_count);
    tally_add(&mut countries, r.country.as_str(), r.event_count);
    tally_add(&mut as_names, r.as_name.as_str(), r.event_count);
    let last = if less_than(prev_last.as_str(), r.seen_at.as_str()) {
        to_owned_string(r.seen_at.as_str())
    } else {
        prev_last
    };
    GroupAcc {
        label,
        alerts: alerts + r.event_count,
        events: events + 1,
        days,
        ips,
        scenarios,
        countries,
        as_names,
        last_seen: last,
    }
}

fn finish(a: &GroupAcc, Ghost(g): Ghost<Seq<HistoryRow>>) -> (s: GroupStats)
    requires
        acc_of(*a, g, a.label@),
    ensures
        stats_of(s, g, a.label@),
{
    let top_scenario = top_count_label(&a.scenarios);
    let top_country = top_count_label(&a.countries);
    let top_as_name = top_count_label(&a.as_names);
    GroupStats {
        label: to_owned_string(a.label.as_str()),
        alerts: a.alerts,
        events: a.events,
        days_seen: a.days.len(),
        ip_count: a.ips.len(),
        last_seen: to_owned_string(a.last_seen.as_str()),
        top_scenario,
        top_country,
        top_as_name,
    }
}

proof fn lemma_rows_with_key_empty(rows: Seq<HistoryRow>, group_by: Seq<char>, k: Seq<char>)
    requires
        forall|q: int| 0 <= q < rows.len() ==> row_key(rows[q], group_by) != k,
    ensures
        rows_with_key(rows, group_by, k) == Seq::<HistoryRow>::empty(),
    decreases rows.len(),
{
    if rows.len() > 0 {
        assert forall|q: int| 0 <= q < rows.drop_last().len() implies row_key(
            rows.drop_last()[q],
            group_by,
        ) != k by {
            assert(rows.drop_last()[q] == rows[q]);
        }
        lemma_rows_with_key_empty(rows.drop_last(), group_by, k);
        assert(row_key(rows[rows.len() - 1], group_by) != k);
    }
}

/// The label of a row under a grouping.
fn key_of<'a>(r: &'a HistoryRow, group_by: &str) -> (k: &'a String)
    ensures
        k@ == row_key(*r, group_by@),
{
    if str_eq(group_by, "ip") {
        &r.ip
    } else if str_eq(group_by, "asn") {
        &r.as_name
    } else if str_eq(group_by, "country") {
        &r.country
    } else if str_eq(group_by, "scenario") {
        &r.scenario
    } else {
        &r.cidr24
    }
}

/// Summarises the rows by label, the groups in the order in which their
/// labels first appear.
pub fn group_history(rows: &Vec<HistoryRow>, group_by: &str) -> (r: Vec<GroupStats>)
    requires
        abs_total(event_pairs(rows@)) <= i64::MAX,
    ensures
        r.len() == group_labels(rows@, group_by@).len(),
        forall|j: int|
            0 <= j < r.len() ==> stats_of(
                #[trigger] r@[j],
                rows_with_key(rows@, group_by@, group_labels(rows@, group_by@)[j]),
                group_labels(rows@, group_by@)[j],
            ),
{
    let mut accs: Vec<GroupAcc> = Vec::new();
    let mut i: usize = 0;
    while i < rows.len()
        invariant
            i <= rows.len(),
            abs_total(event_pairs(rows@)) <= i64::MAX,
            accs.len() == group_labels(rows@.take(i as int), group_by@).len(),
            forall|j: int|
                0 <= j < accs.len() ==> acc_of(
                    #[trigger] accs@[j],
                    rows_with_key(
                        rows@.take(i as int),
                        group_by@,
                        group_labels(rows@.take(i as int), group_by@)[j],
                    ),
                    group_labels(rows@.take(i as int), group_by@)[j],
                ),
        decreases rows.len() - i,
    {
        let ghost pre = rows@.take(i as int);
        let ghost nxt = rows@.take(i + 1);
        let ghost labels = group_labels(pre, group_by@);
        let r = &rows[i];
        let k = key_of(r, group_by);
        assert(nxt.drop_last() =~= pre);
        assert(nxt.last() == *r);
        assert(nxt.map_values(|x: HistoryRow| row_key(x, group_by@)).drop_last() =~= pre.map_values(
            |x: HistoryRow| row_key(x, group_by@),
        ));
        proof {
            lemma_abs_total_prefix(rows@, i + 1);
        }
        let mut j: usize = 0;
        while j < accs.len()
            invariant
                j <= accs.len(),
                accs.len() == labels.len(),
                forall|q: int| 0 <= q < accs.len() ==> (#[trigger] accs@[q]).label@ == labels[q],
                forall|q: int| 0 <= q < j ==> labels[q] != k@,
            ensures
                j <= accs.len(),
                j < accs.len() ==> labels[j as int] == k@,
                forall|q: int| 0 <= q < j ==> labels[q] != k@,
            decreases accs.len() - j,
        {
            if str_eq(accs[j].label.as_str(), k.as_str()) {
                break;
            }
            j = j + 1;
        }
        proof {
            assert forall|q: int| 0 <= q < accs.len() implies (#[trigger] accs@[q]).label@
                == labels[q] by {}
        }
        if j < accs.len() {
            assert(labels[j as int] == k@);
            assert(labels.contains(k@));
            let ghost g = rows_with_key(pre, group_by@, k@);
            proof {
                lemma_rows_with_key_abs(nxt, group_by@, k@);
            }
            let ghost old_accs = accs@;
            let a = accs.remove(j);
            let b = acc_add(a, r, Ghost(g));
            accs.insert(j, b);
            proof {
                assert(accs@ =~= old_accs.update(j as int, b));
                crate::aggregate::lemma_distinct_unique(
                    pre.map_values(|x: HistoryRow| row_key(x, group_by@)),
                );
                assert(group_labels(nxt, group_by@) == labels);
                assert(rows_with_key(nxt, group_by@, k@) == g.push(*r));
                assert forall|q: int| 0 <= q < labels.len() && q != j implies rows_with_key(
                    nxt,
                    group_by@,
                    labels[q],
                ) == rows_with_key(pre, group_by@, labels[q]) by {
                    assert(labels[q] != labels[j as int]);
                }
            }
        } else {
            assert(!labels.contains(k@));
            let ghost g = rows_with_key(pre, group_by@, k@);
            proof {
                lemma_rows_with_key_abs(nxt, group_by@, k@);
                assert forall|q: int| 0 <= q < pre.len() implies row_key(pre[q], group_by@) != k@ by {
                    assert(pre.map_values(|x: HistoryRow| row_key(x, group_by@))[q] == row_key(
                        pre[q],
                        group_by@,
                    ));
                    crate::aggregate::lemma_distinct_contains(
                        pre.map_values(|x: HistoryRow| row_key(x, group_by@)),
                        q,
                    );
                }
                lemma_rows_with_key_empty(pre, group_by@, k@);
            }
            let e = empty_acc(k.as_str());
            let b = acc_add(e, r, Ghost(g));
            accs.push(b);
            proof {
                assert(group_labels(nxt, group_by@) == labels.push(k@));
                assert(rows_with_key(nxt, group_by@, k@) == g.push(*r));
                assert forall|q: int| 0 <= q < labels.len() implies rows_with_key(
                    nxt,
                    group_by@,
                    labels[q],
                ) == rows_with_key(pre, group_by@, labels[q]) by {
                    crate::aggregate::lemma_distinct_unique(
                        pre.map_values(|x: HistoryRow| row_key(x, group_by@)),
                    );
                    assert(pre.map_values(|x: HistoryRow| row_key(x, group_by@)).contains(labels[q]));
                    if labels[q] == k@ {
                        assert(labels.contains(k@));
                    }
                }
            }
        }
        proof {
            let nl = group_labels(nxt, group_by@);
            assert forall|q: int| 0 <= q < accs.len() implies acc_of(
                #[trigger] accs@[q],
                rows_with_key(nxt, group_by@, nl[q]),
                nl[q],
            ) by {
                if q < labels.len() {
                    assert(nl[q] == labels[q]);
                }
            }
        }
        i = i + 1;
    }
    assert(rows@.take(rows.len() as int) =~= rows@);
    let ghost labels = group_labels(rows@, group_by@);
    let mut out: Vec<GroupStats> = Vec::new();
    let mut q: usize = 0;
    while q < accs.len()
        invariant
            q <= accs.len(),
            accs.len() == labels.len(),
            labels == group_labels(rows@, group_by@),
            out.len() == q,
            forall|j: int|
                0 <= j < accs.len() ==> acc_of(
                    #[trigger] accs@[j],
                    rows_with_key(rows@, group_by@, labels[j]),
                    labels[j],
                ),
            forall|j: int|
                0 <= j < q ==> stats_of(
                    #[trigger] out@[j],
                    rows_with_key(rows@, group_by@, labels[j]),
                    labels[j],
                ),
        decreases accs.len() - q,
    {
        out.push(finish(&accs[q], Ghost(rows_with_key(rows@, group_by@, labels[q as int]))));
        q = q + 1;
    }
    out
}

/// The alerts of each group, in label order.
pub open spec fn group_alerts(rows: Seq<HistoryRow>, group_by: Seq<char>) -> Seq<int> {
    group_labels(rows, group_by).map_values(
        |k: Seq<char>| total_alerts(rows_with_key(rows, group_by, k)),
    )
}

/// One page of a list of group summaries.
pub struct GroupPage {
    /// The number of groups.
    pub total: usize,
    /// The offset of the next page, when there is one.
    pub next_offset: Option<usize>,
    /// The groups of this page.
    pub items: Vec<GroupStats>,
}

fn copy_stats(s: &GroupStats) -> (r: GroupStats)
    ensures
        forall|g: Seq<HistoryRow>, k: Seq<char>| stats_of(*s, g, k) ==> stats_of(r, g, k),
{
    GroupStats {
        label: to_owned_string(s.label.as_str()),
        alerts: s.alerts,
        events: s.events,
        days_seen: s.days_seen,
        ip_count: s.ip_count,
        last_seen: to_owned_string(s.last_seen.as_str()),
        top_scenario: to_owned_string(s.top_scenario.as_str()),
        top_country: to_owned_string(s.top_country.as_str()),
        top_as_name: to_owned_string(s.top_as_name.as_str()),
    }
}

/// The groups of `rows` from the most alerts to the fewest (equal counts in
/// the order their labels first appear), and the page `[offset,
/// offset + limit)` of them.
pub fn history_groups_page(rows: &Vec<HistoryRow>, group_by: &str, offset: usize, limit: usize) -> (r:
    GroupPage)
    requires
        abs_total(event_pairs(rows@)) <= i64::MAX,
        offset + limit <= usize::MAX,
    ensures
        ({
            let labels = group_labels(rows@, group_by@);
            let (lo, hi) = page_bounds(labels.len(), offset as nat, limit as nat);
            &&& r.total == labels.len()
            &&& match r.next_offset {
                Some(n) => next_offset(labels.len(), offset as nat, limit as nat) == Some(n as nat),
                None => next_offset(labels.len(), offset as nat, limit as nat) is None,
            }
            &&& r.items.len() == hi - lo
            &&& exists|order: Seq<usize>|
                stable_desc(group_alerts(rows@, group_by@), order) && forall|j: int|
                    0 <= j < r.items.len() ==> stats_of(
                        #[trigger] r.items@[j],
                        rows_with_key(rows@, group_by@, labels[order[lo + j] as int]),
                        labels[order[lo + j] as int],
                    )
        }),
{
    let groups = group_history(rows, group_by);
    let ghost labels = group_labels(rows@, group_by@);
    let mut keys: Vec<i64> = Vec::new();
    let mut i: usize = 0;
    while i < groups.len()
        invariant
            i <= groups.len(),
            groups.len() == labels.len(),
            labels == group_labels(rows@, group_by@),
            keys.len() == i,
            forall|j: int|
                0 <= j < groups.len() ==> stats_of(
                    #[trigger] groups@[j],
                    rows_with_key(rows@, group_by@, labels[j]),
                    labels[j],
                ),
            forall|j: int| 0 <= j < i ==> keys@[j] as int == group_alerts(rows@, group_by@)[j],
        decreases groups.len() - i,
    {
        keys.push(groups[i].alerts);
        i = i + 1;
    }
    assert(keys@.map_values(|k: i64| k as int) =~= group_alerts(rows@, group_by@));
    let order = order_desc(&keys);
    let (lo, hi, next) = page(groups.len(), offset, limit);
    let mut items: Vec<GroupStats> = Vec::new();
    let mut p: usize = lo;
    while p < hi
        invariant
            lo <= p <= hi <= groups.len(),
            groups.len() == labels.len(),
            order.len() == groups.len(),
            labels == group_labels(rows@, group_by@),
            stable_desc(group_alerts(rows@, group_by@), order@),
            items.len() == p - lo,
            forall|j: int|
                0 <= j < groups.len() ==> stats_of(
                    #[trigger] groups@[j],
                    rows_with_key(rows@, group_by@, labels[j]),
                    labels[j],
                ),
            forall|j: int|
                0 <= j < items.len() ==> stats_of(
                    #[trigger] items@[j],
                    rows_with_key(rows@, group_by@, labels[order@[lo + j] as int]),
                    labels[order@[lo + j] as int],
                ),
        decreases hi - p,
    {
        let ix = order[p];
        assert(ix < groups.len());
        items.push(copy_stats(&groups[ix]));
        p = p + 1;
    }
    GroupPage { total: groups.len(), next_offset: next, items }
}

/// What the history of one address shows.
pub struct AddressHistory {
    /// The summary of all of its rows.
    pub stats: GroupStats,
    /// The earliest `seen_at`.
    pub first_seen: String,
    /// The first and last positions of the page of rows.
    pub page_start: usize,
    pub page_end: usize,
    /// The offset of the next page, when there is one.
    pub next_offset: Option<usize>,
}

/// Summarises the rows of one address and picks the page `[offset,
/// offset + limit)` of them.
pub fn address_history(rows: &Vec<HistoryRow>, offset: usize, limit: usize) -> (r: AddressHistory)
    requires
        abs_total(event_pairs(rows@)) <= i64::MAX,
        offset + limit <= usize::MAX,
    ensures
        stats_of(r.stats, rows@, Seq::empty()),
        r.first_seen@ == first_seen(rows@),
        (r.page_start as nat, r.page_end as nat) == page_bounds(
            rows.len() as nat,
            offset as nat,
            limit as nat,
        ),
        match r.next_offset {
            Some(n) => next_offset(rows.len() as nat, offset as nat, limit as nat) == Some(n as nat),
            None => next_offset(rows.len() as nat, offset as nat, limit as nat) is None,
        },
{
    proof {
        reveal_strlit("");
    }
    let mut acc = empty_acc("");
    assert(""@ =~= Seq::<char>::empty());
    assert(rows@.take(0) =~= Seq::<HistoryRow>::empty());
    let mut first = String::new();
    let mut i: usize = 0;
    while i < rows.len()
        invariant
            i <= rows.len(),
            abs_total(event_pairs(rows@)) <= i64::MAX,
            acc_of(acc, rows@.take(i as int), Seq::empty()),
            first@ == first_seen(rows@.take(i as int)),
        decreases rows.len() - i,
    {
        let ghost pre = rows@.take(i as int);
        assert(rows@.take(i + 1) =~= pre.push(rows@[i as int]));
        assert(rows@.take(i + 1).drop_last() =~= pre);
        proof {
            crate::history::lemma_abs_total_prefix(rows@, i + 1);
        }
        acc = acc_add(acc, &rows[i], Ghost(pre));
        if first.as_str().is_empty() || less_than(rows[i].seen_at.as_str(), first.as_str()) {
            first = to_owned_string(rows[i].seen_at.as_str());
        }
        i = i + 1;
    }
    assert(rows@.take(rows.len() as int) =~= rows@);
    let stats = finish(&acc, Ghost(rows@));
    let (lo, hi, next) = page(rows.len(), offset, limit);
    AddressHistory { stats, first_seen: first, page_start: lo, page_end: hi, next_offset: next }
}

/// The history column a grouping selects on.
pub open spec fn group_column(group_by: Seq<char>) -> Seq<char> {
    if group_by == "ip"@ {
        "ip"@
    } else if group_by == "asn"@ {
        "as_name"@
    } else if group_by == "country"@ {
        "country"@
    } else if group_by == "scenario"@ {
        "scenario"@
    } else {
        "cidr24"@
    }
}

fn group_column_exec(group_by: &str) -> (r: &'static str)
    ensures
        r@ == group_column(group_by@),
{
    if str_eq(group_by, "ip") {
        "ip"
    } else if str_eq(group_by, "asn") {
        "as_name"
    } else if str_eq(group_by, "country") {
        "country"
    } else if str_eq(group_by, "scenario") {
        "scenario"
    } else {
        "cidr24"
    }
}

/// The query for the rows of the history view seen since `since_ms`,
/// newest first.
pub fn history_rows_sql(since_ms: i64) -> (r: String)
    ensures
        r@ == "SELECT ip, cidr24, as_name, country, scenario, seen_at, event_count FROM alerts WHERE seen_at_ms >= "@
            + signed_decimal(since_ms as int) + " ORDER BY seen_at_ms DESC"@,
{
    let mut r = to_owned_string(
        "SELECT ip, cidr24, as_name, country, scenario, seen_at, event_count FROM alerts WHERE seen_at_ms >= ",
    );
    let n = i64_to_string(since_ms);
    append_str(&mut r, n.as_str());
    append_str(&mut r, " ORDER BY seen_at_ms DESC");
    r
}

/// The query for the rows of one group seen since `since_ms`, newest first;
/// the label is quoted with `sql_escape`.
pub fn group_rows_sql(since_ms: i64, group_by: &str, label: &str) -> (r: String)
    ensures
        r@ == "SELECT ip, country, scenario, as_name, seen_at, event_count FROM alerts WHERE seen_at_ms >= "@
            + signed_decimal(since_ms as int) + " AND "@ + group_column(group_by@) + " = '"@
            + replace_all(label@, "'"@, "''"@) + "' ORDER BY seen_at_ms DESC"@,
{
    let mut r = to_owned_string(
        "SELECT ip, country, scenario, as_name, seen_at, event_count FROM alerts WHERE seen_at_ms >= ",
    );
    let n = i64_to_string(since_ms);
    append_str(&mut r, n.as_str());
    append_str(&mut r, " AND ");
    append_str(&mut r, group_column_exec(group_by));
    append_str(&mut r, " = '");
    let quoted = sql_escape(label);
    append_str(&mut r, quoted.as_str());
    append_str(&mut r, "' ORDER BY seen_at_ms DESC");
    r
}

/// The query for the rows of one address seen since `since_ms`, newest
/// first; the address is quoted with `sql_escape`.
pub fn address_rows_sql(since_ms: i64, ip: &str) -> (r: String)
    ensures
        r@ == "SELECT scenario, country, as_name, seen_at, event_count FROM alerts WHERE seen_at_ms >= "@
            + signed_decimal(since_ms as int) + " AND ip = '"@ + replace_all(ip@, "'"@, "''"@)
            + "' ORDER BY seen_at_ms DESC"@,
{
    let mut r = to_owned_string(
        "SELECT scenario, country, as_name, seen_at, event_count FROM alerts WHERE seen_at_ms >= ",
    );
    let n = i64_to_string(since_ms);
    append_str(&mut r, n.as_str());
    append_str(&mut r, " AND ip = '");
    let quoted = sql_escape(ip);
    append_str(&mut r, quoted.as_str());
    append_str(&mut r, "' ORDER BY seen_at_ms DESC");
    r
}

/// The events (`alerts`: the alerts) of the groups with the given labels,
/// added up.
pub open spec fn label_sum(rows: Seq<HistoryRow>, group_by: Seq<char>, labels: Seq<Seq<char>>, alerts: bool) -> int
    decreases labels.len(),
{
    if labels.len() == 0 {
        0
    } else {
        label_sum(rows, group_by, labels.drop_last(), alerts) + if alerts {
            total_alerts(rows_with_key(rows, group_by, labels.last()))
        } else {
            rows_with_key(rows, group_by, labels.last()).len() as int
        }
    }
}

/// The group labels of the rows.
pub open spec fn row_keys(rows: Seq<HistoryRow>, group_by: Seq<char>) -> Seq<Seq<char>> {
    rows.map_values(|r: HistoryRow| row_key(r, group_by))
}

proof fn lemma_label_sum_other(
    rows: Seq<HistoryRow>,
    group_by: Seq<char>,
    labels: Seq<Seq<char>>,
    r: HistoryRow,
    alerts: bool,
)
    requires
        !labels.contains(row_key(r, group_by)),
    ensures
        label_sum(rows.push(r), group_by, labels, alerts) == label_sum(rows, group_by, labels, alerts),
    decreases labels.len(),
{
    if labels.len() > 0 {
        assert(!labels.drop_last().contains(row_key(r, group_by))) by {
            if labels.drop_last().contains(row_key(r, group_by)) {
                let x = choose|x: int| 0 <= x < labels.drop_last().len() && labels.drop_last()[x]
                    == row_key(r, group_by);
                assert(labels[x] == row_key(r, group_by));
            }
        }
        lemma_label_sum_other(rows, group_by, labels.drop_last(), r, alerts);
        assert(labels.last() != row_key(r, group_by)) by {
            if labels.last() == row_key(r, group_by) {
                assert(labels[labels.len() - 1] == row_key(r, group_by));
            }
        }
        assert(rows.push(r).drop_last() =~= rows);
    }
}

proof fn lemma_label_sum_own(
    rows: Seq<HistoryRow>,
    group_by: Seq<char>,
    labels: Seq<Seq<char>>,
    r: HistoryRow,
    alerts: bool,
)
    requires
        labels.contains(row_key(r, group_by)),
        forall|i: int, j: int| 0 <= i < j < labels.len() ==> labels[i] != labels[j],
    ensures
        label_sum(rows.push(r), group_by, labels, alerts) == label_sum(rows, group_by, labels, alerts)
            + if alerts {
            r.event_count as int
        } else {
            1int
        },
    decreases labels.len(),
{
    let k = row_key(r, group_by);
    let init = labels.drop_last();
    assert(rows.push(r).drop_last() =~= rows);
    assert(rows.push(r).last() == r);
    if labels.last() == k {
        assert(!init.contains(k)) by {
            if init.contains(k) {
                let x = choose|x: int| 0 <= x < init.len() && init[x] == k;
                assert(labels[x] == labels[labels.len() - 1]);
            }
        }
        lemma_label_sum_other(rows, group_by, init, r, alerts);
        let g = rows_with_key(rows, group_by, k);
        assert(rows_with_key(rows.push(r), group_by, k) == g.push(r));
        assert(g.push(r).drop_last() =~= g);
    } else {
        assert(init.contains(k)) by {
            let x = choose|x: int| 0 <= x < labels.len() && labels[x] == k;
            assert(x != labels.len() - 1);
            assert(init[x] == k);
        }
        lemma_label_sum_own(rows, group_by, init, r, alerts);
    }
}

proof fn lemma_keys_have_rows(rows: Seq<HistoryRow>, group_by: Seq<char>, k: Seq<char>)
    requires
        !row_keys(rows, group_by).contains(k),
    ensures
        rows_with_key(rows, group_by, k).len() == 0,
    decreases rows.len(),
{
    if rows.len() > 0 {
        assert(!row_keys(rows.drop_last(), group_by).contains(k)) by {
            if row_keys(rows.drop_last(), group_by).contains(k) {
                let x = choose|x: int| 0 <= x < row_keys(rows.drop_last(), group_by).len()
                    && row_keys(rows.drop_last(), group_by)[x] == k;
                assert(row_keys(rows, group_by)[x] == k);
            }
        }
        lemma_keys_have_rows(rows.drop_last(), group_by, k);
        assert(row_key(rows.last(), group_by) != k) by {
            if row_key(rows.last(), group_by) == k {
                assert(row_keys(rows, group_by)[rows.len() - 1] == k);
            }
        }
    }
}

/// Grouping keeps every row in exactly one group: the events of the groups
/// add up to the rows, and their alerts to the alerts of all rows.
pub proof fn groups_partition_rows(rows: Seq<HistoryRow>, group_by: Seq<char>)
    ensures
        label_sum(rows, group_by, group_labels(rows, group_by), false) == rows.len(),
        label_sum(rows, group_by, group_labels(rows, group_by), true) == total_alerts(rows),
    decreases rows.len(),
{
    if rows.len() > 0 {
        let init = rows.drop_last();
        let r = rows.last();
        let k = row_key(r, group_by);
        groups_partition_rows(init, group_by);
        assert(init.push(r) =~= rows);
        let keys0 = row_keys(init, group_by);
        assert(row_keys(rows, group_by) =~= keys0.push(k));
        assert(row_keys(rows, group_by).drop_last() =~= keys0);
        let d0 = distinct(keys0);
        assert(group_labels(init, group_by) == d0);
        assert(group_labels(rows, group_by) == distinct(row_keys(rows, group_by)));
        crate::aggregate::lemma_distinct_unique(keys0);
        crate::aggregate::lemma_distinct_unique(row_keys(rows, group_by));
        if d0.contains(k) {
            assert(group_labels(rows, group_by) == d0);
            lemma_label_sum_own(init, group_by, d0, r, false);
            lemma_label_sum_own(init, group_by, d0, r, true);
        } else {
            assert(group_labels(rows, group_by) == d0.push(k));
            assert(d0.push(k).drop_last() =~= d0);
            lemma_label_sum_other(init, group_by, d0, r, false);
            lemma_label_sum_other(init, group_by, d0, r, true);
            assert(!keys0.contains(k)) by {
                if keys0.contains(k) {
                    let x = choose|x: int| 0 <= x < keys0.len() && keys0[x] == k;
                    crate::aggregate::lemma_distinct_contains(keys0, x);
                }
            }
            lemma_keys_have_rows(init, group_by, k);
            let g = rows_with_key(init, group_by, k);
            assert(g =~= Seq::<HistoryRow>::empty());
            assert(rows_with_key(rows, group_by, k) == g.push(r));
            assert(g.push(r).drop_last() =~= g);
            assert(total_alerts(g) == 0);
            assert(total_alerts(g.push(r)) == r.event_count);
            assert(label_sum(rows, group_by, d0.push(k), true) == label_sum(rows, group_by, d0, true)
                + total_alerts(rows_with_key(rows, group_by, k)));
        }
        assert(total_alerts(rows) == total_alerts(init) + r.event_count);
    }
}

} // verus!
