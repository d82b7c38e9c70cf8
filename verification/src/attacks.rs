//! The attack map: where alerts are loaded from, their totals and top
//! lists, the history rows recorded for them, and the active decisions of
//! one address.

use vstd::prelude::*;
use crate::aggregate::{
    abs_total, add_distinct, counts_view, distinct, is_top_counts, lemma_tally_bound, map_counts,
    str_less, tally, tally_add, CountMap,
};
use crate::models::{ActiveBan, Alert};
use crate::normaliser::{cidr24, to_cidr24};
use crate::text::{
    join, join_strings, keep_nonempty, str_eq, strings_view, to_owned_string, concat2,
};
use crate::time::{parse_rfc3339, rfc3339_parse, UtcTime};

verus! {

/// A source of alerts.
pub enum SourceKind {
    /// The demo snapshot file, or else the built-in sample alerts.
    Demo,
    /// `cscli alerts list` in the CrowdSec container.
    Cscli,
    /// The CrowdSec local API.
    LapiAlerts,
}

/// The requested source (`auto` meaning the configured one), where `sample`
/// and `demo-snapshot` mean `demo`.
pub open spec fn normalized_source(requested: Seq<char>, configured: Seq<char>) -> Seq<char> {
    let c = if requested == "auto"@ {
        configured
    } else {
        requested
    };
    if c == "sample"@ || c == "demo-snapshot"@ {
        "demo"@
    } else {
        c
    }
}

/// The sources to try, in order: for `auto` the local API, then `cscli`,
/// then the demo data; otherwise the one named.
pub open spec fn source_candidates(requested: Seq<char>, configured: Seq<char>) -> Seq<Seq<char>> {
    let c = normalized_source(requested, configured);
    if c == "auto"@ {
        seq!["lapi-alerts"@, "cscli"@, "demo"@]
    } else {
        seq![c]
    }
}

/// The source a name stands for.
pub open spec fn kind_of(name: Seq<char>) -> Option<SourceKind> {
    if name == "demo"@ {
        Some(SourceKind::Demo)
    } else if name == "cscli"@ {
        Some(SourceKind::Cscli)
    } else if name == "lapi-alerts"@ {
        Some(SourceKind::LapiAlerts)
    } else {
        None
    }
}

/// The first position from `from` on that names a source, or the length.
pub open spec fn next_known(names: Seq<Seq<char>>, from: int) -> int
    decreases names.len() - from,
{
    if from >= names.len() {
        names.len() as int
    } else if kind_of(names[from]) is Some {
        from
    } else {
        next_known(names, from + 1)
    }
}

/// The warning after every source failed.
pub open spec fn exhausted_warning(warnings: Seq<Seq<char>>) -> Seq<char> {
    if warnings.len() == 0 {
        "No data source returned data"@
    } else {
        join(warnings, " | "@)
    }
}

/// Loading from `auto` tries the local API, then `cscli`, and ends with
/// the demo data, which always loads; `sample` and `demo-snapshot` load the
/// demo data alone.
pub proof fn auto_ends_with_demo(requested: Seq<char>, configured: Seq<char>)
    ensures
        normalized_source(requested, configured) == "auto"@ ==> source_candidates(
            requested,
            configured,
        ) == seq!["lapi-alerts"@, "cscli"@, "demo"@] && kind_of("lapi-alerts"@) == Some(
            SourceKind::LapiAlerts,
        ) && kind_of("cscli"@) == Some(SourceKind::Cscli) && kind_of("demo"@) == Some(
            SourceKind::Demo,
        ),
        (if requested == "auto"@ {
            configured
        } else {
            requested
        }) == "sample"@ ==> source_candidates(requested, configured) == seq!["demo"@],
        (if requested == "auto"@ {
            configured
        } else {
            requested
        }) == "demo-snapshot"@ ==> source_candidates(requested, configured) == seq!["demo"@],
{
    reveal_strlit("demo");
    reveal_strlit("cscli");
    reveal_strlit("lapi-alerts");
    reveal_strlit("auto");
    reveal_strlit("sample");
    reveal_strlit("demo-snapshot");
    assert("demo"@[0] != "auto"@[0]);
    assert("lapi-alerts"@.len() != "demo"@.len());
    assert("lapi-alerts"@.len() != "cscli"@.len());
    assert("cscli"@.len() != "demo"@.len());
    assert("sample"@.len() != "auto"@.len());
    assert("demo-snapshot"@.len() != "auto"@.len());
}

/// What to do next while loading alerts.
pub enum LoadStep {
    /// Read this source.
    Fetch(SourceKind),
    /// No source is left: use the sample alerts, with this warning.
    Fallback(String),
}

/// The progress of loading alerts from a list of sources.
pub struct DataLoad {
    pub candidates: Vec<String>,
    /// The source being tried.
    pub position: usize,
    /// One line per source that returned nothing.
    pub warnings: Vec<String>,
}

fn kind_exec(name: &str) -> (r: Option<SourceKind>)
    ensures
        r == kind_of(name@),
{
    if str_eq(name, "demo") {
        Some(SourceKind::Demo)
    } else if str_eq(name, "cscli") {
        Some(SourceKind::Cscli)
    } else if str_eq(name, "lapi-alerts") {
        Some(SourceKind::LapiAlerts)
    } else {
        None
    }
}

impl DataLoad {
    /// Starts loading from the sources that `requested` names (`auto` for
    /// the configured source `configured`).
    pub fn new(requested: &str, configured: &str) -> (r: DataLoad)
        ensures
            strings_view(r.candidates@) == source_candidates(requested@, configured@),
            r.position == 0,
            r.warnings@.len() == 0,
    {
        let c = if str_eq(requested, "auto") {
            configured
        } else {
            requested
        };
        let c = if str_eq(c, "sample") || str_eq(c, "demo-snapshot") {
            "demo"
        } else {
            c
        };
        let candidates = if str_eq(c, "auto") {
            vec![to_owned_string("lapi-alerts"), to_owned_string("cscli"), to_owned_string("demo")]
        } else {
            vec![to_owned_string(c)]
        };
        let r = DataLoad { candidates, position: 0, warnings: Vec::new() };
        assert(strings_view(r.candidates@) =~= source_candidates(requested@, configured@));
        r
    }

    /// Moves to the next position that names a source, and says what to do.
    pub fn next_step(&mut self) -> (s: LoadStep)
        requires
            old(self).position <= old(self).candidates.len(),
        ensures
            final(self).candidates@ == old(self).candidates@,
            final(self).warnings@ == old(self).warnings@,
            final(self).position == next_known(
                strings_view(old(self).candidates@),
                old(self).position as int,
            ),
            match s {
                LoadStep::Fetch(k) => final(self).position < final(self).candidates.len() && kind_of(
                    final(self).candidates@[final(self).position as int]@,
                ) == Some(k),
                LoadStep::Fallback(w) => final(self).position == final(self).candidates.len() && w@
                    == exhausted_warning(strings_view(final(self).warnings@)),
            },
    {
        let ghost names = strings_view(self.candidates@);
        while self.position < self.candidates.len() && kind_exec(
            self.candidates[self.position].as_str(),
        ).is_none()
            invariant
                self.position <= self.candidates.len(),
                names == strings_view(self.candidates@),
                self.candidates@ == old(self).candidates@,
                self.warnings@ == old(self).warnings@,
                next_known(names, self.position as int) == next_known(
                    names,
                    old(self).position as int,
                ),
            decreases self.candidates.len() - self.position,
        {
            self.position = self.position + 1;
        }
        if self.position < self.candidates.len() {
            match kind_exec(self.candidates[self.position].as_str()) {
                Some(k) => LoadStep::Fetch(k),
                None => LoadStep::Fallback(String::new()),
            }
        } else {
            LoadStep::Fallback(self.exhausted_warning())
        }
    }

    /// Records that the current source returned nothing and moves past it.
    pub fn source_failed(&mut self)
        requires
            old(self).position < old(self).candidates.len(),
        ensures
            final(self).candidates@ == old(self).candidates@,
            final(self).position == old(self).position + 1,
            strings_view(final(self).warnings@) == strings_view(old(self).warnings@).push(
                old(self).candidates@[old(self).position as int]@ + ": failed to read alerts"@,
            ),
    {
        let w = concat2(self.candidates[self.position].as_str(), ": failed to read alerts");
        let ghost before = strings_view(self.warnings@);
        self.warnings.push(w);
        assert(strings_view(self.warnings@) =~= before.push(w@));
        self.position = self.position + 1;
    }

    /// The warnings so far, joined.
    pub fn warning(&self) -> (r: String)
        ensures
            r@ == join(strings_view(self.warnings@), " | "@),
    {
        join_strings(&self.warnings, " | ")
    }

    /// The warning once every source failed.
    pub fn exhausted_warning(&self) -> (r: String)
        ensures
            r@ == exhausted_warning(strings_view(self.warnings@)),
    {
        if self.warnings.len() == 0 {
            to_owned_string("No data source returned data")
        } else {
            join_strings(&self.warnings, " | ")
        }
    }
}

/// The totals of the attack map.
pub struct Totals {
    pub alerts: usize,
    /// Distinct non-empty countries.
    pub countries: usize,
    /// Distinct non-empty scenarios.
    pub scenarios: usize,
    /// Alerts whose decision is a ban.
    pub bans: usize,
    pub active_bans: i64,
}

pub open spec fn alert_countries(alerts: Seq<Alert>) -> Seq<Seq<char>> {
    alerts.map_values(|a: Alert| a.country@)
}

pub open spec fn alert_scenarios(alerts: Seq<Alert>) -> Seq<Seq<char>> {
    alerts.map_values(|a: Alert| a.scenario@)
}

/// How many alerts carry a ban.
pub open spec fn ban_count(alerts: Seq<Alert>) -> nat
    decreases alerts.len(),
{
    if alerts.len() == 0 {
        0
    } else {
        ban_count(alerts.drop_last()) + if alerts.last().decision_type@ == "ban"@ {
            1nat
        } else {
            0nat
        }
    }
}

proof fn lemma_ban_count_bound(alerts: Seq<Alert>)
    ensures
        ban_count(alerts) <= alerts.len(),
    decreases alerts.len(),
{
    if alerts.len() > 0 {
        lemma_ban_count_bound(alerts.drop_last());
    }
}

fn distinct_nonempty(values: &Vec<String>) -> (n: usize)
    ensures
        n == distinct(keep_nonempty(strings_view(values@))).len(),
{
    let ghost vs = strings_view(values@);
    let mut d: Vec<String> = Vec::new();
    let mut i: usize = 0;
    while i < values.len()
        invariant
            i <= values.len(),
            vs == strings_view(values@),
            strings_view(d@) == distinct(keep_nonempty(vs.take(i as int))),
        decreases values.len() - i,
    {
        assert(vs.take(i + 1).drop_last() =~= vs.take(i as int));
        assert(vs.take(i + 1).last() == values@[i as int]@);
        if !values[i].as_str().is_empty() {
            let ghost kn = keep_nonempty(vs.take(i + 1));
            assert(kn.drop_last() =~= keep_nonempty(vs.take(i as int)));
            add_distinct(&mut d, values[i].as_str());
        }
        i = i + 1;
    }
    assert(vs.take(values.len() as int) =~= vs);
    d.len()
}

/// The totals of a set of alerts, with the number of active decisions.
pub fn build_totals(alerts: &Vec<Alert>, active_bans: i64) -> (r: Totals)
    ensures
        r.alerts == alerts.len(),
        r.countries == distinct(keep_nonempty(alert_countries(alerts@))).len(),
        r.scenarios == distinct(keep_nonempty(alert_scenarios(alerts@))).len(),
        r.bans == ban_count(alerts@),
        r.active_bans == active_bans,
{
    let mut countries: Vec<String> = Vec::new();
    let mut scenarios: Vec<String> = Vec::new();
    let mut bans: usize = 0;
    let mut i: usize = 0;
    while i < alerts.len()
        invariant
            i <= alerts.len(),
            strings_view(countries@) == alert_countries(alerts@).take(i as int),
            strings_view(scenarios@) == alert_scenarios(alerts@).take(i as int),
            bans == ban_count(alerts@.take(i as int)),
        decreases alerts.len() - i,
    {
        let ghost c0 = strings_view(countries@);
        let ghost s0 = strings_view(scenarios@);
        proof {
            lemma_ban_count_bound(alerts@.take(i as int));
            assert(alerts@.take(i + 1).drop_last() =~= alerts@.take(i as int));
        }
        countries.push(to_owned_string(alerts[i].country.as_str()));
        scenarios.push(to_owned_string(alerts[i].scenario.as_str()));
        assert(strings_view(countries@) =~= c0.push(alerts@[i as int].country@));
        assert(strings_view(scenarios@) =~= s0.push(alerts@[i as int].scenario@));
        assert(alert_countries(alerts@).take(i + 1) =~= alert_countries(alerts@).take(i as int).push(
            alerts@[i as int].country@,
        ));
        assert(alert_scenarios(alerts@).take(i + 1) =~= alert_scenarios(alerts@).take(i as int).push(
            alerts@[i as int].scenario@,
        ));
        if str_eq(alerts[i].decision_type.as_str(), "ban") {
            bans = bans + 1;
        }
        i = i + 1;
    }
    assert(alert_countries(alerts@).take(alerts.len() as int) =~= alert_countries(alerts@));
    assert(alert_scenarios(alerts@).take(alerts.len() as int) =~= alert_scenarios(alerts@));
    assert(alerts@.take(alerts.len() as int) =~= alerts@);
    Totals {
        alerts: alerts.len(),
        countries: distinct_nonempty(&countries),
        scenarios: distinct_nonempty(&scenarios),
        bans,
        active_bans,
    }
}

/// The label an alert is grouped under: its country for `country`, its
/// scenario for `scenario`, else nothing; `unknown` where that is empty.
pub open spec fn group_label(a: Alert, field: Seq<char>) -> Seq<char> {
    let key = if field == "country"@ {
        a.country@
    } else if field == "scenario"@ {
        a.scenario@
    } else {
        Seq::empty()
    };
    if key.len() == 0 {
        "unknown"@
    } else {
        key
    }
}

/// One alert for each label.
pub open spec fn group_pairs(alerts: Seq<Alert>, field: Seq<char>) -> Seq<(Seq<char>, int)> {
    alerts.map_values(|a: Alert| (group_label(a, field), 1int))
}

proof fn lemma_group_pairs_abs(alerts: Seq<Alert>, field: Seq<char>)
    ensures
        abs_total(group_pairs(alerts, field)) == alerts.len(),
    decreases alerts.len(),
{
    if alerts.len() > 0 {
        lemma_group_pairs_abs(alerts.drop_last(), field);
        assert(group_pairs(alerts, field).drop_last() =~= group_pairs(alerts.drop_last(), field));
    }
}

/// The `limit` largest groups of alerts by country or scenario.
pub fn group_counts_json(alerts: &Vec<Alert>, field: &str, limit: usize) -> (r: Vec<(String, i64)>)
    requires
        alerts.len() <= i64::MAX,
    ensures
        is_top_counts(tally(group_pairs(alerts@, field@)), limit as nat, r@),
{
    let by_country = str_eq(field, "country");
    let by_scenario = str_eq(field, "scenario");
    proof {
        reveal_strlit("");
        assert(""@ =~= Seq::<char>::empty());
    }
    let mut m: CountMap = Vec::new();
    assert(counts_view(m@) =~= Seq::<(Seq<char>, int)>::empty());
    let mut i: usize = 0;
    while i < alerts.len()
        invariant
            i <= alerts.len() <= i64::MAX,
            by_country == (field@ == "country"@),
            by_scenario == (field@ == "scenario"@),
            ""@ == Seq::<char>::empty(),
            counts_view(m@) == tally(group_pairs(alerts@.take(i as int), field@)),
        decreases alerts.len() - i,
    {
        let ghost pre = alerts@.take(i as int);
        proof {
            assert(alerts@.take(i + 1).drop_last() =~= pre);
            lemma_group_pairs_abs(pre, field@);
            lemma_tally_bound(group_pairs(pre, field@));
            assert forall|j: int| 0 <= j < m.len() implies i64::MIN <= #[trigger] m@[j].1 + 1
                <= i64::MAX by {
                assert(counts_view(m@)[j].1 == m@[j].1);
            }
            assert(group_pairs(alerts@.take(i + 1), field@).drop_last() =~= group_pairs(pre, field@));
        }
        let a = &alerts[i];
        let key: &str = if by_country {
            a.country.as_str()
        } else if by_scenario {
            a.scenario.as_str()
        } else {
            ""
        };
        let label: &str = if key.is_empty() {
            "unknown"
        } else {
            key
        };
        assert(label@ == group_label(alerts@[i as int], field@));
        tally_add(&mut m, label, 1);
        i = i + 1;
    }
    assert(alerts@.take(alerts.len() as int) =~= alerts@);
    map_counts(&m, limit)
}

/// A decision concerns an address when it is its address or its value.
pub open spec fn concerns(b: ActiveBan, ip: Seq<char>) -> bool {
    b.ip@ == ip || b.value@ == ip
}

/// The decisions that concern `ip`, in order.
pub open spec fn bans_of(items: Seq<ActiveBan>, ip: Seq<char>) -> Seq<ActiveBan>
    decreases items.len(),
{
    if items.len() == 0 {
        Seq::empty()
    } else {
        let r = bans_of(items.drop_last(), ip);
        if concerns(items.last(), ip) {
            r.push(items.last())
        } else {
            r
        }
    }
}

/// The least non-empty creation time of `bans`, or empty.
pub open spec fn earliest_created(bans: Seq<ActiveBan>) -> Seq<char>
    decreases bans.len(),
{
    if bans.len() == 0 {
        Seq::empty()
    } else {
        let r = earliest_created(bans.drop_last());
        let c = bans.last().created_at@;
        if c.len() > 0 && (r.len() == 0 || str_less(c, r)) {
            c
        } else {
            r
        }
    }
}

/// The first non-empty duration of `bans`, or empty.
pub open spec fn first_duration(bans: Seq<ActiveBan>) -> Seq<char>
    decreases bans.len(),
{
    if bans.len() == 0 {
        Seq::empty()
    } else if bans[0].duration@.len() > 0 {
        bans[0].duration@
    } else {
        first_duration(bans.drop_first())
    }
}

/// The active decisions of one address.
pub struct BansForIp {
    pub count: usize,
    /// The earliest creation time among them.
    pub since: String,
    /// The first duration given among them.
    pub remaining: String,
    pub items: Vec<ActiveBan>,
}

/// The active decisions of `ip`, with the earliest creation time and the
/// first remaining duration among them.
pub fn bans_for_ip(items: &Vec<ActiveBan>, ip: &str) -> (r: BansForIp)
    ensures
        r.count == bans_of(items@, ip@).len(),
        r.items.len() == bans_of(items@, ip@).len(),
        forall|j: int|
            0 <= j < r.items.len() ==> crate::decisions::same_ban(
                #[trigger] r.items@[j],
                bans_of(items@, ip@)[j],
            ),
        r.since@ == earliest_created(bans_of(items@, ip@)),
        r.remaining@ == first_duration(bans_of(items@, ip@)),
{
    let mut kept: Vec<ActiveBan> = Vec::new();
    let mut since = String::new();
    let mut i: usize = 0;
    proof {
        reveal_strlit("");
    }
    while i < items.len()
        invariant
            i <= items.len(),
            kept.len() == bans_of(items@.take(i as int), ip@).len(),
            forall|j: int|
                0 <= j < kept.len() ==> crate::decisions::same_ban(
                    #[trigger] kept@[j],
                    bans_of(items@.take(i as int), ip@)[j],
                ),
            since@ == earliest_created(bans_of(items@.take(i as int), ip@)),
        decreases items.len() - i,
    {
        let ghost pre = items@.take(i as int);
        assert(items@.take(i + 1).drop_last() =~= pre);
        assert(items@.take(i + 1).last() == items@[i as int]);
        let b = &items[i];
        if str_eq(b.ip.as_str(), ip) || str_eq(b.value.as_str(), ip) {
            let ghost k1 = bans_of(items@.take(i + 1), ip@);
            assert(k1.drop_last() =~= bans_of(pre, ip@));
            let c = b.created_at.as_str();
            if !c.is_empty() && (since.as_str().is_empty() || crate::aggregate::less_than(
                c,
                since.as_str(),
            )) {
                since = to_owned_string(c);
            }
            kept.push(crate::decisions::copy_ban(b));
        }
        i = i + 1;
    }
    assert(items@.take(items.len() as int) =~= items@);
    let ghost kv = bans_of(items@, ip@);
    let mut remaining = String::new();
    let mut k: usize = 0;
    assert(kv.skip(0) =~= kv);
    while k < kept.len()
        invariant_except_break
            remaining@.len() == 0,
        invariant
            k <= kept.len() == kv.len(),
            forall|j: int| 0 <= j < kept.len() ==> crate::decisions::same_ban(#[trigger] kept@[j], kv[j]),
            first_duration(kv.skip(k as int)) == first_duration(kv),
        ensures
            remaining@ == first_duration(kv),
        decreases kept.len() - k,
    {
        let ghost rest = kv.skip(k as int);
        assert(rest[0] == kv[k as int]);
        assert(crate::decisions::same_ban(kept@[k as int], kv[k as int]));
        if !kept[k].duration.as_str().is_empty() {
            remaining = to_owned_string(kept[k].duration.as_str());
            break;
        }
        assert(rest.drop_first() =~= kv.skip(k + 1));
        k = k + 1;
    }
    proof {
        if k == kept.len() {
            assert(kv.skip(k as int) =~= Seq::<ActiveBan>::empty());
        }
    }
    BansForIp { count: kept.len(), since, remaining, items: kept }
}

/// What the history records of one alert.
pub struct HistoryRecord {
    pub id: String,
    pub seen_at: String,
    pub seen_at_ms: i64,
    pub ip: String,
    pub cidr24: String,
    pub as_name: String,
    pub country: String,
    pub scenario: String,
    pub event_count: i64,
}

/// The milliseconds since the epoch of an RFC 3339 text, where it reads as
/// one and they fit in 64 bits.
pub open spec fn text_millis(text: Seq<char>) -> Option<int> {
    match rfc3339_parse(text) {
        Some((secs, nanos)) => {
            let ms = (UtcTime { secs, nanos }).millis();
            if i64::MIN <= secs * 1000 && ms <= i64::MAX {
                Some(ms)
            } else {
                None
            }
        },
        None => None,
    }
}

/// The record of an alert: seen at its creation time, or at `now` where it
/// has none; the time in milliseconds, or `now_ms` where it does not read as
/// RFC 3339; country `??` and scenario `unknown` where they are empty.
pub open spec fn record_of(a: Alert, now: Seq<char>, now_ms: i64, r: HistoryRecord) -> bool {
    let seen_at = if a.created_at@.len() == 0 {
        now
    } else {
        a.created_at@
    };
    &&& r.id@ == a.id@
    &&& r.seen_at@ == seen_at
    &&& r.seen_at_ms == match text_millis(seen_at) {
        Some(ms) => ms,
        None => now_ms as int,
    }
    &&& r.ip@ == a.ip@
    &&& r.cidr24@ == cidr24(a.ip@)
    &&& r.as_name@ == a.as_name@
    &&& r.country@ == if a.country@.len() == 0 {
        "??"@
    } else {
        a.country@
    }
    &&& r.scenario@ == if a.scenario@.len() == 0 {
        "unknown"@
    } else {
        a.scenario@
    }
    &&& r.event_count == a.count
}

fn text_millis_exec(text: &str) -> (r: Option<i64>)
    ensures
        match r {
            Some(ms) => text_millis(text@) == Some(ms as int),
            None => text_millis(text@) is None,
        },
{
    match parse_rfc3339(text) {
        Some(t) => {
            if t.secs < -9_223_372_036_854_775 || t.secs > 9_223_372_036_854_775 {
                assert(!(i64::MIN <= t.secs * 1000 && t.millis() <= i64::MAX)) by (nonlinear_arith)
                    requires
                        t.secs < -9_223_372_036_854_775 || t.secs > 9_223_372_036_854_775,
                        t.millis() == t.secs * 1000 + t.nanos / 1_000_000,
                        t.nanos / 1_000_000 >= 0,
                ;
                return None;
            }
            assert(-9_223_372_036_854_775_000 <= t.secs * 1000 <= 9_223_372_036_854_775_000)
                by (nonlinear_arith)
                requires
                    -9_223_372_036_854_775 <= t.secs <= 9_223_372_036_854_775,
            ;
            let base = t.secs * 1000;
            let extra = (t.nanos / 1_000_000) as i64;
            if base <= i64::MAX - extra {
                Some(base + extra)
            } else {
                None
            }
        },
        None => None,
    }
}

/// The history record of one alert.
pub fn history_record(a: &Alert, now: &str, now_ms: i64) -> (r: HistoryRecord)
    ensures
        record_of(*a, now@, now_ms, r),
{
    let seen_at = if a.created_at.as_str().is_empty() {
        to_owned_string(now)
    } else {
        to_owned_string(a.created_at.as_str())
    };
    let seen_at_ms = match text_millis_exec(seen_at.as_str()) {
        Some(ms) => ms,
        None => now_ms,
    };
    HistoryRecord {
        id: to_owned_string(a.id.as_str()),
        seen_at,
        seen_at_ms,
        ip: to_owned_string(a.ip.as_str()),
        cidr24: to_cidr24(a.ip.as_str()),
        as_name: to_owned_string(a.as_name.as_str()),
        country: if a.country.as_str().is_empty() {
            to_owned_string("??")
        } else {
            to_owned_string(a.country.as_str())
        },
        scenario: if a.scenario.as_str().is_empty() {
            to_owned_string("unknown")
        } else {
            to_owned_string(a.scenario.as_str())
        },
        event_count: a.count,
    }
}

/// Milliseconds in a day.
pub const DAY_MS: i64 = 86_400_000;

/// The time before which history rows are pruned: `days` days before
/// `now_ms`.
pub fn retention_cutoff(now_ms: i64, days: u64) -> (r: i64)
    requires
        days * DAY_MS <= i64::MAX,
        i64::MIN <= now_ms - days * DAY_MS,
    ensures
        r == now_ms - days * DAY_MS,
{
    assert(days <= 106_751_991_167) by (nonlinear_arith)
        requires
            days * 86_400_000 <= i64::MAX,
    ;
    now_ms - (days as i64) * DAY_MS
}

/// The state of the running image against the published one.
pub struct UpdateStatus {
    /// `current`, `update_available` or `unavailable`.
    pub state: String,
    pub message: String,
    pub image: String,
    pub running_revision: String,
    pub dev_revision: String,
    pub dev_url: String,
}

/// The update status from the running image (image, revision) and the
/// published one (revision, URL): unavailable with the errors joined where
/// either could not be read; otherwise current when the revisions agree.
pub fn update_status(
    runtime: &Result<(String, String), String>,
    remote: &Result<(String, String), String>,
) -> (r: UpdateStatus)
    ensures
        match (runtime, remote) {
            (Ok(a), Ok(b)) => {
                &&& r.state@ == if a.1@ == b.0@ {
                    "current"@
                } else {
                    "update_available"@
                }
                &&& r.message@ == if a.1@ == b.0@ {
                    "Running image matches the GitHub dev branch."@
                } else {
                    "A newer dev image is available. Run Force Update in Unraid."@
                }
                &&& r.image@ == a.0@ && r.running_revision@ == a.1@
                &&& r.dev_revision@ == b.0@ && r.dev_url@ == b.1@
            },
            _ => {
                &&& r.state@ == "unavailable"@
                &&& r.message@ == join(
                    match (runtime, remote) {
                        (Err(e1), Err(e2)) => seq![e1@, e2@],
                        (Err(e1), Ok(_)) => seq![e1@],
                        (Ok(_), Err(e2)) => seq![e2@],
                        (Ok(_), Ok(_)) => Seq::empty(),
                    },
                    " | "@,
                )
                &&& r.image@ == match runtime {
                    Ok(a) => a.0@,
                    Err(_) => Seq::empty(),
                }
                &&& r.running_revision@ == match runtime {
                    Ok(a) => a.1@,
                    Err(_) => Seq::empty(),
                }
                &&& r.dev_revision@ == match remote {
                    Ok(b) => b.0@,
                    Err(_) => Seq::empty(),
                }
                &&& r.dev_url@ == match remote {
                    Ok(b) => b.1@,
                    Err(_) => Seq::empty(),
                }
            },
        },
{
    match (runtime, remote) {
        (Ok(a), Ok(b)) => {
            let current = str_eq(a.1.as_str(), b.0.as_str());
            UpdateStatus {
                state: to_owned_string(
                    if current {
                        "current"
                    } else {
                        "update_available"
                    },
                ),
                message: to_owned_string(
                    if current {
                        "Running image matches the GitHub dev branch."
                    } else {
                        "A newer dev image is available. Run Force Update in Unraid."
                    },
                ),
                image: to_owned_string(a.0.as_str()),
                running_revision: to_owned_string(a.1.as_str()),
                dev_revision: to_owned_string(b.0.as_str()),
                dev_url: to_owned_string(b.1.as_str()),
            }
        },
        _ => {
            let mut errors: Vec<String> = Vec::new();
            match runtime {
                Err(e) => errors.push(to_owned_string(e.as_str())),
                Ok(_) => {},
            }
            match remote {
                Err(e) => errors.push(to_owned_string(e.as_str())),
                Ok(_) => {},
            }
            let ghost expected = match (runtime, remote) {
                (Err(e1), Err(e2)) => seq![e1@, e2@],
                (Err(e1), Ok(_)) => seq![e1@],
                (Ok(_), Err(e2)) => seq![e2@],
                (Ok(_), Ok(_)) => Seq::<Seq<char>>::empty(),
            };
            assert(strings_view(errors@) =~= expected);
            UpdateStatus {
                state: to_owned_string("unavailable"),
                message: join_strings(&errors, " | "),
                image: match runtime {
                    Ok(a) => to_owned_string(a.0.as_str()),
                    Err(_) => String::new(),
                },
                running_revision: match runtime {
                    Ok(a) => to_owned_string(a.1.as_str()),
                    Err(_) => String::new(),
                },
                dev_revision: match remote {
                    Ok(b) => to_owned_string(b.0.as_str()),
                    Err(_) => String::new(),
                },
                dev_url: match remote {
                    Ok(b) => to_owned_string(b.1.as_str()),
                    Err(_) => String::new(),
                },
            }
        },
    }
}

/// The image and revision of the running container, from what the engine
/// reported of it (whether it had a configuration, its image, and its
/// revision label), or the first thing missing.
pub fn runtime_revision(has_config: bool, image: Option<String>, revision: Option<String>) -> (r:
    Result<(String, String), String>)
    ensures
        !has_config ==> (r matches Err(e) && e@ == "Container configuration is unavailable"@),
        has_config && image is None ==> (r matches Err(e) && e@ == "Container image is unavailable"@),
        has_config && image is Some && revision is None ==> (r matches Err(e) && e@
            == "The running image does not expose a Git revision label"@),
        has_config && image is Some && revision is Some ==> (r matches Ok(p) && p.0@
            == image.unwrap()@ && p.1@ == revision.unwrap()@),
{
    if !has_config {
        return Err(to_owned_string("Container configuration is unavailable"));
    }
    let image = match image {
        Some(i) => i,
        None => return Err(to_owned_string("Container image is unavailable")),
    };
    match revision {
        Some(rev) => Ok((image, rev)),
        None => Err(to_owned_string("The running image does not expose a Git revision label")),
    }
}

/// Which local API credentials are set, from the settings and from the
/// stored credentials file.
pub struct LapiStatus {
    pub watcher_configured: bool,
    pub decisions_configured: bool,
    /// Credentials come from the stored file.
    pub managed: bool,
}

/// The local API credential status: a watcher needs a login and a
/// password, decisions an API key, each from the settings or the file.
pub fn lapi_status(config: &crate::config::Config, stored: &crate::json::JsonValue) -> (r: LapiStatus)
    ensures
        ({
            let login = crate::json::unwrap_or(crate::json::as_str(crate::json::get(*stored, "login"@)), Seq::empty());
            let password = crate::json::unwrap_or(crate::json::as_str(crate::json::get(*stored, "password"@)), Seq::empty());
            let key = crate::json::unwrap_or(crate::json::as_str(crate::json::get(*stored, "apiKey"@)), Seq::empty());
            let watcher_file = login.len() > 0 && password.len() > 0;
            let decisions_file = key.len() > 0;
            &&& r.watcher_configured == ((config.lapi_login@.len() > 0 && config.lapi_password@.len()
                > 0) || watcher_file)
            &&& r.decisions_configured == (config.lapi_api_key@.len() > 0 || decisions_file)
            &&& r.managed == (watcher_file || decisions_file)
        }),
{
    proof {
        reveal_strlit("");
        assert(""@ =~= Seq::<char>::empty());
    }
    let login = crate::json::str_or(crate::json::str_field(stored, "login"), "");
    let password = crate::json::str_or(crate::json::str_field(stored, "password"), "");
    let key = crate::json::str_or(crate::json::str_field(stored, "apiKey"), "");
    let watcher_env = !config.lapi_login.as_str().is_empty() && !config.lapi_password.as_str().is_empty();
    let decisions_env = !config.lapi_api_key.as_str().is_empty();
    let watcher_file = !login.as_str().is_empty() && !password.as_str().is_empty();
    let decisions_file = !key.as_str().is_empty();
    LapiStatus {
        watcher_configured: watcher_env || watcher_file,
        decisions_configured: decisions_env || decisions_file,
        managed: watcher_file || decisions_file,
    }
}

/// Where the public address shown comes from: `unavailable` when there is
/// none.
pub fn public_ip_source(ip: &str) -> (r: &'static str)
    ensures
        r@ == if ip@.len() == 0 {
            "unavailable"@
        } else {
            "configured"@
        },
{
    if ip.is_empty() {
        "unavailable"
    } else {
        "configured"
    }
}

/// A source of active decisions.
pub enum DecisionSource {
    /// The local API, with the bouncer key.
    Lapi,
    /// `cscli decisions list` in the CrowdSec container.
    Cscli,
}

/// The sources of active decisions, in the order they are tried: the local
/// API first where a bouncer key is set, and `cscli` in any case.
pub fn decision_sources(lapi_api_key: &str) -> (r: Vec<DecisionSource>)
    ensures
        lapi_api_key@.len() > 0 ==> r@ == seq![DecisionSource::Lapi, DecisionSource::Cscli],
        lapi_api_key@.len() == 0 ==> r@ == seq![DecisionSource::Cscli],
{
    if lapi_api_key.is_empty() {
        let r = vec![DecisionSource::Cscli];
        assert(r@ =~= seq![DecisionSource::Cscli]);
        r
    } else {
        let r = vec![DecisionSource::Lapi, DecisionSource::Cscli];
        assert(r@ =~= seq![DecisionSource::Lapi, DecisionSource::Cscli]);
        r
    }
}

/// Active decisions kept for a while, with the time (on a monotonic clock,
/// in milliseconds) at which they expire.
pub struct CachedActiveBans {
    pub expires_at_ms: u64,
    pub items: Vec<ActiveBan>,
}

impl CachedActiveBans {
    /// Cached data is served while it has not expired.
    pub fn is_fresh(&self, now_ms: u64) -> (r: bool)
        ensures
            r == (self.expires_at_ms > now_ms),
    {
        self.expires_at_ms > now_ms
    }
}

/// How long attack data is cached: the configured seconds, at least one.
pub fn attacks_cache_seconds(config: &crate::config::Config) -> (r: u64)
    ensures
        r == if config.attacks_cache_seconds < 1 {
            1
        } else {
            config.attacks_cache_seconds
        },
{
    if config.attacks_cache_seconds < 1 {
        1
    } else {
        config.attacks_cache_seconds
    }
}

} // verus!
