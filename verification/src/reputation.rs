//! Address reputation from CrowdSec CTI: the verdict and its wording, the
//! strings collected from a CTI answer, the freshness of cached answers and
//! the request counters of the cache.

use vstd::prelude::*;
use crate::aggregate::{add_distinct, distinct, order_by_text, stable_by_text};
use crate::json::{as_array, as_str, deref_opt, JsonValue};
use crate::text::{concat2, str_eq, strings_view, to_owned_string, trim, trim_str, append_str};
use crate::time::{parse_rfc3339, rfc3339_parse, UtcTime};

verus! {

/// The verdict on an address.
pub enum ReputationStatus {
    FalsePositive,
    Malicious,
    Suspicious,
    Unknown,
}

/// The verdict on an address. A possible false positive comes before all
/// else. Malicious: a high score (`high_score`, a maliciousness of 0.8 or
/// more) or at least three behaviours. Suspicious: some score (`some_score`,
/// 0.35 or more) or any behaviour. Otherwise unknown.
pub open spec fn verdict(
    false_positive: bool,
    high_score: bool,
    some_score: bool,
    behaviors: nat,
) -> ReputationStatus {
    if false_positive {
        ReputationStatus::FalsePositive
    } else if high_score || behaviors >= 3 {
        ReputationStatus::Malicious
    } else if some_score || behaviors > 0 {
        ReputationStatus::Suspicious
    } else {
        ReputationStatus::Unknown
    }
}

/// Decides the verdict on an address.
pub fn reputation_status(false_positive: bool, high_score: bool, some_score: bool, behaviors: usize) -> (r:
    ReputationStatus)
    ensures
        r == verdict(false_positive, high_score, some_score, behaviors as nat),
{
    if false_positive {
        ReputationStatus::FalsePositive
    } else if high_score || behaviors >= 3 {
        ReputationStatus::Malicious
    } else if some_score || behaviors > 0 {
        ReputationStatus::Suspicious
    } else {
        ReputationStatus::Unknown
    }
}

impl ReputationStatus {
    /// The name of the verdict.
    pub fn name(&self) -> (r: &'static str)
        ensures
            r@ == match self {
                ReputationStatus::FalsePositive => "false_positive"@,
                ReputationStatus::Malicious => "malicious"@,
                ReputationStatus::Suspicious => "suspicious"@,
                ReputationStatus::Unknown => "unknown"@,
            },
    {
        match self {
            ReputationStatus::FalsePositive => "false_positive",
            ReputationStatus::Malicious => "malicious",
            ReputationStatus::Suspicious => "suspicious",
            ReputationStatus::Unknown => "unknown",
        }
    }

    /// The sentence shown for the verdict.
    pub fn summary(&self) -> (r: &'static str)
        ensures
            r@ == match self {
                ReputationStatus::FalsePositive => "Flagged as possible false positive by CrowdSec CTI."@,
                ReputationStatus::Malicious => "Known aggressive IP in CrowdSec CTI."@,
                ReputationStatus::Suspicious => "CrowdSec CTI has suspicious behavior context for this IP."@,
                ReputationStatus::Unknown => "No strong malicious reputation signal returned by CrowdSec CTI."@,
            },
    {
        match self {
            ReputationStatus::FalsePositive => "Flagged as possible false positive by CrowdSec CTI.",
            ReputationStatus::Malicious => "Known aggressive IP in CrowdSec CTI.",
            ReputationStatus::Suspicious => "CrowdSec CTI has suspicious behavior context for this IP.",
            ReputationStatus::Unknown => "No strong malicious reputation signal returned by CrowdSec CTI.",
        }
    }
}

/// The trimmed, non-empty strings of the arrays among `values`, in order.
pub open spec fn array_strings(values: Seq<Option<JsonValue>>) -> Seq<Seq<char>>
    decreases values.len(),
{
    if values.len() == 0 {
        Seq::empty()
    } else {
        array_strings(values.drop_last()) + match as_array(values.last()) {
            Some(a) => item_strings(a),
            None => Seq::empty(),
        }
    }
}

/// The trimmed, non-empty strings among `items`, in order.
pub open spec fn item_strings(items: Seq<JsonValue>) -> Seq<Seq<char>>
    decreases items.len(),
{
    if items.len() == 0 {
        Seq::empty()
    } else {
        let r = item_strings(items.drop_last());
        match as_str(Some(items.last())) {
            Some(s) => if trim(s).len() > 0 {
                r.push(trim(s))
            } else {
                r
            },
            None => r,
        }
    }
}

/// `r` lists each string of `s` once, in ascending order.
pub open spec fn sorted_distinct(s: Seq<Seq<char>>, r: Seq<Seq<char>>) -> bool {
    let d = distinct(s);
    &&& r.len() == d.len()
    &&& exists|order: Seq<usize>|
        #[trigger] stable_by_text(d, false, order) && forall|j: int|
            0 <= j < r.len() ==> #[trigger] r[j] == d[order[j] as int]
}

fn add_item_strings(out: &mut Vec<String>, items: &Vec<JsonValue>)
    ensures
        strings_view(final(out)@) == crate::aggregate::distinct_add_all(
            strings_view(old(out)@),
            item_strings(items@),
        ),
{
    let ghost start = strings_view(out@);
    let mut i: usize = 0;
    while i < items.len()
        invariant
            i <= items.len(),
            strings_view(out@) == crate::aggregate::distinct_add_all(
                start,
                item_strings(items@.take(i as int)),
            ),
        decreases items.len() - i,
    {
        let ghost pre = items@.take(i as int);
        assert(items@.take(i + 1).drop_last() =~= pre);
        assert(items@.take(i + 1).last() == items@[i as int]);
        match items[i].as_str() {
            Some(s) => {
                let t = trim_str(s);
                if !t.as_str().is_empty() {
                    let ghost is = item_strings(items@.take(i + 1));
                    assert(is.drop_last() =~= item_strings(pre));
                    add_distinct(out, t.as_str());
                }
            },
            None => {},
        }
        i = i + 1;
    }
    assert(items@.take(items.len() as int) =~= items@);
}

/// The strings of the given arrays (missing values and other members are
/// skipped), trimmed, without blanks or repeats, in ascending order.
pub fn collect_strings(values: &Vec<Option<&JsonValue>>) -> (r: Vec<String>)
    ensures
        sorted_distinct(
            array_strings(values@.map_values(|v: Option<&JsonValue>| deref_opt(v))),
            strings_view(r@),
        ),
{
    let ghost vs = values@.map_values(|v: Option<&JsonValue>| deref_opt(v));
    let mut found: Vec<String> = Vec::new();
    let mut i: usize = 0;
    assert(distinct(array_strings(vs.take(0))) =~= Seq::<Seq<char>>::empty());
    while i < values.len()
        invariant
            i <= values.len(),
            vs == values@.map_values(|v: Option<&JsonValue>| deref_opt(v)),
            strings_view(found@) == distinct(array_strings(vs.take(i as int))),
        decreases values.len() - i,
    {
        let ghost pre = vs.take(i as int);
        assert(vs.take(i + 1).drop_last() =~= pre);
        assert(vs.take(i + 1).last() == vs[i as int]);
        match values[i] {
            Some(v) => match v.as_array() {
                Some(a) => {
                    proof {
                        crate::aggregate::lemma_distinct_add_all(
                            array_strings(pre),
                            item_strings(a@),
                        );
                    }
                    add_item_strings(&mut found, a);
                },
                None => {
                    assert(array_strings(vs.take(i + 1)) =~= array_strings(pre));
                },
            },
            None => {
                assert(array_strings(vs.take(i + 1)) =~= array_strings(pre));
            },
        }
        i = i + 1;
    }
    assert(vs.take(values.len() as int) =~= vs);
    let order = order_by_text(&found, false);
    let ghost d = strings_view(found@);
    let mut r: Vec<String> = Vec::new();
    let mut j: usize = 0;
    while j < order.len()
        invariant
            j <= order.len() == found.len(),
            d == strings_view(found@),
            stable_by_text(d, false, order@),
            r.len() == j,
            forall|q: int| 0 <= q < j ==> (#[trigger] r@[q])@ == d[order@[q] as int],
        decreases order.len() - j,
    {
        r.push(to_owned_string(found[order[j]].as_str()));
        j = j + 1;
    }
    assert(strings_view(r@).len() == d.len());
    assert(stable_by_text(d, false, order@));
    r
}

/// Milliseconds in an hour.
pub const HOUR_MS: i128 = 3_600_000;

/// A cached answer is fresh when its `cachedAt` reads as RFC 3339 and is
/// less than `cache_hours` old at `now_ms`.
pub open spec fn cache_fresh(now_ms: i64, cached_at: Seq<char>, cache_hours: u64) -> bool {
    match rfc3339_parse(cached_at) {
        Some((secs, nanos)) => now_ms - (UtcTime { secs, nanos }).millis() < cache_hours
            * HOUR_MS,
        None => false,
    }
}

/// Whether a cached answer can be served.
pub fn cache_entry_fresh(now_ms: i64, cached_at: &str, cache_hours: u64) -> (r: bool)
    ensures
        r == cache_fresh(now_ms, cached_at@, cache_hours),
{
    match parse_rfc3339(cached_at) {
        Some(t) => {
            let ms = (t.secs as i128) * 1000 + ((t.nanos / 1_000_000) as i128);
            let age = (now_ms as i128) - ms;
            age < (cache_hours as i128) * HOUR_MS
        },
        None => false,
    }
}

/// The CTI request for an address: the API base without trailing slashes,
/// then `/smoke/` and the address.
pub fn cti_url(api_url: &str, ip: &str) -> (r: String)
    ensures
        r@ == crate::security_report::strip_trailing(api_url@, '/') + "/smoke/"@ + ip@,
{
    let v = crate::text::chars_of(api_url);
    let mut end: usize = v.len();
    assert(v@.take(v.len() as int) =~= v@);
    while end > 0 && v[end - 1] == '/'
        invariant
            end <= v.len(),
            crate::security_report::strip_trailing(v@.take(end as int), '/')
                == crate::security_report::strip_trailing(v@, '/'),
        decreases end,
    {
        assert(v@.take(end as int).drop_last() =~= v@.take(end - 1));
        end = end - 1;
    }
    let mut r = crate::text::string_from_range(&v, 0, end);
    assert(r@ =~= v@.take(end as int));
    append_str(&mut r, "/smoke/");
    append_str(&mut r, ip);
    r
}

/// The CrowdSec console and Shodan pages of an address.
pub fn reputation_links(ip: &str) -> (r: (String, String))
    ensures
        r.0@ == "https://app.crowdsec.net/cti/"@ + ip@,
        r.1@ == "https://www.shodan.io/host/"@ + ip@,
{
    (concat2("https://app.crowdsec.net/cti/", ip), concat2("https://www.shodan.io/host/", ip))
}

/// The request counters of the CTI cache for one month.
pub struct CtiStats {
    /// The month counted, as `YYYY-MM`.
    pub period: String,
    pub network_requests: i64,
    pub cache_hits: i64,
}

/// Which counter to raise.
pub enum CtiCounter {
    NetworkRequests,
    CacheHits,
}

/// Counts one request in `period`: the counters start again at zero when
/// the month changed.
pub fn bump_cti_stats(stats: &mut CtiStats, period: &str, counter: CtiCounter)
    requires
        old(stats).period@ == period@ ==> match counter {
            CtiCounter::NetworkRequests => old(stats).network_requests < i64::MAX,
            CtiCounter::CacheHits => old(stats).cache_hits < i64::MAX,
        },
    ensures
        final(stats).period@ == period@,
        ({
            let (n, h) = if old(stats).period@ == period@ {
                (old(stats).network_requests as int, old(stats).cache_hits as int)
            } else {
                (0int, 0int)
            };
            match counter {
                CtiCounter::NetworkRequests => final(stats).network_requests == n + 1
                    && final(stats).cache_hits == h,
                CtiCounter::CacheHits => final(stats).network_requests == n
                    && final(stats).cache_hits == h + 1,
            }
        }),
{
    if !str_eq(stats.period.as_str(), period) {
        stats.period = to_owned_string(period);
        stats.network_requests = 0;
        stats.cache_hits = 0;
    }
    match counter {
        CtiCounter::NetworkRequests => {
            stats.network_requests = stats.network_requests + 1;
        },
        CtiCounter::CacheHits => {
            stats.cache_hits = stats.cache_hits + 1;
        },
    }
}

} // verus!
