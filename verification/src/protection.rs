//! Proxy access log scans: requests and refused requests by hour and by host.

use vstd::prelude::*;
use crate::aggregate::{
    add_amount, amounts, counts_view, find, lemma_find, lemma_total_add_amount, order_by_text,
    order_desc, stable_by_text, stable_desc, tally, tally_add, total, CountMap,
};
use crate::parsers::{line_host, line_timestamp, parse_host, parse_line_timestamp, LogPatterns};
use crate::text::{contains, contains_str, strings_view, to_owned_string};
use crate::time::{format_utc, utc_formatted, UtcTime};

verus! {

/// The hour bucket an instant falls in.
pub const HOUR_FORMAT: &'static str = "%Y-%m-%dT%H:00:00Z";

/// The host of a line that names none.
pub const UNKNOWN_HOST: &'static str = "unknown host";

/// How many hosts a summary lists.
pub const HOST_LIMIT: usize = 20;

/// A refused request: `403` anywhere in the line, or a ` 429 ` or ` 444 `
/// status.
pub open spec fn is_refused(line: Seq<char>) -> bool {
    contains(line, "403"@) || contains(line, " 429 "@) || contains(line, " 444 "@)
}

/// Whether a log line records a refused request.
pub fn line_is_refused(line: &str) -> (r: bool)
    ensures
        r == is_refused(line@),
{
    contains_str(line, "403") || contains_str(line, " 429 ") || contains_str(line, " 444 ")
}

/// The host named in a line, or `unknown host`.
pub open spec fn host_label(line: Seq<char>) -> Seq<char> {
    match line_host(line) {
        Some(h) => h,
        None => UNKNOWN_HOST@,
    }
}

/// A line is counted when it carries a timestamp no earlier than `since`.
pub open spec fn counted(line: Seq<char>, since: UtcTime) -> bool {
    match line_timestamp(line) {
        Some((secs, nanos)) => !(UtcTime { secs, nanos }).earlier(since),
        None => false,
    }
}

/// The hour bucket of a line's timestamp.
pub open spec fn hour_of(line: Seq<char>) -> Seq<char> {
    match line_timestamp(line) {
        Some((secs, nanos)) => utc_formatted(secs, nanos, HOUR_FORMAT@),
        None => Seq::empty(),
    }
}

/// What the counted lines of a run add: for each, its label (host or hour)
/// and one, or, counting refusals only, one for a refused request and zero
/// for another.
pub open spec fn line_pairs(
    lines: Seq<Seq<char>>,
    since: UtcTime,
    by_host: bool,
    refusals: bool,
) -> Seq<(Seq<char>, int)>
    decreases lines.len(),
{
    if lines.len() == 0 {
        Seq::empty()
    } else {
        let r = line_pairs(lines.drop_last(), since, by_host, refusals);
        let l = lines.last();
        if counted(l, since) {
            r.push(
                (
                    if by_host {
                        host_label(l)
                    } else {
                        hour_of(l)
                    },
                    if !refusals || is_refused(l) {
                        1int
                    } else {
                        0int
                    },
                ),
            )
        } else {
            r
        }
    }
}

/// `pairs` added one after the other to `t`.
pub open spec fn add_all(t: Seq<(Seq<char>, int)>, pairs: Seq<(Seq<char>, int)>) -> Seq<
    (Seq<char>, int),
>
    decreases pairs.len(),
{
    if pairs.len() == 0 {
        t
    } else {
        add_amount(add_all(t, pairs.drop_last()), pairs.last().0, pairs.last().1)
    }
}

/// The counted lines of a run.
pub open spec fn counted_lines(lines: Seq<Seq<char>>, since: UtcTime) -> nat
    decreases lines.len(),
{
    if lines.len() == 0 {
        0
    } else {
        counted_lines(lines.drop_last(), since) + if counted(lines.last(), since) {
            1nat
        } else {
            0nat
        }
    }
}

/// Requests and refused requests counted so far, by hour and by host.
pub struct ProxyTally {
    pub hour_requests: CountMap,
    pub hour_refused: CountMap,
    pub host_requests: CountMap,
    pub host_refused: CountMap,
    pub parsed_requests: i64,
}

/// Both maps list the same labels in the same order, and each refused count
/// lies between zero and the request count, which is at most `n`.
pub open spec fn paired(req: Seq<(Seq<char>, int)>, refused: Seq<(Seq<char>, int)>, n: int) -> bool {
    &&& req.len() == refused.len()
    &&& forall|j: int|
        #![trigger req[j]]
        #![trigger refused[j]]
        0 <= j < req.len() ==> req[j].0 == refused[j].0 && 0 <= refused[j].1 <= req[j].1 <= n
}

impl ProxyTally {
    /// The maps agree with each other and with the number of counted lines.
    pub open spec fn wf(self) -> bool {
        &&& 0 <= self.parsed_requests
        &&& paired(
            counts_view(self.hour_requests@),
            counts_view(self.hour_refused@),
            self.parsed_requests as int,
        )
        &&& paired(
            counts_view(self.host_requests@),
            counts_view(self.host_refused@),
            self.parsed_requests as int,
        )
        &&& total(counts_view(self.hour_requests@)) == self.parsed_requests
        &&& total(counts_view(self.host_requests@)) == self.parsed_requests
    }

    /// An empty tally.
    pub fn new() -> (r: ProxyTally)
        ensures
            r.wf(),
            r.parsed_requests == 0,
            r.hour_requests@.len() == 0,
            r.hour_refused@.len() == 0,
            r.host_requests@.len() == 0,
            r.host_refused@.len() == 0,
    {
        let r = ProxyTally {
            hour_requests: Vec::new(),
            hour_refused: Vec::new(),
            host_requests: Vec::new(),
            host_refused: Vec::new(),
            parsed_requests: 0,
        };
        assert(counts_view(r.hour_requests@) =~= Seq::empty());
        assert(counts_view(r.host_requests@) =~= Seq::empty());
        r
    }
}

/// Labels equal at every position are found at the same position.
proof fn lemma_find_paired(a: Seq<(Seq<char>, int)>, b: Seq<(Seq<char>, int)>, k: Seq<char>)
    requires
        a.len() == b.len(),
        forall|j: int| 0 <= j < a.len() ==> #[trigger] a[j].0 == b[j].0,
    ensures
        find(a, k) == find(b, k),
{
    lemma_find(a, k);
    lemma_find(b, k);
    let x = find(a, k);
    let y = find(b, k);
    if x >= 0 && y >= 0 {
        if x < y {
            assert(b[x].0 == a[x].0);
        } else if y < x {
            assert(a[y].0 == b[y].0);
        }
    } else if x >= 0 {
        assert(b[x].0 == a[x].0);
    } else if y >= 0 {
        assert(a[y].0 == b[y].0);
    }
}

/// Adding one request, refused or not, to the same label of two paired maps
/// keeps them paired.
proof fn lemma_paired_add(
    req: Seq<(Seq<char>, int)>,
    refused: Seq<(Seq<char>, int)>,
    n: int,
    k: Seq<char>,
    r: int,
)
    requires
        paired(req, refused, n),
        0 <= n,
        0 <= r <= 1,
    ensures
        paired(add_amount(req, k, 1), add_amount(refused, k, r), n + 1),
{
    lemma_find_paired(req, refused, k);
    lemma_find(req, k);
    let j = find(req, k);
    let a = add_amount(req, k, 1);
    let b = add_amount(refused, k, r);
    assert forall|q: int| #![trigger a[q]] #![trigger b[q]] 0 <= q < a.len() implies a[q].0 == b[q].0
        && 0 <= b[q].1 <= a[q].1 <= n + 1 by {
        if q < req.len() {
            assert(req[q].0 == refused[q].0);
        }
        if j >= 0 {
            if q != j {
                assert(a[q] == req[q] && b[q] == refused[q]);
            } else {
                assert(0 <= refused[q].1 <= req[q].1 <= n);
            }
        } else if q < req.len() {
            assert(a[q] == req[q] && b[q] == refused[q]);
        } else {
            assert(find(refused, k) < 0);
        }
    }
}

/// Counts one log line: a line with a timestamp no earlier than `since` adds
/// a request to its hour and its host, and a refused request too when the
/// line is refused; any other line changes nothing.
pub fn accumulate_proxy_line(p: &LogPatterns, line: &str, since: &UtcTime, t: &mut ProxyTally)
    requires
        old(t).wf(),
        old(t).parsed_requests < i64::MAX,
    ensures
        final(t).wf(),
        if counted(line@, *since) {
            let hour = hour_of(line@);
            let host = host_label(line@);
            let r = if is_refused(line@) {
                1int
            } else {
                0int
            };
            &&& final(t).parsed_requests == old(t).parsed_requests + 1
            &&& counts_view(final(t).hour_requests@) == add_amount(
                counts_view(old(t).hour_requests@),
                hour,
                1,
            )
            &&& counts_view(final(t).hour_refused@) == add_amount(
                counts_view(old(t).hour_refused@),
                hour,
                r,
            )
            &&& counts_view(final(t).host_requests@) == add_amount(
                counts_view(old(t).host_requests@),
                host,
                1,
            )
            &&& counts_view(final(t).host_refused@) == add_amount(
                counts_view(old(t).host_refused@),
                host,
                r,
            )
        } else {
            *final(t) == *old(t)
        },
{
    let ts = match parse_line_timestamp(p, line) {
        Some(ts) => ts,
        None => return ,
    };
    if ts.is_before(since) {
        return ;
    }
    let hour = match format_utc(&ts, HOUR_FORMAT) {
        Some(h) => h,
        None => return ,
    };
    let refused = line_is_refused(line);
    let host = match parse_host(p, line) {
        Some(h) => h,
        None => to_owned_string(UNKNOWN_HOST),
    };
    let r: i64 = if refused {
        1
    } else {
        0
    };
    let ghost n = t.parsed_requests as int;
    let ghost hr = counts_view(t.hour_requests@);
    let ghost hb = counts_view(t.hour_refused@);
    let ghost sr = counts_view(t.host_requests@);
    let ghost sb = counts_view(t.host_refused@);
    proof {
        assert forall|j: int| 0 <= j < t.hour_requests.len() implies i64::MIN
            <= #[trigger] t.hour_requests@[j].1 + 1 <= i64::MAX by {
            assert(hr[j].1 == t.hour_requests@[j].1);
        }
        assert forall|j: int| 0 <= j < t.hour_refused.len() implies i64::MIN
            <= #[trigger] t.hour_refused@[j].1 + r <= i64::MAX by {
            assert(hb[j].1 == t.hour_refused@[j].1);
            assert(hr[j].1 == t.hour_requests@[j].1);
        }
        assert forall|j: int| 0 <= j < t.host_requests.len() implies i64::MIN
            <= #[trigger] t.host_requests@[j].1 + 1 <= i64::MAX by {
            assert(sr[j].1 == t.host_requests@[j].1);
        }
        assert forall|j: int| 0 <= j < t.host_refused.len() implies i64::MIN
            <= #[trigger] t.host_refused@[j].1 + r <= i64::MAX by {
            assert(sb[j].1 == t.host_refused@[j].1);
            assert(sr[j].1 == t.host_requests@[j].1);
        }
        lemma_paired_add(hr, hb, n, hour@, r as int);
        lemma_paired_add(sr, sb, n, host@, r as int);
        lemma_total_add_amount(hr, hour@, 1);
        lemma_total_add_amount(sr, host@, 1);
    }
    t.parsed_requests = t.parsed_requests + 1;
    tally_add(&mut t.hour_requests, hour.as_str(), 1);
    tally_add(&mut t.hour_refused, hour.as_str(), r);
    tally_add(&mut t.host_requests, host.as_str(), 1);
    tally_add(&mut t.host_refused, host.as_str(), r);
}

proof fn lemma_counted_lines_bound(lines: Seq<Seq<char>>, since: UtcTime)
    ensures
        counted_lines(lines, since) <= lines.len(),
    decreases lines.len(),
{
    if lines.len() > 0 {
        lemma_counted_lines_bound(lines.drop_last(), since);
    }
}

/// Tallying a run of lines from nothing gives the tally of what they add:
/// one call per line builds the same table as one pass over all of them.
pub proof fn lemma_add_all_is_tally(pairs: Seq<(Seq<char>, int)>)
    ensures
        add_all(Seq::empty(), pairs) == tally(pairs),
    decreases pairs.len(),
{
    if pairs.len() > 0 {
        lemma_add_all_is_tally(pairs.drop_last());
    }
}

/// Counts each line of a run in turn, as `accumulate_proxy_line` does.
pub fn scan_lines(p: &LogPatterns, lines: &Vec<String>, since: &UtcTime, t: &mut ProxyTally)
    requires
        old(t).wf(),
        old(t).parsed_requests + lines.len() <= i64::MAX,
    ensures
        final(t).wf(),
        final(t).parsed_requests == old(t).parsed_requests + counted_lines(
            strings_view(lines@),
            *since,
        ),
        counts_view(final(t).hour_requests@) == add_all(
            counts_view(old(t).hour_requests@),
            line_pairs(strings_view(lines@), *since, false, false),
        ),
        counts_view(final(t).hour_refused@) == add_all(
            counts_view(old(t).hour_refused@),
            line_pairs(strings_view(lines@), *since, false, true),
        ),
        counts_view(final(t).host_requests@) == add_all(
            counts_view(old(t).host_requests@),
            line_pairs(strings_view(lines@), *since, true, false),
        ),
        counts_view(final(t).host_refused@) == add_all(
            counts_view(old(t).host_refused@),
            line_pairs(strings_view(lines@), *since, true, true),
        ),
{
    let ghost ls = strings_view(lines@);
    let ghost t0 = *t;
    let mut i: usize = 0;
    while i < lines.len()
        invariant
            i <= lines.len(),
            ls == strings_view(lines@),
            t0.parsed_requests + lines.len() <= i64::MAX,
            t.wf(),
            t.parsed_requests == t0.parsed_requests + counted_lines(ls.take(i as int), *since),
            counts_view(t.hour_requests@) == add_all(
                counts_view(t0.hour_requests@),
                line_pairs(ls.take(i as int), *since, false, false),
            ),
            counts_view(t.hour_refused@) == add_all(
                counts_view(t0.hour_refused@),
                line_pairs(ls.take(i as int), *since, false, true),
            ),
            counts_view(t.host_requests@) == add_all(
                counts_view(t0.host_requests@),
                line_pairs(ls.take(i as int), *since, true, false),
            ),
            counts_view(t.host_refused@) == add_all(
                counts_view(t0.host_refused@),
                line_pairs(ls.take(i as int), *since, true, true),
            ),
        decreases lines.len() - i,
    {
        let ghost pre = ls.take(i as int);
        let ghost nxt = ls.take(i + 1);
        assert(nxt.drop_last() =~= pre);
        assert(nxt.last() == lines@[i as int]@);
        proof {
            lemma_counted_lines_bound(pre, *since);
        }
        accumulate_proxy_line(p, lines[i].as_str(), since, t);
        proof {
            if counted(nxt.last(), *since) {
                let a = line_pairs(nxt, *since, false, false);
                assert(a.drop_last() =~= line_pairs(pre, *since, false, false));
                let b = line_pairs(nxt, *since, false, true);
                assert(b.drop_last() =~= line_pairs(pre, *since, false, true));
                let c = line_pairs(nxt, *since, true, false);
                assert(c.drop_last() =~= line_pairs(pre, *since, true, false));
                let d = line_pairs(nxt, *since, true, true);
                assert(d.drop_last() =~= line_pairs(pre, *since, true, true));
            }
        }
        i = i + 1;
    }
    assert(ls.take(lines.len() as int) =~= ls);
}

proof fn lemma_total_take(t: Seq<(Seq<char>, int)>, i: int)
    requires
        0 <= i < t.len(),
    ensures
        total(t.take(i + 1)) == total(t.take(i)) + t[i].1,
{
    assert(t.take(i + 1).drop_last() =~= t.take(i));
}

/// The refused requests of a prefix are no more than its requests.
proof fn lemma_paired_prefix(
    req: Seq<(Seq<char>, int)>,
    refused: Seq<(Seq<char>, int)>,
    n: int,
    i: int,
)
    requires
        paired(req, refused, n),
        0 <= i <= req.len(),
    ensures
        0 <= total(refused.take(i)) <= total(req.take(i)),
    decreases i,
{
    if i == 0 {
        assert(refused.take(0) =~= Seq::<(Seq<char>, int)>::empty());
        assert(req.take(0) =~= Seq::<(Seq<char>, int)>::empty());
    } else {
        lemma_paired_prefix(req, refused, n, i - 1);
        lemma_total_take(req, i - 1);
        lemma_total_take(refused, i - 1);
        assert(0 <= refused[i - 1].1 <= req[i - 1].1);
    }
}

/// The requests of a prefix are no more than all of them.
proof fn lemma_prefix_total(req: Seq<(Seq<char>, int)>, refused: Seq<(Seq<char>, int)>, n: int, i: int)
    requires
        paired(req, refused, n),
        0 <= i <= req.len(),
    ensures
        total(req.take(i)) <= total(req),
    decreases req.len() - i,
{
    if i == req.len() {
        assert(req.take(i) =~= req);
    } else {
        lemma_prefix_total(req, refused, n, i + 1);
        lemma_total_take(req, i);
        assert(0 <= refused[i].1 <= req[i].1);
    }
}

/// One host of a scan summary.
pub struct HostLoad {
    pub hostname: String,
    pub processed_requests: i64,
    pub refused_requests: i64,
}

/// One hour of a scan summary.
pub struct HourLoad {
    pub timestamp: String,
    pub processed_requests: i64,
    pub refused_requests: i64,
}

/// The totals, the busiest hosts and the timeline of a scan.
pub struct ProtectionSummary {
    pub parsed_requests: i64,
    pub processed_total: i64,
    pub refused_total: i64,
    /// At most `HOST_LIMIT` hosts, the most refused first.
    pub hosts: Vec<HostLoad>,
    /// Every hour bucket, in ascending order.
    pub timeline: Vec<HourLoad>,
}

/// The labels of a tally, in order.
pub open spec fn labels(t: Seq<(Seq<char>, int)>) -> Seq<Seq<char>> {
    t.map_values(|e: (Seq<char>, int)| e.0)
}

/// `r` lists the `HOST_LIMIT` hosts with the most refused requests, most
/// first, equal counts in the order of the tally.
pub open spec fn top_hosts(
    req: Seq<(Seq<char>, int)>,
    refused: Seq<(Seq<char>, int)>,
    r: Seq<HostLoad>,
) -> bool {
    &&& r.len() == if HOST_LIMIT < req.len() {
        HOST_LIMIT as int
    } else {
        req.len() as int
    }
    &&& exists|order: Seq<usize>|
        #[trigger] stable_desc(amounts(refused), order) && forall|j: int|
            0 <= j < r.len() ==> {
                let x = order[j] as int;
                &&& (#[trigger] r[j]).hostname@ == req[x].0
                &&& r[j].processed_requests == req[x].1
                &&& r[j].refused_requests == refused[x].1
            }
}

/// `r` lists every hour of the tally in ascending order of its text.
pub open spec fn hours_ascending(
    req: Seq<(Seq<char>, int)>,
    refused: Seq<(Seq<char>, int)>,
    r: Seq<HourLoad>,
) -> bool {
    &&& r.len() == req.len()
    &&& exists|order: Seq<usize>|
        #[trigger] stable_by_text(labels(req), false, order) && forall|j: int|
            0 <= j < r.len() ==> {
                let x = order[j] as int;
                &&& (#[trigger] r[j]).timestamp@ == req[x].0
                &&& r[j].processed_requests == req[x].1
                &&& r[j].refused_requests == refused[x].1
            }
}

fn sum_counts(req: &CountMap, refused: &CountMap, Ghost(n): Ghost<int>) -> (r: (i64, i64))
    requires
        paired(counts_view(req@), counts_view(refused@), n),
        total(counts_view(req@)) <= i64::MAX,
    ensures
        r.0 == total(counts_view(req@)),
        r.1 == total(counts_view(refused@)),
        0 <= r.1 <= r.0,
{
    let ghost a = counts_view(req@);
    let ghost b = counts_view(refused@);
    let mut s: i64 = 0;
    let mut f: i64 = 0;
    let mut i: usize = 0;
    while i < req.len()
        invariant
            i <= req.len(),
            a == counts_view(req@),
            b == counts_view(refused@),
            paired(a, b, n),
            total(a) <= i64::MAX,
            s == total(a.take(i as int)),
            f == total(b.take(i as int)),
        decreases req.len() - i,
    {
        proof {
            lemma_total_take(a, i as int);
            lemma_total_take(b, i as int);
            lemma_paired_prefix(a, b, n, i + 1);
            lemma_prefix_total(a, b, n, i + 1);
            assert(a[i as int].1 == req@[i as int].1);
            assert(b[i as int].1 == refused@[i as int].1);
        }
        s = s + req[i].1;
        f = f + refused[i].1;
        i = i + 1;
    }
    proof {
        lemma_paired_prefix(a, b, n, a.len() as int);
        assert(a.take(a.len() as int) =~= a);
        assert(b.take(b.len() as int) =~= b);
    }
    (s, f)
}

fn host_loads(req: &CountMap, refused: &CountMap) -> (r: Vec<HostLoad>)
    requires
        req.len() == refused.len(),
    ensures
        top_hosts(counts_view(req@), counts_view(refused@), r@),
{
    let ghost a = counts_view(req@);
    let ghost b = counts_view(refused@);
    let mut keys: Vec<i64> = Vec::new();
    let mut i: usize = 0;
    while i < refused.len()
        invariant
            i <= refused.len(),
            keys.len() == i,
            forall|j: int| 0 <= j < i ==> keys@[j] == refused@[j].1,
        decreases refused.len() - i,
    {
        keys.push(refused[i].1);
        i = i + 1;
    }
    assert(keys@.map_values(|k: i64| k as int) =~= amounts(b));
    let order = order_desc(&keys);
    let n = if HOST_LIMIT < req.len() {
        HOST_LIMIT
    } else {
        req.len()
    };
    let mut out: Vec<HostLoad> = Vec::new();
    let mut j: usize = 0;
    while j < n
        invariant
            j <= n <= req.len(),
            n == if HOST_LIMIT < req.len() {
                HOST_LIMIT
            } else {
                req.len()
            },
            req.len() == refused.len(),
            a == counts_view(req@),
            b == counts_view(refused@),
            order.len() == req.len(),
            stable_desc(amounts(b), order@),
            out.len() == j,
            forall|q: int|
                0 <= q < j ==> {
                    let x = order@[q] as int;
                    &&& (#[trigger] out@[q]).hostname@ == a[x].0
                    &&& out@[q].processed_requests == a[x].1
                    &&& out@[q].refused_requests == b[x].1
                },
        decreases n - j,
    {
        let ix = order[j];
        assert(ix < req.len());
        out.push(
            HostLoad {
                hostname: to_owned_string(req[ix].0.as_str()),
                processed_requests: req[ix].1,
                refused_requests: refused[ix].1,
            },
        );
        j = j + 1;
    }
    assert(stable_desc(amounts(b), order@));
    out
}

fn hour_loads(req: &CountMap, refused: &CountMap) -> (r: Vec<HourLoad>)
    requires
        req.len() == refused.len(),
    ensures
        hours_ascending(counts_view(req@), counts_view(refused@), r@),
{
    let ghost a = counts_view(req@);
    let ghost b = counts_view(refused@);
    let mut keys: Vec<String> = Vec::new();
    let mut i: usize = 0;
    while i < req.len()
        invariant
            i <= req.len(),
            keys.len() == i,
            forall|j: int| 0 <= j < i ==> (#[trigger] keys@[j])@ == req@[j].0@,
        decreases req.len() - i,
    {
        keys.push(to_owned_string(req[i].0.as_str()));
        i = i + 1;
    }
    assert(strings_view(keys@) =~= labels(a));
    let order = order_by_text(&keys, false);
    let mut out: Vec<HourLoad> = Vec::new();
    let mut j: usize = 0;
    while j < order.len()
        invariant
            j <= order.len(),
            order.len() == req.len(),
            req.len() == refused.len(),
            a == counts_view(req@),
            b == counts_view(refused@),
            stable_by_text(labels(a), false, order@),
            out.len() == j,
            forall|q: int|
                0 <= q < j ==> {
                    let x = order@[q] as int;
                    &&& (#[trigger] out@[q]).timestamp@ == a[x].0
                    &&& out@[q].processed_requests == a[x].1
                    &&& out@[q].refused_requests == b[x].1
                },
        decreases order.len() - j,
    {
        let ix = order[j];
        assert(ix < req.len());
        out.push(
            HourLoad {
                timestamp: to_owned_string(req[ix].0.as_str()),
                processed_requests: req[ix].1,
                refused_requests: refused[ix].1,
            },
        );
        j = j + 1;
    }
    assert(stable_by_text(labels(a), false, order@));
    out
}

/// The totals, busiest hosts and hourly timeline of a scan. Every counted
/// request belongs to exactly one host, so the processed total is the
/// number of counted lines, and no more requests are refused than processed.
pub fn summarize_scan(t: &ProxyTally) -> (r: ProtectionSummary)
    requires
        t.wf(),
    ensures
        r.parsed_requests == t.parsed_requests,
        r.processed_total == total(counts_view(t.host_requests@)),
        r.processed_total == t.parsed_requests,
        r.refused_total == total(counts_view(t.host_refused@)),
        0 <= r.refused_total <= r.processed_total,
        top_hosts(counts_view(t.host_requests@), counts_view(t.host_refused@), r.hosts@),
        hours_ascending(counts_view(t.hour_requests@), counts_view(t.hour_refused@), r.timeline@),
{
    let (processed, refused) = sum_counts(
        &t.host_requests,
        &t.host_refused,
        Ghost(t.parsed_requests as int),
    );
    let hosts = host_loads(&t.host_requests, &t.host_refused);
    let timeline = hour_loads(&t.hour_requests, &t.hour_refused);
    ProtectionSummary {
        parsed_requests: t.parsed_requests,
        processed_total: processed,
        refused_total: refused,
        hosts,
        timeline,
    }
}

/// The windows, in days, whose summaries are kept ready.
pub fn cached_windows() -> (r: Vec<u64>)
    ensures
        r@ == seq![1u64, 3u64, 7u64],
{
    let r = vec![1u64, 3u64, 7u64];
    assert(r@ =~= seq![1u64, 3u64, 7u64]);
    r
}

/// When a summary made at `now_ms` expires: after the refresh interval (at
/// least a second).
pub fn protection_cache_expiry(now_ms: i64, refresh_seconds: u64) -> (r: i64)
    requires
        refresh_seconds * 1000 <= i64::MAX,
        now_ms + (if refresh_seconds < 1 {
            1
        } else {
            refresh_seconds as int
        }) * 1000 <= i64::MAX,
    ensures
        r == now_ms + (if refresh_seconds < 1 {
            1
        } else {
            refresh_seconds as int
        }) * 1000,
{
    let s = if refresh_seconds < 1 {
        1
    } else {
        refresh_seconds
    };
    assert(s <= 9_223_372_036_854_775) by (nonlinear_arith)
        requires
            s == 1 || s * 1000 <= i64::MAX,
    ;
    now_ms + (s as i64) * 1000
}

/// The warning of a scan that found no log file.
pub fn scan_warning(available_files: usize) -> (r: &'static str)
    ensures
        r@ == if available_files == 0 {
            "No readable proxy access logs found. Mount Zoraxy logs and configure PROTECTION_LOG_PATHS."@
        } else {
            ""@
        },
{
    if available_files == 0 {
        "No readable proxy access logs found. Mount Zoraxy logs and configure PROTECTION_LOG_PATHS."
    } else {
        ""
    }
}

} // verus!
