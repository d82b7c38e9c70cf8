//! Investigation of one address in the configured log files: the lines that
//! mention it, how many were refused, samples and pages of them, and the
//! order in which log files are listed.

use vstd::prelude::*;
use crate::aggregate::{next_offset, order_by_text, page, page_bounds, stable_by_text, str_less};
use crate::normaliser::{truncate_line, truncated};
use crate::parsers::{line_timestamp, parse_line_timestamp, LogPatterns};
use crate::protection::{is_refused, line_is_refused};
use crate::text::{
    char_vecs_view, chars_of, contains, contains_str, ends_with, ends_with_str, in_set,
    split_at_any, split_by, str_eq, str_to_lowercase, string_from_chars, string_from_range,
    strings_view, to_owned_string, unicode_lowercase,
};
use crate::time::{rfc3339_of, utc_rfc3339, UtcTime};

verus! {

/// How long a sampled or listed line may be, in bytes, before it is cut.
pub const LINE_DISPLAY_LIMIT: usize = 700;

pub open spec fn is_newline(c: char) -> bool {
    c == '\n'
}

/// A piece without its trailing carriage return.
pub open spec fn strip_cr(p: Seq<char>) -> Seq<char> {
    if p.len() > 0 && p.last() == '\r' {
        p.drop_last()
    } else {
        p
    }
}

/// The lines of a text as `str::lines` gives them: split at `\n`, a final
/// line ending optional, a `\r` before a `\n` dropped.
pub open spec fn text_lines(s: Seq<char>) -> Seq<Seq<char>> {
    let parts = split_by(s, |c: char| is_newline(c));
    let kept = if parts.last().len() == 0 {
        parts.drop_last()
    } else {
        parts
    };
    kept.map_values(|p: Seq<char>| strip_cr(p))
}

fn strip_cr_chars(v: &Vec<char>) -> (r: String)
    ensures
        r@ == strip_cr(v@),
{
    if v.len() > 0 && v[v.len() - 1] == '\r' {
        let r = string_from_range(v, 0, v.len() - 1);
        assert(v@.subrange(0, v.len() - 1) =~= v@.drop_last());
        r
    } else {
        string_from_chars(v)
    }
}

/// The lines of a text.
pub fn split_lines(text: &str) -> (r: Vec<String>)
    ensures
        strings_view(r@) == text_lines(text@),
{
    let v = chars_of(text);
    let mut seps: Vec<char> = Vec::new();
    seps.push('\n');
    let parts = split_at_any(&v, &seps);
    proof {
        assert(seps@ =~= seq!['\n']);
        assert forall|c: char| in_set(seps@, c) == is_newline(c) by {
            if c == '\n' {
                assert(seps@[0] == c);
            }
        }
        assert((|c: char| in_set(seps@, c)) =~= (|c: char| is_newline(c)));
        crate::text::lemma_split_by_nonempty(text@, |c: char| is_newline(c));
    }
    let ghost ps = char_vecs_view(parts@);
    let n = if parts[parts.len() - 1].len() == 0 {
        parts.len() - 1
    } else {
        parts.len()
    };
    let ghost kept = if ps.last().len() == 0 {
        ps.drop_last()
    } else {
        ps
    };
    assert(kept.len() == n);
    let mut r: Vec<String> = Vec::new();
    let mut i: usize = 0;
    while i < n
        invariant
            i <= n <= parts.len(),
            ps == char_vecs_view(parts@),
            kept.len() == n,
            forall|j: int| 0 <= j < n ==> #[trigger] kept[j] == ps[j],
            r.len() == i,
            forall|j: int| 0 <= j < i ==> (#[trigger] r@[j])@ == strip_cr(kept[j]),
        decreases n - i,
    {
        r.push(strip_cr_chars(&parts[i]));
        i = i + 1;
    }
    assert(strings_view(r@) =~= kept.map_values(|p: Seq<char>| strip_cr(p)));
    r
}

/// A line falls in the window unless it carries a timestamp before `since`.
pub open spec fn within_window(line: Seq<char>, since: UtcTime) -> bool {
    match line_timestamp(line) {
        Some((secs, nanos)) => !(UtcTime { secs, nanos }).earlier(since),
        None => true,
    }
}

/// The lines that mention `ip` and fall in the window, in order.
pub open spec fn matched_lines(lines: Seq<Seq<char>>, ip: Seq<char>, since: UtcTime) -> Seq<
    Seq<char>,
>
    decreases lines.len(),
{
    if lines.len() == 0 {
        Seq::empty()
    } else {
        let r = matched_lines(lines.drop_last(), ip, since);
        let l = lines.last();
        if contains(l, ip) && within_window(l, since) {
            r.push(l)
        } else {
            r
        }
    }
}

/// How many of `lines` are refused requests.
pub open spec fn refused_count(lines: Seq<Seq<char>>) -> nat
    decreases lines.len(),
{
    if lines.len() == 0 {
        0
    } else {
        refused_count(lines.drop_last()) + if is_refused(lines.last()) {
            1nat
        } else {
            0nat
        }
    }
}

proof fn lemma_refused_count_bound(lines: Seq<Seq<char>>)
    ensures
        refused_count(lines) <= lines.len(),
    decreases lines.len(),
{
    if lines.len() > 0 {
        lemma_refused_count_bound(lines.drop_last());
    }
}

proof fn lemma_matched_bound(lines: Seq<Seq<char>>, ip: Seq<char>, since: UtcTime)
    ensures
        matched_lines(lines, ip, since).len() <= lines.len(),
    decreases lines.len(),
{
    if lines.len() > 0 {
        lemma_matched_bound(lines.drop_last(), ip, since);
    }
}

/// The lines shown for display, each cut to `LINE_DISPLAY_LIMIT` bytes.
pub open spec fn cut_lines(lines: Seq<Seq<char>>) -> Seq<Seq<char>> {
    lines.map_values(|l: Seq<char>| truncated(l, LINE_DISPLAY_LIMIT))
}

/// What one log file says of an address.
pub struct SourceScan {
    /// Lines that mention the address and fall in the window.
    pub hits: usize,
    /// Those of them that are refused requests.
    pub forbidden: usize,
    /// The first of them, at most the requested number, cut for display.
    pub sampled: Vec<String>,
}

/// Scans the text of one log file for the lines that mention `ip`: a line
/// counts unless its timestamp is before `since`.
pub fn scan_source(p: &LogPatterns, text: &str, ip: &str, since: &UtcTime, max_lines: usize) -> (r:
    SourceScan)
    ensures
        ({
            let m = matched_lines(text_lines(text@), ip@, *since);
            &&& r.hits == m.len()
            &&& r.forbidden == refused_count(m)
            &&& strings_view(r.sampled@) == cut_lines(
                m.take(
                    if max_lines < m.len() {
                        max_lines as int
                    } else {
                        m.len() as int
                    },
                ),
            )
        }),
{
    let lines = split_lines(text);
    let ghost ls = strings_view(lines@);
    let mut hits: usize = 0;
    let mut forbidden: usize = 0;
    let mut sampled: Vec<String> = Vec::new();
    let mut i: usize = 0;
    while i < lines.len()
        invariant
            i <= lines.len(),
            ls == strings_view(lines@),
            ({
                let m = matched_lines(ls.take(i as int), ip@, *since);
                &&& hits == m.len()
                &&& forbidden == refused_count(m)
                &&& strings_view(sampled@) == cut_lines(
                    m.take(
                        if max_lines < m.len() {
                            max_lines as int
                        } else {
                            m.len() as int
                        },
                    ),
                )
            }),
        decreases lines.len() - i,
    {
        let ghost pre = ls.take(i as int);
        let ghost nxt = ls.take(i + 1);
        let ghost m0 = matched_lines(pre, ip@, *since);
        assert(nxt.drop_last() =~= pre);
        assert(nxt.last() == lines@[i as int]@);
        proof {
            lemma_matched_bound(pre, ip@, *since);
            lemma_refused_count_bound(m0);
        }
        let line = lines[i].as_str();
        if contains_str(line, ip) {
            let in_window = match parse_line_timestamp(p, line) {
                Some(ts) => !ts.is_before(since),
                None => true,
            };
            if in_window {
                let ghost m1 = m0.push(line@);
                assert(m1.drop_last() =~= m0);
                hits = hits + 1;
                if line_is_refused(line) {
                    forbidden = forbidden + 1;
                }
                let ghost before = strings_view(sampled@);
                assert(before.len() == sampled.len());
                assert(sampled.len() == (if max_lines < m0.len() {
                    max_lines as int
                } else {
                    m0.len() as int
                }));
                if sampled.len() < max_lines {
                    assert(m0.take(m0.len() as int) =~= m0);
                    let cut = truncate_line(line, LINE_DISPLAY_LIMIT);
                    sampled.push(cut);
                    assert(before =~= cut_lines(m0));
                    assert(strings_view(sampled@) =~= before.push(
                        truncated(line@, LINE_DISPLAY_LIMIT),
                    ));
                    assert(m1.take(m1.len() as int) =~= m1);
                    assert(cut_lines(m1) =~= cut_lines(m0).push(truncated(line@, LINE_DISPLAY_LIMIT)));
                    assert(strings_view(sampled@) =~= cut_lines(m1.take(m1.len() as int)));
                } else {
                    assert(m1.take(max_lines as int) =~= m0.take(max_lines as int));
                }
                proof {
                    if max_lines < m1.len() {
                        assert(strings_view(sampled@) =~= cut_lines(m1.take(max_lines as int)));
                    } else {
                        assert(strings_view(sampled@) =~= cut_lines(m1.take(m1.len() as int)));
                    }
                }
            }
        }
        i = i + 1;
    }
    assert(ls.take(lines.len() as int) =~= ls);
    SourceScan { hits, forbidden, sampled }
}

/// Which lines a filter keeps: `forbidden` the refused ones,
/// `non-forbidden` the others, anything else every line.
pub open spec fn filter_keeps(filter: Seq<char>, refused: bool) -> bool {
    if filter == "forbidden"@ {
        refused
    } else if filter == "non-forbidden"@ {
        !refused
    } else {
        true
    }
}

/// A line passes a search when the search is empty or the line, lower-cased,
/// contains the lower-cased search.
pub open spec fn search_keeps(line: Seq<char>, search: Seq<char>) -> bool {
    unicode_lowercase(search).len() == 0 || contains(
        unicode_lowercase(line),
        unicode_lowercase(search),
    )
}

/// The lines that mention `ip`, pass the search and fall in the window.
pub open spec fn selected_lines(
    lines: Seq<Seq<char>>,
    ip: Seq<char>,
    search: Seq<char>,
    since: UtcTime,
) -> Seq<Seq<char>>
    decreases lines.len(),
{
    if lines.len() == 0 {
        Seq::empty()
    } else {
        let r = selected_lines(lines.drop_last(), ip, search, since);
        let l = lines.last();
        if contains(l, ip) && search_keeps(l, search) && within_window(l, since) {
            r.push(l)
        } else {
            r
        }
    }
}

/// The lines that a filter keeps, in order.
pub open spec fn kept_by_filter(lines: Seq<Seq<char>>, filter: Seq<char>) -> Seq<Seq<char>>
    decreases lines.len(),
{
    if lines.len() == 0 {
        Seq::empty()
    } else {
        let r = kept_by_filter(lines.drop_last(), filter);
        if filter_keeps(filter, is_refused(lines.last())) {
            r.push(lines.last())
        } else {
            r
        }
    }
}

/// The RFC 3339 text of a line's timestamp, or empty.
pub open spec fn line_stamp(line: Seq<char>) -> Seq<char> {
    match line_timestamp(line) {
        Some((secs, nanos)) => utc_rfc3339(secs, nanos),
        None => Seq::empty(),
    }
}

/// One listed log line.
pub struct LogLine {
    pub timestamp: String,
    pub forbidden: bool,
    pub line: String,
}

/// `e` describes `line`.
pub open spec fn describes(e: LogLine, line: Seq<char>) -> bool {
    &&& e.timestamp@ == line_stamp(line)
    &&& e.forbidden == is_refused(line)
    &&& e.line@ == truncated(line, LINE_DISPLAY_LIMIT)
}

/// A page of the log lines of one file that mention an address.
pub struct LogLinePage {
    /// Lines that mention the address, pass the search and fall in the window.
    pub total_hits: usize,
    /// Those of them that are refused requests.
    pub total_forbidden: usize,
    /// Those of them that the filter keeps.
    pub filtered_hits: usize,
    pub lines: Vec<LogLine>,
    pub next_offset: Option<usize>,
}

/// The order in which lines are listed: newest first for `newest`, else as
/// they stand in the file.
pub open spec fn listed(lines: Seq<Seq<char>>, sort: Seq<char>) -> Seq<Seq<char>> {
    if sort == "newest"@ {
        lines.reverse()
    } else {
        lines
    }
}

fn describe(p: &LogPatterns, line: &str) -> (e: LogLine)
    ensures
        describes(e, line@),
{
    let timestamp = match parse_line_timestamp(p, line) {
        Some(ts) => match rfc3339_of(&ts) {
            Some(s) => s,
            None => String::new(),
        },
        None => String::new(),
    };
    LogLine {
        timestamp,
        forbidden: line_is_refused(line),
        line: truncate_line(line, LINE_DISPLAY_LIMIT),
    }
}

/// The page `[offset, offset + limit)` of the lines of a log file that
/// mention `ip`, pass the search and fall in the window, after the filter,
/// newest first when `sort` is `newest`.
pub fn log_line_page(
    p: &LogPatterns,
    text: &str,
    ip: &str,
    search: &str,
    since: &UtcTime,
    filter: &str,
    sort: &str,
    offset: usize,
    limit: usize,
) -> (r: LogLinePage)
    requires
        offset + limit <= usize::MAX,
    ensures
        ({
            let sel = selected_lines(text_lines(text@), ip@, search@, *since);
            let shown = listed(kept_by_filter(sel, filter@), sort@);
            let bounds = page_bounds(shown.len(), offset as nat, limit as nat);
            &&& r.total_hits == sel.len()
            &&& r.total_forbidden == refused_count(sel)
            &&& r.filtered_hits == shown.len()
            &&& r.lines.len() == bounds.1 - bounds.0
            &&& forall|j: int|
                0 <= j < r.lines.len() ==> describes(
                    #[trigger] r.lines@[j],
                    shown[bounds.0 + j],
                )
            &&& match r.next_offset {
                Some(n) => next_offset(shown.len(), offset as nat, limit as nat) == Some(n as nat),
                None => next_offset(shown.len(), offset as nat, limit as nat) is None,
            }
        }),
{
    let lines = split_lines(text);
    let ghost ls = strings_view(lines@);
    let lower_search = str_to_lowercase(search);
    let searching = !lower_search.as_str().is_empty();
    let only_refused = str_eq(filter, "forbidden");
    let only_other = str_eq(filter, "non-forbidden");
    proof {
        reveal_strlit("forbidden");
        reveal_strlit("non-forbidden");
        assert("forbidden"@.len() != "non-forbidden"@.len());
    }
    let mut total_hits: usize = 0;
    let mut total_forbidden: usize = 0;
    let mut shown: Vec<String> = Vec::new();
    let mut i: usize = 0;
    while i < lines.len()
        invariant
            i <= lines.len(),
            ls == strings_view(lines@),
            lower_search@ == unicode_lowercase(search@),
            searching == (lower_search@.len() > 0),
            only_refused == (filter@ == "forbidden"@),
            only_other == (filter@ == "non-forbidden"@),
            "forbidden"@ != "non-forbidden"@,
            ({
                let sel = selected_lines(ls.take(i as int), ip@, search@, *since);
                &&& total_hits == sel.len()
                &&& total_forbidden == refused_count(sel)
                &&& strings_view(shown@) == kept_by_filter(sel, filter@)
            }),
        decreases lines.len() - i,
    {
        let ghost pre = ls.take(i as int);
        let ghost nxt = ls.take(i + 1);
        let ghost s0 = selected_lines(pre, ip@, search@, *since);
        assert(nxt.drop_last() =~= pre);
        assert(nxt.last() == lines@[i as int]@);
        proof {
            lemma_selected_bound(pre, ip@, search@, *since);
            lemma_refused_count_bound(s0);
        }
        let line = lines[i].as_str();
        let mut keep = contains_str(line, ip);
        if keep && searching {
            let lower_line = str_to_lowercase(line);
            keep = contains_str(lower_line.as_str(), lower_search.as_str());
        }
        if keep {
            keep = match parse_line_timestamp(p, line) {
                Some(ts) => !ts.is_before(since),
                None => true,
            };
        }
        if keep {
            let ghost s1 = s0.push(line@);
            assert(s1.drop_last() =~= s0);
            total_hits = total_hits + 1;
            let refused = line_is_refused(line);
            if refused {
                total_forbidden = total_forbidden + 1;
            }
            let ghost before = strings_view(shown@);
            if !((only_refused && !refused) || (only_other && refused)) {
                shown.push(to_owned_string(line));
                assert(strings_view(shown@) =~= before.push(line@));
            }
            assert(filter_keeps(filter@, refused) == !((only_refused && !refused) || (only_other
                && refused)));
        }
        i = i + 1;
    }
    assert(ls.take(lines.len() as int) =~= ls);
    let ghost kept = strings_view(shown@);
    let newest = str_eq(sort, "newest");
    let n = shown.len();
    let (lo, hi, next) = page(n, offset, limit);
    let mut out: Vec<LogLine> = Vec::new();
    let mut k: usize = lo;
    while k < hi
        invariant
            lo <= k <= hi <= n,
            n == shown.len(),
            kept == strings_view(shown@),
            newest == (sort@ == "newest"@),
            out.len() == k - lo,
            forall|j: int|
                0 <= j < out.len() ==> describes(#[trigger] out@[j], listed(kept, sort@)[lo + j]),
        decreases hi - k,
    {
        let ix = if newest {
            n - 1 - k
        } else {
            k
        };
        assert(listed(kept, sort@)[k as int] == kept[ix as int]);
        out.push(describe(p, shown[ix].as_str()));
        k = k + 1;
    }
    LogLinePage {
        total_hits,
        total_forbidden,
        filtered_hits: n,
        lines: out,
        next_offset: next,
    }
}

proof fn lemma_selected_bound(lines: Seq<Seq<char>>, ip: Seq<char>, search: Seq<char>, since: UtcTime)
    ensures
        selected_lines(lines, ip, search, since).len() <= lines.len(),
    decreases lines.len(),
{
    if lines.len() > 0 {
        lemma_selected_bound(lines.drop_last(), ip, search, since);
    }
}

/// A readable log file.
pub struct LogSource {
    pub name: String,
    pub path: String,
    pub location: String,
}

/// The views of two sources agree.
pub open spec fn same_source(a: LogSource, b: LogSource) -> bool {
    a.name@ == b.name@ && a.path@ == b.path@ && a.location@ == b.location@
}

fn copy_source(s: &LogSource) -> (r: LogSource)
    ensures
        same_source(r, *s),
{
    LogSource {
        name: to_owned_string(s.name.as_str()),
        path: to_owned_string(s.path.as_str()),
        location: to_owned_string(s.location.as_str()),
    }
}

/// A file still being written to, as opposed to a compressed rotation.
pub open spec fn is_current(path: Seq<char>) -> bool {
    !ends_with(path, ".gz"@)
}

/// `a` is listed before `b`: current files first, then by path from the
/// greatest to the least.
pub open spec fn source_before(a: Seq<char>, b: Seq<char>) -> bool {
    (is_current(a) && !is_current(b)) || (is_current(a) == is_current(b) && str_less(b, a))
}

/// The first source found for each path, in the order found.
pub open spec fn first_sources(found: Seq<LogSource>) -> Seq<LogSource>
    decreases found.len(),
{
    if found.len() == 0 {
        Seq::empty()
    } else {
        let r = first_sources(found.drop_last());
        if exists|j: int| 0 <= j < r.len() && #[trigger] r[j].path@ == found.last().path@ {
            r
        } else {
            r.push(found.last())
        }
    }
}

/// `r` lists the first source found for each path once, current files
/// first, each group by path from the greatest to the least.
pub open spec fn sources_in_order(found: Seq<LogSource>, r: Seq<LogSource>) -> bool {
    let u = first_sources(found);
    &&& r.len() == u.len()
    &&& exists|order: Seq<usize>|
        #[trigger] crate::aggregate::is_perm(order, u.len()) && forall|j: int|
            0 <= j < r.len() ==> same_source(#[trigger] r[j], u[order[j] as int])
    &&& forall|j: int, l: int|
        0 <= j < l < r.len() ==> source_before(#[trigger] r[j].path@, #[trigger] r[l].path@)
}

fn dedupe_sources(found: &Vec<LogSource>) -> (u: Vec<LogSource>)
    ensures
        u.len() == first_sources(found@).len(),
        forall|j: int| 0 <= j < u.len() ==> same_source(#[trigger] u@[j], first_sources(found@)[j]),
        forall|j: int, l: int| 0 <= j < l < u.len() ==> u@[j].path@ != u@[l].path@,
{
    let mut u: Vec<LogSource> = Vec::new();
    let mut i: usize = 0;
    while i < found.len()
        invariant
            i <= found.len(),
            u.len() == first_sources(found@.take(i as int)).len(),
            forall|j: int|
                0 <= j < u.len() ==> same_source(
                    #[trigger] u@[j],
                    first_sources(found@.take(i as int))[j],
                ),
            forall|j: int, l: int| 0 <= j < l < u.len() ==> u@[j].path@ != u@[l].path@,
        decreases found.len() - i,
    {
        let ghost pre = found@.take(i as int);
        let ghost nxt = found@.take(i + 1);
        let ghost f0 = first_sources(pre);
        assert(nxt.drop_last() =~= pre);
        assert(nxt.last() == found@[i as int]);
        let mut seen = false;
        let mut j: usize = 0;
        while j < u.len()
            invariant
                j <= u.len(),
                i < found.len(),
                u.len() == f0.len(),
                forall|q: int| 0 <= q < u.len() ==> same_source(#[trigger] u@[q], f0[q]),
                seen ==> exists|q: int| 0 <= q < f0.len() && #[trigger] f0[q].path@ == found@[i as int].path@,
                !seen ==> forall|q: int| 0 <= q < j ==> u@[q].path@ != found@[i as int].path@,
            decreases u.len() - j,
        {
            if str_eq(u[j].path.as_str(), found[i].path.as_str()) {
                assert(same_source(u@[j as int], f0[j as int]));
                seen = true;
            }
            j = j + 1;
        }
        if !seen {
            proof {
                assert forall|q: int| 0 <= q < f0.len() implies #[trigger] f0[q].path@
                    != found@[i as int].path@ by {
                    assert(same_source(u@[q], f0[q]));
                }
            }
            u.push(copy_source(&found[i]));
        }
        i = i + 1;
    }
    assert(found@.take(found.len() as int) =~= found@);
    u
}

proof fn lemma_str_less_cases(a: Seq<char>, b: Seq<char>)
    ensures
        a == b || str_less(a, b) || str_less(b, a),
        !(str_less(a, b) && str_less(b, a)),
{
    crate::aggregate::lemma_str_less_order(a, b, a);
}

/// Lists each path found once, with the first name found for it: current
/// files first, then compressed rotations, each by path from the greatest to
/// the least.
pub fn order_log_sources(found: &Vec<LogSource>) -> (r: Vec<LogSource>)
    ensures
        sources_in_order(found@, r@),
{
    let u = dedupe_sources(found);
    let ghost fu = first_sources(found@);
    let mut cur: Vec<usize> = Vec::new();
    let mut old_ones: Vec<usize> = Vec::new();
    let mut cur_paths: Vec<String> = Vec::new();
    let mut old_paths: Vec<String> = Vec::new();
    let mut i: usize = 0;
    while i < u.len()
        invariant
            i <= u.len(),
            cur.len() + old_ones.len() == i,
            cur_paths.len() == cur.len(),
            old_paths.len() == old_ones.len(),
            forall|j: int| 0 <= j < cur.len() ==> #[trigger] cur@[j] < i && is_current(u@[cur@[j] as int].path@),
            forall|j: int| 0 <= j < old_ones.len() ==> #[trigger] old_ones@[j] < i && !is_current(u@[old_ones@[j] as int].path@),
            forall|j: int, l: int| 0 <= j < l < cur.len() ==> cur@[j] < cur@[l],
            forall|j: int, l: int| 0 <= j < l < old_ones.len() ==> old_ones@[j] < old_ones@[l],
            forall|j: int| 0 <= j < cur.len() ==> (#[trigger] cur_paths@[j])@ == u@[cur@[j] as int].path@,
            forall|j: int| 0 <= j < old_ones.len() ==> (#[trigger] old_paths@[j])@ == u@[old_ones@[j] as int].path@,
        decreases u.len() - i,
    {
        if ends_with_str(u[i].path.as_str(), ".gz") {
            old_ones.push(i);
            old_paths.push(to_owned_string(u[i].path.as_str()));
        } else {
            cur.push(i);
            cur_paths.push(to_owned_string(u[i].path.as_str()));
        }
        i = i + 1;
    }
    let oc = order_by_text(&cur_paths, true);
    let oo = order_by_text(&old_paths, true);
    let ghost cp = strings_view(cur_paths@);
    let ghost op = strings_view(old_paths@);
    let mut r: Vec<LogSource> = Vec::new();
    let ghost mut order: Seq<usize> = Seq::empty();
    let mut k: usize = 0;
    while k < oc.len()
        invariant
            k <= oc.len() == cur.len(),
            stable_by_text(cp, true, oc@),
            cp == strings_view(cur_paths@),
            cur_paths.len() == cur.len(),
            forall|j: int| 0 <= j < cur.len() ==> #[trigger] cur@[j] < u.len() && is_current(u@[cur@[j] as int].path@),
            forall|j: int| 0 <= j < cur.len() ==> (#[trigger] cur_paths@[j])@ == u@[cur@[j] as int].path@,
            r.len() == k,
            order.len() == k,
            forall|j: int| 0 <= j < k ==> #[trigger] order[j] == cur@[oc@[j] as int],
            forall|j: int| 0 <= j < k ==> same_source(#[trigger] r@[j], u@[order[j] as int]),
        decreases oc.len() - k,
    {
        let ix = cur[oc[k]];
        r.push(copy_source(&u[ix]));
        proof {
            order = order.push(ix);
        }
        k = k + 1;
    }
    let mut k: usize = 0;
    while k < oo.len()
        invariant
            k <= oo.len() == old_ones.len(),
            r.len() == cur.len() + k,
            order.len() == cur.len() + k,
            stable_by_text(op, true, oo@),
            op == strings_view(old_paths@),
            old_paths.len() == old_ones.len(),
            forall|j: int| 0 <= j < old_ones.len() ==> #[trigger] old_ones@[j] < u.len() && !is_current(u@[old_ones@[j] as int].path@),
            forall|j: int| 0 <= j < old_ones.len() ==> (#[trigger] old_paths@[j])@ == u@[old_ones@[j] as int].path@,
            forall|j: int| 0 <= j < k ==> #[trigger] order[cur.len() + j] == old_ones@[oo@[j] as int],
            forall|j: int| 0 <= j < cur.len() + k ==> same_source(#[trigger] r@[j], u@[order[j] as int]),
            forall|j: int| 0 <= j < cur.len() ==> #[trigger] order[j] == cur@[oc@[j] as int],
        decreases oo.len() - k,
    {
        let ix = old_ones[oo[k]];
        r.push(copy_source(&u[ix]));
        proof {
            order = order.push(ix);
        }
        k = k + 1;
    }
    proof {
        let nc = cur.len() as int;
        // every position of u appears once in the order
        assert forall|j: int| 0 <= j < order.len() implies #[trigger] order[j] < u.len() by {
            if j < nc {
                assert(oc@[j] < cur.len());
            } else {
                assert(order[nc + (j - nc)] == old_ones@[oo@[j - nc] as int]);
                assert(oo@[j - nc] < old_ones.len());
            }
        }
        assert forall|j: int, l: int| 0 <= j < l < order.len() implies order[j] != order[l] by {
            if l < nc {
                assert(oc@[j] != oc@[l]);
                assert(oc@[j] < cur.len() && oc@[l] < cur.len());
                if oc@[j] < oc@[l] {
                } else {
                }
            } else if j < nc {
                assert(order[nc + (l - nc)] == old_ones@[oo@[l - nc] as int]);
                assert(oo@[l - nc] < old_ones.len());
                assert(oc@[j] < cur.len());
            } else {
                assert(order[nc + (j - nc)] == old_ones@[oo@[j - nc] as int]);
                assert(order[nc + (l - nc)] == old_ones@[oo@[l - nc] as int]);
                assert(oo@[j - nc] != oo@[l - nc]);
                assert(oo@[j - nc] < old_ones.len() && oo@[l - nc] < old_ones.len());
            }
        }
        assert(crate::aggregate::is_perm(order, u.len() as nat));
        assert forall|j: int| 0 <= j < r.len() implies same_source(#[trigger] r@[j], fu[order[j] as int]) by {
            assert(same_source(r@[j], u@[order[j] as int]));
            assert(order[j] < u.len());
            assert(same_source(u@[order[j] as int], fu[order[j] as int]));
        }
        assert forall|j: int, l: int| 0 <= j < l < r.len() implies source_before(
            #[trigger] r@[j].path@,
            #[trigger] r@[l].path@,
        ) by {
            assert(same_source(r@[j], u@[order[j] as int]));
            assert(same_source(r@[l], u@[order[l] as int]));
            assert(order[j] != order[l]);
            assert(order[j] < u.len() && order[l] < u.len());
            let a = r@[j].path@;
            let b = r@[l].path@;
            if order[j] < order[l] {
                assert(u@[order[j] as int].path@ != u@[order[l] as int].path@);
            } else {
                assert(u@[order[l] as int].path@ != u@[order[j] as int].path@);
            }
            assert(a != b);
            lemma_str_less_cases(a, b);
            if l < nc {
                assert(cp[oc@[j] as int] == a);
                assert(cp[oc@[l] as int] == b);
                assert(!crate::aggregate::text_before(cp[oc@[l] as int], cp[oc@[j] as int], true));
            } else if j < nc {
                assert(order[nc + (l - nc)] == old_ones@[oo@[l - nc] as int]);
                assert(oo@[l - nc] < old_ones.len());
                assert(oc@[j] < cur.len());
            } else {
                assert(order[nc + (j - nc)] == old_ones@[oo@[j - nc] as int]);
                assert(order[nc + (l - nc)] == old_ones@[oo@[l - nc] as int]);
                assert(oo@[j - nc] < old_ones.len() && oo@[l - nc] < old_ones.len());
                assert(op[oo@[j - nc] as int] == a);
                assert(op[oo@[l - nc] as int] == b);
                assert(!crate::aggregate::text_before(op[oo@[l - nc] as int], op[oo@[j - nc] as int], true));
            }
        }
    }
    r
}

/// The hits of all scanned files.
pub open spec fn hits_total(scans: Seq<SourceScan>) -> int
    decreases scans.len(),
{
    if scans.len() == 0 {
        0
    } else {
        hits_total(scans.drop_last()) + scans.last().hits
    }
}

/// The refused hits of all scanned files.
pub open spec fn forbidden_total(scans: Seq<SourceScan>) -> int
    decreases scans.len(),
{
    if scans.len() == 0 {
        0
    } else {
        forbidden_total(scans.drop_last()) + scans.last().forbidden
    }
}

proof fn lemma_totals_prefix(scans: Seq<SourceScan>, i: int)
    requires
        0 <= i <= scans.len(),
    ensures
        0 <= hits_total(scans.take(i)) <= hits_total(scans),
        0 <= forbidden_total(scans.take(i)) <= forbidden_total(scans),
    decreases scans.len() - i,
{
    if i == scans.len() {
        assert(scans.take(i) =~= scans);
        lemma_totals_nonneg(scans);
    } else {
        lemma_totals_prefix(scans, i + 1);
        lemma_totals_nonneg(scans.take(i));
        assert(scans.take(i + 1).drop_last() =~= scans.take(i));
    }
}

proof fn lemma_totals_nonneg(scans: Seq<SourceScan>)
    ensures
        0 <= hits_total(scans),
        0 <= forbidden_total(scans),
    decreases scans.len(),
{
    if scans.len() > 0 {
        lemma_totals_nonneg(scans.drop_last());
    }
}

/// The hits and refused hits of all scanned files together.
pub fn investigation_totals(scans: &Vec<SourceScan>) -> (r: (u64, u64))
    requires
        hits_total(scans@) <= u64::MAX,
        forbidden_total(scans@) <= u64::MAX,
    ensures
        r.0 == hits_total(scans@),
        r.1 == forbidden_total(scans@),
{
    let mut hits: u64 = 0;
    let mut forbidden: u64 = 0;
    let mut i: usize = 0;
    while i < scans.len()
        invariant
            i <= scans.len(),
            hits_total(scans@) <= u64::MAX,
            forbidden_total(scans@) <= u64::MAX,
            hits == hits_total(scans@.take(i as int)),
            forbidden == forbidden_total(scans@.take(i as int)),
        decreases scans.len() - i,
    {
        proof {
            lemma_totals_prefix(scans@, i + 1);
            assert(scans@.take(i + 1).drop_last() =~= scans@.take(i as int));
        }
        hits = hits + scans[i].hits as u64;
        forbidden = forbidden + scans[i].forbidden as u64;
        i = i + 1;
    }
    assert(scans@.take(scans.len() as int) =~= scans@);
    (hits, forbidden)
}

/// No more lines are refused than match, in a scan or in a page request,
/// and a page of lines holds at most `limit` of them.
pub proof fn scan_counts_are_consistent(
    text: Seq<char>,
    ip: Seq<char>,
    search: Seq<char>,
    since: UtcTime,
    filter: Seq<char>,
    sort: Seq<char>,
    offset: nat,
    limit: nat,
)
    ensures
        refused_count(matched_lines(text_lines(text), ip, since)) <= matched_lines(
            text_lines(text),
            ip,
            since,
        ).len(),
        refused_count(selected_lines(text_lines(text), ip, search, since)) <= selected_lines(
            text_lines(text),
            ip,
            search,
            since,
        ).len(),
        kept_by_filter(selected_lines(text_lines(text), ip, search, since), filter).len()
            <= selected_lines(text_lines(text), ip, search, since).len(),
        ({
            let shown = listed(
                kept_by_filter(selected_lines(text_lines(text), ip, search, since), filter),
                sort,
            );
            page_bounds(shown.len(), offset, limit).1 - page_bounds(shown.len(), offset, limit).0
                <= limit
        }),
{
    lemma_refused_count_bound(matched_lines(text_lines(text), ip, since));
    lemma_refused_count_bound(selected_lines(text_lines(text), ip, search, since));
    lemma_kept_bound(selected_lines(text_lines(text), ip, search, since), filter);
}

proof fn lemma_kept_bound(lines: Seq<Seq<char>>, filter: Seq<char>)
    ensures
        kept_by_filter(lines, filter).len() <= lines.len(),
    decreases lines.len(),
{
    if lines.len() > 0 {
        lemma_kept_bound(lines.drop_last(), filter);
    }
}

} // verus!
