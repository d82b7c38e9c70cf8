//! The weekly security report: recipients, subject line, date range,
//! dashboard link, behaviour labels, the summary of the week's alerts and
//! the rules for when a report goes out.

use vstd::prelude::*;
use vstd::utf8::{decode_utf8, encode_utf8, is_char_boundary};
use crate::aggregate::{abs_total, amounts, counts_view, order_desc, stable_desc, total, CountMap};
use crate::config::{list_items, parse_list, Config};
use crate::text::{
    append_str, ascii_lower, ascii_upper, ascii_upper_char, char_to_uppercase_first, char_vecs_view, chars_of,
    concat2, join, join_strings, replace_all, replace_str, starts_with, starts_with_str,
    str_eq, string_from_chars, string_from_range, strings_view, to_ascii_lowercase,
    to_ascii_uppercase, to_owned_string, trim, trim_str, unicode_upper_first, words,
    split_whitespace, contains_str, str_to_lowercase, str_to_uppercase, unicode_lowercase,
    unicode_uppercase,
};
use crate::time::{
    format_utc, parse_rfc3339, rfc3339_parse, utc_exists, utc_formatted, utc_weekday, weekday_of,
    UtcTime,
};

verus! {

/// Splits the recipient setting into addresses (newlines, commas or
/// semicolons between them; blanks dropped).
pub fn parse_email_recipients(value: &str) -> (r: Vec<String>)
    ensures
        strings_view(r@) == list_items(value@),
{
    parse_list(value)
}

/// The recipients of a report: the configured list, or else the parsed
/// `EMAIL_TO` setting.
pub fn report_recipients(config: &Config) -> (r: Vec<String>)
    ensures
        strings_view(r@) == if config.email_recipients.len() > 0 {
            strings_view(config.email_recipients@)
        } else {
            list_items(config.email_to@)
        },
{
    if config.email_recipients.len() > 0 {
        let mut r: Vec<String> = Vec::new();
        let mut i: usize = 0;
        while i < config.email_recipients.len()
            invariant
                i <= config.email_recipients.len(),
                strings_view(r@) == strings_view(config.email_recipients@).take(i as int),
            decreases config.email_recipients.len() - i,
        {
            let ghost before = strings_view(r@);
            r.push(to_owned_string(config.email_recipients[i].as_str()));
            assert(strings_view(r@) =~= before.push(config.email_recipients@[i as int]@));
            assert(strings_view(config.email_recipients@).take(i + 1) =~= strings_view(
                config.email_recipients@,
            ).take(i as int).push(config.email_recipients@[i as int]@));
            i = i + 1;
        }
        assert(strings_view(config.email_recipients@).take(config.email_recipients.len() as int)
            =~= strings_view(config.email_recipients@));
        r
    } else {
        parse_email_recipients(config.email_to.as_str())
    }
}

/// The position of the first `c` in `s`, or its length.
pub open spec fn first_index_of(s: Seq<char>, c: char) -> int
    decreases s.len(),
{
    if s.len() == 0 {
        0
    } else if s[0] == c {
        0
    } else {
        1 + first_index_of(s.drop_first(), c)
    }
}

proof fn lemma_first_index_of(s: Seq<char>, c: char, i: int)
    requires
        0 <= i <= s.len(),
        forall|j: int| 0 <= j < i ==> s[j] != c,
        i == s.len() || s[i] == c,
    ensures
        first_index_of(s, c) == i,
    decreases s.len(),
{
    if s.len() > 0 && i > 0 {
        assert forall|j: int| 0 <= j < i - 1 implies s.drop_first()[j] != c by {
            assert(s.drop_first()[j] == s[j + 1]);
        }
        if i < s.len() {
            assert(s.drop_first()[i - 1] == s[i]);
        }
        lemma_first_index_of(s.drop_first(), c, i - 1);
    }
}

/// The part of a user name before its first `@`.
pub open spec fn user_part(trimmed: Seq<char>) -> Seq<char> {
    trimmed.take(first_index_of(trimmed, '@'))
}

/// The characters whose UTF-8 encoding is the first `n` bytes of `s`'s.
pub open spec fn utf8_prefix(s: Seq<char>, n: int) -> Seq<char> {
    decode_utf8(encode_utf8(s).subrange(0, n))
}

/// A user name can be redacted unless its part before `@` is longer than
/// four bytes and its fourth byte ends inside a character.
pub open spec fn redactable(username: Seq<char>) -> bool {
    let part = user_part(trim(username));
    encode_utf8(part).len() <= 4 || is_char_boundary(encode_utf8(part), 4)
}

/// A user name for the logs: `<empty>` for a blank one; otherwise its part
/// before `@`, cut to four bytes, then `***`, then the rest from `@` on.
pub open spec fn redacted_username(username: Seq<char>) -> Seq<char> {
    let t = trim(username);
    let part = user_part(t);
    if t.len() == 0 {
        "<empty>"@
    } else if encode_utf8(part).len() <= 4 {
        part + "***"@
    } else {
        utf8_prefix(part, 4) + "***"@ + t.skip(part.len() as int)
    }
}

/// Whether a user name can be redacted (see `redactable`).
pub fn can_redact(username: &str) -> (r: bool)
    ensures
        r == redactable(username@),
{
    let t = trim_str(username);
    let v = chars_of(t.as_str());
    let at = position_of(&v, '@');
    let part = string_from_range(&v, 0, at);
    assert(part@ =~= user_part(t@));
    let nbytes = part.as_str().as_bytes().len();
    nbytes <= 4 || part.as_str().is_char_boundary(4)
}

fn position_of(v: &Vec<char>, c: char) -> (r: usize)
    ensures
        r == first_index_of(v@, c),
        r <= v.len(),
{
    let mut i: usize = 0;
    while i < v.len() && v[i] != c
        invariant
            i <= v.len(),
            forall|j: int| 0 <= j < i ==> v@[j] != c,
        decreases v.len() - i,
    {
        i = i + 1;
    }
    proof {
        lemma_first_index_of(v@, c, i as int);
    }
    i
}

/// Redacts an SMTP user name for the logs.
pub fn redact_smtp_username(username: &str) -> (r: String)
    requires
        redactable(username@),
    ensures
        r@ == redacted_username(username@),
{
    let t = trim_str(username);
    if t.as_str().is_empty() {
        return to_owned_string("<empty>");
    }
    let v = chars_of(t.as_str());
    let at = position_of(&v, '@');
    let part = string_from_range(&v, 0, at);
    assert(part@ =~= user_part(t@));
    let nbytes = part.as_str().as_bytes().len();
    if nbytes <= 4 {
        let mut r = to_owned_string(part.as_str());
        append_str(&mut r, "***");
        return r;
    }
    let (prefix, _) = part.as_str().split_at(4);
    proof {
        vstd::utf8::encode_utf8_decode_utf8(prefix@);
        assert(encode_utf8(prefix@) =~= encode_utf8(part@).subrange(0, 4));
    }
    let mut r = to_owned_string(prefix);
    append_str(&mut r, "***");
    let suffix = string_from_range(&v, at, v.len());
    assert(suffix@ =~= t@.skip(part@.len() as int));
    append_str(&mut r, suffix.as_str());
    r
}

/// The subject template with every placeholder of the public address
/// (`{{pub ip}}`, `{{public ip}}`, `{{public_ip}}`, `{{pub_ip}}`,
/// `{{publicIP}}`) and of the date range (`{{date_range}}`, `{{range}}`)
/// replaced, in that order.
pub open spec fn substituted(template: Seq<char>, public_ip: Seq<char>, date_range: Seq<char>) -> Seq<
    char,
> {
    let a = replace_all(template, "{{pub ip}}"@, public_ip);
    let b = replace_all(a, "{{public ip}}"@, public_ip);
    let c = replace_all(b, "{{public_ip}}"@, public_ip);
    let d = replace_all(c, "{{pub_ip}}"@, public_ip);
    let e = replace_all(d, "{{publicIP}}"@, public_ip);
    let f = replace_all(e, "{{date_range}}"@, date_range);
    replace_all(f, "{{range}}"@, date_range)
}

/// Fills in the placeholders of an email subject template.
pub fn substitute_email_subject_template(template: &str, public_ip: &str, date_range: &str) -> (r:
    String)
    ensures
        r@ == substituted(template@, public_ip@, date_range@),
{
    proof {
        reveal_strlit("{{pub ip}}");
        reveal_strlit("{{public ip}}");
        reveal_strlit("{{public_ip}}");
        reveal_strlit("{{pub_ip}}");
        reveal_strlit("{{publicIP}}");
        reveal_strlit("{{date_range}}");
        reveal_strlit("{{range}}");
    }
    let a = replace_str(template, "{{pub ip}}", public_ip);
    let b = replace_str(a.as_str(), "{{public ip}}", public_ip);
    let c = replace_str(b.as_str(), "{{public_ip}}", public_ip);
    let d = replace_str(c.as_str(), "{{pub_ip}}", public_ip);
    let e = replace_str(d.as_str(), "{{publicIP}}", public_ip);
    let f = replace_str(e.as_str(), "{{date_range}}", date_range);
    replace_str(f.as_str(), "{{range}}", date_range)
}

/// Seconds in a week.
pub const WEEK_SECONDS: i64 = 604800;

/// The end of the report window: the report's generation time when it reads
/// as RFC 3339, else `now`.
pub open spec fn window_end(generated_at: Seq<char>, now: UtcTime) -> UtcTime {
    match rfc3339_parse(generated_at) {
        Some((secs, nanos)) => UtcTime { secs, nanos },
        None => now,
    }
}

/// `Mon DD - Mon DD, YYYY` for the week that ends at `end` (in UTC), where
/// both days can be printed.
pub open spec fn week_range(end: UtcTime) -> Option<Seq<char>> {
    if end.secs >= i64::MIN + WEEK_SECONDS && utc_exists(end.secs, end.nanos) && utc_exists(
        (end.secs - WEEK_SECONDS) as i64,
        end.nanos,
    ) {
        Some(
            utc_formatted((end.secs - WEEK_SECONDS) as i64, end.nanos, "%b %d"@) + " - "@
                + utc_formatted(end.secs, end.nanos, "%b %d, %Y"@),
        )
    } else {
        None
    }
}

/// The date range of the week before the report was generated (`None`
/// where a date of it cannot be printed).
pub fn format_date_range_for_last_7_days(generated_at: &str, now: &UtcTime) -> (r: Option<String>)
    ensures
        match r {
            Some(s) => week_range(window_end(generated_at@, *now)) == Some(s@),
            None => week_range(window_end(generated_at@, *now)) is None,
        },
{
    let end = match parse_rfc3339(generated_at) {
        Some(t) => t,
        None => now.copy(),
    };
    if end.secs < i64::MIN + WEEK_SECONDS {
        return None;
    }
    let start = UtcTime { secs: end.secs - WEEK_SECONDS, nanos: end.nanos };
    let first = match format_utc(&start, "%b %d") {
        Some(s) => s,
        None => return None,
    };
    let last = match format_utc(&end, "%b %d, %Y") {
        Some(s) => s,
        None => return None,
    };
    let mut r = first;
    append_str(&mut r, " - ");
    append_str(&mut r, last.as_str());
    Some(r)
}

/// The subject used when none is configured.
pub const DEFAULT_SUBJECT_TEMPLATE: &'static str =
    "Security Report for {{public_ip}} account: {{date_range}}";

/// The subject of a report: the configured template (or the default one)
/// with its placeholders filled in; where that leaves only blanks, the
/// default wording.
pub open spec fn email_subject(template_setting: Seq<char>, public_ip: Seq<char>, range: Seq<char>) -> Seq<
    char,
> {
    let rendered = trim(template_setting);
    let template = if rendered.len() == 0 {
        DEFAULT_SUBJECT_TEMPLATE@
    } else {
        rendered
    };
    let subject = substituted(template, public_ip, range);
    if trim(subject).len() == 0 {
        "Security Report for "@ + public_ip + " account: "@ + range
    } else {
        subject
    }
}

/// Builds the subject of a report (`None` where the date range cannot be
/// printed).
pub fn build_email_subject(config: &Config, public_ip: &str, generated_at: &str, now: &UtcTime) -> (r:
    Option<String>)
    ensures
        match week_range(window_end(generated_at@, *now)) {
            Some(range) => r matches Some(s) && s@ == email_subject(
                config.email_subject@,
                public_ip@,
                range,
            ),
            None => r is None,
        },
{
    let date_range = match format_date_range_for_last_7_days(generated_at, now) {
        Some(d) => d,
        None => return None,
    };
    let rendered = trim_str(config.email_subject.as_str());
    let template = if rendered.as_str().is_empty() {
        to_owned_string(DEFAULT_SUBJECT_TEMPLATE)
    } else {
        rendered
    };
    let subject = substitute_email_subject_template(
        template.as_str(),
        public_ip,
        date_range.as_str(),
    );
    let blank = trim_str(subject.as_str());
    if blank.as_str().is_empty() {
        let mut r = to_owned_string("Security Report for ");
        append_str(&mut r, public_ip);
        append_str(&mut r, " account: ");
        append_str(&mut r, date_range.as_str());
        Some(r)
    } else {
        Some(subject)
    }
}

/// `s` with every leading copy of `p` removed (`str::trim_start_matches`).
pub open spec fn strip_leading(s: Seq<char>, p: Seq<char>) -> Seq<char>
    decreases s.len(),
{
    if p.len() > 0 && starts_with(s, p) {
        strip_leading(s.skip(p.len() as int), p)
    } else {
        s
    }
}

/// `s` without its trailing `c`s (`str::trim_end_matches`).
pub open spec fn strip_trailing(s: Seq<char>, c: char) -> Seq<char>
    decreases s.len(),
{
    if s.len() > 0 && s.last() == c {
        strip_trailing(s.drop_last(), c)
    } else {
        s
    }
}

/// The dashboard link of a report: `#` for a blank domain; otherwise the
/// domain without leading `http://` and `https://`, given `https://` unless
/// it still starts with a scheme, without trailing slashes.
pub open spec fn domain_link(domain: Seq<char>) -> Seq<char> {
    let t = trim(domain);
    let bare = strip_leading(strip_leading(t, "http://"@), "https://"@);
    let with_scheme = if starts_with(bare, "http://"@) || starts_with(bare, "https://"@) {
        bare
    } else {
        "https://"@ + bare
    };
    if t.len() == 0 {
        "#"@
    } else {
        strip_trailing(with_scheme, '/')
    }
}

proof fn lemma_trim_kept(s: Seq<char>)
    requires
        s.len() > 0,
        !crate::text::is_white_space(s[0]),
        !crate::text::is_white_space(s.last()),
    ensures
        trim(s) == s,
{
    assert(crate::text::trim_start(s) == s);
}

proof fn lemma_trim_padded(x: Seq<char>)
    requires
        x.len() > 0,
        !crate::text::is_white_space(x[0]),
        !crate::text::is_white_space(x.last()),
    ensures
        trim("  "@ + x + "  "@) == x,
{
    reveal_strlit("  ");
    let sp = seq![' ', ' '];
    assert("  "@ =~= sp);
    let s = sp + x + sp;
    assert(crate::text::is_white_space(' '));
    let s1 = s.drop_first();
    assert(s[0] == ' ');
    assert(crate::text::trim_start(s) == crate::text::trim_start(s1));
    assert(s1[0] == ' ');
    let s2 = s1.drop_first();
    assert(crate::text::trim_start(s1) == crate::text::trim_start(s2));
    assert(s2 =~= x + sp);
    assert(s2[0] == x[0]);
    assert(crate::text::trim_start(s2) == s2);
    assert(s2.last() == ' ');
    let s3 = s2.drop_last();
    assert(crate::text::trim_end(s2) == crate::text::trim_end(s3));
    assert(s3 =~= x.push(' '));
    assert(s3.last() == ' ');
    assert(crate::text::trim_end(s3) == crate::text::trim_end(s3.drop_last()));
    assert(s3.drop_last() =~= x);
    assert(crate::text::trim_end(x) == x);
}

proof fn lemma_strip_prefix_once(p: Seq<char>, h: Seq<char>)
    requires
        p.len() > 0,
        !starts_with(h, p),
    ensures
        strip_leading(p + h, p) == h,
{
    let s = p + h;
    assert(s.subrange(0, p.len() as int) =~= p);
    assert(starts_with(s, p));
    assert(s.skip(p.len() as int) =~= h);
    assert(strip_leading(s, p) == strip_leading(h, p));
    assert(strip_leading(h, p) == h);
}

/// `h + "/"` starts with a scheme of `n` characters only if `h` does, when `h`
/// does not end with `/` and the scheme does.
proof fn lemma_slash_no_scheme(h: Seq<char>, p: Seq<char>)
    requires
        h.len() > 0,
        h.last() != '/',
        p.len() >= 2,
        p[p.len() - 2] == '/',
        !starts_with(h, p),
    ensures
        !starts_with(h.push('/'), p),
{
    let s = h.push('/');
    if starts_with(s, p) {
        assert(s.subrange(0, p.len() as int) == p);
        if h.len() >= p.len() {
            assert(h.subrange(0, p.len() as int) =~= s.subrange(0, p.len() as int));
            assert(starts_with(h, p));
        } else {
            assert(h.len() + 1 == p.len());
            assert(s.subrange(0, p.len() as int)[h.len() - 1] == s[h.len() - 1]);
            assert(s[h.len() - 1] == h.last());
        }
    }
}

/// A host name gives the same dashboard link whether it is written bare,
/// after `http://`, after `https://` with a trailing slash, or padded with
/// spaces: always `https://` followed by the name.
pub proof fn domain_link_ignores_scheme(h: Seq<char>)
    requires
        h.len() > 0,
        forall|j: int| 0 <= j < h.len() ==> !crate::text::is_white_space(#[trigger] h[j]),
        h.last() != '/',
        !starts_with(h, "http://"@),
        !starts_with(h, "https://"@),
    ensures
        domain_link(h) == "https://"@ + h,
        domain_link("http://"@ + h) == "https://"@ + h,
        domain_link("https://"@ + h + "/"@) == "https://"@ + h,
        domain_link("  https://"@ + h + "  "@) == "https://"@ + h,
{
    reveal_strlit("http://");
    reveal_strlit("https://");
    reveal_strlit("/");
    reveal_strlit("  https://");
    reveal_strlit("  ");
    let http = "http://"@;
    let https = "https://"@;
    let full = https + h;
    assert(!crate::text::is_white_space(h[0]));
    assert(!crate::text::is_white_space(h[h.len() - 1]));
    // Shared tail: `https://h` as the bare text.
    assert(full.last() == h.last());
    assert(strip_trailing(full, '/') == full);
    // The bare name.
    lemma_trim_kept(h);
    assert(strip_leading(h, http) == h);
    assert(strip_leading(h, https) == h);
    // After `http://`.
    let a = http + h;
    assert(a[0] == 'h' && a.last() == h.last());
    lemma_trim_kept(a);
    lemma_strip_prefix_once(http, h);
    // After `https://` with a trailing slash.
    let b = https + h + "/"@;
    assert(b =~= https + h.push('/'));
    assert(b[0] == 'h' && b.last() == '/');
    lemma_trim_kept(b);
    assert(!starts_with(b, http)) by {
        if starts_with(b, http) {
            assert(b.subrange(0, 7)[4] == b[4]);
        }
    }
    lemma_slash_no_scheme(h, https);
    lemma_slash_no_scheme(h, http);
    lemma_strip_prefix_once(https, h.push('/'));
    assert(strip_leading(h.push('/'), http) == h.push('/'));
    let fs = https + h.push('/');
    assert(fs.drop_last() =~= full);
    assert(strip_trailing(fs, '/') == strip_trailing(full, '/'));
    // Padded with spaces.
    assert(full[0] == 'h');
    lemma_trim_padded(full);
    assert("  https://"@ + h + "  "@ =~= "  "@ + full + "  "@) by {
        reveal_strlit("  https://");
    }
    assert(!starts_with(full, http)) by {
        if starts_with(full, http) {
            assert(full.subrange(0, 7)[4] == full[4]);
        }
    }
    lemma_strip_prefix_once(https, h);
}

fn strip_leading_chars(v: &Vec<char>, p: &str) -> (r: Vec<char>)
    requires
        p@.len() > 0,
    ensures
        r@ == strip_leading(v@, p@),
{
    let pv = chars_of(p);
    let mut start: usize = 0;
    assert(v@.skip(0) =~= v@);
    while pv.len() <= v.len() - start && crate::text::occurs_at_exec(v, &pv, start)
        invariant
            start <= v.len(),
            pv@ == p@,
            pv.len() > 0,
            strip_leading(v@.skip(start as int), p@) == strip_leading(v@, p@),
        decreases v.len() - start,
    {
        proof {
            let rest = v@.skip(start as int);
            assert(starts_with(rest, p@)) by {
                assert forall|k: int| 0 <= k < p@.len() implies rest[k] == p@[k] by {}
                assert(rest.take(p@.len() as int) =~= p@);
            }
            assert(rest.skip(p@.len() as int) =~= v@.skip(start + pv.len()));
        }
        start = start + pv.len();
    }
    proof {
        let rest = v@.skip(start as int);
        if starts_with(rest, p@) {
            assert(start + pv.len() <= v.len());
            assert(rest.subrange(0, p@.len() as int) == p@);
            assert(v@.subrange(start as int, start + p@.len()) =~= rest.subrange(
                0,
                p@.len() as int,
            ));
        }
    }
    let mut r: Vec<char> = Vec::new();
    let mut i: usize = start;
    while i < v.len()
        invariant
            start <= i <= v.len(),
            r@ == v@.subrange(start as int, i as int),
        decreases v.len() - i,
    {
        r.push(v[i]);
        assert(v@.subrange(start as int, i + 1) =~= v@.subrange(start as int, i as int).push(v@[i as int]));
        i = i + 1;
    }
    assert(v@.subrange(start as int, v.len() as int) =~= v@.skip(start as int));
    r
}

/// Normalises the configured dashboard domain into a link.
pub fn normalize_domain_link(domain: &str) -> (r: String)
    ensures
        r@ == domain_link(domain@),
{
    proof {
        reveal_strlit("http://");
        reveal_strlit("https://");
    }
    let t = trim_str(domain);
    if t.as_str().is_empty() {
        return to_owned_string("#");
    }
    let tv = chars_of(t.as_str());
    let a = strip_leading_chars(&tv, "http://");
    let b = strip_leading_chars(&a, "https://");
    let bare = string_from_chars(&b);
    let with_scheme = if starts_with_str(bare.as_str(), "http://") || starts_with_str(
        bare.as_str(),
        "https://",
    ) {
        bare
    } else {
        concat2("https://", bare.as_str())
    };
    let w = chars_of(with_scheme.as_str());
    let mut end: usize = w.len();
    assert(w@.take(w.len() as int) =~= w@);
    while end > 0 && w[end - 1] == '/'
        invariant
            end <= w.len(),
            strip_trailing(w@.take(end as int), '/') == strip_trailing(w@, '/'),
        decreases end,
    {
        assert(w@.take(end as int).drop_last() =~= w@.take(end - 1));
        end = end - 1;
    }
    proof {
        assert(w@.take(w.len() as int) =~= w@);
    }
    let r = string_from_range(&w, 0, end);
    assert(r@ =~= w@.take(end as int));
    r
}

/// Abbreviations that a behaviour label writes in capitals.
pub open spec fn is_acronym(w: Seq<char>) -> bool {
    w == "http"@ || w == "https"@ || w == "api"@ || w == "ip"@ || w == "tls"@ || w == "ssl"@ || w
        == "ssh"@ || w == "sql"@ || w == "dns"@ || w == "vpn"@ || w == "tcp"@ || w == "udp"@ || w
        == "json"@ || w == "xml"@ || w == "smtp"@ || w == "imap"@ || w == "pop3"@
}

/// Whether a character is ASCII.
pub open spec fn is_ascii_char(c: char) -> bool {
    (c as u32) < 128
}

/// One word of a behaviour label: an abbreviation in capitals, any other
/// word with its first character upper-cased (an ASCII character as ASCII
/// upper-casing gives it, which is Unicode's mapping of it; any other by
/// `char::to_uppercase`).
pub open spec fn label_word(w: Seq<char>) -> Seq<char> {
    let lower = w.map_values(|c: char| ascii_lower(c));
    if is_acronym(lower) {
        lower.map_values(|c: char| ascii_upper(c))
    } else if w.len() == 0 {
        w
    } else {
        let first = if is_ascii_char(w[0]) {
            ascii_upper(w[0])
        } else {
            match unicode_upper_first(w[0]) {
                Some(u) => u,
                None => w[0],
            }
        };
        seq![first] + w.skip(1)
    }
}

/// The scenario without a `crowdsecurity/` prefix (looked for after
/// trimming; the scenario is kept whole when it is absent), with `-` and `_`
/// read as spaces.
pub open spec fn scenario_text(scenario: Seq<char>) -> Seq<char> {
    let t = trim(scenario);
    let base = if starts_with(t, "crowdsecurity/"@) {
        t.skip("crowdsecurity/"@.len() as int)
    } else {
        scenario
    };
    replace_all(replace_all(base, "-"@, " "@), "_"@, " "@)
}

/// A readable label for a scenario: its words, each as `label_word` writes
/// it, joined with single spaces.
pub open spec fn behavior_label(scenario: Seq<char>) -> Seq<char> {
    join(words(scenario_text(scenario)).map_values(|w: Seq<char>| label_word(w)), " "@)
}

/// A character that a label word may hold: ASCII, not white space, not `-`
/// or `_`.
pub open spec fn word_char(c: char) -> bool {
    is_ascii_char(c) && !crate::text::is_white_space(c) && c != '-' && c != '_'
}

/// Whether every character of `s` is ASCII.
pub open spec fn ascii_text(s: Seq<char>) -> bool {
    forall|i: int| 0 <= i < s.len() ==> is_ascii_char(#[trigger] s[i])
}

proof fn lemma_ascii_case(c: char)
    ensures
        ascii_lower(ascii_upper(c)) == ascii_lower(c),
        ascii_lower(ascii_lower(c)) == ascii_lower(c),
        ascii_upper(ascii_upper(c)) == ascii_upper(c),
        !('a' <= ascii_upper(c) && ascii_upper(c) <= 'z'),
        word_char(c) ==> word_char(ascii_upper(c)) && word_char(ascii_lower(c)),
{
}

proof fn lemma_label_word(w: Seq<char>)
    requires
        w.len() > 0,
        forall|j: int| 0 <= j < w.len() ==> word_char(#[trigger] w[j]),
    ensures
        label_word(w).len() > 0,
        forall|j: int| 0 <= j < label_word(w).len() ==> word_char(#[trigger] label_word(w)[j]),
        !('a' <= label_word(w)[0] && label_word(w)[0] <= 'z'),
        label_word(label_word(w)) == label_word(w),
{
    let lower = w.map_values(|c: char| ascii_lower(c));
    let lw = label_word(w);
    let lower2 = lw.map_values(|c: char| ascii_lower(c));
    if is_acronym(lower) {
        assert forall|j: int| 0 <= j < lw.len() implies word_char(#[trigger] lw[j]) && lower2[j]
            == lower[j] by {
            lemma_ascii_case(w[j]);
            lemma_ascii_case(ascii_lower(w[j]));
        }
        lemma_ascii_case(ascii_lower(w[0]));
        assert(lower2 =~= lower);
        assert(lower.map_values(|c: char| ascii_upper(c)) == lw);
    } else {
        let first = ascii_upper(w[0]);
        lemma_ascii_case(w[0]);
        assert(lw == seq![first] + w.skip(1));
        assert forall|j: int| 0 <= j < lw.len() implies word_char(#[trigger] lw[j]) && lower2[j]
            == lower[j] by {
            lemma_ascii_case(w[j]);
            if j > 0 {
                assert(lw[j] == w[j]);
            }
        }
        assert(lower2 =~= lower);
        lemma_ascii_case(first);
        assert(seq![ascii_upper(lw[0])] + lw.skip(1) =~= lw);
    }
}

/// For an ASCII scenario the label holds no `-` or `_`, has no space at
/// either end and no two spaces together, its words are the scenario's
/// words as `label_word` writes them, and labelling it again changes
/// nothing.
pub proof fn behavior_label_is_clean(scenario: Seq<char>)
    requires
        ascii_text(scenario),
    ensures
        ({
            let r = behavior_label(scenario);
            &&& forall|k: int| 0 <= k < r.len() ==> #[trigger] r[k] != '-' && r[k] != '_'
            &&& forall|k: int|
                0 <= k < r.len() && #[trigger] r[k] == ' ' ==> 0 < k < r.len() - 1 && r[k - 1]
                    != ' ' && r[k + 1] != ' '
            &&& r.len() > 0 ==> r[0] != ' ' && r.last() != ' '
            &&& words(r) == words(scenario_text(scenario)).map_values(|w: Seq<char>| label_word(w))
            &&& behavior_label(r) == r
        }),
{
    reveal_strlit("crowdsecurity/");
    reveal_strlit("-");
    reveal_strlit("_");
    reveal_strlit(" ");
    let ws = |c: char| crate::text::is_white_space(c);
    let prefix = "crowdsecurity/"@;
    // The text whose words are labelled: ASCII, without `-` and `_`.
    let t = trim(scenario);
    crate::text::lemma_trim_piece(scenario);
    let (lo, hi) = choose|lo: int, hi: int|
        0 <= lo <= hi <= scenario.len() && trim(scenario) == scenario.subrange(lo, hi);
    let base = if starts_with(t, prefix) {
        t.skip(prefix.len() as int)
    } else {
        scenario
    };
    let p1 = |c: char| is_ascii_char(c);
    let p2 = |c: char| is_ascii_char(c) && c != '-';
    let p3 = |c: char| is_ascii_char(c) && c != '-' && c != '_';
    assert forall|i: int| 0 <= i < base.len() implies p1(#[trigger] base[i]) by {
        if starts_with(t, prefix) {
            assert(base[i] == scenario[lo + prefix.len() + i]);
        }
    }
    assert("-"@ =~= seq!['-']);
    assert("_"@ =~= seq!['_']);
    assert(" "@ =~= seq![' ']);
    let r1 = replace_all(base, "-"@, " "@);
    crate::text::lemma_replace_all_chars(base, "-"@, " "@, p1);
    crate::text::lemma_replace_char_gone(base, '-', ' ');
    assert forall|i: int| 0 <= i < r1.len() implies p2(#[trigger] r1[i]) by {
        assert(p1(r1[i]));
    }
    let text = replace_all(r1, "_"@, " "@);
    crate::text::lemma_replace_all_chars(r1, "_"@, " "@, p2);
    crate::text::lemma_replace_char_gone(r1, '_', ' ');
    assert(text == scenario_text(scenario));
    assert forall|i: int| 0 <= i < text.len() implies p3(#[trigger] text[i]) by {
        assert(p2(text[i]));
    }
    // Its words.
    let pieces = crate::text::split_by(text, ws);
    crate::text::lemma_split_by_chars(text, ws, p3);
    crate::text::lemma_split_by_pieces(text, ws);
    let wv = words(text);
    crate::text::lemma_keep_nonempty_from(pieces);
    assert forall|i: int, j: int| 0 <= i < wv.len() && 0 <= j < wv[i].len() implies word_char(
        #[trigger] wv[i][j],
    ) by {
        let k = choose|k: int| 0 <= k < pieces.len() && wv[i] == pieces[k];
        assert(p3(pieces[k][j]));
        assert(!ws(pieces[k][j]));
    }
    // The labelled words.
    let lv = wv.map_values(|w: Seq<char>| label_word(w));
    assert forall|i: int| 0 <= i < lv.len() implies (#[trigger] lv[i]).len() > 0 && (forall|j: int|
        0 <= j < lv[i].len() ==> word_char(#[trigger] lv[i][j])) && !('a' <= lv[i][0] && lv[i][0]
        <= 'z') && label_word(lv[i]) == lv[i] by {
        assert(wv[i].len() > 0);
        assert forall|j: int| 0 <= j < wv[i].len() implies word_char(#[trigger] wv[i][j]) by {}
        lemma_label_word(wv[i]);
    }
    let r = join(lv, " "@);
    assert(r == behavior_label(scenario));
    let p4 = |c: char| c != '-' && c != '_';
    assert forall|i: int, j: int| 0 <= i < lv.len() && 0 <= j < lv[i].len() implies !crate::text::is_white_space(
        #[trigger] lv[i][j],
    ) && p4(lv[i][j]) by {
        assert(word_char(lv[i][j]));
    }
    crate::text::lemma_join_shape(lv, p4);
    assert forall|k: int| 0 <= k < r.len() implies #[trigger] r[k] != '-' && r[k] != '_' by {
        assert(p4(r[k]));
    }
    // The words of the label.
    if lv.len() >= 1 {
        crate::text::lemma_split_join(lv);
        crate::text::lemma_keep_nonempty_all(lv);
        assert(!crate::text::is_white_space(r[0])) by {
            assert(word_char(lv[0][0]));
        }
        assert(!crate::text::is_white_space(r.last())) by {
            let n = lv[lv.len() - 1].len();
            assert(word_char(lv[lv.len() - 1][n - 1]));
        }
        lemma_trim_kept(r);
        assert(!('a' <= r[0] && r[0] <= 'z'));
    } else {
        assert(r =~= Seq::<char>::empty());
        let e = Seq::<char>::empty();
        assert(crate::text::split_by(e, ws) == seq![e]);
        assert(seq![e].drop_last() =~= Seq::<Seq<char>>::empty());
        assert(crate::text::keep_nonempty(seq![e].drop_last()) =~= Seq::<Seq<char>>::empty());
        assert(seq![e].last().len() == 0);
        assert(crate::text::keep_nonempty(seq![e]) =~= Seq::<Seq<char>>::empty());
    }
    assert(words(r) == lv);
    // Labelling again.
    assert(trim(r) == r);
    assert(!starts_with(r, prefix)) by {
        if starts_with(r, prefix) {
            assert(r.subrange(0, prefix.len() as int)[0] == r[0]);
        }
    }
    crate::text::lemma_replace_absent(r, '-', " "@);
    crate::text::lemma_replace_absent(r, '_', " "@);
    assert(scenario_text(r) == r);
    assert(lv.map_values(|w: Seq<char>| label_word(w)) =~= lv);
}

fn is_acronym_exec(w: &Vec<char>) -> (r: bool)
    ensures
        r == is_acronym(w@),
{
    let s = string_from_chars(w);
    let t = s.as_str();
    str_eq(t, "http") || str_eq(t, "https") || str_eq(t, "api") || str_eq(t, "ip") || str_eq(
        t,
        "tls",
    ) || str_eq(t, "ssl") || str_eq(t, "ssh") || str_eq(t, "sql") || str_eq(t, "dns") || str_eq(
        t,
        "vpn",
    ) || str_eq(t, "tcp") || str_eq(t, "udp") || str_eq(t, "json") || str_eq(t, "xml") || str_eq(
        t,
        "smtp",
    ) || str_eq(t, "imap") || str_eq(t, "pop3")
}

fn label_word_exec(w: &Vec<char>) -> (r: String)
    ensures
        r@ == label_word(w@),
{
    let lower = to_ascii_lowercase(w);
    if is_acronym_exec(&lower) {
        let upper = to_ascii_uppercase(&lower);
        return string_from_chars(&upper);
    }
    if w.len() == 0 {
        return string_from_chars(w);
    }
    let c = w[0];
    let first = if (c as u32) < 128 {
        ascii_upper_char(c)
    } else {
        match char_to_uppercase_first(c) {
            Some(u) => u,
            None => c,
        }
    };
    let mut v: Vec<char> = Vec::new();
    v.push(first);
    let mut i: usize = 1;
    while i < w.len()
        invariant
            1 <= i <= w.len(),
            v@ == seq![first] + w@.subrange(1, i as int),
        decreases w.len() - i,
    {
        v.push(w[i]);
        assert(seq![first] + w@.subrange(1, i + 1) =~= (seq![first] + w@.subrange(1, i as int)).push(
            w@[i as int],
        ));
        i = i + 1;
    }
    assert(w@.subrange(1, w.len() as int) =~= w@.skip(1));
    string_from_chars(&v)
}

/// Turns a scenario name into a readable behaviour label.
pub fn clean_behavior_label(scenario: &str) -> (r: String)
    ensures
        r@ == behavior_label(scenario@),
{
    proof {
        reveal_strlit("crowdsecurity/");
        reveal_strlit("-");
        reveal_strlit("_");
    }
    let t = trim_str(scenario);
    let base = if starts_with_str(t.as_str(), "crowdsecurity/") {
        let tv = chars_of(t.as_str());
        let r = string_from_range(&tv, 14, tv.len());
        assert(r@ =~= t@.skip("crowdsecurity/"@.len() as int));
        r
    } else {
        to_owned_string(scenario)
    };
    let dashes = replace_str(base.as_str(), "-", " ");
    let spaced = replace_str(dashes.as_str(), "_", " ");
    let ws = split_whitespace(spaced.as_str());
    let ghost wv = char_vecs_view(ws@);
    let mut parts: Vec<String> = Vec::new();
    let mut i: usize = 0;
    while i < ws.len()
        invariant
            i <= ws.len(),
            wv == char_vecs_view(ws@),
            strings_view(parts@) == wv.take(i as int).map_values(|w: Seq<char>| label_word(w)),
        decreases ws.len() - i,
    {
        let ghost before = strings_view(parts@);
        parts.push(label_word_exec(&ws[i]));
        assert(strings_view(parts@) =~= before.push(label_word(wv[i as int])));
        assert(wv.take(i + 1).map_values(|w: Seq<char>| label_word(w)) =~= wv.take(
            i as int,
        ).map_values(|w: Seq<char>| label_word(w)).push(label_word(wv[i as int])));
        i = i + 1;
    }
    assert(wv.take(ws.len() as int) =~= wv);
    join_strings(&parts, " ")
}

/// One behaviour of a report and its number of alerts.
pub struct BehaviorSummary {
    pub label: String,
    pub count: i64,
}

/// The content of a report.
pub struct SecuritySummary {
    pub total_attacks: i64,
    pub top_behaviors: Vec<BehaviorSummary>,
    pub link: String,
    pub generated_at: String,
}

/// An alert as a report counts it.
pub struct AlertSummary {
    pub id: String,
    pub scenario: String,
    pub ip: String,
    pub country: String,
    pub count: i64,
}

/// One row of the behaviour table of a report email.
pub struct EmailMetricRow {
    pub rank: usize,
    pub label: String,
    pub count: String,
}

/// The values a report email is rendered from.
pub struct SecurityReportEmailTemplate<'a> {
    pub range_label: &'a str,
    pub total_count: &'a str,
    pub top_rows: &'a [EmailMetricRow],
    pub link_url: &'a str,
    pub link_text: &'a str,
    pub generated_at: &'a str,
    pub from_name: &'a str,
}

proof fn lemma_abs_prefix(t: Seq<(Seq<char>, int)>, i: int)
    requires
        0 <= i <= t.len(),
    ensures
        abs_total(t.take(i)) <= abs_total(t),
        -abs_total(t.take(i)) <= total(t.take(i)) <= abs_total(t.take(i)),
    decreases t.len() - i,
{
    if i == t.len() {
        assert(t.take(i) =~= t);
        lemma_abs_bounds_total(t);
    } else {
        lemma_abs_prefix(t, i + 1);
        assert(t.take(i + 1).drop_last() =~= t.take(i));
        lemma_abs_bounds_total(t.take(i));
        crate::aggregate::lemma_abs_total_nonneg(t.take(i));
    }
}

proof fn lemma_abs_bounds_total(t: Seq<(Seq<char>, int)>)
    ensures
        -abs_total(t) <= total(t) <= abs_total(t),
    decreases t.len(),
{
    if t.len() > 0 {
        lemma_abs_bounds_total(t.drop_last());
    }
}

/// `r` holds the `limit` behaviours with the most alerts, most first, equal
/// counts in the order of `rows`, each scenario written as a label.
pub open spec fn top_behaviors(rows: Seq<(Seq<char>, int)>, limit: nat, r: Seq<BehaviorSummary>) -> bool {
    &&& r.len() == if limit < rows.len() {
        limit as int
    } else {
        rows.len() as int
    }
    &&& exists|order: Seq<usize>|
        #[trigger] stable_desc(amounts(rows), order) && forall|j: int|
            0 <= j < r.len() ==> (#[trigger] r[j]).label@ == behavior_label(rows[order[j] as int].0)
                && r[j].count == rows[order[j] as int].1
}

/// The summary of a week: the sum of the alert counts of `rows` (scenario
/// and count), the `limit` behaviours with the most alerts, the dashboard
/// link and the generation time.
pub fn summarize_behaviors(rows: &CountMap, limit: usize, domain: &str, generated_at: &str) -> (r:
    SecuritySummary)
    requires
        abs_total(counts_view(rows@)) <= i64::MAX,
    ensures
        r.total_attacks == total(counts_view(rows@)),
        top_behaviors(counts_view(rows@), limit as nat, r.top_behaviors@),
        r.link@ == domain_link(domain@),
        r.generated_at@ == generated_at@,
{
    let ghost t = counts_view(rows@);
    let mut sum: i64 = 0;
    let mut keys: Vec<i64> = Vec::new();
    let mut i: usize = 0;
    while i < rows.len()
        invariant
            i <= rows.len(),
            t == counts_view(rows@),
            abs_total(t) <= i64::MAX,
            sum == total(t.take(i as int)),
            keys.len() == i,
            forall|j: int| 0 <= j < i ==> keys@[j] == rows@[j].1,
        decreases rows.len() - i,
    {
        proof {
            lemma_abs_prefix(t, i + 1);
            assert(t.take(i + 1).drop_last() =~= t.take(i as int));
            assert(t.take(i + 1).last() == t[i as int]);
        }
        sum = sum + rows[i].1;
        keys.push(rows[i].1);
        i = i + 1;
    }
    assert(t.take(rows.len() as int) =~= t);
    assert(keys@.map_values(|k: i64| k as int) =~= amounts(t));
    let order = order_desc(&keys);
    let n = if limit < rows.len() {
        limit
    } else {
        rows.len()
    };
    let mut top: Vec<BehaviorSummary> = Vec::new();
    let mut j: usize = 0;
    while j < n
        invariant
            j <= n <= rows.len(),
            t == counts_view(rows@),
            order.len() == rows.len(),
            stable_desc(amounts(t), order@),
            top.len() == j,
            forall|q: int|
                0 <= q < j ==> (#[trigger] top@[q]).label@ == behavior_label(
                    t[order@[q] as int].0,
                ) && top@[q].count == t[order@[q] as int].1,
        decreases n - j,
    {
        let ix = order[j];
        assert(ix < rows.len());
        top.push(
            BehaviorSummary {
                label: clean_behavior_label(rows[ix].0.as_str()),
                count: rows[ix].1,
            },
        );
        j = j + 1;
    }
    assert(stable_desc(amounts(t), order@));
    SecuritySummary {
        total_attacks: sum,
        top_behaviors: top,
        link: normalize_domain_link(domain),
        generated_at: to_owned_string(generated_at),
    }
}

/// The scenario and count of each alert.
pub open spec fn alert_rows(payload: Seq<AlertSummary>) -> Seq<(Seq<char>, int)> {
    payload.map_values(|a: AlertSummary| (a.scenario@, a.count as int))
}

/// The summary of a list of alerts: their total count and every behaviour,
/// the most frequent first.
pub fn build_security_summary(payload: &Vec<AlertSummary>, domain: &str, generated_at: &str) -> (r:
    SecuritySummary)
    requires
        abs_total(alert_rows(payload@)) <= i64::MAX,
    ensures
        r.total_attacks == total(alert_rows(payload@)),
        top_behaviors(alert_rows(payload@), payload.len() as nat, r.top_behaviors@),
        r.link@ == domain_link(domain@),
        r.generated_at@ == generated_at@,
{
    let mut rows: CountMap = Vec::new();
    let mut i: usize = 0;
    while i < payload.len()
        invariant
            i <= payload.len(),
            counts_view(rows@) == alert_rows(payload@).take(i as int),
        decreases payload.len() - i,
    {
        let ghost before = counts_view(rows@);
        rows.push((to_owned_string(payload[i].scenario.as_str()), payload[i].count));
        assert(counts_view(rows@) =~= before.push((payload@[i as int].scenario@, payload@[i as int].count as int)));
        assert(alert_rows(payload@).take(i + 1) =~= alert_rows(payload@).take(i as int).push(
            (payload@[i as int].scenario@, payload@[i as int].count as int),
        ));
        i = i + 1;
    }
    assert(alert_rows(payload@).take(payload.len() as int) =~= alert_rows(payload@));
    summarize_behaviors(&rows, payload.len(), domain, generated_at)
}

/// The weekday `weekday_of` counts for Monday.
pub const MONDAY: u32 = 0;

/// Whether the instant falls on the given weekday (counted from Monday as
/// 0), in UTC.
pub fn should_send_on_weekday(t: &UtcTime, weekday: u32) -> (r: bool)
    ensures
        r == (utc_exists(t.secs, t.nanos) && utc_weekday(t.secs, t.nanos) == weekday),
{
    match weekday_of(t) {
        Some(d) => d == weekday,
        None => false,
    }
}

/// Why no weekly report goes out.
pub enum ReportSkip {
    /// Email reports are switched off.
    Disabled,
    /// The SMTP host or the recipients are missing.
    Incomplete,
    /// Reports go out on Mondays only.
    NotMonday,
    /// Today's report was sent already.
    AlreadySent,
}

/// Whether a weekly report goes out now.
pub enum WeeklyDecision {
    Skip(ReportSkip),
    /// Send, then record `today` as the day of the last report.
    Send { today: String },
}

/// Email reporting has what it needs: an SMTP host and a recipient.
pub open spec fn smtp_ready(config: Config) -> bool {
    trim(config.smtp_host@).len() > 0 && (if config.email_recipients.len() > 0 {
        strings_view(config.email_recipients@)
    } else {
        list_items(config.email_to@)
    }).len() > 0
}

/// The weekly report goes out on a Monday (UTC) when reporting is on and
/// configured, unless the recorded day of the last report (`stamp`, trimmed
/// and non-empty) is today.
pub open spec fn weekly_decision_is(config: Config, now: UtcTime, stamp: Option<Seq<char>>, d: WeeklyDecision) -> bool {
    if !config.email_enabled {
        d == WeeklyDecision::Skip(ReportSkip::Disabled)
    } else if !smtp_ready(config) {
        d == WeeklyDecision::Skip(ReportSkip::Incomplete)
    } else if !(utc_exists(now.secs, now.nanos) && utc_weekday(now.secs, now.nanos) == MONDAY) {
        d == WeeklyDecision::Skip(ReportSkip::NotMonday)
    } else {
        let today = utc_formatted(now.secs, now.nanos, "%Y-%m-%d"@);
        if stamp matches Some(s) && trim(s).len() > 0 && trim(s) == today {
            d == WeeklyDecision::Skip(ReportSkip::AlreadySent)
        } else {
            d matches WeeklyDecision::Send { today: t } && t@ == today
        }
    }
}

/// Decides whether the weekly report is due.
pub fn weekly_report_decision(config: &Config, now: &UtcTime, stamp: Option<&str>) -> (d:
    WeeklyDecision)
    ensures
        weekly_decision_is(
            *config,
            *now,
            match stamp {
                Some(s) => Some(s@),
                None => None,
            },
            d,
        ),
{
    if !config.email_enabled {
        return WeeklyDecision::Skip(ReportSkip::Disabled);
    }
    let recipients = report_recipients(config);
    let host = trim_str(config.smtp_host.as_str());
    if host.as_str().is_empty() || recipients.len() == 0 {
        return WeeklyDecision::Skip(ReportSkip::Incomplete);
    }
    if !should_send_on_weekday(now, MONDAY) {
        return WeeklyDecision::Skip(ReportSkip::NotMonday);
    }
    let today = match format_utc(now, "%Y-%m-%d") {
        Some(t) => t,
        None => return WeeklyDecision::Skip(ReportSkip::NotMonday),
    };
    match stamp {
        Some(s) => {
            let t = trim_str(s);
            if !t.as_str().is_empty() && str_eq(t.as_str(), today.as_str()) {
                return WeeklyDecision::Skip(ReportSkip::AlreadySent);
            }
        },
        None => {},
    }
    WeeklyDecision::Send { today }
}

/// Where the day of the last weekly report is recorded.
pub fn weekly_stamp_path(config: &Config) -> (r: String)
    ensures
        r@ == config.static_dir@ + "/weekly-report-last-sent.txt"@,
{
    concat2(config.static_dir.as_str(), "/weekly-report-last-sent.txt")
}

/// What a request for a report right away leads to.
pub enum ManualDecision {
    /// Reporting is off: nothing is sent, and that is no error.
    Disabled,
    /// The request fails with this message.
    Refused(String),
    Send,
}

/// A report on request goes out when reporting is on and configured.
pub fn manual_report_decision(config: &Config) -> (d: ManualDecision)
    ensures
        !config.email_enabled ==> d is Disabled,
        config.email_enabled && !smtp_ready(*config) ==> (d matches ManualDecision::Refused(m) && m@
            == "SMTP host or recipient is not configured"@),
        config.email_enabled && smtp_ready(*config) ==> d is Send,
{
    if !config.email_enabled {
        return ManualDecision::Disabled;
    }
    let recipients = report_recipients(config);
    let host = trim_str(config.smtp_host.as_str());
    if host.as_str().is_empty() || recipients.len() == 0 {
        return ManualDecision::Refused(to_owned_string("SMTP host or recipient is not configured"));
    }
    ManualDecision::Send
}

/// A report email needs a sender and a recipient: the error when one is
/// missing.
pub fn delivery_precheck(config: &Config) -> (r: Option<String>)
    ensures
        match r {
            Some(m) => m@ == "email sender or recipient is not configured"@ && (trim(
                config.email_from@,
            ).len() == 0 || (if config.email_recipients.len() > 0 {
                strings_view(config.email_recipients@)
            } else {
                list_items(config.email_to@)
            }).len() == 0),
            None => trim(config.email_from@).len() > 0 && (if config.email_recipients.len() > 0 {
                strings_view(config.email_recipients@)
            } else {
                list_items(config.email_to@)
            }).len() > 0,
        },
{
    let from = trim_str(config.email_from.as_str());
    let recipients = report_recipients(config);
    if from.as_str().is_empty() || recipients.len() == 0 {
        Some(to_owned_string("email sender or recipient is not configured"))
    } else {
        None
    }
}

/// The error for a recipient that is no email address.
pub fn invalid_recipient_error(recipient: &str) -> (r: String)
    ensures
        r@ == "invalid recipient email address: "@ + recipient@,
{
    concat2("invalid recipient email address: ", recipient)
}

/// An SMTP error that says the login was refused.
pub open spec fn is_auth_rejection(detail: Seq<char>) -> bool {
    let l = unicode_lowercase(detail);
    crate::text::contains(l, "invalid email user"@) || crate::text::contains(l, "invalid username"@)
        || crate::text::contains(l, "authentication failed"@) || crate::text::contains(l, "535"@)
}

/// The message for a failed delivery, with a hint when the login was
/// refused.
pub fn smtp_failure_message(detail: &str) -> (r: String)
    ensures
        r@ == if is_auth_rejection(detail@) {
            detail@ + ". SMTP authentication was rejected; check SMTP_USERNAME and provider requirements."@
        } else {
            detail@
        },
{
    let l = str_to_lowercase(detail);
    let rejected = contains_str(l.as_str(), "invalid email user") || contains_str(
        l.as_str(),
        "invalid username",
    ) || contains_str(l.as_str(), "authentication failed") || contains_str(l.as_str(), "535");
    if rejected {
        concat2(
            detail,
            ". SMTP authentication was rejected; check SMTP_USERNAME and provider requirements.",
        )
    } else {
        to_owned_string(detail)
    }
}

/// What follows a round of sending a report to every recipient.
pub enum DeliveryStep {
    Delivered,
    /// Wait a minute, then send again.
    RetryLater(String),
    /// Stop, with this error.
    GiveUp(String),
}

/// After the first failed round the report is sent once more; after a
/// second one delivery stops with the last error.
pub fn delivery_step(failed_rounds: u32, last_error: Option<String>) -> (r: DeliveryStep)
    requires
        failed_rounds < u32::MAX,
    ensures
        match last_error {
            None => r is Delivered,
            Some(e) => if failed_rounds == 0 {
                r matches DeliveryStep::RetryLater(m) && m@ == e@
            } else {
                r matches DeliveryStep::GiveUp(m) && m@ == "mail send failed: "@ + e@
            },
        },
{
    match last_error {
        None => DeliveryStep::Delivered,
        Some(e) => {
            if failed_rounds + 1 == 1 {
                DeliveryStep::RetryLater(e)
            } else {
                DeliveryStep::GiveUp(concat2("mail send failed: ", e.as_str()))
            }
        },
    }
}

/// How the SMTP connection is secured.
pub enum TransportMode {
    StartTls,
    Tls,
    /// No encryption.
    Plain,
}

/// `STARTTLS` or `SSL` in any case select those modes; anything else means
/// no encryption.
pub fn transport_mode(encryption: &str) -> (r: TransportMode)
    ensures
        r == if unicode_uppercase(encryption@) == "STARTTLS"@ {
            TransportMode::StartTls
        } else if unicode_uppercase(encryption@) == "SSL"@ {
            TransportMode::Tls
        } else {
            TransportMode::Plain
        },
{
    let u = str_to_uppercase(encryption);
    if str_eq(u.as_str(), "STARTTLS") {
        TransportMode::StartTls
    } else if str_eq(u.as_str(), "SSL") {
        TransportMode::Tls
    } else {
        TransportMode::Plain
    }
}

/// The SMTP user name and password, trimmed.
pub fn smtp_credentials(config: &Config) -> (r: (String, String))
    ensures
        r.0@ == trim(config.smtp_username@),
        r.1@ == trim(config.smtp_password@),
{
    (trim_str(config.smtp_username.as_str()), trim_str(config.smtp_password.as_str()))
}

/// The sender name of a report email: the dashboard domain, or `CrowdSec
/// Map`.
pub fn email_from_name(domain: &str) -> (r: String)
    ensures
        r@ == if trim(domain@).len() == 0 {
            "CrowdSec Map"@
        } else {
            trim(domain@)
        },
{
    let t = trim_str(domain);
    if t.as_str().is_empty() {
        to_owned_string("CrowdSec Map")
    } else {
        t
    }
}

/// The text of the dashboard link of a report email.
pub fn email_link_text(link: &str) -> (r: &'static str)
    ensures
        r@ == if link@ == "#"@ {
            "No dashboard link configured"@
        } else {
            "View Full Report in Console"@
        },
{
    if str_eq(link, "#") {
        "No dashboard link configured"
    } else {
        "View Full Report in Console"
    }
}

/// The behaviour table of a report email: ranks from 1, the labels, and the
/// counts as written for display.
pub fn email_metric_rows(report: &SecuritySummary, counts: &Vec<String>) -> (r: Vec<EmailMetricRow>)
    requires
        counts.len() == report.top_behaviors.len(),
    ensures
        r.len() == report.top_behaviors.len(),
        forall|j: int|
            0 <= j < r.len() ==> (#[trigger] r@[j]).rank == j + 1 && r@[j].label@
                == report.top_behaviors@[j].label@ && r@[j].count@ == counts@[j]@,
{
    let mut r: Vec<EmailMetricRow> = Vec::new();
    let mut i: usize = 0;
    while i < counts.len()
        invariant
            i <= counts.len() == report.top_behaviors.len(),
            r.len() == i,
            forall|j: int|
                0 <= j < i ==> (#[trigger] r@[j]).rank == j + 1 && r@[j].label@
                    == report.top_behaviors@[j].label@ && r@[j].count@ == counts@[j]@,
        decreases counts.len() - i,
    {
        r.push(
            EmailMetricRow {
                rank: i + 1,
                label: to_owned_string(report.top_behaviors[i].label.as_str()),
                count: to_owned_string(counts[i].as_str()),
            },
        );
        i = i + 1;
    }
    r
}

/// The values of a report email.
pub fn email_template<'a>(
    report: &'a SecuritySummary,
    range_label: &'a str,
    total_count: &'a str,
    top_rows: &'a [EmailMetricRow],
    from_name: &'a str,
) -> (r: SecurityReportEmailTemplate<'a>)
    ensures
        r.range_label@ == range_label@,
        r.total_count@ == total_count@,
        r.top_rows@ == top_rows@,
        r.link_url@ == report.link@,
        r.link_text@ == if report.link@ == "#"@ {
            "No dashboard link configured"@
        } else {
            "View Full Report in Console"@
        },
        r.generated_at@ == report.generated_at@,
        r.from_name@ == from_name@,
{
    SecurityReportEmailTemplate {
        range_label,
        total_count,
        top_rows,
        link_url: report.link.as_str(),
        link_text: email_link_text(report.link.as_str()),
        generated_at: report.generated_at.as_str(),
        from_name,
    }
}

/// A weekly report goes out only on a Monday, with reporting on and
/// configured, and never twice on a day: a recorded day that reads as
/// today stops it.
pub proof fn weekly_report_rules(config: Config, now: UtcTime, stamp: Option<Seq<char>>, d: WeeklyDecision)
    requires
        weekly_decision_is(config, now, stamp, d),
    ensures
        d is Send ==> config.email_enabled && smtp_ready(config) && utc_exists(now.secs, now.nanos)
            && utc_weekday(now.secs, now.nanos) == MONDAY,
        (stamp matches Some(s) && trim(s).len() > 0 && trim(s) == utc_formatted(
            now.secs,
            now.nanos,
            "%Y-%m-%d"@,
        )) ==> !(d is Send),
{
}

proof fn lemma_trim_end_keeps_first(x: Seq<char>)
    requires
        x.len() > 0,
        !crate::text::is_white_space(x[0]),
    ensures
        crate::text::trim_end(x).len() > 0,
    decreases x.len(),
{
    if crate::text::is_white_space(x.last()) {
        assert(x.len() > 1);
        assert(x.drop_last()[0] == x[0]);
        lemma_trim_end_keeps_first(x.drop_last());
    }
}

/// A report's subject is never blank.
pub proof fn subject_never_blank(template_setting: Seq<char>, public_ip: Seq<char>, range: Seq<char>)
    ensures
        trim(email_subject(template_setting, public_ip, range)).len() > 0,
{
    reveal_strlit("Security Report for ");
    let rendered = trim(template_setting);
    let template = if rendered.len() == 0 {
        DEFAULT_SUBJECT_TEMPLATE@
    } else {
        rendered
    };
    let subject = substituted(template, public_ip, range);
    if trim(subject).len() == 0 {
        let x = "Security Report for "@ + public_ip + " account: "@ + range;
        assert(x[0] == 'S');
        assert(crate::text::trim_start(x) == x);
        lemma_trim_end_keeps_first(x);
    }
}

} // verus!
