//! Facts about the host: the release named in `/etc/os-release` and the
//! services asked for the public address.

use vstd::prelude::*;
use crate::investigation::{split_lines, text_lines};
use crate::security_report::{strip_leading, strip_trailing};
use crate::text::{
    chars_of, starts_with, starts_with_str, string_from_chars, string_from_range, to_owned_string,
    trim, trim_str, concat2,
};

verus! {

/// The rest of the first line that starts with `prefix`.
pub open spec fn first_with_prefix(lines: Seq<Seq<char>>, prefix: Seq<char>) -> Option<Seq<char>>
    decreases lines.len(),
{
    if lines.len() == 0 {
        None
    } else if starts_with(lines[0], prefix) {
        Some(lines[0].skip(prefix.len() as int))
    } else {
        first_with_prefix(lines.drop_first(), prefix)
    }
}

/// The value of `KEY=` in os-release text, without surrounding double
/// quotes, or `unknown`.
pub open spec fn os_release_value(contents: Seq<char>, key: Seq<char>) -> Seq<char> {
    match first_with_prefix(text_lines(contents), key + "="@) {
        Some(v) => strip_trailing(strip_leading(v, "\""@), '"'),
        None => "unknown"@,
    }
}

fn unquote(v: &Vec<char>) -> (r: String)
    ensures
        r@ == strip_trailing(strip_leading(v@, "\""@), '"'),
{
    proof {
        reveal_strlit("\"");
    }
    let mut lo: usize = 0;
    assert(v@.skip(0) =~= v@);
    while lo < v.len() && v[lo] == '"'
        invariant
            lo <= v.len(),
            strip_leading(v@.skip(lo as int), "\""@) == strip_leading(v@, "\""@),
        decreases v.len() - lo,
    {
        proof {
            reveal_strlit("\"");
            let rest = v@.skip(lo as int);
            assert(rest.subrange(0, 1) =~= "\""@);
            assert(rest.skip(1) =~= v@.skip(lo + 1));
        }
        lo = lo + 1;
    }
    proof {
        let rest = v@.skip(lo as int);
        if rest.len() > 0 {
            assert(rest[0] == v@[lo as int]);
            if crate::text::starts_with(rest, "\""@) {
                assert(rest.subrange(0, 1)[0] == rest[0]);
            }
        }
    }
    let mut hi: usize = v.len();
    let ghost rest = v@.skip(lo as int);
    assert(rest.take(rest.len() as int) =~= rest);
    while hi > lo && v[hi - 1] == '"'
        invariant
            lo <= hi <= v.len(),
            rest == v@.skip(lo as int),
            strip_trailing(rest.take(hi - lo), '"') == strip_trailing(rest, '"'),
        decreases hi - lo,
    {
        assert(rest.take(hi - lo).drop_last() =~= rest.take(hi - lo - 1));
        assert(rest.take(hi - lo).last() == v@[hi - 1]);
        hi = hi - 1;
    }
    let r = string_from_range(v, lo, hi);
    assert(r@ =~= rest.take(hi - lo));
    r
}

/// The value of `KEY=` in os-release text.
pub fn os_release_value_of(contents: &str, key: &str) -> (r: String)
    ensures
        r@ == os_release_value(contents@, key@),
{
    let lines = split_lines(contents);
    let prefix = concat2(key, "=");
    let ghost ls = crate::text::strings_view(lines@);
    let mut i: usize = 0;
    assert(ls.skip(0) =~= ls);
    while i < lines.len()
        invariant
            i <= lines.len(),
            ls == crate::text::strings_view(lines@),
            ls == text_lines(contents@),
            prefix@ == key@ + "="@,
            first_with_prefix(ls.skip(i as int), prefix@) == first_with_prefix(ls, prefix@),
        decreases lines.len() - i,
    {
        let ghost rest = ls.skip(i as int);
        assert(rest[0] == lines@[i as int]@);
        if starts_with_str(lines[i].as_str(), prefix.as_str()) {
            let v = chars_of(lines[i].as_str());
            let pv = chars_of(prefix.as_str());
            let tail = string_from_range(&v, pv.len(), v.len());
            let tv = chars_of(tail.as_str());
            assert(tv@ =~= lines@[i as int]@.skip(prefix@.len() as int));
            return unquote(&tv);
        }
        assert(rest.drop_first() =~= ls.skip(i + 1));
        i = i + 1;
    }
    to_owned_string("unknown")
}

/// The name and version of the host's release, from the text of
/// `/etc/os-release`.
pub fn read_os_release_from(contents: &str) -> (r: (String, String))
    ensures
        r.0@ == os_release_value(contents@, "NAME"@),
        r.1@ == os_release_value(contents@, "VERSION_ID"@),
{
    (os_release_value_of(contents, "NAME"), os_release_value_of(contents, "VERSION_ID"))
}

/// The services asked for the public address, in order.
pub fn public_ip_providers() -> (r: Vec<&'static str>)
    ensures
        r@.len() == 3,
        r@[0]@ == "https://api.ipify.org"@,
        r@[1]@ == "https://ifconfig.me/ip"@,
        r@[2]@ == "https://icanhazip.com"@,
{
    vec!["https://api.ipify.org", "https://ifconfig.me/ip", "https://icanhazip.com"]
}

/// The address a service answered, trimmed.
pub fn public_ip_candidate(text: &str) -> (r: String)
    ensures
        r@ == trim(text@),
{
    trim_str(text)
}

} // verus!
