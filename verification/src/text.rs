//! Character-sequence primitives (trimming, searching, replacing) with
//! specifications over `Seq<char>`.

use vstd::prelude::*;

verus! {

/// Unicode `White_Space` property, the set of characters for which
/// `char::is_whitespace` holds.
pub open spec fn is_white_space(c: char) -> bool {
    let u = c as u32;
    (0x9 <= u && u <= 0xd) || u == 0x20 || u == 0x85 || u == 0xa0 || u == 0x1680 || (0x2000 <= u
        && u <= 0x200a) || u == 0x2028 || u == 0x2029 || u == 0x202f || u == 0x205f || u == 0x3000
}

pub fn char_is_white_space(c: char) -> (res: bool)
    ensures
        res == is_white_space(c),
{
    let u = c as u32;
    (0x9 <= u && u <= 0xd) || u == 0x20 || u == 0x85 || u == 0xa0 || u == 0x1680 || (0x2000 <= u
        && u <= 0x200a) || u == 0x2028 || u == 0x2029 || u == 0x202f || u == 0x205f || u == 0x3000
}

/// `s` without its leading white space.
pub open spec fn trim_start(s: Seq<char>) -> Seq<char>
    decreases s.len(),
{
    if s.len() > 0 && is_white_space(s[0]) {
        trim_start(s.drop_first())
    } else {
        s
    }
}

/// `s` without its trailing white space.
pub open spec fn trim_end(s: Seq<char>) -> Seq<char>
    decreases s.len(),
{
    if s.len() > 0 && is_white_space(s.last()) {
        trim_end(s.drop_last())
    } else {
        s
    }
}

/// `s` without leading and trailing white space, as `str::trim` gives it.
pub open spec fn trim(s: Seq<char>) -> Seq<char> {
    trim_end(trim_start(s))
}

/// The characters of `s`, in order.
pub fn chars_of(s: &str) -> (v: Vec<char>)
    ensures
        v@ == s@,
{
    broadcast use vstd::string::group_string_axioms;

    let mut v: Vec<char> = Vec::new();
    for c in it: s.chars()
        invariant
            v@ == it.seq().take(it.index()),
            it.seq() == s@,
    {
        v.push(c);
    }
    v
}

/// Appends one character to a string (`String::push`).
#[verifier::external_body]
pub(crate) fn push_char(s: &mut String, c: char)
    ensures
        final(s)@ == old(s)@.push(c),
{
    s.push(c);
}

/// The string made of `v[lo..hi]`.
pub fn string_from_range(v: &Vec<char>, lo: usize, hi: usize) -> (r: String)
    requires
        lo <= hi <= v.len(),
    ensures
        r@ == v@.subrange(lo as int, hi as int),
{
    let mut r = String::new();
    let mut i = lo;
    while i < hi
        invariant
            lo <= i <= hi <= v.len(),
            r@ == v@.subrange(lo as int, i as int),
        decreases hi - i,
    {
        push_char(&mut r, v[i]);
        assert(v@.subrange(lo as int, i + 1) =~= v@.subrange(lo as int, i as int).push(v@[i as int]));
        i = i + 1;
    }
    r
}

/// The string made of all of `v`.
pub fn string_from_chars(v: &Vec<char>) -> (r: String)
    ensures
        r@ == v@,
{
    let r = string_from_range(v, 0, v.len());
    assert(v@.subrange(0, v.len() as int) =~= v@);
    r
}

/// Appends `t` to `r`.
pub fn append_chars(r: &mut String, t: &Vec<char>)
    ensures
        final(r)@ == old(r)@ + t@,
{
    let mut i: usize = 0;
    while i < t.len()
        invariant
            i <= t.len(),
            r@ == old(r)@ + t@.take(i as int),
        decreases t.len() - i,
    {
        push_char(r, t[i]);
        assert(t@.take(i + 1) =~= t@.take(i as int).push(t@[i as int]));
        i = i + 1;
    }
    assert(t@.take(t.len() as int) =~= t@);
}

/// Appends `t` to `r`.
pub fn append_str(r: &mut String, t: &str)
    ensures
        final(r)@ == old(r)@ + t@,
{
    let tv = chars_of(t);
    append_chars(r, &tv);
}

/// `a + b` as a new string.
pub fn concat2(a: &str, b: &str) -> (r: String)
    ensures
        r@ == a@ + b@,
{
    let mut r = String::new();
    append_str(&mut r, a);
    append_str(&mut r, b);
    assert(r@ =~= a@ + b@);
    r
}

/// A copy of `s`.
pub fn to_owned_string(s: &str) -> (r: String)
    ensures
        r@ == s@,
{
    let mut r = String::new();
    append_str(&mut r, s);
    assert(r@ =~= s@);
    r
}

proof fn lemma_trim_start_skip(s: Seq<char>, i: int)
    requires
        0 <= i <= s.len(),
        forall|k: int| 0 <= k < i ==> is_white_space(#[trigger] s[k]),
    ensures
        trim_start(s) == trim_start(s.skip(i)),
    decreases i,
{
    if i > 0 {
        lemma_trim_start_skip(s.drop_first(), i - 1);
        assert(s.drop_first().skip(i - 1) =~= s.skip(i));
    } else {
        assert(s.skip(0) =~= s);
    }
}

proof fn lemma_trim_end_take(s: Seq<char>, j: int)
    requires
        0 <= j <= s.len(),
        forall|k: int| j <= k < s.len() ==> is_white_space(#[trigger] s[k]),
    ensures
        trim_end(s) == trim_end(s.take(j)),
    decreases s.len() - j,
{
    if j < s.len() {
        lemma_trim_end_take(s.drop_last(), j);
        assert(s.drop_last().take(j) =~= s.take(j));
    } else {
        assert(s.take(j) =~= s);
    }
}

/// The bounds of `trim(v)` inside `v`.
pub fn trim_bounds(v: &Vec<char>) -> (r: (usize, usize))
    ensures
        r.0 <= r.1 <= v.len(),
        v@.subrange(r.0 as int, r.1 as int) == trim(v@),
{
    let n = v.len();
    let mut lo: usize = 0;
    while lo < n && char_is_white_space(v[lo])
        invariant
            lo <= n == v.len(),
            forall|k: int| 0 <= k < lo ==> is_white_space(#[trigger] v@[k]),
        decreases n - lo,
    {
        lo = lo + 1;
    }
    proof {
        lemma_trim_start_skip(v@, lo as int);
        assert(trim_start(v@.skip(lo as int)) == v@.skip(lo as int));
    }
    let mut hi: usize = n;
    while hi > lo && char_is_white_space(v[hi - 1])
        invariant
            lo <= hi <= n == v.len(),
            forall|k: int| hi <= k < n ==> is_white_space(#[trigger] v@[k]),
        decreases hi - lo,
    {
        hi = hi - 1;
    }
    proof {
        let t = v@.skip(lo as int);
        assert forall|k: int| hi - lo <= k < t.len() implies is_white_space(#[trigger] t[k]) by {
            assert(t[k] == v@[k + lo]);
        }
        lemma_trim_end_take(t, hi - lo);
        assert(t.take(hi - lo) =~= v@.subrange(lo as int, hi as int));
        assert(trim_end(t.take(hi - lo)) == t.take(hi - lo));
    }
    (lo, hi)
}

/// `str::trim`.
pub fn trim_str(s: &str) -> (r: String)
    ensures
        r@ == trim(s@),
{
    let v = chars_of(s);
    let (lo, hi) = trim_bounds(&v);
    string_from_range(&v, lo, hi)
}

/// `p` occurs in `s` at position `i`.
pub open spec fn occurs_at(s: Seq<char>, p: Seq<char>, i: int) -> bool {
    0 <= i && i + p.len() <= s.len() && s.subrange(i, i + p.len()) == p
}

/// `s` starts with `p`.
pub open spec fn starts_with(s: Seq<char>, p: Seq<char>) -> bool {
    occurs_at(s, p, 0)
}

/// `s` ends with `p`.
pub open spec fn ends_with(s: Seq<char>, p: Seq<char>) -> bool {
    p.len() <= s.len() && occurs_at(s, p, s.len() - p.len())
}

/// `p` occurs somewhere in `s`.
pub open spec fn contains(s: Seq<char>, p: Seq<char>) -> bool {
    exists|i: int| occurs_at(s, p, i)
}

/// Whether `p` occurs in `s` at `i`.
pub fn occurs_at_exec(s: &Vec<char>, p: &Vec<char>, i: usize) -> (r: bool)
    ensures
        r == occurs_at(s@, p@, i as int),
{
    if i > s.len() || p.len() > s.len() - i {
        return false;
    }
    let mut k: usize = 0;
    while k < p.len()
        invariant
            i + p.len() <= s.len(),
            k <= p.len(),
            forall|j: int| 0 <= j < k ==> s@[i + j] == p@[j],
        decreases p.len() - k,
    {
        if s[i + k] != p[k] {
            assert(s@.subrange(i as int, i + p.len())[k as int] != p@[k as int]);
            return false;
        }
        k = k + 1;
    }
    assert(s@.subrange(i as int, i + p.len()) =~= p@);
    true
}

/// `str::starts_with`.
pub fn starts_with_str(s: &str, p: &str) -> (r: bool)
    ensures
        r == starts_with(s@, p@),
{
    let sv = chars_of(s);
    let pv = chars_of(p);
    occurs_at_exec(&sv, &pv, 0)
}

/// `str::ends_with`.
pub fn ends_with_str(s: &str, p: &str) -> (r: bool)
    ensures
        r == ends_with(s@, p@),
{
    let sv = chars_of(s);
    let pv = chars_of(p);
    if pv.len() > sv.len() {
        return false;
    }
    occurs_at_exec(&sv, &pv, sv.len() - pv.len())
}

/// Whether `p` occurs in `s`.
pub fn contains_chars(s: &Vec<char>, p: &Vec<char>) -> (r: bool)
    ensures
        r == contains(s@, p@),
{
    if p.len() > s.len() {
        assert forall|i: int| !occurs_at(s@, p@, i) by {}
        return false;
    }
    let last = s.len() - p.len();
    let mut i: usize = 0;
    loop
        invariant
            last + p.len() == s.len(),
            i <= last,
            forall|j: int| 0 <= j < i ==> !occurs_at(s@, p@, j),
        ensures
            forall|j: int| 0 <= j <= last ==> !occurs_at(s@, p@, j),
        decreases last - i,
    {
        if occurs_at_exec(s, p, i) {
            return true;
        }
        if i == last {
            break;
        }
        i = i + 1;
    }
    assert forall|j: int| !occurs_at(s@, p@, j) by {
        if 0 <= j <= last {
        }
    }
    false
}

/// `str::contains` with a string pattern.
pub fn contains_str(s: &str, p: &str) -> (r: bool)
    ensures
        r == contains(s@, p@),
{
    let sv = chars_of(s);
    let pv = chars_of(p);
    contains_chars(&sv, &pv)
}

/// Whether two strings are equal.
pub fn str_eq(a: &str, b: &str) -> (r: bool)
    ensures
        r == (a@ == b@),
{
    let av = chars_of(a);
    let bv = chars_of(b);
    if av.len() != bv.len() {
        return false;
    }
    let r = occurs_at_exec(&av, &bv, 0);
    proof {
        if r {
            assert(av@.subrange(0, bv.len() as int) =~= av@);
        } else {
            assert(av@.subrange(0, bv.len() as int) =~= av@);
        }
    }
    r
}

/// `s` with every non-overlapping occurrence of `from`, scanned left to right,
/// replaced by `to` (`str::replace` with a non-empty pattern).
pub open spec fn replace_all(s: Seq<char>, from: Seq<char>, to: Seq<char>) -> Seq<char>
    decreases s.len(),
{
    if s.len() == 0 {
        s
    } else if from.len() > 0 && starts_with(s, from) {
        to + replace_all(s.skip(from.len() as int), from, to)
    } else {
        seq![s[0]] + replace_all(s.drop_first(), from, to)
    }
}

/// `str::replace` for a non-empty pattern.
pub fn replace_str(s: &str, from: &str, to: &str) -> (r: String)
    requires
        from@.len() > 0,
    ensures
        r@ == replace_all(s@, from@, to@),
{
    let sv = chars_of(s);
    let fv = chars_of(from);
    let tv = chars_of(to);
    let mut r = String::new();
    let mut i: usize = 0;
    assert(sv@.skip(0) =~= sv@);
    while i < sv.len()
        invariant
            i <= sv.len(),
            fv@.len() > 0,
            replace_all(sv@, fv@, tv@) == r@ + replace_all(sv@.skip(i as int), fv@, tv@),
        decreases sv.len() - i,
    {
        let ghost t = sv@.skip(i as int);
        if occurs_at_exec(&sv, &fv, i) {
            proof {
                assert(t.subrange(0, fv@.len() as int) =~= sv@.subrange(i as int, i + fv@.len()));
                assert(t.skip(fv@.len() as int) =~= sv@.skip(i + fv@.len()));
                assert(r@ + (tv@ + replace_all(t.skip(fv@.len() as int), fv@, tv@)) =~= (r@
                    + tv@) + replace_all(t.skip(fv@.len() as int), fv@, tv@));
            }
            append_chars(&mut r, &tv);
            i = i + fv.len();
        } else {
            proof {
                if starts_with(t, fv@) {
                    assert(t.subrange(0, fv@.len() as int) =~= sv@.subrange(
                        i as int,
                        i + fv@.len(),
                    ));
                }
                assert(t.drop_first() =~= sv@.skip(i + 1));
                assert(r@ + (seq![t[0]] + replace_all(t.drop_first(), fv@, tv@)) =~= r@.push(
                    sv@[i as int],
                ) + replace_all(t.drop_first(), fv@, tv@));
            }
            push_char(&mut r, sv[i]);
            i = i + 1;
        }
    }
    assert(sv@.skip(i as int) =~= Seq::<char>::empty());
    assert(r@ + Seq::<char>::empty() =~= r@);
    r
}

/// The pieces of `s` between the characters for which `sep` holds, empty
/// pieces included (`str::split` with a character predicate).
pub open spec fn split_by(s: Seq<char>, sep: spec_fn(char) -> bool) -> Seq<Seq<char>>
    decreases s.len(),
{
    if s.len() == 0 {
        seq![Seq::<char>::empty()]
    } else {
        let prev = split_by(s.drop_last(), sep);
        if sep(s.last()) {
            prev.push(Seq::<char>::empty())
        } else {
            prev.update(prev.len() - 1, prev.last().push(s.last()))
        }
    }
}

pub proof fn lemma_split_by_nonempty(s: Seq<char>, sep: spec_fn(char) -> bool)
    ensures
        split_by(s, sep).len() >= 1,
    decreases s.len(),
{
    if s.len() > 0 {
        lemma_split_by_nonempty(s.drop_last(), sep);
    }
}

/// The views of a sequence of character vectors.
pub open spec fn char_vecs_view(v: Seq<Vec<char>>) -> Seq<Seq<char>> {
    v.map_values(|p: Vec<char>| p@)
}

/// The views of a sequence of strings.
pub open spec fn strings_view(v: Seq<String>) -> Seq<Seq<char>> {
    v.map_values(|p: String| p@)
}

/// Membership of `c` in `set`.
pub open spec fn in_set(set: Seq<char>, c: char) -> bool {
    set.contains(c)
}

pub fn char_in(set: &Vec<char>, c: char) -> (r: bool)
    ensures
        r == in_set(set@, c),
{
    let mut i: usize = 0;
    while i < set.len()
        invariant
            i <= set.len(),
            forall|j: int| 0 <= j < i ==> set@[j] != c,
        decreases set.len() - i,
    {
        if set[i] == c {
            assert(set@[i as int] == c);
            return true;
        }
        i = i + 1;
    }
    assert(!set@.contains(c));
    false
}

/// `s` split at every character of `seps`.
pub fn split_at_any(v: &Vec<char>, seps: &Vec<char>) -> (parts: Vec<Vec<char>>)
    ensures
        char_vecs_view(parts@) == split_by(v@, |c: char| in_set(seps@, c)),
{
    let ghost sep = |c: char| in_set(seps@, c);
    let mut parts: Vec<Vec<char>> = Vec::new();
    let mut cur: Vec<char> = Vec::new();
    let mut i: usize = 0;
    assert(v@.take(0) =~= Seq::<char>::empty());
    assert(char_vecs_view(parts@).push(cur@) =~= seq![Seq::<char>::empty()]);
    while i < v.len()
        invariant
            i <= v.len(),
            sep == (|c: char| in_set(seps@, c)),
            char_vecs_view(parts@).push(cur@) == split_by(v@.take(i as int), sep),
        decreases v.len() - i,
    {
        let c = v[i];
        let ghost prev = split_by(v@.take(i as int), sep);
        assert(v@.take(i + 1).drop_last() =~= v@.take(i as int));
        assert(v@.take(i + 1).last() == c);
        if char_in(seps, c) {
            let ghost old_parts = char_vecs_view(parts@);
            let ghost old_cur = cur@;
            parts.push(cur);
            cur = Vec::new();
            assert(char_vecs_view(parts@) =~= old_parts.push(old_cur));
            assert(char_vecs_view(parts@).push(cur@) =~= prev.push(Seq::<char>::empty()));
        } else {
            let ghost old_cur = cur@;
            cur.push(c);
            assert(char_vecs_view(parts@).push(cur@) =~= prev.update(
                prev.len() - 1,
                prev.last().push(c),
            ));
        }
        i = i + 1;
    }
    assert(v@.take(v.len() as int) =~= v@);
    let ghost before = char_vecs_view(parts@);
    let ghost last = cur@;
    parts.push(cur);
    assert(char_vecs_view(parts@) =~= before.push(last));
    parts
}

/// The trimmed, non-empty pieces of `parts`, in order.
pub open spec fn keep_trimmed(parts: Seq<Seq<char>>) -> Seq<Seq<char>>
    decreases parts.len(),
{
    if parts.len() == 0 {
        Seq::empty()
    } else {
        let r = keep_trimmed(parts.drop_last());
        let t = trim(parts.last());
        if t.len() > 0 {
            r.push(t)
        } else {
            r
        }
    }
}

/// The trimmed, non-empty pieces, as strings.
pub fn trimmed_nonempty(parts: &Vec<Vec<char>>) -> (r: Vec<String>)
    ensures
        strings_view(r@) == keep_trimmed(char_vecs_view(parts@)),
{
    let mut r: Vec<String> = Vec::new();
    let mut i: usize = 0;
    while i < parts.len()
        invariant
            i <= parts.len(),
            strings_view(r@) == keep_trimmed(char_vecs_view(parts@).take(i as int)),
        decreases parts.len() - i,
    {
        let ghost pv = char_vecs_view(parts@);
        assert(pv.take(i + 1).drop_last() =~= pv.take(i as int));
        assert(pv.take(i + 1).last() == parts@[i as int]@);
        let (lo, hi) = trim_bounds(&parts[i]);
        if lo < hi {
            let t = string_from_range(&parts[i], lo, hi);
            let ghost old_r = strings_view(r@);
            r.push(t);
            assert(strings_view(r@) =~= old_r.push(trim(parts@[i as int]@)));
        }
        i = i + 1;
    }
    assert(char_vecs_view(parts@).take(parts.len() as int) =~= char_vecs_view(parts@));
    r
}

/// The non-empty pieces of `parts`, in order.
pub open spec fn keep_nonempty(parts: Seq<Seq<char>>) -> Seq<Seq<char>>
    decreases parts.len(),
{
    if parts.len() == 0 {
        Seq::empty()
    } else {
        let r = keep_nonempty(parts.drop_last());
        if parts.last().len() > 0 {
            r.push(parts.last())
        } else {
            r
        }
    }
}

/// The words of `s` (`str::split_whitespace`).
pub open spec fn words(s: Seq<char>) -> Seq<Seq<char>> {
    keep_nonempty(split_by(s, |c: char| is_white_space(c)))
}

/// `str::split_whitespace`.
pub fn split_whitespace(s: &str) -> (r: Vec<Vec<char>>)
    ensures
        char_vecs_view(r@) == words(s@),
{
    let v = chars_of(s);
    let ghost sep = |c: char| is_white_space(c);
    let mut r: Vec<Vec<char>> = Vec::new();
    let mut cur: Vec<char> = Vec::new();
    let mut i: usize = 0;
    assert(v@.take(0) =~= Seq::<char>::empty());
    while i < v.len()
        invariant
            i <= v.len(),
            v@ == s@,
            sep == (|c: char| is_white_space(c)),
            ({
                let sp = split_by(v@.take(i as int), sep);
                &&& sp.len() >= 1
                &&& sp.last() == cur@
                &&& keep_nonempty(sp.drop_last()) == char_vecs_view(r@)
            }),
        decreases v.len() - i,
    {
        let c = v[i];
        let ghost prev = split_by(v@.take(i as int), sep);
        assert(v@.take(i + 1).drop_last() =~= v@.take(i as int));
        assert(v@.take(i + 1).last() == c);
        if char_is_white_space(c) {
            let ghost nxt = prev.push(Seq::<char>::empty());
            assert(nxt.drop_last() =~= prev);
            if cur.len() > 0 {
                let ghost old_r = char_vecs_view(r@);
                assert(prev.drop_last().push(prev.last()) =~= prev);
                r.push(cur);
                assert(char_vecs_view(r@) =~= old_r.push(prev.last()));
            } else {
                assert(prev.drop_last().push(prev.last()) =~= prev);
            }
            cur = Vec::new();
        } else {
            cur.push(c);
            let ghost nxt = prev.update(prev.len() - 1, prev.last().push(c));
            assert(nxt.drop_last() =~= prev.drop_last());
        }
        i = i + 1;
    }
    assert(v@.take(v.len() as int) =~= v@);
    let ghost sp = split_by(v@, sep);
    assert(sp.drop_last().push(sp.last()) =~= sp);
    if cur.len() > 0 {
        let ghost old_r = char_vecs_view(r@);
        r.push(cur);
        assert(char_vecs_view(r@) =~= old_r.push(sp.last()));
    }
    r
}

/// The pieces of `parts` joined with `sep` between them (`join`).
pub open spec fn join(parts: Seq<Seq<char>>, sep: Seq<char>) -> Seq<char>
    decreases parts.len(),
{
    if parts.len() == 0 {
        Seq::empty()
    } else if parts.len() == 1 {
        parts[0]
    } else {
        join(parts.drop_last(), sep) + sep + parts.last()
    }
}

/// `parts.join(sep)`.
pub fn join_chars(parts: &Vec<Vec<char>>, sep: &str) -> (r: String)
    ensures
        r@ == join(char_vecs_view(parts@), sep@),
{
    let sv = chars_of(sep);
    let mut r = String::new();
    let mut i: usize = 0;
    while i < parts.len()
        invariant
            i <= parts.len(),
            sv@ == sep@,
            r@ == join(char_vecs_view(parts@).take(i as int), sep@),
        decreases parts.len() - i,
    {
        let ghost pv = char_vecs_view(parts@);
        assert(pv.take(i + 1).drop_last() =~= pv.take(i as int));
        assert(pv.take(i + 1).last() == parts@[i as int]@);
        if i > 0 {
            append_chars(&mut r, &sv);
        } else {
            assert(r@ =~= Seq::<char>::empty());
        }
        append_chars(&mut r, &parts[i]);
        proof {
            if i == 0 {
                assert(r@ =~= pv.take(1)[0]);
            }
        }
        i = i + 1;
    }
    assert(char_vecs_view(parts@).take(parts.len() as int) =~= char_vecs_view(parts@));
    r
}

/// `parts.join(sep)` for strings.
pub fn join_strings(parts: &Vec<String>, sep: &str) -> (r: String)
    ensures
        r@ == join(strings_view(parts@), sep@),
{
    let mut cv: Vec<Vec<char>> = Vec::new();
    let mut i: usize = 0;
    while i < parts.len()
        invariant
            i <= parts.len(),
            char_vecs_view(cv@) == strings_view(parts@).take(i as int),
        decreases parts.len() - i,
    {
        let ghost old_cv = char_vecs_view(cv@);
        cv.push(chars_of(parts[i].as_str()));
        assert(char_vecs_view(cv@) =~= old_cv.push(parts@[i as int]@));
        assert(strings_view(parts@).take(i + 1) =~= strings_view(parts@).take(i as int).push(
            parts@[i as int]@,
        ));
        i = i + 1;
    }
    assert(strings_view(parts@).take(parts.len() as int) =~= strings_view(parts@));
    join_chars(&cv, sep)
}

/// The ASCII digit for `d < 10`.
pub open spec fn digit_char(d: nat) -> char {
    ((48 + d) as u8) as char
}

/// Decimal representation of `n` without leading zeros.
pub open spec fn decimal(n: nat) -> Seq<char>
    decreases n,
{
    if n < 10 {
        seq![digit_char(n)]
    } else {
        decimal(n / 10).push(digit_char(n % 10))
    }
}

/// Decimal representation of a signed integer, with a leading `-` when negative.
pub open spec fn signed_decimal(n: int) -> Seq<char> {
    if n < 0 {
        seq!['-'] + decimal((-n) as nat)
    } else {
        decimal(n as nat)
    }
}

fn digit_to_char(d: u64) -> (c: char)
    requires
        d < 10,
    ensures
        c == digit_char(d as nat),
{
    ((48u8 + d as u8) as char)
}

/// Appends the decimal representation of `n`.
pub fn push_decimal(r: &mut String, n: u64)
    ensures
        final(r)@ == old(r)@ + decimal(n as nat),
    decreases n,
{
    if n >= 10 {
        push_decimal(r, n / 10);
    }
    push_char(r, digit_to_char(n % 10));
    proof {
        if n >= 10 {
            assert(decimal(n as nat) == decimal((n / 10) as nat).push(digit_char((n % 10) as nat)));
        } else {
            assert(decimal(n as nat) == seq![digit_char(n as nat)]);
        }
    }
    assert(r@ =~= old(r)@ + decimal(n as nat));
}

/// `n.to_string()` for `u64`.
pub fn u64_to_string(n: u64) -> (r: String)
    ensures
        r@ == decimal(n as nat),
{
    let mut r = String::new();
    push_decimal(&mut r, n);
    assert(r@ =~= decimal(n as nat));
    r
}

/// `n.to_string()` for `usize`.
pub fn usize_to_string(n: usize) -> (r: String)
    ensures
        r@ == decimal(n as nat),
{
    u64_to_string(n as u64)
}

/// `n.to_string()` for `i64`.
pub fn i64_to_string(n: i64) -> (r: String)
    ensures
        r@ == signed_decimal(n as int),
{
    let mut r = String::new();
    if n < 0 {
        push_char(&mut r, '-');
        let m: u64 = ((-(n + 1)) as u64) + 1;
        push_decimal(&mut r, m);
        assert(r@ =~= seq!['-'] + decimal((-n) as nat));
    } else {
        push_decimal(&mut r, n as u64);
        assert(r@ =~= decimal(n as nat));
    }
    r
}

/// `c` is an ASCII digit.
pub open spec fn is_digit(c: char) -> bool {
    '0' <= c && c <= '9'
}

/// The value of a string of ASCII digits.
pub open spec fn digits_value(s: Seq<char>) -> nat
    decreases s.len(),
{
    if s.len() == 0 {
        0
    } else {
        digits_value(s.drop_last()) * 10 + ((s.last() as u32) - 48) as nat
    }
}

/// `s` without one leading `+`.
pub open spec fn unsigned_digits(s: Seq<char>) -> Seq<char> {
    if s.len() > 0 && s[0] == '+' {
        s.drop_first()
    } else {
        s
    }
}

/// Every character of `s` is an ASCII digit.
pub open spec fn all_digits(s: Seq<char>) -> bool {
    forall|i: int| 0 <= i < s.len() ==> is_digit(#[trigger] s[i])
}

/// What `str::parse` gives for an unsigned integer type whose largest value is
/// `max`: an optional `+` followed by one or more ASCII digits whose value is
/// at most `max`.
pub open spec fn parse_unsigned(s: Seq<char>, max: nat) -> Option<nat> {
    let d = unsigned_digits(s);
    if d.len() > 0 && all_digits(d) && digits_value(d) <= max {
        Some(digits_value(d))
    } else {
        None
    }
}

proof fn lemma_digits_value_prefix(s: Seq<char>, i: int)
    requires
        0 <= i <= s.len(),
        forall|k: int| 0 <= k < s.len() ==> is_digit(#[trigger] s[k]),
    ensures
        digits_value(s.take(i)) <= digits_value(s),
    decreases s.len() - i,
{
    if i < s.len() {
        lemma_digits_value_prefix(s.drop_last(), i);
        assert(s.drop_last().take(i) =~= s.take(i));
    } else {
        assert(s.take(i) =~= s);
    }
}

/// Parses an unsigned decimal no greater than `max`, as `str::parse` does.
pub fn parse_unsigned_bounded(s: &str, max: u64) -> (r: Option<u64>)
    ensures
        r matches Some(v) ==> parse_unsigned(s@, max as nat) == Some(v as nat),
        r is None ==> parse_unsigned(s@, max as nat) is None,
{
    let v = chars_of(s);
    let start: usize = if v.len() > 0 && v[0] == '+' {
        1
    } else {
        0
    };
    let ghost d = unsigned_digits(s@);
    assert(d =~= v@.skip(start as int));
    if start >= v.len() {
        return None;
    }
    let mut acc: u64 = 0;
    let mut i: usize = start;
    while i < v.len()
        invariant
            start <= i <= v.len(),
            d == v@.skip(start as int),
            d == unsigned_digits(s@),
            acc as nat == digits_value(d.take(i - start)),
            acc <= max,
            forall|k: int| 0 <= k < i - start ==> is_digit(#[trigger] d[k]),
        decreases v.len() - i,
    {
        let c = v[i];
        assert(d[i - start] == c);
        if !('0' <= c && c <= '9') {
            assert(!is_digit(d[i - start]));
            assert(!(forall|k: int| 0 <= k < d.len() ==> is_digit(#[trigger] d[k])));
            assert(parse_unsigned(s@, max as nat) is None);
            return None;
        }
        let dig: u64 = (c as u32 - 48) as u64;
        assert(d.take(i - start + 1).drop_last() =~= d.take(i - start));
        assert(d.take(i - start + 1).last() == c);
        if dig > max || acc > (max - dig) / 10 {
            proof {
                if dig <= max {
                    assert(acc * 10 + dig > max) by (nonlinear_arith)
                        requires
                            acc > (max - dig) / 10,
                            dig <= max,
                    ;
                }
                assert(digits_value(d.take(i - start + 1)) > max);
                if forall|k: int| 0 <= k < d.len() ==> is_digit(#[trigger] d[k]) {
                    lemma_digits_value_prefix(d, i - start + 1);
                    assert(digits_value(d) > max);
                }
                assert(parse_unsigned(s@, max as nat) is None);
            }
            return None;
        }
        assert(acc * 10 + dig <= max) by (nonlinear_arith)
            requires
                acc <= (max - dig) / 10,
                dig <= max,
        ;
        acc = acc * 10 + dig;
        i = i + 1;
    }
    assert(d.take(i - start) =~= d);
    Some(acc)
}

/// ASCII lower-casing of one character.
pub open spec fn ascii_lower(c: char) -> char {
    if 'A' <= c && c <= 'Z' {
        ((c as u32) + 32) as char
    } else {
        c
    }
}

/// ASCII upper-casing of one character.
pub open spec fn ascii_upper(c: char) -> char {
    if 'a' <= c && c <= 'z' {
        ((c as u32) - 32) as char
    } else {
        c
    }
}

pub fn ascii_lower_char(c: char) -> (r: char)
    ensures
        r == ascii_lower(c),
{
    if 'A' <= c && c <= 'Z' {
        ((c as u8) + 32) as char
    } else {
        c
    }
}

pub fn ascii_upper_char(c: char) -> (r: char)
    ensures
        r == ascii_upper(c),
{
    if 'a' <= c && c <= 'z' {
        ((c as u8) - 32) as char
    } else {
        c
    }
}

/// `str::to_ascii_lowercase`.
pub fn to_ascii_lowercase(v: &Vec<char>) -> (r: Vec<char>)
    ensures
        r@ == v@.map_values(|c: char| ascii_lower(c)),
{
    let mut r: Vec<char> = Vec::new();
    let mut i: usize = 0;
    while i < v.len()
        invariant
            i <= v.len(),
            r@ == v@.take(i as int).map_values(|c: char| ascii_lower(c)),
        decreases v.len() - i,
    {
        r.push(ascii_lower_char(v[i]));
        assert(v@.take(i + 1).map_values(|c: char| ascii_lower(c)) =~= v@.take(i as int).map_values(
            |c: char| ascii_lower(c),
        ).push(ascii_lower(v@[i as int])));
        i = i + 1;
    }
    assert(v@.take(v.len() as int) =~= v@);
    r
}

/// `str::to_ascii_uppercase`.
pub fn to_ascii_uppercase(v: &Vec<char>) -> (r: Vec<char>)
    ensures
        r@ == v@.map_values(|c: char| ascii_upper(c)),
{
    let mut r: Vec<char> = Vec::new();
    let mut i: usize = 0;
    while i < v.len()
        invariant
            i <= v.len(),
            r@ == v@.take(i as int).map_values(|c: char| ascii_upper(c)),
        decreases v.len() - i,
    {
        r.push(ascii_upper_char(v[i]));
        assert(v@.take(i + 1).map_values(|c: char| ascii_upper(c)) =~= v@.take(i as int).map_values(
            |c: char| ascii_upper(c),
        ).push(ascii_upper(v@[i as int])));
        i = i + 1;
    }
    assert(v@.take(v.len() as int) =~= v@);
    r
}

/// What `str::to_lowercase` gives: the Unicode lower-case mapping of the text.
pub uninterp spec fn unicode_lowercase(s: Seq<char>) -> Seq<char>;

/// What `str::to_uppercase` gives: the Unicode upper-case mapping of the text.
pub uninterp spec fn unicode_uppercase(s: Seq<char>) -> Seq<char>;

/// What `char::to_uppercase` yields first for a character.
pub uninterp spec fn unicode_upper_first(c: char) -> Option<char>;

/// `str::to_lowercase`. Its result is taken as the value of
/// `unicode_lowercase`, a name for the Unicode case mapping that std applies;
/// nothing more is claimed of it.
#[verifier::external_body]
pub(crate) fn str_to_lowercase(s: &str) -> (r: String)
    ensures
        r@ == unicode_lowercase(s@),
{
    s.to_lowercase()
}

/// `str::to_uppercase`. Its result is taken as the value of
/// `unicode_uppercase`, a name for the Unicode case mapping that std applies.
#[verifier::external_body]
pub(crate) fn str_to_uppercase(s: &str) -> (r: String)
    ensures
        r@ == unicode_uppercase(s@),
{
    s.to_uppercase()
}

/// The first character that `char::to_uppercase` yields for `c`, taken as
/// `unicode_upper_first(c)`.
#[verifier::external_body]
pub(crate) fn char_to_uppercase_first(c: char) -> (r: Option<char>)
    ensures
        r == unicode_upper_first(c),
{
    c.to_uppercase().next()
}

/// `trim_start` drops a prefix.
pub proof fn lemma_trim_start_is_skip(s: Seq<char>)
    ensures
        exists|k: int| 0 <= k <= s.len() && trim_start(s) == s.skip(k),
        trim_start(s).len() > 0 ==> !is_white_space(trim_start(s)[0]),
    decreases s.len(),
{
    if s.len() > 0 && is_white_space(s[0]) {
        lemma_trim_start_is_skip(s.drop_first());
        let k = choose|k: int| 0 <= k <= s.drop_first().len() && trim_start(s.drop_first())
            == s.drop_first().skip(k);
        assert(s.drop_first().skip(k) =~= s.skip(k + 1));
    } else {
        assert(s.skip(0) =~= s);
    }
}

/// `trim_end` keeps a prefix.
pub proof fn lemma_trim_end_is_take(s: Seq<char>)
    ensures
        exists|k: int| 0 <= k <= s.len() && trim_end(s) == s.take(k),
        trim_end(s).len() > 0 ==> !is_white_space(trim_end(s).last()),
    decreases s.len(),
{
    if s.len() > 0 && is_white_space(s.last()) {
        lemma_trim_end_is_take(s.drop_last());
        let k = choose|k: int| 0 <= k <= s.drop_last().len() && trim_end(s.drop_last())
            == s.drop_last().take(k);
        assert(s.drop_last().take(k) =~= s.take(k));
    } else {
        assert(s.take(s.len() as int) =~= s);
    }
}

/// The trimmed text is a piece of the text, with no white space at either
/// end.
pub proof fn lemma_trim_piece(s: Seq<char>)
    ensures
        exists|lo: int, hi: int| 0 <= lo <= hi <= s.len() && trim(s) == s.subrange(lo, hi),
        trim(s).len() > 0 ==> !is_white_space(trim(s)[0]) && !is_white_space(trim(s).last()),
{
    lemma_trim_start_is_skip(s);
    let t = trim_start(s);
    let lo = choose|k: int| 0 <= k <= s.len() && t == s.skip(k);
    lemma_trim_end_is_take(t);
    let k = choose|k: int| 0 <= k <= t.len() && trim_end(t) == t.take(k);
    assert(t.take(k) =~= s.subrange(lo, lo + k));
    if trim(s).len() > 0 {
        assert(trim(s)[0] == t[0]);
    }
}

/// Trimming twice trims no more.
pub proof fn lemma_trim_idempotent(s: Seq<char>)
    ensures
        trim(trim(s)) == trim(s),
{
    lemma_trim_piece(s);
    let t = trim(s);
    if t.len() > 0 {
        assert(trim_start(t) == t);
        assert(trim_end(t) == t);
    } else {
        assert(trim_start(t) == t);
        assert(trim_end(t) == t);
    }
}

/// Splitting at a separator character splits the two sides apart.
pub proof fn lemma_split_by_concat(a: Seq<char>, c: char, b: Seq<char>, sep: spec_fn(char) -> bool)
    requires
        sep(c),
    ensures
        split_by(a.push(c) + b, sep) == split_by(a, sep) + split_by(b, sep),
    decreases b.len(),
{
    let e = Seq::<char>::empty();
    if b.len() == 0 {
        assert(a.push(c) + b =~= a.push(c));
        assert(a.push(c).drop_last() =~= a);
        assert(split_by(a, sep).push(e) =~= split_by(a, sep) + seq![e]);
    } else {
        let s = a.push(c) + b;
        lemma_split_by_concat(a, c, b.drop_last(), sep);
        assert(s.drop_last() =~= a.push(c) + b.drop_last());
        assert(s.last() == b.last());
        lemma_split_by_nonempty(b.drop_last(), sep);
        let pa = split_by(a, sep);
        let pb = split_by(b.drop_last(), sep);
        if sep(b.last()) {
            assert((pa + pb).push(e) =~= pa + pb.push(e));
        } else {
            let prev = pa + pb;
            assert(prev.update(prev.len() - 1, prev.last().push(b.last())) =~= pa + pb.update(
                pb.len() - 1,
                pb.last().push(b.last()),
            ));
        }
    }
}

/// Replacing keeps a property that every character of the text and of the
/// replacement has.
pub proof fn lemma_replace_all_chars(s: Seq<char>, from: Seq<char>, to: Seq<char>, p: spec_fn(char) -> bool)
    requires
        from.len() > 0,
        forall|i: int| 0 <= i < s.len() ==> p(#[trigger] s[i]),
        forall|i: int| 0 <= i < to.len() ==> p(#[trigger] to[i]),
    ensures
        forall|i: int|
            0 <= i < replace_all(s, from, to).len() ==> p(#[trigger] replace_all(s, from, to)[i]),
    decreases s.len(),
{
    if s.len() > 0 {
        let rest_s = if starts_with(s, from) {
            s.skip(from.len() as int)
        } else {
            s.drop_first()
        };
        let k: int = if starts_with(s, from) {
            from.len() as int
        } else {
            1
        };
        assert forall|i: int| 0 <= i < rest_s.len() implies p(#[trigger] rest_s[i]) by {
            assert(rest_s[i] == s[i + k]);
        }
        lemma_replace_all_chars(rest_s, from, to, p);
        let r = replace_all(rest_s, from, to);
        if starts_with(s, from) {
            assert forall|i: int| 0 <= i < (to + r).len() implies p(#[trigger] (to + r)[i]) by {
                if i >= to.len() {
                    assert((to + r)[i] == r[i - to.len()]);
                }
            }
        } else {
            let head = seq![s[0]];
            assert forall|i: int| 0 <= i < (head + r).len() implies p(#[trigger] (head + r)[i]) by {
                if i >= 1 {
                    assert((head + r)[i] == r[i - 1]);
                }
            }
        }
    }
}

/// Replacing a character by another leaves none of it.
pub proof fn lemma_replace_char_gone(s: Seq<char>, c: char, d: char)
    requires
        c != d,
    ensures
        forall|i: int|
            0 <= i < replace_all(s, seq![c], seq![d]).len() ==> #[trigger] replace_all(
                s,
                seq![c],
                seq![d],
            )[i] != c,
    decreases s.len(),
{
    if s.len() > 0 {
        if starts_with(s, seq![c]) {
            lemma_replace_char_gone(s.skip(1), c, d);
            let r = replace_all(s.skip(1), seq![c], seq![d]);
            assert forall|i: int| 0 <= i < (seq![d] + r).len() implies #[trigger] (seq![d] + r)[i]
                != c by {
                if i >= 1 {
                    assert((seq![d] + r)[i] == r[i - 1]);
                }
            }
        } else {
            assert(s[0] != c) by {
                if s[0] == c {
                    assert(s.subrange(0, 1) =~= seq![c]);
                }
            }
            lemma_replace_char_gone(s.drop_first(), c, d);
            let r = replace_all(s.drop_first(), seq![c], seq![d]);
            assert forall|i: int| 0 <= i < (seq![s[0]] + r).len() implies #[trigger] (seq![s[0]]
                + r)[i] != c by {
                if i >= 1 {
                    assert((seq![s[0]] + r)[i] == r[i - 1]);
                }
            }
        }
    }
}

/// Replacing a character that does not occur changes nothing.
pub proof fn lemma_replace_absent(s: Seq<char>, c: char, to: Seq<char>)
    requires
        forall|i: int| 0 <= i < s.len() ==> #[trigger] s[i] != c,
    ensures
        replace_all(s, seq![c], to) == s,
    decreases s.len(),
{
    if s.len() > 0 {
        assert(!starts_with(s, seq![c])) by {
            if starts_with(s, seq![c]) {
                assert(s.subrange(0, 1)[0] == s[0]);
            }
        }
        assert forall|i: int| 0 <= i < s.drop_first().len() implies #[trigger] s.drop_first()[i]
            != c by {
            assert(s.drop_first()[i] == s[i + 1]);
        }
        lemma_replace_absent(s.drop_first(), c, to);
        assert(seq![s[0]] + s.drop_first() =~= s);
    }
}

/// The pieces of a split keep a property of every character of the text.
pub proof fn lemma_split_by_chars(s: Seq<char>, sep: spec_fn(char) -> bool, p: spec_fn(char) -> bool)
    requires
        forall|i: int| 0 <= i < s.len() ==> p(#[trigger] s[i]),
    ensures
        forall|i: int, j: int|
            0 <= i < split_by(s, sep).len() && 0 <= j < split_by(s, sep)[i].len() ==> p(
                #[trigger] split_by(s, sep)[i][j],
            ),
    decreases s.len(),
{
    if s.len() > 0 {
        assert forall|i: int| 0 <= i < s.drop_last().len() implies p(#[trigger] s.drop_last()[i]) by {
            assert(s.drop_last()[i] == s[i]);
        }
        lemma_split_by_chars(s.drop_last(), sep, p);
        lemma_split_by_nonempty(s.drop_last(), sep);
        let prev = split_by(s.drop_last(), sep);
        assert(p(s[s.len() - 1]));
        if !sep(s.last()) {
            let r = prev.update(prev.len() - 1, prev.last().push(s.last()));
            assert forall|i: int, j: int| 0 <= i < r.len() && 0 <= j < r[i].len() implies p(
                #[trigger] r[i][j],
            ) by {
                if i == prev.len() - 1 && j == prev.last().len() {
                } else if i == prev.len() - 1 {
                    assert(r[i][j] == prev[i][j]);
                } else {
                    assert(r[i] == prev[i]);
                }
            }
        } else {
            let r = prev.push(Seq::<char>::empty());
            assert forall|i: int, j: int| 0 <= i < r.len() && 0 <= j < r[i].len() implies p(
                #[trigger] r[i][j],
            ) by {
                assert(r[i] == prev[i]);
            }
        }
    }
}

/// The kept pieces are non-empty pieces of the parts.
pub proof fn lemma_keep_nonempty_from(parts: Seq<Seq<char>>)
    ensures
        forall|i: int|
            0 <= i < keep_nonempty(parts).len() ==> (#[trigger] keep_nonempty(parts)[i]).len() > 0
                && exists|k: int| 0 <= k < parts.len() && keep_nonempty(parts)[i] == parts[k],
    decreases parts.len(),
{
    if parts.len() > 0 {
        lemma_keep_nonempty_from(parts.drop_last());
        let r = keep_nonempty(parts.drop_last());
        assert forall|i: int| 0 <= i < keep_nonempty(parts).len() implies (
        #[trigger] keep_nonempty(parts)[i]).len() > 0 && exists|k: int|
            0 <= k < parts.len() && keep_nonempty(parts)[i] == parts[k] by {
            if i < r.len() {
                let k = choose|k: int| 0 <= k < parts.drop_last().len() && r[i] == parts.drop_last()[k];
                assert(parts[k] == parts.drop_last()[k]);
            } else {
                assert(keep_nonempty(parts)[i] == parts[parts.len() - 1]);
            }
        }
    }
}

/// Keeping the non-empty pieces of non-empty pieces keeps them all.
pub proof fn lemma_keep_nonempty_all(parts: Seq<Seq<char>>)
    requires
        forall|i: int| 0 <= i < parts.len() ==> (#[trigger] parts[i]).len() > 0,
    ensures
        keep_nonempty(parts) == parts,
    decreases parts.len(),
{
    if parts.len() > 0 {
        assert forall|i: int| 0 <= i < parts.drop_last().len() implies (
        #[trigger] parts.drop_last()[i]).len() > 0 by {
            assert(parts.drop_last()[i] == parts[i]);
        }
        lemma_keep_nonempty_all(parts.drop_last());
        assert(parts[parts.len() - 1].len() > 0);
        assert(parts.drop_last().push(parts.last()) =~= parts);
    }
}

/// Splitting at white space what was joined with spaces gives the pieces
/// back, when no piece holds white space.
pub proof fn lemma_split_join(parts: Seq<Seq<char>>)
    requires
        parts.len() >= 1,
        forall|i: int, j: int|
            0 <= i < parts.len() && 0 <= j < parts[i].len() ==> !is_white_space(
                #[trigger] parts[i][j],
            ),
    ensures
        split_by(join(parts, " "@), |c: char| is_white_space(c)) == parts,
    decreases parts.len(),
{
    reveal_strlit(" ");
    let ws = |c: char| is_white_space(c);
    let last = parts[parts.len() - 1];
    assert forall|j: int| 0 <= j < last.len() implies !ws(#[trigger] last[j]) by {
        assert(!is_white_space(parts[parts.len() - 1][j]));
    }
    lemma_split_by_whole(last, ws);
    if parts.len() == 1 {
        assert(seq![last] =~= parts);
    } else {
        let dl = parts.drop_last();
        assert forall|i: int, j: int| 0 <= i < dl.len() && 0 <= j < dl[i].len() implies !is_white_space(
            #[trigger] dl[i][j],
        ) by {
            assert(dl[i] == parts[i]);
        }
        lemma_split_join(dl);
        let jd = join(dl, " "@);
        assert(join(parts, " "@) =~= jd.push(' ') + last);
        assert(is_white_space(' '));
        lemma_split_by_concat(jd, ' ', last, ws);
        assert(dl + seq![last] =~= parts);
    }
}

/// Joining non-empty pieces without white space with single spaces: every
/// character is one of theirs or a space, each space stands between two
/// other characters, and the text starts and ends as the pieces do.
pub proof fn lemma_join_shape(parts: Seq<Seq<char>>, p: spec_fn(char) -> bool)
    requires
        p(' '),
        forall|i: int| 0 <= i < parts.len() ==> (#[trigger] parts[i]).len() > 0,
        forall|i: int, j: int|
            0 <= i < parts.len() && 0 <= j < parts[i].len() ==> !is_white_space(
                #[trigger] parts[i][j],
            ) && p(parts[i][j]),
    ensures
        ({
            let r = join(parts, " "@);
            &&& forall|k: int| 0 <= k < r.len() ==> p(#[trigger] r[k])
            &&& forall|k: int|
                0 <= k < r.len() && #[trigger] r[k] == ' ' ==> 0 < k < r.len() - 1 && r[k - 1]
                    != ' ' && r[k + 1] != ' '
            &&& parts.len() > 0 ==> r.len() > 0 && r[0] == parts[0][0] && r.last()
                == parts[parts.len() - 1].last()
        }),
    decreases parts.len(),
{
    reveal_strlit(" ");
    assert(is_white_space(' '));
    let r = join(parts, " "@);
    if parts.len() == 1 {
        assert forall|k: int| 0 <= k < r.len() implies p(#[trigger] r[k]) && r[k] != ' ' by {
            assert(!is_white_space(parts[0][k]));
        }
    } else if parts.len() >= 2 {
        let dl = parts.drop_last();
        let last = parts[parts.len() - 1];
        assert forall|i: int| 0 <= i < dl.len() implies (#[trigger] dl[i]).len() > 0 by {
            assert(dl[i] == parts[i]);
        }
        assert forall|i: int, j: int| 0 <= i < dl.len() && 0 <= j < dl[i].len() implies !is_white_space(
            #[trigger] dl[i][j],
        ) && p(dl[i][j]) by {
            assert(dl[i] == parts[i]);
        }
        lemma_join_shape(dl, p);
        let jd = join(dl, " "@);
        let n = jd.len();
        assert(r =~= jd.push(' ') + last);
        assert(last.len() > 0);
        assert(dl[dl.len() - 1] == parts[dl.len() - 1]);
        assert(!is_white_space(jd.last())) by {
            assert(!is_white_space(parts[dl.len() - 1][parts[dl.len() - 1].len() - 1]));
        }
        assert(!is_white_space(last[0])) by {
            assert(!is_white_space(parts[parts.len() - 1][0]));
        }
        assert forall|k: int| 0 <= k < r.len() implies p(#[trigger] r[k]) && (r[k] == ' ' ==> 0 < k
            < r.len() - 1 && r[k - 1] != ' ' && r[k + 1] != ' ') by {
            if k < n {
                assert(r[k] == jd[k]);
                if r[k] == ' ' {
                    assert(r[k - 1] == jd[k - 1]);
                    assert(r[k + 1] == jd[k + 1]);
                }
            } else if k == n {
                assert(r[k - 1] == jd[n - 1]);
                assert(r[k + 1] == last[0]);
            } else {
                assert(r[k] == last[k - n - 1]);
                assert(!is_white_space(parts[parts.len() - 1][k - n - 1]));
                assert(p(parts[parts.len() - 1][k - n - 1]));
            }
        }
        assert(r[0] == jd[0]);
        assert(r.last() == last.last());
    }
}

/// A text found in a piece is found in any text around that piece.
pub proof fn lemma_contains_within(a: Seq<char>, x: Seq<char>, b: Seq<char>, t: Seq<char>)
    requires
        contains(x, t),
    ensures
        contains(a + x + b, t),
{
    let i = choose|i: int| occurs_at(x, t, i);
    let s = a + x + b;
    assert(s.subrange(a.len() + i, a.len() + i + t.len()) =~= x.subrange(i, i + t.len()));
    assert(occurs_at(s, t, a.len() + i));
}

/// Each piece of a split is a stretch of the text, the last one running to
/// its end.
pub proof fn lemma_split_by_substrings(s: Seq<char>, sep: spec_fn(char) -> bool)
    ensures
        forall|i: int|
            0 <= i < split_by(s, sep).len() ==> exists|lo: int, hi: int|
                0 <= lo <= hi <= s.len() && #[trigger] split_by(s, sep)[i] == s.subrange(lo, hi),
        exists|lo: int|
            0 <= lo <= s.len() && split_by(s, sep).last() == s.subrange(lo, s.len() as int),
    decreases s.len(),
{
    lemma_split_by_nonempty(s, sep);
    if s.len() == 0 {
        assert(split_by(s, sep)[0] == s.subrange(0, 0));
        assert(split_by(s, sep).last() == s.subrange(0, 0));
    } else {
        let d = s.drop_last();
        lemma_split_by_substrings(d, sep);
        lemma_split_by_nonempty(d, sep);
        let prev = split_by(d, sep);
        let lo0 = choose|lo: int| 0 <= lo <= d.len() && prev.last() == d.subrange(lo, d.len() as int);
        let r = split_by(s, sep);
        assert forall|i: int| 0 <= i < prev.len() - 1 implies exists|lo: int, hi: int|
            0 <= lo <= hi <= s.len() && #[trigger] r[i] == s.subrange(lo, hi) by {
            let (lo, hi) = choose|lo: int, hi: int|
                0 <= lo <= hi <= d.len() && prev[i] == d.subrange(lo, hi);
            assert(r[i] == prev[i]);
            assert(d.subrange(lo, hi) =~= s.subrange(lo, hi));
        }
        if sep(s.last()) {
            assert(r[prev.len() - 1] == prev.last());
            assert(d.subrange(lo0, d.len() as int) =~= s.subrange(lo0, d.len() as int));
            assert(r[prev.len() - 1] == s.subrange(lo0, d.len() as int));
            assert(r.last() == s.subrange(s.len() as int, s.len() as int));
            assert forall|i: int| 0 <= i < r.len() implies exists|lo: int, hi: int|
                0 <= lo <= hi <= s.len() && #[trigger] r[i] == s.subrange(lo, hi) by {
                if i == prev.len() - 1 {
                    assert(r[i] == s.subrange(lo0, d.len() as int));
                } else if i == prev.len() {
                    assert(r[i] == s.subrange(s.len() as int, s.len() as int));
                }
            }
        } else {
            assert(r.last() =~= s.subrange(lo0, s.len() as int));
            assert forall|i: int| 0 <= i < r.len() implies exists|lo: int, hi: int|
                0 <= lo <= hi <= s.len() && #[trigger] r[i] == s.subrange(lo, hi) by {
                if i == prev.len() - 1 {
                    assert(r[i] == s.subrange(lo0, s.len() as int));
                }
            }
        }
    }
}

/// Every word of a text occurs in it.
pub proof fn lemma_words_occur(s: Seq<char>)
    ensures
        forall|t: int| 0 <= t < words(s).len() ==> contains(s, #[trigger] words(s)[t]),
{
    let ws = |c: char| is_white_space(c);
    let pieces = split_by(s, ws);
    lemma_split_by_substrings(s, ws);
    lemma_keep_nonempty_from(pieces);
    assert forall|t: int| 0 <= t < words(s).len() implies contains(s, #[trigger] words(s)[t]) by {
        let k = choose|k: int| 0 <= k < pieces.len() && words(s)[t] == pieces[k];
        let (lo, hi) = choose|lo: int, hi: int|
            0 <= lo <= hi <= s.len() && pieces[k] == s.subrange(lo, hi);
        assert(occurs_at(s, words(s)[t], lo));
    }
}

/// No piece of a split holds a separator.
pub proof fn lemma_split_by_pieces(s: Seq<char>, sep: spec_fn(char) -> bool)
    ensures
        forall|i: int, j: int|
            0 <= i < split_by(s, sep).len() && 0 <= j < split_by(s, sep)[i].len() ==> !sep(
                #[trigger] split_by(s, sep)[i][j],
            ),
    decreases s.len(),
{
    if s.len() > 0 {
        lemma_split_by_pieces(s.drop_last(), sep);
        lemma_split_by_nonempty(s.drop_last(), sep);
        let prev = split_by(s.drop_last(), sep);
        if !sep(s.last()) {
            let r = prev.update(prev.len() - 1, prev.last().push(s.last()));
            assert forall|i: int, j: int| 0 <= i < r.len() && 0 <= j < r[i].len() implies !sep(
                #[trigger] r[i][j],
            ) by {
                if i == prev.len() - 1 && j == prev.last().len() {
                } else if i == prev.len() - 1 {
                    assert(r[i][j] == prev[i][j]);
                } else {
                    assert(r[i] == prev[i]);
                }
            }
        } else {
            let r = prev.push(Seq::<char>::empty());
            assert forall|i: int, j: int| 0 <= i < r.len() && 0 <= j < r[i].len() implies !sep(
                #[trigger] r[i][j],
            ) by {
                assert(r[i] == prev[i]);
            }
        }
    }
}

/// Splitting a text without separators gives the text back whole.
pub proof fn lemma_split_by_whole(s: Seq<char>, sep: spec_fn(char) -> bool)
    requires
        forall|j: int| 0 <= j < s.len() ==> !sep(#[trigger] s[j]),
    ensures
        split_by(s, sep) == seq![s],
    decreases s.len(),
{
    if s.len() == 0 {
        assert(s =~= Seq::<char>::empty());
        assert(split_by(s, sep) =~= seq![s]);
    } else {
        assert forall|j: int| 0 <= j < s.drop_last().len() implies !sep(
            #[trigger] s.drop_last()[j],
        ) by {
            assert(s.drop_last()[j] == s[j]);
        }
        lemma_split_by_whole(s.drop_last(), sep);
        assert(!sep(s[s.len() - 1]));
        assert(!sep(s.last()));
        let prev = split_by(s.drop_last(), sep);
        assert(prev == seq![s.drop_last()]);
        assert(prev.last() == s.drop_last());
        assert(s.drop_last().push(s.last()) =~= s);
        assert(split_by(s, sep) == prev.update(prev.len() - 1, prev.last().push(s.last())));
        assert(split_by(s, sep) =~= seq![s]);
    }
}

/// Each kept piece is a trimmed piece of one of the parts.
pub proof fn lemma_keep_trimmed_from(parts: Seq<Seq<char>>)
    ensures
        forall|i: int|
            0 <= i < keep_trimmed(parts).len() ==> exists|p: int|
                0 <= p < parts.len() && #[trigger] keep_trimmed(parts)[i] == trim(parts[p]),
        forall|i: int| 0 <= i < keep_trimmed(parts).len() ==> #[trigger] keep_trimmed(parts)[i].len() > 0,
    decreases parts.len(),
{
    if parts.len() > 0 {
        lemma_keep_trimmed_from(parts.drop_last());
        let r = keep_trimmed(parts.drop_last());
        assert forall|i: int| 0 <= i < keep_trimmed(parts).len() implies exists|p: int|
            0 <= p < parts.len() && #[trigger] keep_trimmed(parts)[i] == trim(parts[p]) by {
            if i < r.len() {
                let p = choose|p: int| 0 <= p < parts.drop_last().len() && r[i] == trim(
                    parts.drop_last()[p],
                );
                assert(parts[p] == parts.drop_last()[p]);
            } else {
                assert(parts[parts.len() - 1] == parts.last());
            }
        }
    }
}

} // verus!
