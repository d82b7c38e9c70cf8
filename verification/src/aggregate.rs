//! Counting and ordering building blocks: tallies by label, distinct values,
//! stable orderings and pages.

use vstd::prelude::*;
use vstd::utf8::encode_utf8;
use crate::text::{str_eq, strings_view, to_owned_string};

verus! {

/// `a < b` for byte strings, lexicographically.
pub open spec fn bytes_less(a: Seq<u8>, b: Seq<u8>) -> bool
    decreases a.len(),
{
    if a.len() == 0 {
        b.len() > 0
    } else if b.len() == 0 {
        false
    } else if a[0] != b[0] {
        a[0] < b[0]
    } else {
        bytes_less(a.drop_first(), b.drop_first())
    }
}

/// `a < b` for strings: the order of their UTF-8 bytes, which is how `str`
/// is ordered.
pub open spec fn str_less(a: Seq<char>, b: Seq<char>) -> bool {
    bytes_less(encode_utf8(a), encode_utf8(b))
}

/// Compares two strings by their bytes.
pub fn less_than(a: &str, b: &str) -> (r: bool)
    ensures
        r == str_less(a@, b@),
{
    let x = a.as_bytes();
    let y = b.as_bytes();
    let mut i: usize = 0;
    assert(x@.skip(0) =~= x@);
    assert(y@.skip(0) =~= y@);
    while i < x.len() && i < y.len() && x[i] == y[i]
        invariant
            i <= x@.len(),
            i <= y@.len(),
            x@ == encode_utf8(a@),
            y@ == encode_utf8(b@),
            bytes_less(x@, y@) == bytes_less(x@.skip(i as int), y@.skip(i as int)),
        decreases x.len() - i,
    {
        assert(x@.skip(i as int).drop_first() =~= x@.skip(i + 1));
        assert(y@.skip(i as int).drop_first() =~= y@.skip(i + 1));
        i = i + 1;
    }
    if i == x.len() {
        i < y.len()
    } else if i == y.len() {
        false
    } else {
        assert(x@.skip(i as int)[0] == x@[i as int]);
        assert(y@.skip(i as int)[0] == y@[i as int]);
        x[i] < y[i]
    }
}

/// The first position of `k` among the labels of `t`, or -1.
pub open spec fn find(t: Seq<(Seq<char>, int)>, k: Seq<char>) -> int
    decreases t.len(),
{
    if t.len() == 0 {
        -1
    } else if t[0].0 == k {
        0
    } else {
        let r = find(t.drop_first(), k);
        if r < 0 {
            -1
        } else {
            r + 1
        }
    }
}

pub proof fn lemma_find(t: Seq<(Seq<char>, int)>, k: Seq<char>)
    ensures
        -1 <= find(t, k) < t.len(),
        find(t, k) == -1 <==> forall|j: int| 0 <= j < t.len() ==> t[j].0 != k,
        find(t, k) >= 0 ==> t[find(t, k)].0 == k && forall|j: int|
            0 <= j < find(t, k) ==> t[j].0 != k,
    decreases t.len(),
{
    if t.len() > 0 {
        lemma_find(t.drop_first(), k);
        if t[0].0 != k {
            assert forall|j: int| 1 <= j < t.len() implies t[j].0 == t.drop_first()[j - 1].0 by {}
            if find(t.drop_first(), k) == -1 {
                assert forall|j: int| 0 <= j < t.len() implies t[j].0 != k by {
                    if j > 0 {
                        assert(t[j] == t.drop_first()[j - 1]);
                    }
                }
            } else {
                let r = find(t.drop_first(), k);
                assert forall|j: int| 0 <= j < r + 1 implies t[j].0 != k by {
                    if j > 0 {
                        assert(t[j] == t.drop_first()[j - 1]);
                    }
                }
            }
        }
    }
}

/// Sums `amount` by `label`, the labels in the order of their first
/// appearance: what adding into a map and walking it in insertion order gives.
pub open spec fn tally(pairs: Seq<(Seq<char>, int)>) -> Seq<(Seq<char>, int)>
    decreases pairs.len(),
{
    if pairs.len() == 0 {
        Seq::empty()
    } else {
        let t = tally(pairs.drop_last());
        let k = pairs.last().0;
        let a = pairs.last().1;
        let j = find(t, k);
        if j >= 0 {
            t.update(j, (k, t[j].1 + a))
        } else {
            t.push((k, a))
        }
    }
}

/// `t` with `amount` added to the entry labelled `k`, or with a new entry
/// `(k, amount)` at the end when there is none.
pub open spec fn add_amount(t: Seq<(Seq<char>, int)>, k: Seq<char>, amount: int) -> Seq<
    (Seq<char>, int),
> {
    let j = find(t, k);
    if j >= 0 {
        t.update(j, (k, t[j].1 + amount))
    } else {
        t.push((k, amount))
    }
}

/// The sum of the amounts.
pub open spec fn total(t: Seq<(Seq<char>, int)>) -> int
    decreases t.len(),
{
    if t.len() == 0 {
        0
    } else {
        total(t.drop_last()) + t.last().1
    }
}

/// Changing one amount changes the sum by the difference.
pub proof fn lemma_total_update(t: Seq<(Seq<char>, int)>, j: int, e: (Seq<char>, int))
    requires
        0 <= j < t.len(),
    ensures
        total(t.update(j, e)) == total(t) - t[j].1 + e.1,
    decreases t.len(),
{
    if j < t.len() - 1 {
        lemma_total_update(t.drop_last(), j, e);
        assert(t.update(j, e).drop_last() =~= t.drop_last().update(j, e));
    } else {
        assert(t.update(j, e).drop_last() =~= t.drop_last());
    }
}

/// Adding an amount adds it to the sum.
pub proof fn lemma_total_add_amount(t: Seq<(Seq<char>, int)>, k: Seq<char>, amount: int)
    ensures
        total(add_amount(t, k, amount)) == total(t) + amount,
{
    lemma_find(t, k);
    let j = find(t, k);
    if j >= 0 {
        lemma_total_update(t, j, (k, t[j].1 + amount));
    } else {
        assert(t.push((k, amount)).drop_last() =~= t);
    }
}

/// A map of counts by label.
pub type CountMap = Vec<(String, i64)>;

/// The view of a count map.
pub open spec fn counts_view(m: Seq<(String, i64)>) -> Seq<(Seq<char>, int)> {
    m.map_values(|e: (String, i64)| (e.0@, e.1 as int))
}

/// Adds `amount` to the count of `key`, adding the label when it is new.
pub fn tally_add(m: &mut CountMap, key: &str, amount: i64)
    requires
        forall|j: int|
            0 <= j < old(m).len() ==> i64::MIN <= #[trigger] old(m)@[j].1 + amount <= i64::MAX,
    ensures
        counts_view(final(m)@) == add_amount(counts_view(old(m)@), key@, amount as int),
{
    let ghost t = counts_view(m@);
    proof {
        lemma_find(t, key@);
    }
    let mut i: usize = 0;
    while i < m.len()
        invariant
            i <= m.len(),
            t == counts_view(m@),
            m@ == old(m)@,
            forall|j: int| 0 <= j < i ==> t[j].0 != key@,
            forall|j: int|
                0 <= j < old(m).len() ==> i64::MIN <= #[trigger] old(m)@[j].1 + amount <= i64::MAX,
            -1 <= find(t, key@) < t.len(),
            find(t, key@) == -1 <==> forall|j: int| 0 <= j < t.len() ==> t[j].0 != key@,
            find(t, key@) >= 0 ==> t[find(t, key@)].0 == key@ && forall|j: int|
                0 <= j < find(t, key@) ==> t[j].0 != key@,
        decreases m.len() - i,
    {
        if str_eq(m[i].0.as_str(), key) {
            assert(t[i as int].0 == key@);
            assert(find(t, key@) == i);
            assert(i64::MIN <= old(m)@[i as int].1 + amount <= i64::MAX);
            let c = m[i].1 + amount;
            let name = to_owned_string(key);
            m.set(i, (name, c));
            assert(counts_view(m@) =~= t.update(i as int, (key@, t[i as int].1 + amount)));
            return;
        }
        i = i + 1;
    }
    assert(find(t, key@) == -1);
    m.push((to_owned_string(key), amount));
    assert(counts_view(m@) =~= t.push((key@, amount as int)));
}

/// The values of `s` without repeats, in the order of their first appearance.
pub open spec fn distinct(s: Seq<Seq<char>>) -> Seq<Seq<char>>
    decreases s.len(),
{
    if s.len() == 0 {
        Seq::empty()
    } else {
        let d = distinct(s.drop_last());
        if d.contains(s.last()) {
            d
        } else {
            d.push(s.last())
        }
    }
}

/// `xs` added one after the other to a list of distinct values, each unless
/// it is there already.
pub open spec fn distinct_add_all(d: Seq<Seq<char>>, xs: Seq<Seq<char>>) -> Seq<Seq<char>>
    decreases xs.len(),
{
    if xs.len() == 0 {
        d
    } else {
        let r = distinct_add_all(d, xs.drop_last());
        if r.contains(xs.last()) {
            r
        } else {
            r.push(xs.last())
        }
    }
}

/// Adding values to the distinct values of `a` gives the distinct values of
/// `a` followed by them.
pub proof fn lemma_distinct_add_all(a: Seq<Seq<char>>, b: Seq<Seq<char>>)
    ensures
        distinct_add_all(distinct(a), b) == distinct(a + b),
    decreases b.len(),
{
    if b.len() == 0 {
        assert(a + b =~= a);
    } else {
        lemma_distinct_add_all(a, b.drop_last());
        assert((a + b).drop_last() =~= a + b.drop_last());
        assert((a + b).last() == b.last());
    }
}

/// Adds `x` to a list of distinct values unless it is there.
pub fn add_distinct(v: &mut Vec<String>, x: &str)
    ensures
        strings_view(final(v)@) == if strings_view(old(v)@).contains(x@) {
            strings_view(old(v)@)
        } else {
            strings_view(old(v)@).push(x@)
        },
{
    let ghost sv = strings_view(v@);
    let mut i: usize = 0;
    while i < v.len()
        invariant
            i <= v.len(),
            sv == strings_view(v@),
            forall|j: int| 0 <= j < i ==> sv[j] != x@,
        decreases v.len() - i,
    {
        if str_eq(v[i].as_str(), x) {
            assert(sv[i as int] == x@);
            return;
        }
        i = i + 1;
    }
    assert(!sv.contains(x@));
    v.push(to_owned_string(x));
    assert(strings_view(v@) =~= sv.push(x@));
}

/// `order` lists each of `0..n` once.
pub open spec fn is_perm(order: Seq<usize>, n: nat) -> bool {
    &&& order.len() == n
    &&& forall|j: int| 0 <= j < n ==> #[trigger] order[j] < n
    &&& forall|j: int, l: int| 0 <= j < l < n ==> order[j] != order[l]
}

/// `order` lists the positions of `keys` from the largest key to the
/// smallest, equal keys in their original order: what a stable sort by
/// descending key gives.
pub open spec fn stable_desc(keys: Seq<int>, order: Seq<usize>) -> bool {
    &&& is_perm(order, keys.len())
    &&& forall|j: int, l: int|
        0 <= j < l < order.len() ==> keys[order[j] as int] >= keys[order[l] as int]
    &&& forall|j: int, l: int|
        0 <= j < l < order.len() && keys[order[j] as int] == keys[order[l] as int] ==> order[j]
            < order[l]
}

/// The positions of `keys` in stable descending order of key.
pub fn order_desc(keys: &Vec<i64>) -> (order: Vec<usize>)
    ensures
        stable_desc(keys@.map_values(|k: i64| k as int), order@),
{
    let ghost ks = keys@.map_values(|k: i64| k as int);
    let mut order: Vec<usize> = Vec::new();
    let mut i: usize = 0;
    while i < keys.len()
        invariant
            i <= keys.len(),
            ks == keys@.map_values(|k: i64| k as int),
            stable_desc(ks.take(i as int), order@),
        decreases keys.len() - i,
    {
        let ghost old_order = order@;
        let ghost pre = ks.take(i as int);
        let ghost nxt = ks.take(i + 1);
        assert forall|q: int| 0 <= q < i implies nxt[q] == pre[q] by {}
        assert(nxt[i as int] == keys@[i as int] as int);
        let mut p: usize = 0;
        while p < order.len() && keys[order[p]] >= keys[i]
            invariant
                p <= order.len(),
                order@ == old_order,
                i < keys.len(),
                ks == keys@.map_values(|k: i64| k as int),
                is_perm(old_order, i as nat),
                forall|q: int| 0 <= q < p ==> ks[old_order[q] as int] >= ks[i as int],
            decreases order.len() - p,
        {
            p = p + 1;
        }
        proof {
            assert forall|q: int| p <= q < old_order.len() implies ks[old_order[q] as int] < ks[
                i as int] by {
                assert(ks[old_order[p as int] as int] < ks[i as int]);
                if q > p {
                    assert(pre[old_order[p as int] as int] >= pre[old_order[q] as int]);
                }
            }
        }
        order.insert(p, i);
        proof {
            let no = order@;
            assert(no == old_order.insert(p as int, i));
            assert forall|q: int| 0 <= q < i + 1 implies #[trigger] no[q] < i + 1 by {
                if q < p {
                    assert(no[q] == old_order[q]);
                } else if q > p {
                    assert(no[q] == old_order[q - 1]);
                }
            }
            assert forall|j: int, l: int| 0 <= j < l < i + 1 implies no[j] != no[l] by {
                if j < p && l < p {
                } else if j < p && l == p {
                    assert(old_order[j] < i);
                } else if j < p && l > p {
                    assert(no[l] == old_order[l - 1]);
                } else if j == p {
                    assert(no[l] == old_order[l - 1]);
                    assert(old_order[l - 1] < i);
                } else {
                    assert(no[j] == old_order[j - 1]);
                    assert(no[l] == old_order[l - 1]);
                }
            }
            assert forall|j: int, l: int| 0 <= j < l < no.len() implies nxt[no[j] as int]
                >= nxt[no[l] as int] by {
                if j < p && l < p {
                    assert(pre[old_order[j] as int] >= pre[old_order[l] as int]);
                } else if j < p && l == p {
                } else if j < p && l > p {
                    assert(no[l] == old_order[l - 1]);
                    assert(pre[old_order[j] as int] >= pre[old_order[l - 1] as int]);
                } else if j == p {
                    assert(no[l] == old_order[l - 1]);
                } else {
                    assert(no[j] == old_order[j - 1]);
                    assert(no[l] == old_order[l - 1]);
                    assert(pre[old_order[j - 1] as int] >= pre[old_order[l - 1] as int]);
                }
            }
            assert forall|j: int, l: int|
                0 <= j < l < no.len() && nxt[no[j] as int] == nxt[no[l] as int] implies no[j]
                < no[l] by {
                if j < p && l < p {
                    assert(pre[old_order[j] as int] == pre[old_order[l] as int]);
                } else if j < p && l == p {
                    assert(old_order[j] < i);
                } else if j < p && l > p {
                    assert(no[l] == old_order[l - 1]);
                    assert(pre[old_order[j] as int] >= ks[i as int]);
                    assert(pre[old_order[l - 1] as int] < ks[i as int]);
                } else if j == p {
                    assert(no[l] == old_order[l - 1]);
                } else {
                    assert(no[j] == old_order[j - 1]);
                    assert(no[l] == old_order[l - 1]);
                    assert(pre[old_order[j - 1] as int] == pre[old_order[l - 1] as int]);
                }
            }
        }
        i = i + 1;
    }
    assert(ks.take(keys.len() as int) =~= ks);
    order
}

/// The first and last positions of page `[offset, offset + limit)` of a list
/// of `total` items.
pub open spec fn page_bounds(total: nat, offset: nat, limit: nat) -> (nat, nat) {
    let lo = if offset < total {
        offset
    } else {
        total
    };
    let hi = if offset + limit < total {
        offset + limit
    } else {
        total
    };
    (lo, hi)
}

/// The next page's offset when more items remain.
pub open spec fn next_offset(total: nat, offset: nat, limit: nat) -> Option<nat> {
    if offset + limit < total {
        Some(offset + limit)
    } else {
        None
    }
}

/// A page holds at most `limit` of the `total` items, and the next page,
/// when there is one, starts where this one ends; otherwise this page
/// reaches the end.
pub proof fn pages_follow_on(total: nat, offset: nat, limit: nat)
    ensures
        page_bounds(total, offset, limit).0 <= page_bounds(total, offset, limit).1 <= total,
        page_bounds(total, offset, limit).1 - page_bounds(total, offset, limit).0 <= limit,
        match next_offset(total, offset, limit) {
            Some(n) => n == page_bounds(total, offset, limit).1 && n < total,
            None => page_bounds(total, offset, limit).1 == total,
        },
{
}

/// `(lo, hi)` of a page and the offset of the next one.
pub fn page(total: usize, offset: usize, limit: usize) -> (r: (usize, usize, Option<usize>))
    requires
        offset + limit <= usize::MAX,
    ensures
        (r.0 as nat, r.1 as nat) == page_bounds(total as nat, offset as nat, limit as nat),
        r.0 <= r.1 <= total,
        match r.2 {
            Some(n) => next_offset(total as nat, offset as nat, limit as nat) == Some(n as nat),
            None => next_offset(total as nat, offset as nat, limit as nat) is None,
        },
{
    let lo = if offset < total {
        offset
    } else {
        total
    };
    let hi = if offset + limit < total {
        offset + limit
    } else {
        total
    };
    let next = if offset + limit < total {
        Some(offset + limit)
    } else {
        None
    };
    (lo, hi, next)
}

/// `label` is the label of the last entry with the largest count (the one
/// `max_by_key` picks), or `unknown` when there is no entry.
pub open spec fn is_top_label(entries: Seq<(Seq<char>, int)>, label: Seq<char>) -> bool {
    if entries.len() == 0 {
        label == "unknown"@
    } else {
        exists|k: int|
            0 <= k < entries.len() && entries[k].0 == label && (forall|j: int|
                0 <= j < entries.len() ==> entries[j].1 <= entries[k].1) && (forall|j: int|
                k < j < entries.len() ==> entries[j].1 < entries[k].1)
    }
}

/// Sum of the absolute values of the amounts.
pub open spec fn abs_total(pairs: Seq<(Seq<char>, int)>) -> int
    decreases pairs.len(),
{
    if pairs.len() == 0 {
        0
    } else {
        abs_total(pairs.drop_last()) + if pairs.last().1 < 0 {
            -pairs.last().1
        } else {
            pairs.last().1
        }
    }
}

pub proof fn lemma_abs_total_nonneg(pairs: Seq<(Seq<char>, int)>)
    ensures
        abs_total(pairs) >= 0,
    decreases pairs.len(),
{
    if pairs.len() > 0 {
        lemma_abs_total_nonneg(pairs.drop_last());
    }
}

/// Every tallied amount is bounded by the sum of the absolute amounts.
pub proof fn lemma_tally_bound(pairs: Seq<(Seq<char>, int)>)
    ensures
        forall|j: int|
            0 <= j < tally(pairs).len() ==> -abs_total(pairs) <= #[trigger] tally(pairs)[j].1
                <= abs_total(pairs),
    decreases pairs.len(),
{
    lemma_abs_total_nonneg(pairs);
    if pairs.len() > 0 {
        lemma_tally_bound(pairs.drop_last());
        lemma_abs_total_nonneg(pairs.drop_last());
        let t = tally(pairs.drop_last());
        lemma_find(t, pairs.last().0);
    }
}

/// Every value of `s` is among its distinct values.
pub proof fn lemma_distinct_contains(s: Seq<Seq<char>>, q: int)
    requires
        0 <= q < s.len(),
    ensures
        distinct(s).contains(s[q]),
    decreases s.len(),
{
    if q < s.len() - 1 {
        lemma_distinct_contains(s.drop_last(), q);
        let d = distinct(s.drop_last());
        assert(s.drop_last()[q] == s[q]);
        if !d.contains(s.last()) {
            let k = choose|k: int| 0 <= k < d.len() && d[k] == s[q];
            assert(d.push(s.last())[k] == s[q]);
        }
    } else {
        let d = distinct(s.drop_last());
        if !d.contains(s.last()) {
            assert(d.push(s.last())[d.len() as int] == s[q]);
        }
    }
}

/// The distinct values hold no value twice, and only values of `s`.
pub proof fn lemma_distinct_unique(s: Seq<Seq<char>>)
    ensures
        forall|i: int, j: int|
            0 <= i < j < distinct(s).len() ==> distinct(s)[i] != distinct(s)[j],
        forall|i: int| 0 <= i < distinct(s).len() ==> s.contains(#[trigger] distinct(s)[i]),
        distinct(s).len() <= s.len(),
    decreases s.len(),
{
    if s.len() > 0 {
        lemma_distinct_unique(s.drop_last());
        let d = distinct(s.drop_last());
        assert forall|i: int| 0 <= i < distinct(s).len() implies s.contains(
            #[trigger] distinct(s)[i],
        ) by {
            if i < d.len() {
                let k = choose|k: int| 0 <= k < s.drop_last().len() && s.drop_last()[k] == d[i];
                assert(s[k] == d[i]);
            } else {
                assert(s[s.len() - 1] == s.last());
            }
        }
    }
}

pub proof fn lemma_bytes_less_irreflexive(a: Seq<u8>)
    ensures
        !bytes_less(a, a),
    decreases a.len(),
{
    if a.len() > 0 {
        lemma_bytes_less_irreflexive(a.drop_first());
    }
}

pub proof fn lemma_bytes_less_transitive(a: Seq<u8>, b: Seq<u8>, c: Seq<u8>)
    requires
        bytes_less(a, b),
        bytes_less(b, c),
    ensures
        bytes_less(a, c),
    decreases a.len(),
{
    if a.len() > 0 && b.len() > 0 && c.len() > 0 {
        if a[0] == b[0] && b[0] == c[0] {
            lemma_bytes_less_transitive(a.drop_first(), b.drop_first(), c.drop_first());
        }
    }
}

pub proof fn lemma_bytes_less_total(a: Seq<u8>, b: Seq<u8>)
    ensures
        a == b || bytes_less(a, b) || bytes_less(b, a),
    decreases a.len(),
{
    if a.len() > 0 && b.len() > 0 {
        if a[0] == b[0] {
            lemma_bytes_less_total(a.drop_first(), b.drop_first());
            if a.drop_first() == b.drop_first() {
                assert(a =~= seq![a[0]] + a.drop_first());
                assert(b =~= seq![b[0]] + b.drop_first());
            }
        }
    } else if a.len() == 0 && b.len() == 0 {
        assert(a =~= b);
    }
}

/// `str_less` is a strict total order on strings.
pub proof fn lemma_str_less_order(a: Seq<char>, b: Seq<char>, c: Seq<char>)
    ensures
        !str_less(a, a),
        str_less(a, b) && str_less(b, c) ==> str_less(a, c),
        a == b || str_less(a, b) || str_less(b, a),
{
    broadcast use vstd::utf8::encode_utf8_decode_utf8;

    lemma_bytes_less_irreflexive(encode_utf8(a));
    if str_less(a, b) && str_less(b, c) {
        lemma_bytes_less_transitive(encode_utf8(a), encode_utf8(b), encode_utf8(c));
    }
    lemma_bytes_less_total(encode_utf8(a), encode_utf8(b));
    if encode_utf8(a) == encode_utf8(b) {
        assert(vstd::utf8::decode_utf8(encode_utf8(a)) == a);
        assert(vstd::utf8::decode_utf8(encode_utf8(b)) == b);
    }
}

/// `a` comes strictly before `b` in ascending order, or in descending order
/// when `desc`.
pub open spec fn text_before(a: Seq<char>, b: Seq<char>, desc: bool) -> bool {
    if desc {
        str_less(b, a)
    } else {
        str_less(a, b)
    }
}

/// `order` lists the positions of `keys` sorted ascending (descending when
/// `desc`), equal keys in their original order: what a stable sort gives.
pub open spec fn stable_by_text(keys: Seq<Seq<char>>, desc: bool, order: Seq<usize>) -> bool {
    &&& is_perm(order, keys.len())
    &&& forall|j: int, l: int|
        0 <= j < l < order.len() ==> !text_before(keys[order[l] as int], keys[order[j] as int], desc)
    &&& forall|j: int, l: int|
        0 <= j < l < order.len() && keys[order[j] as int] == keys[order[l] as int] ==> order[j]
            < order[l]
}

/// The positions of `keys` in stable ascending (or descending) order.
pub fn order_by_text(keys: &Vec<String>, desc: bool) -> (order: Vec<usize>)
    ensures
        stable_by_text(strings_view(keys@), desc, order@),
{
    let ghost ks = strings_view(keys@);
    let mut order: Vec<usize> = Vec::new();
    let mut i: usize = 0;
    while i < keys.len()
        invariant
            i <= keys.len(),
            ks == strings_view(keys@),
            stable_by_text(ks.take(i as int), desc, order@),
        decreases keys.len() - i,
    {
        let ghost old_order = order@;
        let ghost pre = ks.take(i as int);
        let ghost nxt = ks.take(i + 1);
        let ghost ki = ks[i as int];
        assert forall|q: int| 0 <= q < i implies nxt[q] == pre[q] by {}
        assert(nxt[i as int] == ki);
        let mut p: usize = 0;
        loop
            invariant
                p <= order.len(),
                order@ == old_order,
                i < keys.len(),
                ks == strings_view(keys@),
                ki == ks[i as int],
                is_perm(old_order, i as nat),
                forall|q: int| 0 <= q < p ==> !text_before(ki, ks[old_order[q] as int], desc),
            ensures
                p <= order.len(),
                forall|q: int| 0 <= q < p ==> !text_before(ki, ks[old_order[q] as int], desc),
                p < order.len() ==> text_before(ki, ks[old_order[p as int] as int], desc),
            decreases order.len() - p,
        {
            if p >= order.len() {
                break;
            }
            let o = order[p];
            let b = if desc {
                less_than(keys[o].as_str(), keys[i].as_str())
            } else {
                less_than(keys[i].as_str(), keys[o].as_str())
            };
            if b {
                break;
            }
            p = p + 1;
        }
        proof {
            assert forall|q: int| p <= q < old_order.len() implies text_before(
                ki,
                ks[old_order[q] as int],
                desc,
            ) by {
                if q > p {
                    let y = ks[old_order[p as int] as int];
                    let z = ks[old_order[q] as int];
                    assert(pre[old_order[q] as int] == z);
                    assert(pre[old_order[p as int] as int] == y);
                    assert(!text_before(z, y, desc));
                    lemma_str_less_order(ki, y, z);
                    lemma_str_less_order(y, z, ki);
                    lemma_str_less_order(z, y, ki);
                    lemma_str_less_order(ki, z, y);
                    lemma_str_less_order(y, ki, z);
                }
            }
        }
        order.insert(p, i);
        proof {
            let no = order@;
            assert(no == old_order.insert(p as int, i));
            assert forall|q: int| 0 <= q < i + 1 implies #[trigger] no[q] < i + 1 by {
                if q < p {
                    assert(no[q] == old_order[q]);
                } else if q > p {
                    assert(no[q] == old_order[q - 1]);
                }
            }
            assert forall|j: int, l: int| 0 <= j < l < i + 1 implies no[j] != no[l] by {
                if j < p && l < p {
                } else if j < p && l == p {
                    assert(old_order[j] < i);
                } else if j < p && l > p {
                    assert(no[l] == old_order[l - 1]);
                } else if j == p {
                    assert(no[l] == old_order[l - 1]);
                    assert(old_order[l - 1] < i);
                } else {
                    assert(no[j] == old_order[j - 1]);
                    assert(no[l] == old_order[l - 1]);
                }
            }
            assert forall|j: int, l: int| 0 <= j < l < no.len() implies !text_before(
                nxt[no[l] as int],
                nxt[no[j] as int],
                desc,
            ) by {
                if j < p && l < p {
                    assert(!text_before(pre[old_order[l] as int], pre[old_order[j] as int], desc));
                } else if j < p && l == p {
                } else if j < p && l > p {
                    assert(no[l] == old_order[l - 1]);
                    assert(!text_before(
                        pre[old_order[l - 1] as int],
                        pre[old_order[j] as int],
                        desc,
                    ));
                } else if j == p {
                    assert(no[l] == old_order[l - 1]);
                    let z = ks[old_order[l - 1] as int];
                    assert(text_before(ki, z, desc));
                    lemma_str_less_order(ki, z, ki);
                    lemma_str_less_order(z, ki, z);
                } else {
                    assert(no[j] == old_order[j - 1]);
                    assert(no[l] == old_order[l - 1]);
                    assert(!text_before(
                        pre[old_order[l - 1] as int],
                        pre[old_order[j - 1] as int],
                        desc,
                    ));
                }
            }
            assert forall|j: int, l: int|
                0 <= j < l < no.len() && nxt[no[j] as int] == nxt[no[l] as int] implies no[j]
                < no[l] by {
                if j < p && l < p {
                    assert(pre[old_order[j] as int] == pre[old_order[l] as int]);
                } else if j < p && l == p {
                    assert(old_order[j] < i);
                } else if j < p && l > p {
                    assert(no[l] == old_order[l - 1]);
                    let y = ks[old_order[j] as int];
                    let z = ks[old_order[l - 1] as int];
                    assert(!text_before(ki, y, desc));
                    assert(text_before(ki, z, desc));
                    lemma_str_less_order(ki, y, z);
                    lemma_str_less_order(y, ki, z);
                } else if j == p {
                    assert(no[l] == old_order[l - 1]);
                    let z = ks[old_order[l - 1] as int];
                    assert(text_before(ki, z, desc));
                    lemma_str_less_order(ki, z, ki);
                } else {
                    assert(no[j] == old_order[j - 1]);
                    assert(no[l] == old_order[l - 1]);
                    assert(pre[old_order[j - 1] as int] == pre[old_order[l - 1] as int]);
                }
            }
        }
        i = i + 1;
    }
    assert(ks.take(keys.len() as int) =~= ks);
    order
}

/// The amounts of a tally.
pub open spec fn amounts(t: Seq<(Seq<char>, int)>) -> Seq<int> {
    t.map_values(|e: (Seq<char>, int)| e.1)
}

/// `r` holds the `limit` largest entries of `t`, from the largest amount to
/// the smallest, equal amounts in their order in `t`.
pub open spec fn is_top_counts(t: Seq<(Seq<char>, int)>, limit: nat, r: Seq<(String, i64)>) -> bool {
    &&& r.len() == if limit < t.len() {
        limit as int
    } else {
        t.len() as int
    }
    &&& exists|order: Seq<usize>|
        #[trigger] stable_desc(amounts(t), order) && forall|j: int|
            0 <= j < r.len() ==> (#[trigger] r[j]).0@ == t[order[j] as int].0 && r[j].1 == t[order[j] as int].1
}

/// The `limit` largest counts, from the largest to the smallest, equal
/// counts in the order of their labels' first appearance.
pub fn map_counts(map: &CountMap, limit: usize) -> (r: Vec<(String, i64)>)
    ensures
        is_top_counts(counts_view(map@), limit as nat, r@),
{
    let ghost t = counts_view(map@);
    let mut keys: Vec<i64> = Vec::new();
    let mut i: usize = 0;
    while i < map.len()
        invariant
            i <= map.len(),
            keys.len() == i,
            forall|j: int| 0 <= j < i ==> keys@[j] == map@[j].1,
        decreases map.len() - i,
    {
        keys.push(map[i].1);
        i = i + 1;
    }
    assert(keys@.map_values(|k: i64| k as int) =~= amounts(t));
    let order = order_desc(&keys);
    let n = if limit < map.len() {
        limit
    } else {
        map.len()
    };
    let mut out: Vec<(String, i64)> = Vec::new();
    let mut j: usize = 0;
    while j < n
        invariant
            j <= n <= map.len(),
            t == counts_view(map@),
            order.len() == map.len(),
            stable_desc(amounts(t), order@),
            out.len() == j,
            forall|q: int|
                0 <= q < j ==> (#[trigger] out@[q]).0@ == t[order@[q] as int].0 && out@[q].1
                    == t[order@[q] as int].1,
        decreases n - j,
    {
        let ix = order[j];
        out.push((to_owned_string(map[ix].0.as_str()), map[ix].1));
        j = j + 1;
    }
    assert(stable_desc(amounts(t), order@));
    out
}

/// A count of one for each non-empty value.
pub open spec fn unit_pairs(values: Seq<Seq<char>>) -> Seq<(Seq<char>, int)>
    decreases values.len(),
{
    if values.len() == 0 {
        Seq::empty()
    } else {
        let r = unit_pairs(values.drop_last());
        if values.last().len() > 0 {
            r.push((values.last(), 1int))
        } else {
            r
        }
    }
}

proof fn lemma_unit_pairs_abs(values: Seq<Seq<char>>)
    ensures
        abs_total(unit_pairs(values)) <= values.len(),
    decreases values.len(),
{
    if values.len() > 0 {
        lemma_unit_pairs_abs(values.drop_last());
        let r = unit_pairs(values.drop_last());
        if values.last().len() > 0 {
            assert(r.push((values.last(), 1int)).drop_last() =~= r);
        }
    }
}

/// How often each non-empty value occurs, labels in order of first
/// appearance.
pub fn count_nonempty(values: &Vec<String>) -> (r: CountMap)
    requires
        values.len() <= i64::MAX,
    ensures
        counts_view(r@) == tally(unit_pairs(strings_view(values@))),
{
    let ghost vs = strings_view(values@);
    let mut m: CountMap = Vec::new();
    let mut i: usize = 0;
    assert(counts_view(m@) =~= Seq::<(Seq<char>, int)>::empty());
    while i < values.len()
        invariant
            i <= values.len() <= i64::MAX,
            vs == strings_view(values@),
            counts_view(m@) == tally(unit_pairs(vs.take(i as int))),
        decreases values.len() - i,
    {
        let ghost pre = vs.take(i as int);
        assert(vs.take(i + 1).drop_last() =~= pre);
        assert(vs.take(i + 1).last() == values@[i as int]@);
        proof {
            lemma_tally_bound(unit_pairs(pre));
            lemma_unit_pairs_abs(pre);
        }
        if !values[i].as_str().is_empty() {
            proof {
                assert forall|j: int| 0 <= j < m.len() implies i64::MIN <= #[trigger] m@[j].1 + 1
                    <= i64::MAX by {
                    assert(counts_view(m@)[j].1 == m@[j].1);
                }
                let up = unit_pairs(vs.take(i + 1));
                assert(up.drop_last() =~= unit_pairs(pre));
            }
            tally_add(&mut m, values[i].as_str(), 1);
        }
        i = i + 1;
    }
    assert(vs.take(values.len() as int) =~= vs);
    m
}

} // verus!
