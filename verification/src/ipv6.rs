//! Recognising a textual IPv6 address (RFC 4291, section 2.2): eight groups
//! of one to four hex digits separated by `:`, where one run of groups may be
//! compressed to `::` and the last 32 bits may be written as a dotted IPv4
//! address.

use vstd::prelude::*;
use crate::authority::{decimal_value, digit_value};

verus! {

/// The parts of `s` between the occurrences of `sep`, in order (a text with
/// `k` separators has `k + 1` parts, some of them possibly empty).
pub open spec fn split_at_sep(s: Seq<char>, sep: char) -> Seq<Seq<char>>
    decreases s.len(),
{
    if s.len() == 0 {
        seq![Seq::<char>::empty()]
    } else {
        let parts = split_at_sep(s.drop_last(), sep);
        if s.last() == sep {
            parts.push(Seq::<char>::empty())
        } else {
            parts.update(parts.len() - 1, parts.last().push(s.last()))
        }
    }
}

/// A hexadecimal digit, in either case.
pub open spec fn is_hex_digit(c: char) -> bool {
    ('0' <= c && c <= '9') || ('a' <= c && c <= 'f') || ('A' <= c && c <= 'F')
}

/// One to four hex digits: a 16-bit group of an IPv6 address.
pub open spec fn is_hex_group(g: Seq<char>) -> bool {
    1 <= g.len() <= 4 && forall|i: int| 0 <= i < g.len() ==> is_hex_digit(#[trigger] g[i])
}

/// One to three decimal digits denoting at most 255: a byte of an IPv4 address.
pub open spec fn is_decimal_octet(g: Seq<char>) -> bool {
    &&& 1 <= g.len() <= 3
    &&& forall|i: int| 0 <= i < g.len() ==> (#[trigger] digit_value(g[i])) is Some
    &&& decimal_value(g) matches Some(v) && v <= 255
}

/// A dotted IPv4 address: four octets separated by `.`.
pub open spec fn is_ipv4_literal(s: Seq<char>) -> bool {
    let parts = split_at_sep(s, '.');
    parts.len() == 4 && forall|i: int| 0 <= i < 4 ==> is_decimal_octet(#[trigger] parts[i])
}

/// The number of 16-bit groups that `s` writes out, when `s` is a
/// `:`-separated list of hex groups whose last element may (if `with_ipv4`)
/// be a dotted IPv4 address worth two groups; `None` for any other text.
pub open spec fn group_count(s: Seq<char>, with_ipv4: bool) -> Option<nat> {
    let groups = split_at_sep(s, ':');
    let n = groups.len();
    if forall|i: int| 0 <= i < n - 1 ==> is_hex_group(#[trigger] groups[i]) {
        if is_hex_group(groups[n - 1]) {
            Some(n)
        } else if with_ipv4 && is_ipv4_literal(groups[n - 1]) {
            Some(n + 1)
        } else {
            None
        }
    } else {
        None
    }
}

/// Like [`group_count`], but the empty text writes out no group.
pub open spec fn optional_group_count(s: Seq<char>, with_ipv4: bool) -> Option<nat> {
    if s.len() == 0 {
        Some(0)
    } else {
        group_count(s, with_ipv4)
    }
}

/// `s` holds `::` at position `i`.
pub open spec fn double_colon_at(s: Seq<char>, i: int) -> bool {
    0 <= i && i + 1 < s.len() && s[i] == ':' && s[i + 1] == ':'
}

/// Around the `::` at `i`, `s` writes out at most seven groups, so that the
/// `::` stands for at least one group of zeros.
pub open spec fn compressed_around(s: Seq<char>, i: int) -> bool {
    match (
        optional_group_count(s.subrange(0, i), false),
        optional_group_count(s.subrange(i + 2, s.len() as int), true),
    ) {
        (Some(a), Some(b)) => a + b <= 7,
        _ => false,
    }
}

/// `s` is a textual IPv6 address: eight groups written out, or, around its
/// first `::`, at most seven.
pub open spec fn is_ipv6_literal(s: Seq<char>) -> bool {
    ||| group_count(s, true) == Some(8nat)
    ||| exists|i: int|
        #[trigger] double_colon_at(s, i) && (forall|j: int| 0 <= j < i ==> !double_colon_at(s, j))
            && compressed_around(s, i)
}

/// Splitting always gives at least one part.
pub proof fn lemma_split_nonempty(s: Seq<char>, sep: char)
    ensures
        split_at_sep(s, sep).len() >= 1,
    decreases s.len(),
{
    if s.len() > 0 {
        lemma_split_nonempty(s.drop_last(), sep);
    }
}

/// Splitting a text without the separator gives the text itself.
pub proof fn lemma_split_without_sep(s: Seq<char>, sep: char)
    requires
        forall|j: int| 0 <= j < s.len() ==> s[j] != sep,
    ensures
        split_at_sep(s, sep) == seq![s],
    decreases s.len(),
{
    if s.len() > 0 {
        let t = s.drop_last();
        assert forall|j: int| 0 <= j < t.len() implies t[j] != sep by {
            assert(t[j] == s[j]);
        }
        lemma_split_without_sep(t, sep);
        assert(s.last() != sep);
        assert(t.push(s.last()) =~= s);
        assert(split_at_sep(s, sep) =~= seq![s]);
    } else {
        assert(s =~= Seq::<char>::empty());
    }
}

/// Splitting a text with at most one separator gives at most two parts.
pub proof fn lemma_split_one_sep(s: Seq<char>, sep: char, k: int)
    requires
        forall|j: int| 0 <= j < s.len() && j != k ==> s[j] != sep,
    ensures
        split_at_sep(s, sep).len() <= 2,
    decreases s.len(),
{
    if s.len() > 0 {
        let t = s.drop_last();
        if s.last() == sep {
            assert(s.len() - 1 == k);
            assert forall|j: int| 0 <= j < t.len() implies t[j] != sep by {
                assert(t[j] == s[j]);
            }
            lemma_split_without_sep(t, sep);
            assert(split_at_sep(s, sep) == split_at_sep(t, sep).push(Seq::<char>::empty()));
        } else {
            assert forall|j: int| 0 <= j < t.len() && j != k implies t[j] != sep by {
                assert(t[j] == s[j]);
            }
            lemma_split_one_sep(t, sep, k);
            lemma_split_nonempty(t, sep);
            assert(split_at_sep(s, sep).len() == split_at_sep(t, sep).len());
        }
    }
}

/// A text with at most one `:` is no IPv6 address.
pub proof fn lemma_one_colon_not_ipv6(s: Seq<char>, k: int)
    requires
        forall|j: int| 0 <= j < s.len() && j != k ==> s[j] != ':',
    ensures
        !is_ipv6_literal(s),
{
    lemma_split_one_sep(s, ':', k);
    assert forall|i: int| !double_colon_at(s, i) by {
        if double_colon_at(s, i) {
            assert(s[i] == ':' && s[i + 1] == ':');
        }
    }
}


/// The first part of a text that does not start with the separator starts
/// with the text's first character.
pub proof fn lemma_split_first(s: Seq<char>, sep: char)
    requires
        s.len() > 0,
        s[0] != sep,
    ensures
        split_at_sep(s, sep)[0].len() > 0,
        split_at_sep(s, sep)[0][0] == s[0],
    decreases s.len(),
{
    let t = s.drop_last();
    lemma_split_nonempty(t, sep);
    if s.len() == 1 {
        assert(t.len() == 0);
        assert(split_at_sep(t, sep) == seq![Seq::<char>::empty()]);
        assert(split_at_sep(s, sep)[0] =~= seq![s[0]]);
    } else {
        assert(t[0] == s[0]);
        lemma_split_first(t, sep);
        if s.last() != sep && split_at_sep(t, sep).len() == 1 {
            assert(split_at_sep(s, sep)[0] == split_at_sep(t, sep)[0].push(s.last()));
        }
    }
}

/// A text that starts with `[` is no IPv6 address.
pub proof fn lemma_bracket_not_ipv6(s: Seq<char>)
    requires
        s.len() > 0,
        s[0] == '[',
    ensures
        !is_ipv6_literal(s),
{
    lemma_bracket_no_groups(s, true);
    assert forall|i: int|
        #[trigger] double_colon_at(s, i) && (forall|j: int| 0 <= j < i ==> !double_colon_at(s, j))
            implies !compressed_around(s, i) by {
        assert(i > 0);
        let before = s.subrange(0, i);
        assert(before[0] == '[');
        lemma_bracket_no_groups(before, false);
    }
}

/// A text that starts with `[` is no list of groups.
pub proof fn lemma_bracket_no_groups(s: Seq<char>, with_ipv4: bool)
    requires
        s.len() > 0,
        s[0] == '[',
    ensures
        group_count(s, with_ipv4) is None,
{
    let groups = split_at_sep(s, ':');
    lemma_split_nonempty(s, ':');
    lemma_split_first(s, ':');
    let g = groups[0];
    assert(!is_hex_group(g)) by {
        assert(!is_hex_digit(g[0]));
    }
    if groups.len() == 1 {
        lemma_split_first(g, '.');
        let octet = split_at_sep(g, '.')[0];
        assert(!is_decimal_octet(octet)) by {
            assert(digit_value(octet[0]) is None);
        }
    }
}

/// Where a character that is not the separator lands after splitting: part
/// `r.0`, at `r.1`; when a separator follows it, that part is not the last.
pub proof fn lemma_part_of(s: Seq<char>, sep: char, i: int) -> (r: (int, int))
    requires
        0 <= i < s.len(),
        s[i] != sep,
    ensures
        0 <= r.0 < split_at_sep(s, sep).len(),
        0 <= r.1 < split_at_sep(s, sep)[r.0].len(),
        split_at_sep(s, sep)[r.0][r.1] == s[i],
        forall|j: int| i < j < s.len() && s[j] == sep ==> r.0 < split_at_sep(s, sep).len() - 1,
    decreases s.len(),
{
    let t = s.drop_last();
    lemma_split_nonempty(t, sep);
    let pt = split_at_sep(t, sep);
    if i == s.len() - 1 {
        let r = (pt.len() - 1, pt.last().len() as int);
        assert(split_at_sep(s, sep)[r.0] == pt.last().push(s.last()));
        r
    } else {
        assert(t[i] == s[i]);
        let r = lemma_part_of(t, sep, i);
        assert forall|j: int| i < j < t.len() && t[j] == sep implies r.0 < pt.len() - 1 by {}
        if s.last() == sep {
            assert(split_at_sep(s, sep) == pt.push(Seq::<char>::empty()));
            assert(split_at_sep(s, sep)[r.0] == pt[r.0]);
        } else {
            assert(split_at_sep(s, sep) == pt.update(pt.len() - 1, pt.last().push(s.last())));
            if r.0 < pt.len() - 1 {
                assert(split_at_sep(s, sep)[r.0] == pt[r.0]);
            } else {
                assert(split_at_sep(s, sep)[r.0] == pt[r.0].push(s.last()));
            }
            assert forall|j: int| i < j < s.len() && s[j] == sep implies r.0 < split_at_sep(
                s,
                sep,
            ).len() - 1 by {
                assert(j < t.len());
                assert(t[j] == s[j]);
            }
        }
        r
    }
}

/// A dotted IPv4 address is made of decimal digits and `.`.
pub proof fn lemma_ipv4_chars(g: Seq<char>)
    requires
        is_ipv4_literal(g),
    ensures
        forall|i: int| 0 <= i < g.len() ==> (digit_value(#[trigger] g[i]) is Some || g[i] == '.'),
{
    assert forall|i: int| 0 <= i < g.len() implies (digit_value(#[trigger] g[i]) is Some || g[i]
        == '.') by {
        if g[i] != '.' {
            let r = lemma_part_of(g, '.', i);
            assert(is_decimal_octet(split_at_sep(g, '.')[r.0]));
        }
    }
}

/// A list of groups is made of hex digits, `:` and (only with an IPv4 tail)
/// `.`, and no `.` comes before a `:`.
pub proof fn lemma_group_chars(s: Seq<char>, with_ipv4: bool)
    requires
        group_count(s, with_ipv4) is Some,
    ensures
        forall|i: int|
            0 <= i < s.len() ==> (is_hex_digit(#[trigger] s[i]) || s[i] == ':' || (with_ipv4
                && s[i] == '.')),
        forall|i: int, j: int| 0 <= i < j < s.len() && #[trigger] s[i] == '.' ==> #[trigger] s[j]
            != ':',
{
    let groups = split_at_sep(s, ':');
    lemma_split_nonempty(s, ':');
    let n = groups.len();
    assert forall|i: int| 0 <= i < s.len() implies (is_hex_digit(#[trigger] s[i]) || s[i] == ':'
        || (with_ipv4 && s[i] == '.')) by {
        if s[i] != ':' {
            let r = lemma_part_of(s, ':', i);
            let g = groups[r.0];
            if r.0 < n - 1 || is_hex_group(g) {
                assert(is_hex_group(g));
                assert(is_hex_digit(g[r.1]));
            } else {
                assert(with_ipv4 && is_ipv4_literal(g));
                lemma_ipv4_chars(g);
                assert(digit_value(g[r.1]) is Some || g[r.1] == '.');
            }
        }
    }
    assert forall|i: int, j: int| 0 <= i < j < s.len() && #[trigger] s[i] == '.' implies #[trigger] s[j]
        != ':' by {
        if s[j] == ':' {
            let r = lemma_part_of(s, ':', i);
            let g = groups[r.0];
            assert(r.0 < n - 1);
            assert(is_hex_group(g));
            assert(is_hex_digit(g[r.1]));
        }
    }
}

/// A textual IPv6 address is made of hex digits, `:` and `.` only; it holds
/// two `:` or more; and a `.` (of a dotted IPv4 tail) never comes before a
/// `:`. So a host name, or an IPv4 address with a port, is never one.
pub proof fn lemma_ipv6_literal_shape(s: Seq<char>)
    requires
        is_ipv6_literal(s),
    ensures
        forall|i: int|
            0 <= i < s.len() ==> (is_hex_digit(#[trigger] s[i]) || s[i] == ':' || s[i] == '.'),
        forall|i: int, j: int| 0 <= i < j < s.len() && #[trigger] s[i] == '.' ==> #[trigger] s[j]
            != ':',
        exists|i: int, j: int| 0 <= i < j < s.len() && #[trigger] s[i] == ':' && #[trigger] s[j] == ':',
{
    if group_count(s, true) == Some(8nat) {
        lemma_group_chars(s, true);
    } else {
        let k = choose|k: int|
            #[trigger] double_colon_at(s, k) && (forall|j: int| 0 <= j < k ==> !double_colon_at(s, j))
                && compressed_around(s, k);
        let before = s.subrange(0, k);
        let after = s.subrange(k + 2, s.len() as int);
        if before.len() > 0 {
            lemma_group_chars(before, false);
        }
        if after.len() > 0 {
            lemma_group_chars(after, true);
        }
        assert forall|i: int| 0 <= i < s.len() implies (is_hex_digit(#[trigger] s[i]) || s[i] == ':'
            || s[i] == '.') by {
            if i < k {
                assert(s[i] == before[i]);
            } else if i >= k + 2 {
                assert(s[i] == after[i - k - 2]);
            }
        }
        assert forall|i: int, j: int| 0 <= i < j < s.len() && #[trigger] s[i] == '.' implies #[trigger] s[j]
            != ':' by {
            if i < k {
                assert(s[i] == before[i]);
            } else if i >= k + 2 {
                assert(s[i] == after[i - k - 2]);
                assert(s[j] == after[j - k - 2]);
            }
        }
        assert(s[k] == ':' && s[k + 1] == ':');
    }
    if !(exists|i: int, j: int| 0 <= i < j < s.len() && #[trigger] s[i] == ':' && #[trigger] s[j] == ':') {
        let k = if exists|i: int| 0 <= i < s.len() && s[i] == ':' {
            choose|i: int| 0 <= i < s.len() && s[i] == ':'
        } else {
            -1
        };
        assert forall|j: int| 0 <= j < s.len() && j != k implies s[j] != ':' by {
            if s[j] == ':' {
                if j < k {
                    assert(s[j] == ':' && s[k] == ':');
                } else {
                    assert(s[k] == ':' && s[j] == ':');
                }
            }
        }
        lemma_one_colon_not_ipv6(s, k);
    }
}

/// A decimal digit that follows a non-empty decimal text extends its value.
pub proof fn lemma_decimal_value_push(s: Seq<char>, c: char, v: nat, d: nat)
    requires
        decimal_value(s) == Some(v),
        digit_value(c) == Some(d),
    ensures
        decimal_value(s.push(c)) == Some(v * 10 + d),
{
    assert(s.len() > 0);
    assert(s.push(c).drop_last() =~= s);
}

/// The characters of `s`, in order.
pub(crate) fn chars_of(s: &str) -> (v: Vec<char>)
    ensures
        v@ == s@,
{
    let mut v: Vec<char> = Vec::new();
    for c in it: s.chars()
        invariant
            it.seq() == s@,
            v@ == s@.take(it.index() as int),
    {
        v.push(c);
        proof {
            assert(s@.take(it.index() as int + 1) =~= s@.take(it.index() as int).push(c));
        }
    }
    proof {
        assert(s@.take(s@.len() as int) =~= s@);
    }
    v
}

/// Whether `c` is a hex digit.
fn hex_digit(c: char) -> (res: bool)
    ensures
        res == is_hex_digit(c),
{
    ('0' <= c && c <= '9') || ('a' <= c && c <= 'f') || ('A' <= c && c <= 'F')
}

/// The value of `c` as a decimal digit.
fn decimal_digit(c: char) -> (res: Option<u32>)
    ensures
        res matches Some(d) ==> digit_value(c) == Some(d as nat) && d < 10,
        res is None ==> digit_value(c) is None,
{
    if '0' <= c && c <= '9' {
        Some((c as u32) - ('0' as u32))
    } else {
        None
    }
}

/// Whether `v[lo..hi]` is a dotted IPv4 address.
fn ipv4_in(v: &Vec<char>, lo: usize, hi: usize) -> (res: bool)
    requires
        lo <= hi <= v.len(),
    ensures
        res == is_ipv4_literal(v@.subrange(lo as int, hi as int)),
{
    let mut k = lo;
    let mut cur = lo;
    let mut count: usize = 1;
    let mut earlier_ok = true;
    let mut cur_digits = true;
    let mut cur_val: u32 = 0;
    proof {
        assert(v@.subrange(lo as int, lo as int) =~= Seq::<char>::empty());
    }
    while k < hi
        invariant
            lo <= cur <= k <= hi <= v.len(),
            split_at_sep(v@.subrange(lo as int, k as int), '.').len() >= 1,
            count as nat == if split_at_sep(v@.subrange(lo as int, k as int), '.').len() <= 5 {
                split_at_sep(v@.subrange(lo as int, k as int), '.').len()
            } else {
                5
            },
            split_at_sep(v@.subrange(lo as int, k as int), '.').last() == v@.subrange(
                cur as int,
                k as int,
            ),
            earlier_ok == (forall|i: int|
                0 <= i < split_at_sep(v@.subrange(lo as int, k as int), '.').len() - 1
                    ==> is_decimal_octet(
                    #[trigger] split_at_sep(v@.subrange(lo as int, k as int), '.')[i],
                )),
            cur_digits == (forall|j: int| cur <= j < k ==> (#[trigger] digit_value(v@[j])) is Some),
            cur_digits && 1 <= k - cur <= 3 ==> decimal_value(v@.subrange(cur as int, k as int))
                == Some(cur_val as nat),
            cur_val <= 999,
            k - cur <= 2 ==> cur_val <= 99,
            k - cur <= 1 ==> cur_val <= 9,
            k == cur ==> cur_val == 0,
        decreases hi - k,
    {
        let c = v[k];
        let ghost p = v@.subrange(lo as int, k as int);
        let ghost p2 = v@.subrange(lo as int, k as int + 1);
        let ghost g = v@.subrange(cur as int, k as int);
        proof {
            assert(p2.drop_last() =~= p);
            assert(p2.last() == c);
            lemma_split_nonempty(p, '.');
            assert(is_decimal_octet(g) == (cur_digits && 1 <= k - cur <= 3 && cur_val <= 255)) by {
                assert forall|i: int| 0 <= i < g.len() implies (#[trigger] digit_value(g[i])) is Some
                    == (digit_value(v@[cur + i]) is Some) by {
                    assert(g[i] == v@[cur + i]);
                }
                if cur_digits {
                    assert forall|i: int| 0 <= i < g.len() implies (#[trigger] digit_value(
                        g[i],
                    )) is Some by {
                        assert(g[i] == v@[cur + i]);
                    }
                } else {
                    let j = choose|j: int| cur <= j < k && !((#[trigger] digit_value(v@[j])) is Some);
                    assert(g[j - cur] == v@[j]);
                }
            }
        }
        if c == '.' {
            let octet_ok = cur_digits && 1 <= k - cur && k - cur <= 3 && cur_val <= 255;
            proof {
                let gs = split_at_sep(p, '.');
                let gs2 = split_at_sep(p2, '.');
                assert(gs2 == gs.push(Seq::<char>::empty()));
                assert(gs2[gs.len() - 1] == g);
                assert((earlier_ok && octet_ok) == (forall|i: int|
                    0 <= i < gs2.len() - 1 ==> is_decimal_octet(#[trigger] gs2[i]))) by {
                    if earlier_ok && octet_ok {
                        assert forall|i: int| 0 <= i < gs2.len() - 1 implies is_decimal_octet(
                            #[trigger] gs2[i],
                        ) by {
                            if i < gs.len() - 1 {
                                assert(gs2[i] == gs[i]);
                            }
                        }
                    }
                    if !earlier_ok {
                        let i = choose|i: int|
                            0 <= i < gs.len() - 1 && !is_decimal_octet(#[trigger] gs[i]);
                        assert(gs2[i] == gs[i]);
                    }
                }
                assert(v@.subrange(k as int + 1, k as int + 1) =~= Seq::<char>::empty());
            }
            earlier_ok = earlier_ok && octet_ok;
            if count < 5 {
                count = count + 1;
            }
            cur = k + 1;
            cur_digits = true;
            cur_val = 0;
        } else {
            proof {
                let gs = split_at_sep(p, '.');
                let gs2 = split_at_sep(p2, '.');
                assert(gs2 == gs.update(gs.len() - 1, gs.last().push(c)));
                assert(v@.subrange(cur as int, k as int + 1) =~= g.push(c));
                assert forall|i: int| 0 <= i < gs2.len() - 1 implies gs2[i] == gs[i] by {}
            }
            match decimal_digit(c) {
                Some(d) => {
                    if k - cur < 3 {
                        proof {
                            if cur_digits {
                                if k == cur {
                                    assert(v@.subrange(cur as int, k as int + 1) =~= seq![c]);
                                    assert(seq![c].drop_last().len() == 0);
                                } else {
                                    lemma_decimal_value_push(g, c, cur_val as nat, d as nat);
                                }
                            }
                        }
                        cur_val = cur_val * 10 + d;
                    }
                },
                None => {
                    cur_digits = false;
                },
            }
        }
        k = k + 1;
    }
    let ghost p = v@.subrange(lo as int, hi as int);
    let ghost gs = split_at_sep(p, '.');
    let ghost g = v@.subrange(cur as int, hi as int);
    let last_ok = cur_digits && 1 <= hi - cur && hi - cur <= 3 && cur_val <= 255;
    proof {
        assert(is_decimal_octet(g) == last_ok) by {
            if cur_digits {
                assert forall|i: int| 0 <= i < g.len() implies (#[trigger] digit_value(g[i])) is Some by {
                    assert(g[i] == v@[cur + i]);
                }
            } else {
                let j = choose|j: int| cur <= j < hi && !((#[trigger] digit_value(v@[j])) is Some);
                assert(g[j - cur] == v@[j]);
            }
        }
        if count == 4 {
            assert(gs.len() == 4);
            assert(gs[3] == g);
        }
    }
    earlier_ok && count == 4 && last_ok
}


/// The number of groups that `v[lo..hi]` writes out (see [`group_count`]), when
/// it is at most eight; `None` for any other text or a larger number.
fn group_count_in(v: &Vec<char>, lo: usize, hi: usize, with_ipv4: bool) -> (res: Option<usize>)
    requires
        lo <= hi <= v.len(),
    ensures
        res matches Some(n) ==> group_count(v@.subrange(lo as int, hi as int), with_ipv4) == Some(
            n as nat,
        ),
        res is None ==> !(group_count(v@.subrange(lo as int, hi as int), with_ipv4) matches Some(n)
            && n <= 8),
{
    let mut k = lo;
    let mut cur = lo;
    let mut count: usize = 1;
    let mut earlier_ok = true;
    let mut cur_hex = true;
    proof {
        assert(v@.subrange(lo as int, lo as int) =~= Seq::<char>::empty());
    }
    while k < hi
        invariant
            lo <= cur <= k <= hi <= v.len(),
            split_at_sep(v@.subrange(lo as int, k as int), ':').len() >= 1,
            count as nat == if split_at_sep(v@.subrange(lo as int, k as int), ':').len() <= 9 {
                split_at_sep(v@.subrange(lo as int, k as int), ':').len()
            } else {
                9
            },
            split_at_sep(v@.subrange(lo as int, k as int), ':').last() == v@.subrange(
                cur as int,
                k as int,
            ),
            earlier_ok == (forall|i: int|
                0 <= i < split_at_sep(v@.subrange(lo as int, k as int), ':').len() - 1
                    ==> is_hex_group(#[trigger] split_at_sep(v@.subrange(lo as int, k as int), ':')[i])),
            cur_hex == (forall|j: int| cur <= j < k ==> is_hex_digit(#[trigger] v@[j])),
        decreases hi - k,
    {
        let c = v[k];
        let ghost p = v@.subrange(lo as int, k as int);
        let ghost p2 = v@.subrange(lo as int, k as int + 1);
        let ghost g = v@.subrange(cur as int, k as int);
        proof {
            assert(p2.drop_last() =~= p);
            assert(p2.last() == c);
            lemma_split_nonempty(p, ':');
        }
        if c == ':' {
            let group_ok = 1 <= k - cur && k - cur <= 4 && cur_hex;
            proof {
                assert(is_hex_group(g) == group_ok) by {
                    if cur_hex {
                        assert forall|i: int| 0 <= i < g.len() implies is_hex_digit(#[trigger] g[i]) by {
                            assert(g[i] == v@[cur + i]);
                        }
                    } else {
                        let j = choose|j: int| cur <= j < k && !is_hex_digit(#[trigger] v@[j]);
                        assert(g[j - cur] == v@[j]);
                    }
                }
                let gs = split_at_sep(p, ':');
                let gs2 = split_at_sep(p2, ':');
                assert(gs2 == gs.push(Seq::<char>::empty()));
                assert(gs2[gs.len() - 1] == g);
                assert((earlier_ok && group_ok) == (forall|i: int|
                    0 <= i < gs2.len() - 1 ==> is_hex_group(#[trigger] gs2[i]))) by {
                    if earlier_ok && group_ok {
                        assert forall|i: int| 0 <= i < gs2.len() - 1 implies is_hex_group(
                            #[trigger] gs2[i],
                        ) by {
                            if i < gs.len() - 1 {
                                assert(gs2[i] == gs[i]);
                            }
                        }
                    }
                    if !earlier_ok {
                        let i = choose|i: int| 0 <= i < gs.len() - 1 && !is_hex_group(#[trigger] gs[i]);
                        assert(gs2[i] == gs[i]);
                    }
                }
                assert(v@.subrange(k as int + 1, k as int + 1) =~= Seq::<char>::empty());
            }
            earlier_ok = earlier_ok && group_ok;
            if count < 9 {
                count = count + 1;
            }
            cur = k + 1;
            cur_hex = true;
        } else {
            proof {
                let gs = split_at_sep(p, ':');
                let gs2 = split_at_sep(p2, ':');
                assert(gs2 == gs.update(gs.len() - 1, gs.last().push(c)));
                assert(v@.subrange(cur as int, k as int + 1) =~= g.push(c));
                assert forall|i: int| 0 <= i < gs2.len() - 1 implies gs2[i] == gs[i] by {}
            }
            cur_hex = cur_hex && hex_digit(c);
        }
        k = k + 1;
    }
    let ghost p = v@.subrange(lo as int, hi as int);
    let ghost gs = split_at_sep(p, ':');
    let ghost g = v@.subrange(cur as int, hi as int);
    let last_ok = 1 <= hi - cur && hi - cur <= 4 && cur_hex;
    proof {
        assert(is_hex_group(g) == last_ok) by {
            if cur_hex {
                assert forall|i: int| 0 <= i < g.len() implies is_hex_digit(#[trigger] g[i]) by {
                    assert(g[i] == v@[cur + i]);
                }
            } else {
                let j = choose|j: int| cur <= j < hi && !is_hex_digit(#[trigger] v@[j]);
                assert(g[j - cur] == v@[j]);
            }
        }
        assert(gs[gs.len() - 1] == g);
    }
    if !earlier_ok || count > 8 {
        return None;
    }
    if last_ok {
        Some(count)
    } else if with_ipv4 && count < 8 && ipv4_in(v, cur, hi) {
        Some(count + 1)
    } else {
        None
    }
}

/// The position of the first `::` in `v`.
fn first_double_colon(v: &Vec<char>) -> (res: Option<usize>)
    ensures
        res matches Some(i) ==> double_colon_at(v@, i as int) && forall|j: int|
            0 <= j < i ==> !double_colon_at(v@, j),
        res is None ==> forall|j: int| !double_colon_at(v@, j),
{
    let n = v.len();
    let mut i: usize = 0;
    while i < n
        invariant
            n == v.len(),
            i <= n,
            forall|j: int| 0 <= j < i ==> !double_colon_at(v@, j),
        decreases n - i,
    {
        if i + 1 < n && v[i] == ':' && v[i + 1] == ':' {
            return Some(i);
        }
        i = i + 1;
    }
    None
}

/// Whether `v` is a textual IPv6 address.
fn ipv6_in(v: &Vec<char>) -> (res: bool)
    ensures
        res == is_ipv6_literal(v@),
{
    let n = v.len();
    let full = group_count_in(v, 0, n, true);
    proof {
        assert(v@.subrange(0, n as int) =~= v@);
    }
    let full_ok = match full {
        Some(c) => c == 8,
        None => false,
    };
    let i = match first_double_colon(v) {
        None => {
            return full_ok;
        },
        Some(i) => i,
    };

    let before = if i == 0 {
        Some(0)
    } else {
        group_count_in(v, 0, i, false)
    };
    let after = if i + 2 == n {
        Some(0)
    } else {
        group_count_in(v, i + 2, n, true)
    };
    let compressed = match (before, after) {
        (Some(a), Some(b)) => a <= 7 && b <= 7 - a,
        _ => false,
    };
    proof {
        assert(double_colon_at(v@, i as int));
        if i == 0 {
            assert(v@.subrange(0, 0).len() == 0);
        }
        if i + 2 == n {
            assert(v@.subrange(i + 2, n as int).len() == 0);
        }
        assert(compressed == compressed_around(v@, i as int));
        if !compressed {
            assert forall|i2: int|
                #[trigger] double_colon_at(v@, i2) && (forall|j: int|
                    0 <= j < i2 ==> !double_colon_at(v@, j)) implies !compressed_around(v@, i2) by {
                assert(!(i < i2));
                assert(!(i2 < i));
            }
        }
    }
    full_ok || compressed
}

/// Whether `text` is a textual IPv6 address (without brackets).
pub fn is_ipv6_address(text: &str) -> (res: bool)
    ensures
        res == is_ipv6_literal(text@),
{
    let v = chars_of(text);
    ipv6_in(&v)
}

} // verus!
