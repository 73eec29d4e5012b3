//! Parsing of the scanner's port specification: `top-100`, single ports,
//! ranges and comma-separated mixtures of them.
use crate::text::{
    char_is_whitespace, lemma_split_on_concat, lemma_split_on_without_sep, split_chars, split_on,
    str_chars, str_lowercase, to_lowercase, trim, trim_chars, trim_end, trim_start, views,
};
use vstd::prelude::*;

verus! {

/// Whether `c` is one of the ASCII digits `0` to `9`.
pub open spec fn is_digit(c: char) -> bool {
    '0' <= c && c <= '9'
}

/// The number that the decimal digits `d` denote.
pub open spec fn digits_value(d: Seq<char>) -> int
    decreases d.len(),
{
    if d.len() == 0 {
        0
    } else {
        digits_value(d.drop_last()) * 10 + (d.last() as int - '0' as int)
    }
}

/// Whether every character of `d` is a decimal digit.
pub open spec fn all_digits(d: Seq<char>) -> bool {
    forall|i: int| 0 <= i < d.len() ==> is_digit(#[trigger] d[i])
}

/// What `str::parse::<u16>` gives for `s`: an optional `+`, then one or more
/// decimal digits whose value is at most 65535.
pub open spec fn parse_u16(s: Seq<char>) -> Option<u16> {
    let d = if s.len() > 0 && s[0] == '+' { s.drop_first() } else { s };
    if d.len() > 0 && all_digits(d) && digits_value(d) <= 65535 {
        Some(digits_value(d) as u16)
    } else {
        None
    }
}

/// The inclusive range of ports that one trimmed item of a port list names:
/// `a-b` names `a..=b` (empty when `a > b`), a single number names itself,
/// anything else names nothing (`None`).
pub open spec fn part_range(t: Seq<char>) -> Option<(u16, u16)> {
    if t.contains('-') {
        let pieces = split_on(t, '-');
        if pieces.len() == 2 {
            match (parse_u16(pieces[0]), parse_u16(pieces[1])) {
                (Some(a), Some(b)) => Some((a, b)),
                _ => None,
            }
        } else {
            None
        }
    } else {
        match parse_u16(t) {
            Some(p) => Some((p, p)),
            None => None,
        }
    }
}

/// Whether the range `r` holds `p`.
pub open spec fn range_covers(r: Option<(u16, u16)>, p: u16) -> bool {
    match r {
        Some((a, b)) => a <= p && p <= b,
        None => false,
    }
}

/// Whether one of the (already trimmed) items `parts` names port `p`.
pub open spec fn named_by_parts(parts: Seq<Seq<char>>, p: u16) -> bool {
    exists|i: int| 0 <= i < parts.len() && range_covers(part_range(#[trigger] parts[i]), p)
}

/// The items of the port list `s`: its comma-separated pieces, trimmed.
pub open spec fn list_items(s: Seq<char>) -> Seq<Seq<char>> {
    split_on(s, ',').map_values(|piece: Seq<char>| trim(piece))
}

/// Whether the port list `s` (not `top-100`) names port `p`.
pub open spec fn listed_in(s: Seq<char>, p: u16) -> bool {
    named_by_parts(list_items(s), p)
}

/// Whether `ports` rises strictly: sorted, with no port twice.
pub open spec fn strictly_increasing(ports: Seq<u16>) -> bool {
    forall|i: int, j: int| 0 <= i < j < ports.len() ==> ports[i] < ports[j]
}

/// The ports that `top-100` stands for: a hundred ports, in rising order.
/// The scanner's documentation promises the top 100 ports and ranks none, so
/// these are the first hundred of its longer list of well-known ports.
pub open spec fn top_100_ports() -> Seq<u16> {
    seq![
        7u16, 20, 21, 22, 23, 25, 37, 42, 43, 49, 53, 67, 68, 69, 70, 79, 80, 81,
        88, 102, 110, 113, 119, 123, 135, 137, 138, 139, 143, 161, 162, 177, 179, 194, 201, 264,
        318, 381, 383, 389, 411, 412, 443, 445, 464, 465, 497, 500, 512, 513, 514, 515, 520, 521,
        540, 548, 554, 587, 591, 593, 631, 636, 639, 646, 691, 860, 873, 902, 989, 990, 993, 995,
        1025, 1026, 1027, 1028, 1029, 1080, 1110, 1433, 1434, 1723, 1755, 1900, 2000, 2001, 2049, 2121, 2717, 3000,
        3128, 3306, 3389, 3690, 4000, 4333, 4443, 4444, 5000, 5060
    ]
}

/// A prefix of a digit string never denotes more than the whole string.
pub proof fn lemma_digits_prefix_le(d: Seq<char>, i: int)
    requires
        all_digits(d),
        0 <= i <= d.len(),
    ensures
        0 <= digits_value(d.take(i)) <= digits_value(d),
    decreases d.len(),
{
    if i == d.len() {
        assert(d.take(i) =~= d);
        lemma_digits_nonneg(d);
    } else {
        let e = d.drop_last();
        assert(all_digits(e)) by {
            assert forall|k: int| 0 <= k < e.len() implies is_digit(#[trigger] e[k]) by {
                assert(e[k] == d[k]);
            }
        }
        lemma_digits_prefix_le(e, i);
        assert(e.take(i) =~= d.take(i));
        assert(is_digit(d[d.len() - 1]));
    }
}

/// Digit strings denote non-negative numbers.
pub proof fn lemma_digits_nonneg(d: Seq<char>)
    requires
        all_digits(d),
    ensures
        digits_value(d) >= 0,
    decreases d.len(),
{
    if d.len() > 0 {
        let e = d.drop_last();
        assert(all_digits(e)) by {
            assert forall|k: int| 0 <= k < e.len() implies is_digit(#[trigger] e[k]) by {
                assert(e[k] == d[k]);
            }
        }
        lemma_digits_nonneg(e);
        assert(is_digit(d[d.len() - 1]));
    }
}

/// Parses a port number as `str::parse::<u16>` does.
pub fn parse_port_number(s: &Vec<char>) -> (res: Option<u16>)
    ensures
        res == parse_u16(s@),
{
    let n = s.len();
    let start: usize = if n > 0 && s[0] == '+' { 1 } else { 0 };
    let ghost d = if s@.len() > 0 && s@[0] == '+' { s@.drop_first() } else { s@ };
    assert(d =~= s@.subrange(start as int, n as int));
    if start == n {
        return None;
    }
    let mut value: u32 = 0;
    let mut i: usize = start;
    assert(s@.subrange(start as int, start as int) =~= Seq::<char>::empty());
    while i < n
        invariant
            n == s@.len(),
            start <= i <= n,
            d == s@.subrange(start as int, n as int),
            d == (if s@.len() > 0 && s@[0] == '+' { s@.drop_first() } else { s@ }),
            all_digits(s@.subrange(start as int, i as int)),
            value == digits_value(s@.subrange(start as int, i as int)),
            value <= 65535,
        decreases n - i,
    {
        let c = s[i];
        let ghost prefix = s@.subrange(start as int, i + 1);
        assert(prefix.drop_last() =~= s@.subrange(start as int, i as int));
        assert(prefix.last() == c);
        if !('0' <= c && c <= '9') {
            assert(d[i - start] == c);
            assert(!all_digits(d));
            return None;
        }
        assert(all_digits(prefix)) by {
            assert forall|k: int| 0 <= k < prefix.len() implies is_digit(#[trigger] prefix[k]) by {
                if k < prefix.len() - 1 {
                    assert(prefix[k] == s@.subrange(start as int, i as int)[k]);
                }
            }
        }
        let digit: u32 = (c as u32) - ('0' as u32);
        value = value * 10 + digit;
        assert(value == digits_value(prefix));
        if value > 65535 {
            proof {
                if all_digits(d) {
                    lemma_digits_prefix_le(d, i + 1 - start);
                    assert(d.take(i + 1 - start) =~= prefix);
                }
            }
            return None;
        }
        i += 1;
    }
    assert(s@.subrange(start as int, n as int) =~= d);
    Some(value as u16)
}

/// Whether `c` occurs in `s`.
pub fn contains_char(s: &Vec<char>, c: char) -> (res: bool)
    ensures
        res == s@.contains(c),
{
    let n = s.len();
    let mut i: usize = 0;
    while i < n
        invariant
            n == s@.len(),
            0 <= i <= n,
            forall|k: int| 0 <= k < i ==> s@[k] != c,
        decreases n - i,
    {
        if s[i] == c {
            return true;
        }
        i += 1;
    }
    false
}

/// The inclusive port range that one trimmed item of a port list names.
pub fn port_range(item: &Vec<char>) -> (res: Option<(u16, u16)>)
    ensures
        res == part_range(item@),
{
    if contains_char(item, '-') {
        let pieces = split_chars(item, '-');
        if pieces.len() == 2 {
            assert(pieces[0]@ == views(pieces@)[0]);
            assert(pieces[1]@ == views(pieces@)[1]);
            match (parse_port_number(&pieces[0]), parse_port_number(&pieces[1])) {
                (Some(a), Some(b)) => Some((a, b)),
                _ => None,
            }
        } else {
            None
        }
    } else {
        match parse_port_number(item) {
            Some(p) => Some((p, p)),
            None => None,
        }
    }
}


/// Whether one of the first `n` items of `parts` names port `p`.
pub open spec fn named_by_first(parts: Seq<Seq<char>>, n: int, p: u16) -> bool {
    exists|j: int| 0 <= j < n && range_covers(part_range(#[trigger] parts[j]), p)
}

/// Pushing `x` adds exactly `x` to what a sequence contains.
pub proof fn lemma_push_contains(s: Seq<u16>, x: u16, k: u16)
    ensures
        s.push(x).contains(k) <==> (s.contains(k) || k == x),
{
    if s.contains(k) {
        let w = choose|i: int| 0 <= i < s.len() && s[i] == k;
        assert(s.push(x)[w] == k);
    }
    if k == x {
        assert(s.push(x)[s.len() as int] == x);
    }
    if s.push(x).contains(k) {
        let w = choose|i: int| 0 <= i < s.push(x).len() && s.push(x)[i] == k;
        if w < s.len() {
            assert(s[w] == k);
        }
    }
}

/// The sorted, duplicate-free list of the ports that the trimmed items
/// `items` name together.
pub fn ports_from_items(items: &Vec<Vec<char>>) -> (res: Vec<u16>)
    ensures
        strictly_increasing(res@),
        forall|p: u16| #[trigger] res@.contains(p) <==> named_by_parts(views(items@), p),
{
    let ghost parts = views(items@);
    let mut marked: Vec<bool> = Vec::new();
    let mut q: usize = 0;
    while q < 65536
        invariant
            q <= 65536,
            marked@.len() == q,
            forall|k: int| 0 <= k < q ==> !marked@[k],
        decreases 65536 - q,
    {
        marked.push(false);
        q += 1;
    }
    let n = items.len();
    let mut i: usize = 0;
    while i < n
        invariant
            n == items@.len(),
            parts == views(items@),
            0 <= i <= n,
            marked@.len() == 65536,
            forall|k: u16| #[trigger] marked@[k as int] <==> named_by_first(parts, i as int, k),
        decreases n - i,
    {
        assert(items@[i as int]@ == parts[i as int]);
        let range = port_range(&items[i]);
        assert(range == part_range(parts[i as int]));
        match range {
            Some((a, b)) => {
                let mut p: u32 = a as u32;
                while a <= b && p <= b as u32
                    invariant
                        marked@.len() == 65536,
                        a <= p,
                        a <= b ==> p <= b as u32 + 1,
                        a > b ==> p == a,
                        forall|k: u16|
                            #[trigger] marked@[k as int] <==> (named_by_first(parts, i as int, k) || (
                            a <= k && (k as u32) < p)),
                    decreases b as u32 + 1 - p,
                {
                    marked.set(p as usize, true);
                    p += 1;
                }
                assert forall|k: u16| #[trigger]
                    marked@[k as int] <==> (named_by_first(parts, i as int, k) || range_covers(range, k)) by {
                    if a <= b {
                        assert(p == b as u32 + 1);
                    }
                }
            },
            None => {},
        }
        assert(forall|k: u16| #[trigger]
            marked@[k as int] <==> (named_by_first(parts, i as int, k) || range_covers(range, k)));
        assert forall|k: u16| #[trigger]
            marked@[k as int] <==> named_by_first(parts, i + 1, k) by {
            if named_by_first(parts, i + 1, k) && !named_by_first(parts, i as int, k) {
                let j = choose|j: int| 0 <= j < i + 1 && range_covers(part_range(#[trigger] parts[j]), k);
                assert(j == i);
            }
            if range_covers(part_range(parts[i as int]), k) {
                assert(named_by_first(parts, i + 1, k));
            }
            if named_by_first(parts, i as int, k) {
                let j = choose|j: int| 0 <= j < i && range_covers(part_range(#[trigger] parts[j]), k);
                assert(named_by_first(parts, i + 1, k));
            }
        }
        i += 1;
    }
    let mut res: Vec<u16> = Vec::new();
    let mut p: usize = 0;
    while p < 65536
        invariant
            p <= 65536,
            marked@.len() == 65536,
            strictly_increasing(res@),
            forall|k: int| 0 <= k < res@.len() ==> res@[k] < p,
            forall|k: u16| (k as int) < p ==> (#[trigger] res@.contains(k) <==> marked@[k as int]),
            forall|k: u16| #[trigger] res@.contains(k) ==> (k as int) < p,
        decreases 65536 - p,
    {
        let ghost before = res@;
        if marked[p] {
            res.push(p as u16);
        }
        assert forall|k: u16| #[trigger] res@.contains(k) implies (k as int) < p + 1 by {
            if marked@[p as int] {
                lemma_push_contains(before, p as u16, k);
            }
        }
        assert forall|k: u16| (k as int) < p + 1 implies (#[trigger] res@.contains(k) <==> marked@[k as int]) by {
            if marked@[p as int] {
                lemma_push_contains(before, p as u16, k);
            }
        }
        p += 1;
    }
    assert forall|k: u16| #[trigger] res@.contains(k) <==> named_by_parts(parts, k) by {
        assert(marked@[k as int] <==> named_by_first(parts, n as int, k));
        if named_by_parts(parts, k) {
            let j = choose|j: int| 0 <= j < parts.len() && range_covers(part_range(#[trigger] parts[j]), k);
            assert(named_by_first(parts, n as int, k));
        }
    }
    res
}

/// The ports that `top-100` stands for, in rising order.
pub fn top_100() -> (res: Vec<u16>)
    ensures
        res@ == top_100_ports(),
{
    vec![
        7, 20, 21, 22, 23, 25, 37, 42, 43, 49, 53, 67, 68, 69, 70, 79, 80, 81,
        88, 102, 110, 113, 119, 123, 135, 137, 138, 139, 143, 161, 162, 177, 179, 194, 201, 264,
        318, 381, 383, 389, 411, 412, 443, 445, 464, 465, 497, 500, 512, 513, 514, 515, 520, 521,
        540, 548, 554, 587, 591, 593, 631, 636, 639, 646, 691, 860, 873, 902, 989, 990, 993, 995,
        1025, 1026, 1027, 1028, 1029, 1080, 1110, 1433, 1434, 1723, 1755, 1900, 2000, 2001, 2049, 2121, 2717, 3000,
        3128, 3306, 3389, 3690, 4000, 4333, 4443, 4444, 5000, 5060,
    ]
}

/// The ports that a port list names, for the string `port_str` whose lower-case
/// form is `lowered`: the `top-100` list when `lowered` is `top-100`, else
/// every port named by one of the comma-separated items, sorted, each once.
pub fn select_ports(port_str: &str, lowered: &str) -> (res: Vec<u16>)
    ensures
        strictly_increasing(res@),
        lowered@ == "top-100"@ ==> res@ == top_100_ports(),
        lowered@ != "top-100"@ ==> forall|p: u16|
            #[trigger] res@.contains(p) <==> listed_in(port_str@, p),
{
    if lowered.to_string() == "top-100".to_string() {
        proof {
            lemma_top_100_sorted();
        }
        return top_100();
    }
    let chars = str_chars(port_str);
    let pieces = split_chars(&chars, ',');
    let mut items: Vec<Vec<char>> = Vec::new();
    let n = pieces.len();
    let mut i: usize = 0;
    while i < n
        invariant
            n == pieces@.len(),
            views(pieces@) == split_on(port_str@, ','),
            0 <= i <= n,
            items@.len() == i,
            forall|k: int| 0 <= k < i ==> #[trigger] items@[k]@ == trim(pieces@[k]@),
        decreases n - i,
    {
        let item = trim_chars(&pieces[i]);
        items.push(item);
        i += 1;
    }
    assert(views(items@) =~= list_items(port_str@)) by {
        assert forall|k: int| 0 <= k < n implies #[trigger] views(items@)[k] == list_items(port_str@)[k] by {
            assert(pieces@[k]@ == views(pieces@)[k]);
        }
    }
    ports_from_items(&items)
}

/// Parses the scanner's `--ports` argument: `top-100` in any case, or a
/// comma-separated list of ports (`22`) and inclusive ranges (`1-1024`).
/// Items that do not parse are skipped; the result is sorted, each port once.
pub fn parse_ports(port_str: &str) -> (res: Vec<u16>)
    ensures
        parses_to(port_str@, res@),
        strictly_increasing(res@),
        str_lowercase(port_str@) == "top-100"@ ==> res@ == top_100_ports(),
        str_lowercase(port_str@) != "top-100"@ ==> forall|p: u16|
            #[trigger] res@.contains(p) <==> listed_in(port_str@, p),
{
    let lowered = to_lowercase(port_str);
    select_ports(port_str, lowered.as_str())
}


/// Whether each element of `s` from index `i` on is below the next one.
pub open spec fn rises_from(s: Seq<u16>, i: nat) -> bool
    decreases s.len() - i,
{
    if i + 1 >= s.len() {
        true
    } else {
        s[i as int] < s[(i + 1) as int] && rises_from(s, i + 1)
    }
}

/// A sequence in which every element is below the next is strictly increasing.
pub proof fn lemma_rises_strictly(s: Seq<u16>, i: nat)
    requires
        rises_from(s, i),
    ensures
        forall|a: int, b: int| i <= a < b < s.len() ==> s[a] < s[b],
    decreases s.len() - i,
{
    if i + 1 < s.len() {
        lemma_rises_strictly(s, i + 1);
    }
}

/// Two strictly increasing sequences, the first ending below where the
/// second starts, join into a strictly increasing sequence.
pub proof fn lemma_join_strictly_increasing(a: Seq<u16>, b: Seq<u16>)
    requires
        strictly_increasing(a),
        strictly_increasing(b),
        a.len() > 0 && b.len() > 0 ==> a.last() < b[0],
    ensures
        strictly_increasing(a + b),
{
    assert forall|i: int, j: int| 0 <= i < j < (a + b).len() implies (a + b)[i] < (a + b)[j] by {
        if i < a.len() && j >= a.len() {
            if i < a.len() - 1 {
                assert(a[i] < a[a.len() - 1]);
            }
            if j > a.len() {
                assert(b[0] < b[j - a.len()]);
            }
        }
    }
}

/// The `top-100` list holds a hundred ports, sorted, each once.
pub proof fn lemma_top_100_sorted()
    ensures
        top_100_ports().len() == 100,
        strictly_increasing(top_100_ports()),
{
    // The list in blocks of sixteen, each unfolded by fuel.
    reveal_with_fuel(rises_from, 17);
    let b0 = seq![7u16, 20, 21, 22, 23, 25, 37, 42, 43, 49, 53, 67, 68, 69, 70, 79];
    assert(rises_from(b0, 0));
    lemma_rises_strictly(b0, 0);
    let b1 = seq![80u16, 81, 88, 102, 110, 113, 119, 123, 135, 137, 138, 139, 143, 161, 162, 177];
    assert(rises_from(b1, 0));
    lemma_rises_strictly(b1, 0);
    let b2 = seq![179u16, 194, 201, 264, 318, 381, 383, 389, 411, 412, 443, 445, 464, 465, 497, 500];
    assert(rises_from(b2, 0));
    lemma_rises_strictly(b2, 0);
    let b3 = seq![512u16, 513, 514, 515, 520, 521, 540, 548, 554, 587, 591, 593, 631, 636, 639, 646];
    assert(rises_from(b3, 0));
    lemma_rises_strictly(b3, 0);
    let b4 = seq![691u16, 860, 873, 902, 989, 990, 993, 995, 1025, 1026, 1027, 1028, 1029, 1080, 1110, 1433];
    assert(rises_from(b4, 0));
    lemma_rises_strictly(b4, 0);
    let b5 = seq![1434u16, 1723, 1755, 1900, 2000, 2001, 2049, 2121, 2717, 3000, 3128, 3306, 3389, 3690, 4000, 4333];
    assert(rises_from(b5, 0));
    lemma_rises_strictly(b5, 0);
    let b6 = seq![4443u16, 4444, 5000, 5060];
    assert(rises_from(b6, 0));
    lemma_rises_strictly(b6, 0);
    let mut joined = b0;
    lemma_join_strictly_increasing(joined, b1);
    joined = joined + b1;
    lemma_join_strictly_increasing(joined, b2);
    joined = joined + b2;
    lemma_join_strictly_increasing(joined, b3);
    joined = joined + b3;
    lemma_join_strictly_increasing(joined, b4);
    joined = joined + b4;
    lemma_join_strictly_increasing(joined, b5);
    joined = joined + b5;
    lemma_join_strictly_increasing(joined, b6);
    joined = joined + b6;
    assert(joined =~= top_100_ports());
}

/// A value lies in the concatenation of two sequences exactly when it lies in one of them.
pub proof fn lemma_concat_contains(a: Seq<u16>, b: Seq<u16>, p: u16)
    ensures
        (a + b).contains(p) <==> (a.contains(p) || b.contains(p)),
{
    if (a + b).contains(p) {
        let i = choose|i: int| 0 <= i < (a + b).len() && (a + b)[i] == p;
        if i < a.len() {
            assert(a[i] == p);
        } else {
            assert(b[i - a.len()] == p);
        }
    }
    if a.contains(p) {
        let i = choose|i: int| 0 <= i < a.len() && a[i] == p;
        assert((a + b)[i] == p);
    }
    if b.contains(p) {
        let i = choose|i: int| 0 <= i < b.len() && b[i] == p;
        assert((a + b)[a.len() + i] == p);
    }
}

/// The ports of `top-100`: exactly these hundred, the first hundred of the
/// scanner's list of well-known ports (among them 22, 80, 443 and 3306).
pub proof fn lemma_top_100_members(p: u16)
    ensures
        top_100_ports().contains(p) <==> (p == 7 || (20 <= p && p <= 23) || p == 25 || p == 37 || (42 <= p && p <= 43)
            || p == 49 || p == 53 || (67 <= p && p <= 70) || (79 <= p && p <= 81) || p == 88
            || p == 102 || p == 110 || p == 113 || p == 119 || p == 123 || p == 135
            || (137 <= p && p <= 139) || p == 143 || (161 <= p && p <= 162) || p == 177
            || p == 179 || p == 194 || p == 201 || p == 264 || p == 318 || p == 381 || p == 383
            || p == 389 || (411 <= p && p <= 412) || p == 443 || p == 445
            || (464 <= p && p <= 465) || p == 497 || p == 500 || (512 <= p && p <= 515)
            || (520 <= p && p <= 521) || p == 540 || p == 548 || p == 554 || p == 587
            || p == 591 || p == 593 || p == 631 || p == 636 || p == 639 || p == 646 || p == 691
            || p == 860 || p == 873 || p == 902 || (989 <= p && p <= 990) || p == 993
            || p == 995 || (1025 <= p && p <= 1029) || p == 1080 || p == 1110
            || (1433 <= p && p <= 1434) || p == 1723 || p == 1755 || p == 1900
            || (2000 <= p && p <= 2001) || p == 2049 || p == 2121 || p == 2717 || p == 3000
            || p == 3128 || p == 3306 || p == 3389 || p == 3690 || p == 4000 || p == 4333
            || (4443 <= p && p <= 4444) || p == 5000 || p == 5060),
{
    let b0 = seq![7u16, 20, 21, 22, 23, 25, 37, 42, 43, 49, 53, 67, 68, 69, 70, 79];
    assert(b0[0] == 7 && b0[1] == 20 && b0[2] == 21 && b0[3] == 22 && b0[4] == 23 && b0[5] == 25 && b0[6] == 37 && b0[7] == 42 && b0[8] == 43 && b0[9] == 49 && b0[10] == 53 && b0[11] == 67 && b0[12] == 68 && b0[13] == 69 && b0[14] == 70 && b0[15] == 79);
    assert(b0.contains(p) <==> (p == 7 || (20 <= p && p <= 23) || p == 25 || p == 37 || (42 <= p && p <= 43) || p == 49
        || p == 53 || (67 <= p && p <= 70) || p == 79));
    let b1 = seq![80u16, 81, 88, 102, 110, 113, 119, 123, 135, 137, 138, 139, 143, 161, 162, 177];
    assert(b1[0] == 80 && b1[1] == 81 && b1[2] == 88 && b1[3] == 102 && b1[4] == 110 && b1[5] == 113 && b1[6] == 119 && b1[7] == 123 && b1[8] == 135 && b1[9] == 137 && b1[10] == 138 && b1[11] == 139 && b1[12] == 143 && b1[13] == 161 && b1[14] == 162 && b1[15] == 177);
    assert(b1.contains(p) <==> ((80 <= p && p <= 81) || p == 88 || p == 102 || p == 110 || p == 113 || p == 119
        || p == 123 || p == 135 || (137 <= p && p <= 139) || p == 143 || (161 <= p && p <= 162)
        || p == 177));
    let b2 = seq![179u16, 194, 201, 264, 318, 381, 383, 389, 411, 412, 443, 445, 464, 465, 497, 500];
    assert(b2[0] == 179 && b2[1] == 194 && b2[2] == 201 && b2[3] == 264 && b2[4] == 318 && b2[5] == 381 && b2[6] == 383 && b2[7] == 389 && b2[8] == 411 && b2[9] == 412 && b2[10] == 443 && b2[11] == 445 && b2[12] == 464 && b2[13] == 465 && b2[14] == 497 && b2[15] == 500);
    assert(b2.contains(p) <==> (p == 179 || p == 194 || p == 201 || p == 264 || p == 318 || p == 381 || p == 383
        || p == 389 || (411 <= p && p <= 412) || p == 443 || p == 445 || (464 <= p && p <= 465)
        || p == 497 || p == 500));
    let b3 = seq![512u16, 513, 514, 515, 520, 521, 540, 548, 554, 587, 591, 593, 631, 636, 639, 646];
    assert(b3[0] == 512 && b3[1] == 513 && b3[2] == 514 && b3[3] == 515 && b3[4] == 520 && b3[5] == 521 && b3[6] == 540 && b3[7] == 548 && b3[8] == 554 && b3[9] == 587 && b3[10] == 591 && b3[11] == 593 && b3[12] == 631 && b3[13] == 636 && b3[14] == 639 && b3[15] == 646);
    assert(b3.contains(p) <==> ((512 <= p && p <= 515) || (520 <= p && p <= 521) || p == 540 || p == 548 || p == 554
        || p == 587 || p == 591 || p == 593 || p == 631 || p == 636 || p == 639 || p == 646));
    let b4 = seq![691u16, 860, 873, 902, 989, 990, 993, 995, 1025, 1026, 1027, 1028, 1029, 1080, 1110, 1433];
    assert(b4[0] == 691 && b4[1] == 860 && b4[2] == 873 && b4[3] == 902 && b4[4] == 989 && b4[5] == 990 && b4[6] == 993 && b4[7] == 995 && b4[8] == 1025 && b4[9] == 1026 && b4[10] == 1027 && b4[11] == 1028 && b4[12] == 1029 && b4[13] == 1080 && b4[14] == 1110 && b4[15] == 1433);
    assert(b4.contains(p) <==> (p == 691 || p == 860 || p == 873 || p == 902 || (989 <= p && p <= 990) || p == 993
        || p == 995 || (1025 <= p && p <= 1029) || p == 1080 || p == 1110 || p == 1433));
    let b5 = seq![1434u16, 1723, 1755, 1900, 2000, 2001, 2049, 2121, 2717, 3000, 3128, 3306, 3389, 3690, 4000, 4333];
    assert(b5[0] == 1434 && b5[1] == 1723 && b5[2] == 1755 && b5[3] == 1900 && b5[4] == 2000 && b5[5] == 2001 && b5[6] == 2049 && b5[7] == 2121 && b5[8] == 2717 && b5[9] == 3000 && b5[10] == 3128 && b5[11] == 3306 && b5[12] == 3389 && b5[13] == 3690 && b5[14] == 4000 && b5[15] == 4333);
    assert(b5.contains(p) <==> (p == 1434 || p == 1723 || p == 1755 || p == 1900 || (2000 <= p && p <= 2001)
        || p == 2049 || p == 2121 || p == 2717 || p == 3000 || p == 3128 || p == 3306
        || p == 3389 || p == 3690 || p == 4000 || p == 4333));
    let b6 = seq![4443u16, 4444, 5000, 5060];
    assert(b6[0] == 4443 && b6[1] == 4444 && b6[2] == 5000 && b6[3] == 5060);
    assert(b6.contains(p) <==> ((4443 <= p && p <= 4444) || p == 5000 || p == 5060));
    assert(top_100_ports() =~= b0 + b1 + b2 + b3 + b4 + b5 + b6);
    lemma_concat_contains(b0, b1, p);
    lemma_concat_contains(b0 + b1, b2, p);
    lemma_concat_contains(b0 + b1 + b2, b3, p);
    lemma_concat_contains(b0 + b1 + b2 + b3, b4, p);
    lemma_concat_contains(b0 + b1 + b2 + b3 + b4, b5, p);
    lemma_concat_contains(b0 + b1 + b2 + b3 + b4 + b5, b6, p);
}

/// A digit string holds no `-`.
pub proof fn lemma_digits_without_dash(d: Seq<char>)
    requires
        all_digits(d),
    ensures
        !d.contains('-'),
{
    if d.contains('-') {
        let k = choose|k: int| 0 <= k < d.len() && d[k] == '-';
        assert(is_digit(d[k]));
    }
}

/// The digits of a port, alone as an item, name that port alone; and the
/// digits of two ports joined by `-` name the inclusive range between them.
pub proof fn lemma_item_forms(first: Seq<char>, last: Seq<char>)
    requires
        first.len() > 0,
        last.len() > 0,
        all_digits(first),
        all_digits(last),
        digits_value(first) <= 65535,
        digits_value(last) <= 65535,
    ensures
        part_range(first) == Some((digits_value(first) as u16, digits_value(first) as u16)),
        part_range(first + seq!['-'] + last) == Some(
            (digits_value(first) as u16, digits_value(last) as u16),
        ),
{
    lemma_digits_without_dash(first);
    lemma_digits_without_dash(last);
    assert(first[0] != '+') by {
        assert(is_digit(first[0]));
    }
    assert(last[0] != '+') by {
        assert(is_digit(last[0]));
    }
    let t = first + seq!['-'] + last;
    lemma_split_on_concat(first, last, '-');
    lemma_split_on_without_sep(first, '-');
    lemma_split_on_without_sep(last, '-');
    assert(t[first.len() as int] == '-');
    assert(split_on(t, '-') =~= seq![first, last]);
}

/// A port list joined from two by a comma names exactly the ports that
/// either of the two names.
pub proof fn lemma_listed_in_join(a: Seq<char>, b: Seq<char>, p: u16)
    ensures
        listed_in(a + seq![','] + b, p) <==> (listed_in(a, p) || listed_in(b, p)),
{
    lemma_split_on_concat(a, b, ',');
    let la = list_items(a);
    let lb = list_items(b);
    let joined = list_items(a + seq![','] + b);
    assert(joined =~= la + lb);
    if listed_in(a + seq![','] + b, p) {
        let i = choose|i: int| 0 <= i < joined.len() && range_covers(part_range(#[trigger] joined[i]), p);
        if i < la.len() {
            assert(joined[i] == la[i]);
        } else {
            assert(joined[i] == lb[i - la.len()]);
        }
    }
    if listed_in(a, p) {
        let i = choose|i: int| 0 <= i < la.len() && range_covers(part_range(#[trigger] la[i]), p);
        assert(joined[i] == la[i]);
    }
    if listed_in(b, p) {
        let i = choose|i: int| 0 <= i < lb.len() && range_covers(part_range(#[trigger] lb[i]), p);
        assert(joined[la.len() + i] == lb[i]);
    }
}

/// The order of two comma-joined port lists does not change the ports named.
pub proof fn lemma_listed_in_join_commutes(a: Seq<char>, b: Seq<char>, p: u16)
    ensures
        listed_in(a + seq![','] + b, p) == listed_in(b + seq![','] + a, p),
{
    lemma_listed_in_join(a, b, p);
    lemma_listed_in_join(b, a, p);
}

/// Two strictly increasing port sequences that hold the same ports are equal:
/// the result of a port list is determined by the ports it names.
pub proof fn lemma_sorted_ports_unique(x: Seq<u16>, y: Seq<u16>)
    requires
        strictly_increasing(x),
        strictly_increasing(y),
        forall|p: u16| x.contains(p) <==> y.contains(p),
    ensures
        x == y,
    decreases x.len(),
{
    if x.len() == 0 {
        if y.len() > 0 {
            assert(y.contains(y[0]));
        }
        assert(x =~= y);
    } else if y.len() == 0 {
        assert(x.contains(x[0]));
    } else {
        assert(x.contains(x[0]));
        assert(y.contains(y[0]));
        let k = choose|k: int| 0 <= k < y.len() && y[k] == x[0];
        let m = choose|m: int| 0 <= m < x.len() && x[m] == y[0];
        if k > 0 {
            assert(y[0] < y[k]);
            if m > 0 {
                assert(x[0] < x[m]);
            }
        }
        assert(x[0] == y[0]);
        let xt = x.drop_first();
        let yt = y.drop_first();
        assert forall|p: u16| xt.contains(p) <==> yt.contains(p) by {
            if xt.contains(p) {
                let i = choose|i: int| 0 <= i < xt.len() && xt[i] == p;
                assert(x[i + 1] == p);
                assert(x[0] < x[i + 1]);
                assert(x.contains(p));
                let j = choose|j: int| 0 <= j < y.len() && y[j] == p;
                assert(j != 0);
                assert(yt[j - 1] == p);
            }
            if yt.contains(p) {
                let i = choose|i: int| 0 <= i < yt.len() && yt[i] == p;
                assert(y[i + 1] == p);
                assert(y[0] < y[i + 1]);
                assert(y.contains(p));
                let j = choose|j: int| 0 <= j < x.len() && x[j] == p;
                assert(j != 0);
                assert(xt[j - 1] == p);
            }
        }
        lemma_sorted_ports_unique(xt, yt);
        assert(x =~= seq![x[0]] + xt);
        assert(y =~= seq![y[0]] + yt);
    }
}


/// A port list of one item that has no comma and neither starts nor ends
/// with white space names exactly the ports of that item.
pub proof fn lemma_listed_in_one_item(t: Seq<char>, p: u16)
    requires
        t.len() > 0,
        !t.contains(','),
        !char_is_whitespace(t[0]),
        !char_is_whitespace(t.last()),
    ensures
        listed_in(t, p) <==> range_covers(part_range(t), p),
{
    lemma_split_on_without_sep(t, ',');
    assert(trim_start(t) == t);
    assert(trim_end(t) == t);
    assert(list_items(t) =~= seq![t]);
    if range_covers(part_range(t), p) {
        assert(list_items(t)[0] == t);
    }
}

/// The forms of the port list that the scanner documents: the digits of a
/// port name that port alone, and the digits of two ports joined by `-` name
/// every port from the first to the second, both included.
pub proof fn lemma_list_forms(first: Seq<char>, last: Seq<char>, p: u16)
    requires
        first.len() > 0,
        last.len() > 0,
        all_digits(first),
        all_digits(last),
        digits_value(first) <= 65535,
        digits_value(last) <= 65535,
    ensures
        listed_in(first, p) <==> p == digits_value(first),
        listed_in(first + seq!['-'] + last, p) <==> digits_value(first) <= p <= digits_value(last),
{
    lemma_item_forms(first, last);
    lemma_digits_nonneg(first);
    lemma_digits_nonneg(last);
    assert(is_digit(first[0]));
    assert(is_digit(first.last()));
    assert(is_digit(last.last()));
    assert(!first.contains(',')) by {
        if first.contains(',') {
            let k = choose|k: int| 0 <= k < first.len() && first[k] == ',';
            assert(is_digit(first[k]));
        }
    }
    lemma_listed_in_one_item(first, p);
    let t = first + seq!['-'] + last;
    assert(!t.contains(',')) by {
        if t.contains(',') {
            let k = choose|k: int| 0 <= k < t.len() && t[k] == ',';
            if k < first.len() {
                assert(is_digit(first[k]));
            } else if k > first.len() {
                assert(t[k] == last[k - first.len() - 1]);
                assert(is_digit(last[k - first.len() - 1]));
            }
        }
    }
    assert(t[0] == first[0]);
    assert(t.last() == last.last());
    lemma_listed_in_one_item(t, p);
}


/// Whether `res` is what `parse_ports` gives for the text `s`: sorted, each
/// port once, the `top-100` list when `s` lower-cases to `top-100`, else the
/// ports that the items of `s` name.
pub open spec fn parses_to(s: Seq<char>, res: Seq<u16>) -> bool {
    &&& strictly_increasing(res)
    &&& str_lowercase(s) == "top-100"@ ==> res == top_100_ports()
    &&& str_lowercase(s) != "top-100"@ ==> forall|p: u16|
        #[trigger] res.contains(p) <==> listed_in(s, p)
}

/// Parsing two lists joined by a comma gives the sorted union of what each
/// gives, whichever comes first (for texts that are not `top-100`).
pub proof fn lemma_parse_ports_join(
    a: Seq<char>,
    b: Seq<char>,
    ra: Seq<u16>,
    rb: Seq<u16>,
    rab: Seq<u16>,
    rba: Seq<u16>,
)
    requires
        parses_to(a, ra),
        parses_to(b, rb),
        parses_to(a + seq![','] + b, rab),
        parses_to(b + seq![','] + a, rba),
        str_lowercase(a) != "top-100"@,
        str_lowercase(b) != "top-100"@,
        str_lowercase(a + seq![','] + b) != "top-100"@,
        str_lowercase(b + seq![','] + a) != "top-100"@,
    ensures
        strictly_increasing(rab),
        forall|p: u16| #[trigger] rab.contains(p) <==> (ra.contains(p) || rb.contains(p)),
        rab == rba,
{
    assert forall|p: u16| #[trigger] rab.contains(p) <==> (ra.contains(p) || rb.contains(p)) by {
        lemma_listed_in_join(a, b, p);
    }
    assert forall|p: u16| #[trigger] rab.contains(p) <==> rba.contains(p) by {
        lemma_listed_in_join(a, b, p);
        lemma_listed_in_join(b, a, p);
    }
    lemma_sorted_ports_unique(rab, rba);
}

/// The character of the decimal digit `d`.
pub open spec fn digit_char(d: nat) -> char {
    seq!['0', '1', '2', '3', '4', '5', '6', '7', '8', '9'][d as int]
}

/// The decimal digits of `n`, without leading zeros, as `to_string` writes it.
pub open spec fn decimal(n: nat) -> Seq<char>
    decreases n,
{
    if n < 10 {
        seq![digit_char(n)]
    } else {
        decimal(n / 10).push(digit_char(n % 10))
    }
}

/// The ports of `ports` written in decimal and joined by commas.
pub open spec fn render_ports(ports: Seq<u16>) -> Seq<char>
    decreases ports.len(),
{
    if ports.len() == 0 {
        Seq::<char>::empty()
    } else if ports.len() == 1 {
        decimal(ports[0] as nat)
    } else {
        render_ports(ports.drop_last()) + seq![','] + decimal(ports.last() as nat)
    }
}

/// The decimal digits of `n` are digits, and denote `n`.
pub proof fn lemma_decimal(n: nat)
    ensures
        decimal(n).len() > 0,
        all_digits(decimal(n)),
        digits_value(decimal(n)) == n,
    decreases n,
{
    let digits = seq!['0', '1', '2', '3', '4', '5', '6', '7', '8', '9'];
    if n < 10 {
        assert(digits_value(decimal(n).drop_last()) == 0) by {
            assert(decimal(n).drop_last() =~= Seq::<char>::empty());
        }
    } else {
        lemma_decimal(n / 10);
        let d = n % 10;
        assert(decimal(n).drop_last() =~= decimal(n / 10));
        assert(digit_char(d) as int - '0' as int == d);
        assert(n == (n / 10) * 10 + d);
        assert(all_digits(decimal(n))) by {
            assert forall|k: int| 0 <= k < decimal(n).len() implies is_digit(#[trigger] decimal(n)[k]) by {
                if k < decimal(n / 10).len() {
                    assert(decimal(n)[k] == decimal(n / 10)[k]);
                }
            }
        }
    }
}

/// The text of no item names no port.
pub proof fn lemma_listed_in_empty(p: u16)
    ensures
        !listed_in(Seq::<char>::empty(), p),
{
    let e = Seq::<char>::empty();
    assert(split_on(e, ',') == seq![e]);
    assert(trim(e) == e);
    assert(list_items(e) =~= seq![e]);
    assert(!e.contains('-'));
    assert(part_range(e) is None);
}

/// The comma-joined decimal rendering of a list of ports names exactly the
/// ports of the list.
pub proof fn lemma_listed_in_render(ports: Seq<u16>, p: u16)
    ensures
        listed_in(render_ports(ports), p) <==> ports.contains(p),
    decreases ports.len(),
{
    if ports.len() == 0 {
        lemma_listed_in_empty(p);
    } else {
        let last = ports.last();
        lemma_decimal(last as nat);
        lemma_list_forms(decimal(last as nat), decimal(last as nat), p);
        if ports.len() == 1 {
            if p == last {
                assert(ports[0] == p);
            }
        } else {
            let init = ports.drop_last();
            lemma_listed_in_render(init, p);
            lemma_listed_in_join(render_ports(init), decimal(last as nat), p);
            if init.contains(p) {
                let k = choose|k: int| 0 <= k < init.len() && init[k] == p;
                assert(ports[k] == p);
            }
            if p == last {
                assert(ports[ports.len() - 1] == p);
            }
            if ports.contains(p) {
                let k = choose|k: int| 0 <= k < ports.len() && ports[k] == p;
                if k < ports.len() - 1 {
                    assert(init[k] == p);
                }
            }
        }
    }
}

/// Parsing a sorted, duplicate-free list of ports written in decimal and
/// joined by commas gives that list back.
pub proof fn lemma_parse_ports_rendered(ports: Seq<u16>, res: Seq<u16>)
    requires
        strictly_increasing(ports),
        parses_to(render_ports(ports), res),
        str_lowercase(render_ports(ports)) != "top-100"@,
    ensures
        res == ports,
{
    assert forall|p: u16| res.contains(p) <==> ports.contains(p) by {
        lemma_listed_in_render(ports, p);
    }
    lemma_sorted_ports_unique(res, ports);
}

} // verus!
