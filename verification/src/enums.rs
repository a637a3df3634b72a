//! The enum-descriptor grammar: `Enum8` or `Enum16`, surrounding whitespace
//! tolerated, then a parenthesized, comma-separated, non-empty list of
//! `'name' = value` pairs. A name is single-quoted; `\` escapes the next
//! character. Values must fit a signed 16-bit integer; the `Enum8` surface
//! narrows them to their low byte afterwards. A trailing comma, an empty
//! body, or leftover text after the closing `)` fails the whole parse.

use vstd::prelude::*;
use vstd::string::StrSliceExecFns;

use crate::text::{
    all_digits, dec_val, is_digit_char, is_ws_char, lemma_dec_val_prefix_exceeds, push_char,
};

verus! {

/// The first position at or after `i` that does not hold whitespace.
pub open spec fn skip_ws_at(s: Seq<char>, i: int) -> int
    decreases s.len() - i,
{
    if i < s.len() && is_ws_char(s[i]) {
        skip_ws_at(s, i + 1)
    } else {
        i
    }
}

pub proof fn lemma_skip_ws_at_bounds(s: Seq<char>, i: int)
    requires
        0 <= i <= s.len(),
    ensures
        i <= skip_ws_at(s, i) <= s.len(),
    decreases s.len() - i,
{
    if i < s.len() && is_ws_char(s[i]) {
        lemma_skip_ws_at_bounds(s, i + 1);
    }
}

/// The first position at or after `i` that does not hold a digit.
pub open spec fn digits_end(s: Seq<char>, i: int) -> int
    decreases s.len() - i,
{
    if i < s.len() && is_digit_char(s[i]) {
        digits_end(s, i + 1)
    } else {
        i
    }
}

pub proof fn lemma_digits_end_bounds(s: Seq<char>, i: int)
    requires
        0 <= i <= s.len(),
    ensures
        i <= digits_end(s, i) <= s.len(),
        all_digits(s.subrange(i, digits_end(s, i))),
        digits_end(s, i) == s.len() || !is_digit_char(s[digits_end(s, i)]),
    decreases s.len() - i,
{
    if i < s.len() && is_digit_char(s[i]) {
        lemma_digits_end_bounds(s, i + 1);
        let e = digits_end(s, i);
        assert forall|k: int| 0 <= k < e - i implies is_digit_char(
            #[trigger] s.subrange(i, e)[k],
        ) by {
            if k > 0 {
                assert(s.subrange(i + 1, e)[k - 1] == s.subrange(i, e)[k]);
            }
        }
    }
}

/// Pins `digits_end` to the first non-digit position.
pub proof fn lemma_digits_end_at(s: Seq<char>, i: int, e: int)
    requires
        0 <= i <= e <= s.len(),
        forall|j: int| i <= j < e ==> is_digit_char(#[trigger] s[j]),
        e == s.len() || !is_digit_char(s[e]),
    ensures
        digits_end(s, i) == e,
    decreases e - i,
{
    if i < e {
        assert(is_digit_char(s[i]));
        lemma_digits_end_at(s, i + 1, e);
    }
}

/// The scanned content of a single-quoted name, starting just after the
/// opening quote; returns the name and the position after the closing quote.
pub open spec fn scan_name_at(s: Seq<char>, i: int) -> Option<(Seq<char>, int)>
    decreases s.len() - i,
{
    if !(0 <= i < s.len()) {
        None
    } else if s[i] == '\'' {
        Some((Seq::empty(), i + 1))
    } else if s[i] == '\\' {
        if i + 1 < s.len() {
            match scan_name_at(s, i + 2) {
                Some((nm, j)) => Some((seq![s[i + 1]] + nm, j)),
                None => None,
            }
        } else {
            None
        }
    } else {
        match scan_name_at(s, i + 1) {
            Some((nm, j)) => Some((seq![s[i]] + nm, j)),
            None => None,
        }
    }
}

pub proof fn lemma_scan_name_at_bounds(s: Seq<char>, i: int)
    ensures
        match scan_name_at(s, i) {
            Some((nm, j)) => 0 <= i < j <= s.len(),
            None => true,
        },
    decreases s.len() - i,
{
    if 0 <= i < s.len() {
        if s[i] == '\'' {
        } else if s[i] == '\\' {
            if i + 1 < s.len() {
                lemma_scan_name_at_bounds(s, i + 2);
            }
        } else {
            lemma_scan_name_at_bounds(s, i + 1);
        }
    }
}

/// A signed integer at position `i`: an optional `-`, then at least one
/// digit, with the signed value held to the 16-bit range, as the grammar's
/// integer parser does.
pub open spec fn scan_int_at(s: Seq<char>, i: int) -> Option<(int, int)> {
    let neg = 0 <= i < s.len() && s[i] == '-';
    let d0 = if neg {
        i + 1
    } else {
        i
    };
    let d1 = digits_end(s, d0);
    if d1 == d0 {
        None
    } else {
        let m = dec_val(s.subrange(d0, d1));
        let v = if neg {
            -m
        } else {
            m
        };
        if -32768 <= v <= 32767 {
            Some((v, d1))
        } else {
            None
        }
    }
}

proof fn lemma_skip_ws_at_ge(s: Seq<char>, i: int)
    ensures
        skip_ws_at(s, i) >= i,
    decreases s.len() - i,
{
    if i < s.len() && is_ws_char(s[i]) {
        lemma_skip_ws_at_ge(s, i + 1);
    }
}

/// One `'name' = value` pair with surrounding whitespace consumed, the
/// trailing whitespace included; returns name, value, and next position.
pub open spec fn pair_at(s: Seq<char>, i: int) -> Option<(Seq<char>, int, int)> {
    let a = skip_ws_at(s, i);
    if a < s.len() && s[a] == '\'' {
        match scan_name_at(s, a + 1) {
            Some((nm, b)) => {
                let c = skip_ws_at(s, b);
                if c < s.len() && s[c] == '=' {
                    let d = skip_ws_at(s, c + 1);
                    match scan_int_at(s, d) {
                        Some((v, e)) => Some((nm, v, skip_ws_at(s, e))),
                        None => None,
                    }
                } else {
                    None
                }
            },
            None => None,
        }
    } else {
        None
    }
}

pub proof fn lemma_pair_at_bounds(s: Seq<char>, i: int)
    ensures
        match pair_at(s, i) {
            Some((nm, v, j)) => i < j <= s.len() && -32768 <= v <= 32767,
            None => true,
        },
{
    let a = skip_ws_at(s, i);
    lemma_skip_ws_at_ge(s, i);
    if a < s.len() && s[a] == '\'' {
        lemma_scan_name_at_bounds(s, a + 1);
        match scan_name_at(s, a + 1) {
            Some((nm, b)) => {
                let c = skip_ws_at(s, b);
                lemma_skip_ws_at_bounds(s, b);
                if c < s.len() && s[c] == '=' {
                    let d = skip_ws_at(s, c + 1);
                    lemma_skip_ws_at_bounds(s, c + 1);
                    let neg = 0 <= d < s.len() && s[d] == '-';
                    let d0 = if neg {
                        d + 1
                    } else {
                        d
                    };
                    lemma_digits_end_bounds(s, d0);
                    match scan_int_at(s, d) {
                        Some((v, e)) => {
                            lemma_skip_ws_at_bounds(s, e);
                        },
                        None => {},
                    }
                }
            },
            None => {},
        }
    }
}

/// The non-empty pair list followed by the closing `)`; returns the pairs and
/// the position after the `)`.
pub open spec fn pairs_at(s: Seq<char>, i: int) -> Option<(Seq<(Seq<char>, int)>, int)>
    decreases s.len() - i
        via pairs_at_decreases
{
    match pair_at(s, i) {
        Some((nm, v, j)) => {
            if j < s.len() && s[j] == ',' {
                match pairs_at(s, j + 1) {
                    Some((rest, e)) => Some((seq![(nm, v)] + rest, e)),
                    None => None,
                }
            } else if j < s.len() && s[j] == ')' {
                Some((seq![(nm, v)], j + 1))
            } else {
                None
            }
        },
        None => None,
    }
}

#[via_fn]
proof fn pairs_at_decreases(s: Seq<char>, i: int) {
    lemma_pair_at_bounds(s, i);
}

/// The whole enum descriptor for keyword `kw`: optional leading whitespace,
/// the keyword, optional whitespace, `(`, the pair list, `)`, and nothing
/// after it.
pub open spec fn enum_body_spec(s: Seq<char>, kw: Seq<char>) -> Option<Seq<(Seq<char>, int)>> {
    let a = skip_ws_at(s, 0);
    if a + kw.len() <= s.len() && s.subrange(a, a + kw.len()) == kw {
        let b = skip_ws_at(s, a + kw.len());
        if b < s.len() && s[b] == '(' {
            match pairs_at(s, b + 1) {
                Some((items, e)) => {
                    if e == s.len() {
                        Some(items)
                    } else {
                        None
                    }
                },
                None => None,
            }
        } else {
            None
        }
    } else {
        None
    }
}

/// Did the text commit to the enum rule: keyword then `(`? Decides between
/// an unsupported descriptor and malformed enum parameters.
pub open spec fn enum_prefix_spec(s: Seq<char>, kw: Seq<char>) -> bool {
    let a = skip_ws_at(s, 0);
    a + kw.len() <= s.len() && s.subrange(a, a + kw.len()) == kw && {
        let b = skip_ws_at(s, a + kw.len());
        b < s.len() && s[b] == '('
    }
}

/// The low byte of a 16-bit value read as a signed 8-bit integer, the
/// narrowing the `Enum8` surface applies.
pub open spec fn wrap_i8_val(v: int) -> i8
    recommends
        -32768 <= v <= 32767,
{
    let r = (v + 32768) % 256;
    if r > 127 {
        (r - 256) as i8
    } else {
        r as i8
    }
}

/// The pair list of an `Enum8(...)` descriptor, values narrowed to 8 bits.
pub open spec fn enum8_items_spec(s: Seq<char>) -> Option<Seq<(Seq<char>, i8)>> {
    match enum_body_spec(s, "Enum8"@) {
        Some(items) => Some(items.map_values(|p: (Seq<char>, int)| (p.0, wrap_i8_val(p.1)))),
        None => None,
    }
}

/// The pair list of an `Enum16(...)` descriptor.
pub open spec fn enum16_items_spec(s: Seq<char>) -> Option<Seq<(Seq<char>, i16)>> {
    match enum_body_spec(s, "Enum16"@) {
        Some(items) => Some(items.map_values(|p: (Seq<char>, int)| (p.0, p.1 as i16))),
        None => None,
    }
}

fn skip_ws_pos(s: &str, i: usize, n: usize) -> (r: usize)
    requires
        i <= n,
        n == s@.len(),
    ensures
        r as int == skip_ws_at(s@, i as int),
        i <= r <= n,
{
    let mut j = i;
    while j < n && crate::text::is_ws(s.get_char(j))
        invariant
            i <= j <= n,
            n == s@.len(),
            skip_ws_at(s@, i as int) == skip_ws_at(s@, j as int),
        decreases n - j,
    {
        j = j + 1;
    }
    j
}

/// Does `t` stand at offset `i` of `s`?
fn match_at(s: &str, i: usize, n: usize, t: &str) -> (r: bool)
    requires
        i <= n,
        n == s@.len(),
    ensures
        r == (i + t@.len() <= s@.len() && s@.subrange(i as int, i + t@.len()) == t@),
{
    let m = t.unicode_len();
    if m > n - i {
        return false;
    }
    let mut j: usize = 0;
    while j < m
        invariant
            0 <= j <= m,
            i + m <= n,
            n == s@.len(),
            m == t@.len(),
            forall|k: int| 0 <= k < j ==> s@[i + k] == t@[k],
        decreases m - j,
    {
        if s.get_char(i + j) != t.get_char(j) {
            proof {
                assert(s@.subrange(i as int, i + m)[j as int] != t@[j as int]);
            }
            return false;
        }
        j = j + 1;
    }
    proof {
        assert(s@.subrange(i as int, i + m) =~= t@);
    }
    true
}

fn scan_name_exec(s: &str, start: usize, n: usize) -> (r: Option<(String, usize)>)
    requires
        start <= n,
        n == s@.len(),
    ensures
        match r {
            Some(p) => scan_name_at(s@, start as int) == Some((p.0@, p.1 as int)) && p.1 <= n,
            None => scan_name_at(s@, start as int) is None,
        },
{
    let mut nm = String::new();
    let mut i = start;
    loop
        invariant
            start <= i,
            n == s@.len(),
            match scan_name_at(s@, i as int) {
                Some(p) => scan_name_at(s@, start as int) == Some((nm@ + p.0, p.1)),
                None => scan_name_at(s@, start as int) is None,
            },
        decreases n - i,
    {
        if i >= n {
            return None;
        }
        let c = s.get_char(i);
        if c == '\'' {
            proof {
                assert(nm@ + Seq::<char>::empty() =~= nm@);
                lemma_scan_name_at_bounds(s@, start as int);
            }
            return Some((nm, i + 1));
        }
        if c == '\\' {
            if i + 1 >= n {
                return None;
            }
            let c2 = s.get_char(i + 1);
            let ghost old_nm = nm@;
            push_char(&mut nm, c2);
            proof {
                match scan_name_at(s@, i + 2) {
                    Some(p) => {
                        assert(old_nm + (seq![c2] + p.0) =~= nm@ + p.0);
                    },
                    None => {},
                }
            }
            i = i + 2;
        } else {
            let ghost old_nm = nm@;
            push_char(&mut nm, c);
            proof {
                match scan_name_at(s@, i + 1) {
                    Some(p) => {
                        assert(old_nm + (seq![c] + p.0) =~= nm@ + p.0);
                    },
                    None => {},
                }
            }
            i = i + 1;
        }
    }
}

fn scan_int_exec(s: &str, start: usize, n: usize) -> (r: Option<(i16, usize)>)
    requires
        start <= n,
        n == s@.len(),
    ensures
        match r {
            Some(p) => scan_int_at(s@, start as int) == Some((p.0 as int, p.1 as int)) && p.1
                <= n,
            None => scan_int_at(s@, start as int) is None,
        },
{
    let neg = start < n && s.get_char(start) == '-';
    let d0: usize = if neg {
        start + 1
    } else {
        start
    };
    proof {
        lemma_digits_end_bounds(s@, d0 as int);
    }
    let ghost d1: int = digits_end(s@, d0 as int);
    let ghost sub: Seq<char> = s@.subrange(d0 as int, d1);
    let mut i = d0;
    let mut acc: u32 = 0;
    while i < n && 48 <= s.get_char(i) as u32 && s.get_char(i) as u32 <= 57
        invariant
            d0 <= i <= n,
            i <= d1 <= n,
            n == s@.len(),
            neg == (start < n && s@[start as int] == '-'),
            d0 == if neg { start + 1int } else { start as int },
            d1 == digits_end(s@, d0 as int),
            sub == s@.subrange(d0 as int, d1),
            all_digits(sub),
            d1 == s@.len() || !is_digit_char(s@[d1]),
            acc as int == dec_val(s@.subrange(d0 as int, i as int)),
            acc <= 32768,
        decreases n - i,
    {
        proof {
            if i >= d1 {
                assert(!is_digit_char(s@[i as int]));
            }
            assert(i < d1);
        }
        let dv: u32 = s.get_char(i) as u32 - 48;
        proof {
            assert(s@.subrange(d0 as int, i + 1).drop_last() =~= s@.subrange(
                d0 as int,
                i as int,
            ));
            assert(dec_val(s@.subrange(d0 as int, i + 1)) == acc * 10 + dv);
        }
        let next: u32 = acc * 10 + dv;
        if next > 32768 {
            proof {
                assert(sub.take(i + 1 - d0) =~= s@.subrange(d0 as int, i + 1));
                lemma_dec_val_prefix_exceeds(sub, i + 1 - d0, 32768);
            }
            return None;
        }
        acc = next;
        i = i + 1;
    }
    proof {
        if i < d1 {
            assert(is_digit_char(sub[i - d0]));
            assert(sub[i - d0] == s@[i as int]);
        }
        assert(i == d1);
    }
    if i == d0 {
        return None;
    }
    proof {
        assert(sub == s@.subrange(d0 as int, i as int));
    }
    if neg {
        let v: i32 = 0 - (acc as i32);
        return Some((v as i16, i));
    }
    if acc > 32767 {
        return None;
    }
    Some((acc as i16, i))
}

fn pair_exec(s: &str, start: usize, n: usize) -> (r: Option<(String, i16, usize)>)
    requires
        start <= n,
        n == s@.len(),
    ensures
        match r {
            Some(p) => pair_at(s@, start as int) == Some((p.0@, p.1 as int, p.2 as int)) && p.2
                <= n,
            None => pair_at(s@, start as int) is None,
        },
{
    let a = skip_ws_pos(s, start, n);
    if a < n && s.get_char(a) == '\'' {
        match scan_name_exec(s, a + 1, n) {
            Some((nm, b)) => {
                let c = skip_ws_pos(s, b, n);
                if c < n && s.get_char(c) == '=' {
                    let d = skip_ws_pos(s, c + 1, n);
                    match scan_int_exec(s, d, n) {
                        Some((v, e)) => {
                            let j = skip_ws_pos(s, e, n);
                            Some((nm, v, j))
                        },
                        None => None,
                    }
                } else {
                    None
                }
            },
            None => None,
        }
    } else {
        None
    }
}

fn pairs_exec(s: &str, start: usize, n: usize) -> (r: Option<(Vec<(String, i16)>, usize)>)
    requires
        start <= n,
        n == s@.len(),
    ensures
        match r {
            Some(p) => pairs_at(s@, start as int) == Some(
                (p.0@.map_values(|q: (String, i16)| (q.0@, q.1 as int)), p.1 as int),
            ) && p.1 <= n,
            None => pairs_at(s@, start as int) is None,
        },
{
    let mut items: Vec<(String, i16)> = Vec::new();
    let mut i = start;
    loop
        invariant
            start <= i <= n,
            n == s@.len(),
            match pairs_at(s@, i as int) {
                Some(p) => pairs_at(s@, start as int) == Some(
                    (items@.map_values(|q: (String, i16)| (q.0@, q.1 as int)) + p.0, p.1),
                ),
                None => pairs_at(s@, start as int) is None,
            },
        decreases n - i,
    {
        let ghost before = items@.map_values(|q: (String, i16)| (q.0@, q.1 as int));
        match pair_exec(s, i, n) {
            Some((nm, v, j)) => {
                proof {
                    lemma_pair_at_bounds(s@, i as int);
                }
                if j < n && s.get_char(j) == ',' {
                    let ghost nmv = nm@;
                    items.push((nm, v));
                    proof {
                        let after = items@.map_values(|q: (String, i16)| (q.0@, q.1 as int));
                        assert(after =~= before.push((nmv, v as int)));
                        match pairs_at(s@, j + 1) {
                            Some(p) => {
                                assert(before + (seq![(nmv, v as int)] + p.0) =~= after + p.0);
                            },
                            None => {},
                        }
                    }
                    i = j + 1;
                } else if j < n && s.get_char(j) == ')' {
                    let ghost nmv = nm@;
                    items.push((nm, v));
                    proof {
                        let after = items@.map_values(|q: (String, i16)| (q.0@, q.1 as int));
                        assert(after =~= before.push((nmv, v as int)));
                        assert(before + seq![(nmv, v as int)] =~= after);
                    }
                    return Some((items, j + 1));
                } else {
                    return None;
                }
            },
            None => {
                return None;
            },
        }
    }
}

/// The shared surface of `parse_enum8` and `parse_enum16`: the whole
/// descriptor for keyword `kw`, values still 16-bit.
fn parse_enum_body(input: &str, kw: &str) -> (r: Option<(Vec<(String, i16)>, usize)>)
    ensures
        match r {
            Some(p) => enum_body_spec(input@, kw@) == Some(
                p.0@.map_values(|q: (String, i16)| (q.0@, q.1 as int)),
            ),
            None => enum_body_spec(input@, kw@) is None,
        },
{
    let n = input.unicode_len();
    let a = skip_ws_pos(input, 0, n);
    let m = kw.unicode_len();
    if !match_at(input, a, n, kw) {
        return None;
    }
    let b = skip_ws_pos(input, a + m, n);
    if b < n && input.get_char(b) == '(' {
        match pairs_exec(input, b + 1, n) {
            Some((items, e)) => {
                if e == n {
                    Some((items, e))
                } else {
                    None
                }
            },
            None => None,
        }
    } else {
        None
    }
}

/// Is the text committed to the enum rule for `kw` (keyword then `(`)?
pub fn enum_prefix_check(input: &str, kw: &str) -> (r: bool)
    ensures
        r == enum_prefix_spec(input@, kw@),
{
    let n = input.unicode_len();
    let a = skip_ws_pos(input, 0, n);
    let m = kw.unicode_len();
    if !match_at(input, a, n, kw) {
        return false;
    }
    let b = skip_ws_pos(input, a + m, n);
    b < n && input.get_char(b) == '('
}

/// Parses an `Enum8(...)` descriptor into its `(name, code)` pairs, each
/// code narrowed to its low byte.
pub fn parse_enum8(input: &str) -> (r: Option<Vec<(String, i8)>>)
    ensures
        match r {
            Some(items) => enum8_items_spec(input@) == Some(
                items@.map_values(|q: (String, i8)| (q.0@, q.1)),
            ),
            None => enum8_items_spec(input@) is None,
        },
{
    match parse_enum_body(input, "Enum8") {
        Some((items, _e)) => {
            let ghost wide = items@.map_values(|q: (String, i16)| (q.0@, q.1 as int));
            let mut out: Vec<(String, i8)> = Vec::new();
            let mut i: usize = 0;
            let len = items.len();
            while i < len
                invariant
                    0 <= i <= len,
                    len == items@.len(),
                    wide == items@.map_values(|q: (String, i16)| (q.0@, q.1 as int)),
                    out@.len() == i,
                    forall|k: int| 0 <= k < i ==> #[trigger] out@[k].0@ == items@[k].0@
                        && out@[k].1 == wrap_i8_val(items@[k].1 as int),
                decreases len - i,
            {
                let name = items[i].0.clone();
                let v: i16 = items[i].1;
                let x: u32 = (v as i32 + 32768) as u32;
                let r0: u32 = x % 256;
                let w: i8 = if r0 > 127 {
                    (r0 as i32 - 256) as i8
                } else {
                    r0 as i8
                };
                proof {
                    assert(w == wrap_i8_val(v as int));
                }
                out.push((name, w));
                i = i + 1;
            }
            proof {
                assert(wide.map_values(|p: (Seq<char>, int)| (p.0, wrap_i8_val(p.1))) =~= out@
                    .map_values(|q: (String, i8)| (q.0@, q.1)));
            }
            Some(out)
        },
        None => None,
    }
}

/// Parses an `Enum16(...)` descriptor into its `(name, code)` pairs.
pub fn parse_enum16(input: &str) -> (r: Option<Vec<(String, i16)>>)
    ensures
        match r {
            Some(items) => enum16_items_spec(input@) == Some(
                items@.map_values(|q: (String, i16)| (q.0@, q.1)),
            ),
            None => enum16_items_spec(input@) is None,
        },
{
    match parse_enum_body(input, "Enum16") {
        Some((items, _e)) => {
            proof {
                let wide = items@.map_values(|q: (String, i16)| (q.0@, q.1 as int));
                assert(wide.map_values(|p: (Seq<char>, int)| (p.0, p.1 as i16)) =~= items@
                    .map_values(|q: (String, i16)| (q.0@, q.1)));
            }
            Some(items)
        },
        None => None,
    }
}

} // verus!
