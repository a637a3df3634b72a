//! Character-level text utilities shared by the type-descriptor parser:
//! whitespace, digit runs, and bounded unsigned numerals.

use vstd::prelude::*;
use vstd::string::StrSliceExecFns;

verus! {

/// Whitespace as the descriptor grammar understands it.
pub open spec fn is_ws_char(c: char) -> bool {
    c == ' ' || c == '\t' || c == '\n' || c == '\r'
}

pub open spec fn is_digit_char(c: char) -> bool {
    48 <= c as int <= 57
}

pub open spec fn all_digits(s: Seq<char>) -> bool {
    forall|i: int| 0 <= i < s.len() ==> is_digit_char(#[trigger] s[i])
}

/// The value of a run of decimal digits, most significant first.
pub open spec fn dec_val(s: Seq<char>) -> int
    decreases s.len(),
{
    if s.len() == 0 {
        0
    } else {
        dec_val(s.drop_last()) * 10 + (s.last() as int - 48)
    }
}

/// A well-formed unsigned numeral: an optional leading `+`, then at least one
/// digit.
pub open spec fn uint_text(s: Seq<char>) -> bool {
    if s.len() > 0 && s[0] == '+' {
        s.len() > 1 && all_digits(s.skip(1))
    } else {
        s.len() > 0 && all_digits(s)
    }
}

/// The value of a well-formed unsigned numeral.
pub open spec fn uint_text_val(s: Seq<char>) -> int {
    if s.len() > 0 && s[0] == '+' {
        dec_val(s.skip(1))
    } else {
        dec_val(s)
    }
}

/// A run of digits has a value of at least zero.
pub proof fn lemma_dec_val_nonneg(s: Seq<char>)
    requires
        all_digits(s),
    ensures
        dec_val(s) >= 0,
    decreases s.len(),
{
    if s.len() > 0 {
        assert(all_digits(s.drop_last()));
        lemma_dec_val_nonneg(s.drop_last());
    }
}

pub proof fn lemma_uint_text_val_nonneg(s: Seq<char>)
    requires
        uint_text(s),
    ensures
        uint_text_val(s) >= 0,
{
    if s.len() > 0 && s[0] == '+' {
        lemma_dec_val_nonneg(s.skip(1));
    } else {
        lemma_dec_val_nonneg(s);
    }
}

pub proof fn lemma_dec_val_step(s: Seq<char>, i: int)
    requires
        0 <= i < s.len(),
    ensures
        dec_val(s.take(i + 1)) == dec_val(s.take(i)) * 10 + (s[i] as int - 48),
{
    assert(s.take(i + 1).drop_last() =~= s.take(i));
    assert(s.take(i + 1).last() == s[i]);
}

/// Once a digit prefix exceeds a bound, the whole run does too.
pub proof fn lemma_dec_val_prefix_exceeds(s: Seq<char>, i: int, bound: int)
    requires
        all_digits(s),
        0 <= i <= s.len(),
        bound >= 0,
        dec_val(s.take(i)) > bound,
    ensures
        dec_val(s) > bound,
    decreases s.len() - i,
{
    if i == s.len() {
        assert(s.take(i) =~= s);
    } else {
        lemma_dec_val_step(s, i);
        lemma_dec_val_prefix_exceeds(s, i + 1, bound);
    }
}

/// A well-formed numeral is its digit run after the optional sign.
proof fn lemma_uint_shape(s: Seq<char>, offset: int)
    requires
        offset == if s.len() > 0 && s[0] == '+' {
            1int
        } else {
            0int
        },
    ensures
        uint_text(s) == (s.len() > offset && all_digits(s.skip(offset))),
        uint_text(s) ==> uint_text_val(s) == dec_val(s.skip(offset)),
{
    assert(s.skip(0) =~= s);
}

/// Parses `s` as an unsigned decimal numeral (optional leading `+`, then
/// digits) and returns its value when it does not exceed `bound`.
pub fn parse_u64_bounded(s: &str, bound: u64) -> (r: Option<u64>)
    ensures
        match r {
            Some(v) => uint_text(s@) && uint_text_val(s@) == v as int && v <= bound,
            None => !(uint_text(s@) && uint_text_val(s@) <= bound as int),
        },
{
    let n = s.unicode_len();
    let offset: usize = if n > 0 && s.get_char(0) == '+' {
        1
    } else {
        0
    };
    let ghost d: Seq<char> = s@.skip(offset as int);
    proof {
        lemma_uint_shape(s@, offset as int);
    }
    if n == offset {
        return None;
    }
    let mut acc: u64 = 0;
    let mut i: usize = offset;
    while i < n
        invariant
            offset <= i <= n,
            offset <= 1,
            n == s@.len(),
            offset == if s@.len() > 0 && s@[0] == '+' { 1int } else { 0int },
            d == s@.skip(offset as int),
            all_digits(d.take(i - offset)),
            acc as int == dec_val(d.take(i - offset)),
            acc <= bound,
        decreases n - i,
    {
        proof {
            lemma_uint_shape(s@, offset as int);
        }
        let c = s.get_char(i) as u32;
        if c < 48 || c > 57 {
            proof {
                assert(d[i - offset] == s@[i as int]);
                assert(!is_digit_char(d[i - offset]));
            }
            return None;
        }
        let dv: u64 = (c - 48) as u64;
        proof {
            assert(d[i - offset] == s@[i as int]);
            assert(is_digit_char(d[i - offset]));
            assert forall|k: int| 0 <= k < i + 1 - offset implies is_digit_char(
                #[trigger] d.take(i + 1 - offset)[k],
            ) by {
                if k < i - offset {
                    assert(d.take(i + 1 - offset)[k] == d.take(i - offset)[k]);
                } else {
                    assert(d.take(i + 1 - offset)[k] == d[i - offset]);
                }
            }
            assert(all_digits(d.take(i + 1 - offset)));
            lemma_dec_val_step(d, i - offset);
            assert(dec_val(d.take(i + 1 - offset)) == acc * 10 + dv);
        }
        if acc > (u64::MAX - dv) / 10 {
            proof {
                assert(acc * 10 + dv > u64::MAX) by (nonlinear_arith)
                    requires
                        acc > (u64::MAX - dv) / 10,
                        dv <= 9,
                ;
                if uint_text(s@) {
                    lemma_dec_val_prefix_exceeds(d, i + 1 - offset, bound as int);
                }
            }
            return None;
        }
        proof {
            assert(acc * 10 + dv <= u64::MAX) by (nonlinear_arith)
                requires
                    acc <= (u64::MAX - dv) / 10,
                    dv <= 9,
            ;
        }
        acc = acc * 10 + dv;
        if acc > bound {
            proof {
                if uint_text(s@) {
                    lemma_dec_val_prefix_exceeds(d, i + 1 - offset, bound as int);
                }
            }
            return None;
        }
        i = i + 1;
    }
    proof {
        lemma_uint_shape(s@, offset as int);
        assert(d.take(n - offset) =~= d);
    }
    Some(acc)
}

/// The index of the first occurrence of `c` in `s`.
pub open spec fn find_char(s: Seq<char>, c: char) -> Option<int>
    decreases s.len(),
{
    if s.len() == 0 {
        None
    } else if s[0] == c {
        Some(0)
    } else {
        match find_char(s.skip(1), c) {
            Some(k) => Some(k + 1),
            None => None,
        }
    }
}

pub proof fn lemma_find_char_props(s: Seq<char>, c: char)
    ensures
        match find_char(s, c) {
            Some(k) => 0 <= k < s.len() && s[k] == c && forall|j: int|
                0 <= j < k ==> #[trigger] s[j] != c,
            None => forall|j: int| 0 <= j < s.len() ==> #[trigger] s[j] != c,
        },
    decreases s.len(),
{
    if s.len() == 0 {
    } else if s[0] == c {
    } else {
        lemma_find_char_props(s.skip(1), c);
        let t = s.skip(1);
        assert(forall|j: int| 1 <= j < s.len() ==> #[trigger] s[j] == t[j - 1]);
        match find_char(t, c) {
            Some(k) => {
                assert(s[k + 1] == t[k]);
                assert forall|j: int| 0 <= j < k + 1 implies #[trigger] s[j] != c by {
                    if j > 0 {
                        assert(t[j - 1] != c);
                    }
                }
            },
            None => {
                assert forall|j: int| 0 <= j < s.len() implies #[trigger] s[j] != c by {
                    if j > 0 {
                        assert(t[j - 1] != c);
                    }
                }
            },
        }
    }
}

/// The result of dropping leading and trailing whitespace.
pub open spec fn trim_start_spec(s: Seq<char>) -> Seq<char>
    decreases s.len(),
{
    if s.len() > 0 && is_ws_char(s[0]) {
        trim_start_spec(s.skip(1))
    } else {
        s
    }
}

pub open spec fn trim_end_spec(s: Seq<char>) -> Seq<char>
    decreases s.len(),
{
    if s.len() > 0 && is_ws_char(s.last()) {
        trim_end_spec(s.drop_last())
    } else {
        s
    }
}

pub open spec fn trim_spec(s: Seq<char>) -> Seq<char> {
    trim_end_spec(trim_start_spec(s))
}

proof fn lemma_trim_start_skip(s: Seq<char>, k: int)
    requires
        0 <= k <= s.len(),
        forall|i: int| 0 <= i < k ==> is_ws_char(#[trigger] s[i]),
        k == s.len() || !is_ws_char(s[k]),
    ensures
        trim_start_spec(s) == s.skip(k),
    decreases k,
{
    if k == 0 {
        assert(s.skip(0) =~= s);
    } else {
        lemma_trim_start_skip(s.skip(1), k - 1);
        assert(s.skip(1).skip(k - 1) =~= s.skip(k));
    }
}

proof fn lemma_trim_end_take(s: Seq<char>, k: int)
    requires
        0 <= k <= s.len(),
        forall|i: int| k <= i < s.len() ==> is_ws_char(#[trigger] s[i]),
        k == 0 || !is_ws_char(s[k - 1]),
    ensures
        trim_end_spec(s) == s.take(k),
    decreases s.len() - k,
{
    if k == s.len() {
        assert(s.take(k) =~= s);
    } else {
        assert(s.drop_last() =~= s.take(s.len() - 1));
        lemma_trim_end_take(s.take(s.len() - 1), k);
        assert(s.take(s.len() - 1).take(k) =~= s.take(k));
    }
}

/// Relies on String::push: it appends exactly the one character.
#[verifier::external_body]
pub fn push_char(s: &mut String, c: char)
    ensures
        final(s)@ == old(s)@.push(c),
{
    s.push(c);
}

/// Is `c` whitespace as the grammar understands it?
pub fn is_ws(c: char) -> (r: bool)
    ensures
        r == is_ws_char(c),
{
    c == ' ' || c == '\t' || c == '\n' || c == '\r'
}

/// Returns `s` without leading and trailing whitespace.
pub fn trim_str<'a>(s: &'a str) -> (r: &'a str)
    ensures
        r@ == trim_spec(s@),
{
    let n = s.unicode_len();
    let mut lo: usize = 0;
    while lo < n && is_ws(s.get_char(lo))
        invariant
            0 <= lo <= n,
            n == s@.len(),
            forall|i: int| 0 <= i < lo ==> is_ws_char(#[trigger] s@[i]),
        decreases n - lo,
    {
        lo = lo + 1;
    }
    let mut hi: usize = n;
    while hi > lo && is_ws(s.get_char(hi - 1))
        invariant
            lo <= hi <= n,
            n == s@.len(),
            forall|i: int| 0 <= i < lo ==> is_ws_char(#[trigger] s@[i]),
            forall|i: int| hi <= i < n ==> is_ws_char(#[trigger] s@[i]),
        decreases hi,
    {
        hi = hi - 1;
    }
    proof {
        lemma_trim_start_skip(s@, lo as int);
        let t = s@.skip(lo as int);
        lemma_trim_end_take(t, hi - lo);
        assert(t.take(hi - lo) =~= s@.subrange(lo as int, hi as int));
    }
    s.substring_char(lo, hi)
}

/// Does `s` begin with `prefix`, character for character?
pub fn starts_with_str(s: &str, prefix: &str) -> (r: bool)
    ensures
        r == (s@.len() >= prefix@.len() && s@.take(prefix@.len() as int) == prefix@),
{
    let n = s.unicode_len();
    let m = prefix.unicode_len();
    if n < m {
        return false;
    }
    let mut i: usize = 0;
    while i < m
        invariant
            0 <= i <= m,
            m <= n,
            n == s@.len(),
            m == prefix@.len(),
            forall|k: int| 0 <= k < i ==> s@[k] == prefix@[k],
        decreases m - i,
    {
        if s.get_char(i) != prefix.get_char(i) {
            proof {
                assert(s@.take(m as int)[i as int] != prefix@[i as int]);
            }
            return false;
        }
        i = i + 1;
    }
    proof {
        assert(s@.take(m as int) =~= prefix@);
    }
    true
}

/// The lower-cased code of a character, folding only ASCII letters.
pub open spec fn lower_code(c: char) -> int {
    if 65 <= c as int <= 90 {
        c as int + 32
    } else {
        c as int
    }
}

/// Case-insensitive equality on ASCII letters, exact elsewhere.
pub open spec fn eq_ic_seq(a: Seq<char>, b: Seq<char>) -> bool {
    a.len() == b.len() && forall|i: int| 0 <= i < a.len() ==> lower_code(#[trigger] a[i])
        == lower_code(b[i])
}

pub fn eq_ignore_case(s: &str, t: &str) -> (r: bool)
    ensures
        r == eq_ic_seq(s@, t@),
{
    let n = s.unicode_len();
    let m = t.unicode_len();
    if n != m {
        return false;
    }
    let mut i: usize = 0;
    while i < n
        invariant
            0 <= i <= n,
            n == s@.len(),
            n == t@.len(),
            forall|k: int| 0 <= k < i ==> lower_code(#[trigger] s@[k]) == lower_code(t@[k]),
        decreases n - i,
    {
        let a = s.get_char(i) as u32;
        let b = t.get_char(i) as u32;
        let la = if a >= 65 && a <= 90 {
            a + 32
        } else {
            a
        };
        let lb = if b >= 65 && b <= 90 {
            b + 32
        } else {
            b
        };
        if la != lb {
            return false;
        }
        i = i + 1;
    }
    true
}

} // verus!
