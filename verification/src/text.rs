//! Character-level building blocks shared by the interval and cron parsers:
//! Unicode whitespace, trimming, whitespace tokenising, finding a
//! separator, unsigned decimal parsing and decimal rendering.
//!
//! Every spec function here works on a whole `Seq<char>` and walks it by
//! position, and each executable function mirrors that walk in a loop.
use vstd::prelude::*;

verus! {

/// The characters of `s`, in order.
pub fn chars_of(s: &str) -> (out: Vec<char>)
    ensures
        out@ == s@,
{
    let mut out: Vec<char> = Vec::new();
    for c in it: s.chars()
        invariant
            out@ == it.seq().take(it.index() as int),
            it.seq() == s@,
    {
        out.push(c);
    }
    out
}

// ---------------------------------------------------------------------
// Whitespace
// ---------------------------------------------------------------------

/// The Unicode `White_Space` property, as used by `str::trim` and
/// `str::split_whitespace`.
pub open spec fn is_white_space(c: char) -> bool {
    let u = c as u32;
    ||| (0x9 <= u && u <= 0xd)
    ||| u == 0x20
    ||| u == 0x85
    ||| u == 0xa0
    ||| u == 0x1680
    ||| (0x2000 <= u && u <= 0x200a)
    ||| u == 0x2028
    ||| u == 0x2029
    ||| u == 0x202f
    ||| u == 0x205f
    ||| u == 0x3000
}

pub fn char_is_white_space(c: char) -> (b: bool)
    ensures
        b == is_white_space(c),
{
    let u = c as u32;
    (0x9 <= u && u <= 0xd) || u == 0x20 || u == 0x85 || u == 0xa0 || u == 0x1680 || (0x2000
        <= u && u <= 0x200a) || u == 0x2028 || u == 0x2029 || u == 0x202f || u == 0x205f || u
        == 0x3000
}

/// Position of the first non-whitespace character at or after `i`
/// (`s.len()` when there is none).
pub open spec fn skip_white_from(s: Seq<char>, i: int) -> int
    decreases s.len() - i,
{
    if i < 0 || i >= s.len() {
        s.len() as int
    } else if is_white_space(s[i]) {
        skip_white_from(s, i + 1)
    } else {
        i
    }
}

/// One past the last non-whitespace character in `s[..j]` (0 when there is
/// none).
pub open spec fn trailing_end(s: Seq<char>, j: int) -> int
    decreases j,
{
    if j <= 0 || j > s.len() {
        0
    } else if is_white_space(s[j - 1]) {
        trailing_end(s, j - 1)
    } else {
        j
    }
}

/// `str::trim`: `s` without its leading and trailing whitespace.
pub open spec fn trim(s: Seq<char>) -> Seq<char> {
    let lo = skip_white_from(s, 0);
    let hi = trailing_end(s, s.len() as int);
    if lo < hi {
        s.subrange(lo, hi)
    } else {
        Seq::empty()
    }
}

pub proof fn lemma_skip_white_bounds(s: Seq<char>, i: int)
    requires
        0 <= i <= s.len(),
    ensures
        i <= skip_white_from(s, i) <= s.len(),
        skip_white_from(s, i) < s.len() ==> !is_white_space(s[skip_white_from(s, i)]),
        forall|k: int| i <= k < skip_white_from(s, i) ==> is_white_space(#[trigger] s[k]),
    decreases s.len() - i,
{
    if i < s.len() && is_white_space(s[i]) {
        lemma_skip_white_bounds(s, i + 1);
    }
}

pub proof fn lemma_trailing_end_bounds(s: Seq<char>, j: int)
    requires
        0 <= j <= s.len(),
    ensures
        0 <= trailing_end(s, j) <= j,
        trailing_end(s, j) > 0 ==> !is_white_space(s[trailing_end(s, j) - 1]),
        forall|k: int| trailing_end(s, j) <= k < j ==> is_white_space(#[trigger] s[k]),
    decreases j,
{
    if j > 0 && is_white_space(s[j - 1]) {
        lemma_trailing_end_bounds(s, j - 1);
    }
}

/// Bounds `lo..hi` of `trim(s)` inside `s`.
pub fn trim_bounds(s: &Vec<char>) -> (r: (usize, usize))
    ensures
        r.0 <= r.1 <= s@.len(),
        s@.subrange(r.0 as int, r.1 as int) == trim(s@),
{
    let n = s.len();
    let mut lo: usize = 0;
    while lo < n && char_is_white_space(s[lo])
        invariant
            lo <= n == s@.len(),
            skip_white_from(s@, lo as int) == skip_white_from(s@, 0),
        decreases n - lo,
    {
        lo = lo + 1;
    }
    let mut hi: usize = n;
    while hi > 0 && char_is_white_space(s[hi - 1])
        invariant
            hi <= n == s@.len(),
            trailing_end(s@, hi as int) == trailing_end(s@, n as int),
        decreases hi,
    {
        hi = hi - 1;
    }
    if lo < hi {
        (lo, hi)
    } else {
        (0, 0)
    }
}

// ---------------------------------------------------------------------
// Whitespace tokens (`str::split_whitespace`)
// ---------------------------------------------------------------------

/// End of the token that starts at `i`: the first whitespace at or after
/// `i`, or `s.len()`.
pub open spec fn token_end(s: Seq<char>, i: int) -> int
    decreases s.len() - i,
{
    if i < 0 || i >= s.len() {
        s.len() as int
    } else if is_white_space(s[i]) {
        i
    } else {
        token_end(s, i + 1)
    }
}

/// The whitespace-separated tokens of `s[i..]`, as `(start, end)` positions.
pub open spec fn tokens_from(s: Seq<char>, i: int) -> Seq<(int, int)>
    decreases s.len() - i, 1int,
{
    if i < 0 || i >= s.len() {
        Seq::empty()
    } else if is_white_space(s[i]) {
        tokens_from(s, i + 1)
    } else {
        let j = token_end(s, i);
        if j <= i || j > s.len() {
            Seq::empty()
        } else {
            seq![(i, j)] + tokens_from(s, j)
        }
    }
}

pub proof fn lemma_token_end_bounds(s: Seq<char>, i: int)
    requires
        0 <= i <= s.len(),
    ensures
        i <= token_end(s, i) <= s.len(),
        i < s.len() && !is_white_space(s[i]) ==> i < token_end(s, i),
    decreases s.len() - i,
{
    if i < s.len() && !is_white_space(s[i]) {
        lemma_token_end_bounds(s, i + 1);
    }
}

pub proof fn lemma_tokens_from_bounds(s: Seq<char>, i: int)
    requires
        0 <= i,
    ensures
        forall|k: int|
            0 <= k < tokens_from(s, i).len() ==> i <= (#[trigger] tokens_from(s, i)[k]).0 <= tokens_from(
                s,
                i,
            )[k].1 <= s.len(),
    decreases s.len() - i,
{
    if i < s.len() {
        if is_white_space(s[i]) {
            lemma_tokens_from_bounds(s, i + 1);
            assert(tokens_from(s, i) == tokens_from(s, i + 1));
        } else {
            lemma_token_end_bounds(s, i);
            let j = token_end(s, i);
            lemma_tokens_from_bounds(s, j);
            let t = tokens_from(s, i);
            assert(t == seq![(i, j)] + tokens_from(s, j));
            assert forall|k: int| 0 <= k < t.len() implies i <= (#[trigger] t[k]).0 <= t[k].1
                <= s.len() by {
                if k > 0 {
                    assert(t[k] == tokens_from(s, j)[k - 1]);
                }
            }
        }
    }
}

/// Positions of the whitespace-separated tokens of `s`.
pub fn token_bounds(s: &Vec<char>) -> (r: Vec<(usize, usize)>)
    ensures
        r@.len() == tokens_from(s@, 0).len(),
        forall|k: int|
            0 <= k < r@.len() ==> (#[trigger] r@[k]).0 as int == tokens_from(s@, 0)[k].0 && r@[k].1
                as int == tokens_from(s@, 0)[k].1 && r@[k].0 <= r@[k].1 <= s@.len(),
{
    let n = s.len();
    let mut out: Vec<(usize, usize)> = Vec::new();
    let mut i: usize = 0;
    proof {
        lemma_tokens_from_bounds(s@, 0);
    }
    while i < n
        invariant
            i <= n == s@.len(),
            out@.len() + tokens_from(s@, i as int).len() == tokens_from(s@, 0).len(),
            forall|k: int|
                0 <= k < out@.len() ==> (#[trigger] out@[k]).0 as int == tokens_from(s@, 0)[k].0
                    && out@[k].1 as int == tokens_from(s@, 0)[k].1 && out@[k].0 <= out@[k].1
                    <= s@.len(),
            forall|k: int|
                0 <= k < tokens_from(s@, i as int).len() ==> #[trigger] tokens_from(s@, i as int)[k]
                    == tokens_from(s@, 0)[out@.len() + k],
        decreases n - i,
    {
        if char_is_white_space(s[i]) {
            i = i + 1;
        } else {
            let start = i;
            proof {
                lemma_token_end_bounds(s@, i as int);
            }
            while i < n && !char_is_white_space(s[i])
                invariant
                    start <= i <= n == s@.len(),
                    token_end(s@, i as int) == token_end(s@, start as int),
                decreases n - i,
            {
                i = i + 1;
            }
            proof {
                let t = tokens_from(s@, start as int);
                assert(t == seq![(start as int, i as int)] + tokens_from(s@, i as int));
                assert(t[0] == (start as int, i as int));
                assert forall|k: int| 0 <= k < tokens_from(s@, i as int).len() implies #[trigger] tokens_from(
                    s@,
                    i as int,
                )[k] == tokens_from(s@, 0)[out@.len() + 1 + k] by {
                    assert(t[k + 1] == tokens_from(s@, i as int)[k]);
                }
            }
            out.push((start, i));
        }
    }
    out
}

// ---------------------------------------------------------------------
// Separators
// ---------------------------------------------------------------------

/// First position at or after `i` holding `c`, or `s.len()`.
pub open spec fn find_from(s: Seq<char>, c: char, i: int) -> int
    decreases s.len() - i,
{
    if i < 0 || i >= s.len() {
        s.len() as int
    } else if s[i] == c {
        i
    } else {
        find_from(s, c, i + 1)
    }
}

/// First position of `c` in `s`, or `s.len()`.
pub open spec fn find(s: Seq<char>, c: char) -> int {
    find_from(s, c, 0)
}

pub proof fn lemma_find_from_bounds(s: Seq<char>, c: char, i: int)
    requires
        0 <= i <= s.len(),
    ensures
        i <= find_from(s, c, i) <= s.len(),
        find_from(s, c, i) < s.len() ==> s[find_from(s, c, i)] == c,
        forall|k: int| i <= k < find_from(s, c, i) ==> #[trigger] s[k] != c,
    decreases s.len() - i,
{
    if i < s.len() && s[i] != c {
        lemma_find_from_bounds(s, c, i + 1);
    }
}

pub fn find_char(s: &Vec<char>, c: char) -> (k: usize)
    ensures
        k == find(s@, c),
        k <= s@.len(),
{
    let n = s.len();
    let mut i: usize = 0;
    proof {
        lemma_find_from_bounds(s@, c, 0);
    }
    while i < n && s[i] != c
        invariant
            i <= n == s@.len(),
            find_from(s@, c, i as int) == find(s@, c),
        decreases n - i,
    {
        i = i + 1;
    }
    i
}

/// A copy of `s[lo..hi]`.
pub fn copy_range(s: &Vec<char>, lo: usize, hi: usize) -> (r: Vec<char>)
    requires
        lo <= hi <= s@.len(),
    ensures
        r@ == s@.subrange(lo as int, hi as int),
{
    let mut r: Vec<char> = Vec::new();
    let mut i = lo;
    while i < hi
        invariant
            lo <= i <= hi <= s@.len(),
            r@ == s@.subrange(lo as int, i as int),
        decreases hi - i,
    {
        r.push(s[i]);
        i = i + 1;
    }
    r
}

// ---------------------------------------------------------------------
// Unsigned decimal numbers (`str::parse::<u32>` / `str::parse::<u64>`)
// ---------------------------------------------------------------------

pub open spec fn is_digit(c: char) -> bool {
    '0' as u32 <= c as u32 && c as u32 <= '9' as u32
}

pub open spec fn digit_value(c: char) -> nat {
    (c as u32 - '0' as u32) as nat
}

/// Value of the decimal digits `s[i..j]`.
pub open spec fn digits_value(s: Seq<char>, i: int, j: int) -> nat
    decreases j - i,
{
    if j <= i {
        0
    } else {
        digits_value(s, i, j - 1) * 10 + digit_value(s[j - 1])
    }
}

pub open spec fn all_digits(s: Seq<char>, i: int, j: int) -> bool {
    forall|k: int| i <= k < j ==> is_digit(#[trigger] s[k])
}

/// Where the digits start: after an optional leading `+`.
pub open spec fn digits_start(s: Seq<char>) -> int {
    if s.len() > 0 && s[0] == '+' {
        1
    } else {
        0
    }
}

/// What `str::parse` gives for an unsigned integer type whose largest
/// value is `max`: an optional `+`, then one or more ASCII digits, with a
/// value no larger than `max`.
pub open spec fn parse_unsigned(s: Seq<char>, max: nat) -> Option<nat> {
    let start = digits_start(s);
    if start >= s.len() {
        None
    } else if !all_digits(s, start, s.len() as int) {
        None
    } else if digits_value(s, start, s.len() as int) > max {
        None
    } else {
        Some(digits_value(s, start, s.len() as int))
    }
}

pub proof fn lemma_digits_value_monotone(s: Seq<char>, i: int, j: int, k: int)
    requires
        i <= j <= k,
    ensures
        digits_value(s, i, j) <= digits_value(s, i, k),
    decreases k - j,
{
    if j < k {
        lemma_digits_value_monotone(s, i, j, k - 1);
    }
}

/// Parses `s` as an unsigned decimal no larger than `max`.
pub fn parse_decimal(s: &Vec<char>, max: u64) -> (r: Option<u64>)
    ensures
        match parse_unsigned(s@, max as nat) {
            Some(v) => r == Some(v as u64),
            None => r is None,
        },
{
    let n = s.len();
    let start: usize = if n > 0 && s[0] == '+' {
        1
    } else {
        0
    };
    if start >= n {
        return None;
    }
    let mut value: u64 = 0;
    let mut i: usize = start;
    while i < n
        invariant
            start == digits_start(s@),
            start <= i <= n == s@.len(),
            all_digits(s@, start as int, i as int),
            value as nat == digits_value(s@, start as int, i as int),
            value <= max,
        decreases n - i,
    {
        let c = s[i];
        if !((c as u32) >= ('0' as u32) && (c as u32) <= ('9' as u32)) {
            return None;
        }
        let d: u64 = ((c as u32) - ('0' as u32)) as u64;
        let next: u128 = (value as u128) * 10 + (d as u128);
        if next > max as u128 {
            proof {
                assert(digits_value(s@, start as int, i + 1) == next);
                if all_digits(s@, start as int, n as int) {
                    lemma_digits_value_monotone(s@, start as int, i + 1, n as int);
                }
            }
            return None;
        }
        value = next as u64;
        i = i + 1;
    }
    Some(value)
}

// ---------------------------------------------------------------------
// Decimal rendering (`u64::to_string`, `i64::to_string`)
// ---------------------------------------------------------------------

pub open spec fn digit_char(d: nat) -> char {
    ('0' as u32 + d) as char
}

/// The decimal digits of `n`, most significant first, without leading
/// zeros.
pub open spec fn decimal(n: nat) -> Seq<char>
    decreases n,
{
    if n < 10 {
        seq![digit_char(n)]
    } else {
        decimal(n / 10).push(digit_char(n % 10))
    }
}

/// The decimal text of a signed number: a `-` before negative values.
pub open spec fn signed_decimal(n: int) -> Seq<char> {
    if n < 0 {
        seq!['-'] + decimal((-n) as nat)
    } else {
        decimal(n as nat)
    }
}

/// Appends `c` to `s` (`String::push`).
#[verifier::external_body]
pub(crate) fn push_char(s: &mut String, c: char)
    ensures
        final(s)@ == old(s)@.push(c),
{
    s.push(c);
}

/// Appends `t` to `s`.
pub fn append_str(s: &mut String, t: &str)
    ensures
        final(s)@ == old(s)@ + t@,
{
    s.append(t);
}

/// Appends the characters of `cs` to `s`.
pub fn push_chars(s: &mut String, cs: &Vec<char>)
    ensures
        final(s)@ == old(s)@ + cs@,
{
    let mut i: usize = 0;
    while i < cs.len()
        invariant
            i <= cs@.len(),
            s@ == old(s)@ + cs@.subrange(0, i as int),
        decreases cs.len() - i,
    {
        push_char(s, cs[i]);
        assert(cs@.subrange(0, i + 1) == cs@.subrange(0, i as int).push(cs@[i as int]));
        i = i + 1;
    }
    assert(cs@.subrange(0, cs@.len() as int) == cs@);
}

/// The decimal digits of `n`.
pub fn decimal_chars(n: u64) -> (r: Vec<char>)
    ensures
        r@ == decimal(n as nat),
{
    let mut digits: Vec<char> = Vec::new();
    let mut m: u64 = n;
    while m >= 10
        invariant
            decimal(n as nat) == decimal(m as nat) + digits@,
        decreases m,
    {
        let d = m % 10;
        let c = ((('0' as u32) + (d as u32)) as u8) as char;
        proof {
            assert(c == digit_char(d as nat));
            assert(decimal(m as nat) == decimal((m / 10) as nat).push(c));
            assert(decimal((m / 10) as nat) + seq![c] + digits@ == decimal((m / 10) as nat) + (
            seq![c] + digits@));
        }
        digits.insert(0, c);
        m = m / 10;
    }
    let c = ((('0' as u32) + (m as u32)) as u8) as char;
    assert(c == digit_char(m as nat));
    digits.insert(0, c);
    digits
}

/// `n.to_string()` for a `u64`.
pub fn decimal_string(n: u64) -> (r: String)
    ensures
        r@ == decimal(n as nat),
{
    let mut r = String::new();
    push_chars(&mut r, &decimal_chars(n));
    r
}

/// `n.to_string()` for an `i64`.
pub fn signed_decimal_string(n: i64) -> (r: String)
    ensures
        r@ == signed_decimal(n as int),
{
    let mut r = String::new();
    if n < 0 {
        push_char(&mut r, '-');
        let m: u64 = if n == i64::MIN {
            9223372036854775808u64
        } else {
            (-n) as u64
        };
        push_chars(&mut r, &decimal_chars(m));
    } else {
        push_chars(&mut r, &decimal_chars(n as u64));
    }
    r
}

// ---------------------------------------------------------------------
// Lexicographic order (the order of `String`'s `Ord`)
// ---------------------------------------------------------------------

/// `a` comes before `b` when, at their first difference, `a` holds the
/// smaller code point, or when `a` is a proper prefix of `b`.
pub open spec fn lex_less_from(a: Seq<char>, b: Seq<char>, i: int) -> bool
    decreases a.len() - i,
{
    if i < 0 || i >= a.len() {
        i >= 0 && i < b.len()
    } else if i >= b.len() {
        false
    } else if a[i] != b[i] {
        (a[i] as u32) < (b[i] as u32)
    } else {
        lex_less_from(a, b, i + 1)
    }
}

pub open spec fn lex_less(a: Seq<char>, b: Seq<char>) -> bool {
    lex_less_from(a, b, 0)
}

pub proof fn lemma_lex_total(a: Seq<char>, b: Seq<char>, i: int)
    requires
        0 <= i <= a.len(),
        0 <= i <= b.len(),
        a.subrange(0, i) == b.subrange(0, i),
        a != b,
    ensures
        lex_less_from(a, b, i) || lex_less_from(b, a, i),
    decreases a.len() - i,
{
    if i < a.len() && i < b.len() && a[i] == b[i] {
        assert(a.subrange(0, i + 1) == a.subrange(0, i).push(a[i]));
        assert(b.subrange(0, i + 1) == b.subrange(0, i).push(b[i]));
        lemma_lex_total(a, b, i + 1);
    } else if i < a.len() && i < b.len() {
        lemma_char_code_injective(a[i], b[i]);
    } else if i == a.len() && i == b.len() {
        assert(a =~= a.subrange(0, i));
        assert(b =~= b.subrange(0, i));
    }
}

pub proof fn lemma_char_code_injective(a: char, b: char)
    requires
        a != b,
    ensures
        (a as u32) != (b as u32),
{
}

pub proof fn lemma_lex_transitive(a: Seq<char>, b: Seq<char>, c: Seq<char>, i: int)
    requires
        0 <= i,
        lex_less_from(a, b, i),
        lex_less_from(b, c, i),
    ensures
        lex_less_from(a, c, i),
    decreases a.len() - i,
{
    if i < a.len() && i < b.len() && i < c.len() && a[i] == b[i] && b[i] == c[i] {
        lemma_lex_transitive(a, b, c, i + 1);
    }
}

/// Whether `a` sorts before `b` (`a < b` on `String`s).
pub fn str_less(a: &Vec<char>, b: &Vec<char>) -> (r: bool)
    ensures
        r == lex_less(a@, b@),
{
    let mut i: usize = 0;
    while i < a.len() && i < b.len() && a[i] == b[i]
        invariant
            i <= a@.len(),
            i <= b@.len(),
            lex_less_from(a@, b@, i as int) == lex_less(a@, b@),
        decreases a.len() - i,
    {
        i = i + 1;
    }
    if i >= a.len() {
        i < b.len()
    } else if i >= b.len() {
        false
    } else {
        (a[i] as u32) < (b[i] as u32)
    }
}


// ---------------------------------------------------------------------
// Rendering and parsing agree
// ---------------------------------------------------------------------

/// The value of digits depends only on the digits themselves.
pub proof fn lemma_digits_value_prefix(s: Seq<char>, t: Seq<char>, i: int, j: int)
    requires
        0 <= i,
        j <= s.len(),
        j <= t.len(),
        forall|k: int| i <= k < j ==> s[k] == t[k],
    ensures
        digits_value(s, i, j) == digits_value(t, i, j),
    decreases j - i,
{
    if j > i {
        lemma_digits_value_prefix(s, t, i, j - 1);
    }
}

pub proof fn lemma_digit_char(d: nat)
    requires
        d < 10,
    ensures
        is_digit(digit_char(d)),
        digit_value(digit_char(d)) == d,
        digit_char(d) != '+',
        !is_white_space(digit_char(d)),
{
    assert(('0' as u32 + d) as char as u32 == '0' as u32 + d);
}

/// The decimal text of `n` is a non-empty run of digits worth `n`.
pub proof fn lemma_decimal_digits(n: nat)
    ensures
        decimal(n).len() >= 1,
        all_digits(decimal(n), 0, decimal(n).len() as int),
        digits_value(decimal(n), 0, decimal(n).len() as int) == n,
        decimal(n)[0] != '+',
        !is_white_space(decimal(n)[0]),
    decreases n,
{
    if n < 10 {
        lemma_digit_char(n);
        let s = decimal(n);
        assert(digits_value(s, 0, 0) == 0);
    } else {
        let prev = decimal(n / 10);
        lemma_decimal_digits(n / 10);
        lemma_digit_char(n % 10);
        let s = decimal(n);
        assert(s == prev.push(digit_char(n % 10)));
        lemma_digits_value_prefix(s, prev, 0, prev.len() as int);
        assert(digits_value(s, 0, s.len() as int) == digits_value(s, 0, prev.len() as int) * 10
            + digit_value(s[prev.len() as int]));
        assert(n == (n / 10) * 10 + n % 10);
        assert forall|k: int| 0 <= k < s.len() implies is_digit(#[trigger] s[k]) by {
            if k < prev.len() {
                assert(s[k] == prev[k]);
            }
        }
        assert(s[0] == prev[0]);
    }
}

/// Parsing the decimal text of a value gives the value back.
pub proof fn law_parse_decimal_round_trip(n: nat, max: nat)
    requires
        n <= max,
    ensures
        parse_unsigned(decimal(n), max) == Some(n),
{
    lemma_decimal_digits(n);
}

} // verus!
