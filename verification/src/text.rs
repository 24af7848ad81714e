//! Character-level text handling: Unicode whitespace, trimming, splitting on
//! whitespace, and decimal numbers.
use vstd::prelude::*;

verus! {

broadcast use vstd::string::group_string_axioms;

// ---------------------------------------------------------------------------
// Whitespace
// ---------------------------------------------------------------------------
/// A character with the Unicode `White_Space` property, the set that
/// `char::is_whitespace` recognises.
pub open spec fn is_ws(c: char) -> bool {
    let n = c as u32;
    ||| 0x09 <= n <= 0x0d
    ||| n == 0x20
    ||| n == 0x85
    ||| n == 0xa0
    ||| n == 0x1680
    ||| 0x2000 <= n <= 0x200a
    ||| n == 0x2028
    ||| n == 0x2029
    ||| n == 0x202f
    ||| n == 0x205f
    ||| n == 0x3000
}

/// Whether `c` is a Unicode whitespace character.
pub fn is_whitespace(c: char) -> (r: bool)
    ensures
        r == is_ws(c),
{
    let n = c as u32;
    (0x09 <= n && n <= 0x0d) || n == 0x20 || n == 0x85 || n == 0xa0 || n == 0x1680 || (0x2000
        <= n && n <= 0x200a) || n == 0x2028 || n == 0x2029 || n == 0x202f || n == 0x205f || n
        == 0x3000
}

// ---------------------------------------------------------------------------
// Characters of a string
// ---------------------------------------------------------------------------
/// Collects the characters of `s`, in order.
pub fn chars_of(s: &str) -> (v: Vec<char>)
    ensures
        v@ == s@,
{
    let mut v: Vec<char> = Vec::new();
    for c in it: s.chars()
        invariant
            it.seq() == s@,
            v@ == it.seq().take(it.index() as int),
    {
        v.push(c);
    }
    v
}

/// Whether two strings are equal.
pub fn str_eq(a: &str, b: &str) -> (r: bool)
    ensures
        r == (a@ == b@),
{
    let x = chars_of(a);
    let y = chars_of(b);
    if x.len() != y.len() {
        return false;
    }
    let n = x.len();
    let mut i: usize = 0;
    while i < n
        invariant
            i <= n == x@.len() == y@.len(),
            x@ == a@,
            y@ == b@,
            forall|j: int| 0 <= j < i ==> x@[j] == y@[j],
        decreases n - i,
    {
        if x[i] != y[i] {
            assert(x@[i as int] != y@[i as int]);
            return false;
        }
        i = i + 1;
    }
    assert(x@ =~= y@);
    true
}

// ---------------------------------------------------------------------------
// Trimming
// ---------------------------------------------------------------------------
/// `s` without its leading whitespace.
pub open spec fn trim_start(s: Seq<char>) -> Seq<char>
    decreases s.len(),
{
    if s.len() > 0 && is_ws(s[0]) {
        trim_start(s.drop_first())
    } else {
        s
    }
}

/// `s` without its trailing whitespace.
pub open spec fn trim_end(s: Seq<char>) -> Seq<char>
    decreases s.len(),
{
    if s.len() > 0 && is_ws(s.last()) {
        trim_end(s.drop_last())
    } else {
        s
    }
}

/// `s` without leading and trailing whitespace (what `str::trim` returns).
pub open spec fn trimmed(s: Seq<char>) -> Seq<char> {
    trim_end(trim_start(s))
}

proof fn lemma_trim_start_at(s: Seq<char>, i: int)
    requires
        0 <= i <= s.len(),
        forall|k: int| 0 <= k < i ==> is_ws(#[trigger] s[k]),
        i == s.len() || !is_ws(s[i]),
    ensures
        trim_start(s) == s.subrange(i, s.len() as int),
    decreases i,
{
    if i == 0 {
        assert(s.subrange(0, s.len() as int) =~= s);
    } else {
        let t = s.drop_first();
        assert forall|k: int| 0 <= k < i - 1 implies is_ws(#[trigger] t[k]) by {
            assert(t[k] == s[k + 1]);
        }
        lemma_trim_start_at(t, i - 1);
        assert(t.subrange(i - 1, t.len() as int) =~= s.subrange(i, s.len() as int));
    }
}

proof fn lemma_trim_end_at(s: Seq<char>, j: int)
    requires
        0 <= j <= s.len(),
        forall|k: int| j <= k < s.len() ==> is_ws(#[trigger] s[k]),
        j == 0 || !is_ws(s[j - 1]),
    ensures
        trim_end(s) == s.subrange(0, j),
    decreases s.len() - j,
{
    if j == s.len() {
        assert(s.subrange(0, j) =~= s);
    } else {
        let t = s.drop_last();
        assert(is_ws(s[s.len() - 1]));
        assert forall|k: int| j <= k < t.len() implies is_ws(#[trigger] t[k]) by {
            assert(t[k] == s[k]);
        }
        lemma_trim_end_at(t, j);
        assert(t.subrange(0, j) =~= s.subrange(0, j));
    }
}

/// The bounds `(i, j)` such that `trimmed(s@)` is `s@[i..j]`.
fn trim_bounds(s: &[char]) -> (r: (usize, usize))
    ensures
        r.0 <= r.1 <= s@.len(),
        trimmed(s@) == s@.subrange(r.0 as int, r.1 as int),
{
    let n = s.len();
    let mut i: usize = 0;
    while i < n && is_whitespace(s[i])
        invariant
            i <= n == s@.len(),
            forall|k: int| 0 <= k < i ==> is_ws(#[trigger] s@[k]),
        decreases n - i,
    {
        i = i + 1;
    }
    proof {
        lemma_trim_start_at(s@, i as int);
    }
    let ghost t = s@.subrange(i as int, n as int);
    let mut j: usize = n;
    while j > i && is_whitespace(s[j - 1])
        invariant
            i <= j <= n == s@.len(),
            t == s@.subrange(i as int, n as int),
            forall|k: int| j <= k < n ==> is_ws(#[trigger] s@[k]),
        decreases j,
    {
        j = j - 1;
    }
    proof {
        assert forall|k: int| j - i <= k < t.len() implies is_ws(#[trigger] t[k]) by {
            assert(t[k] == s@[k + i]);
        }
        if j > i {
            assert(t[j - i - 1] == s@[j - 1]);
        }
        lemma_trim_end_at(t, j - i);
        assert(t.subrange(0, j - i) =~= s@.subrange(i as int, j as int));
    }
    (i, j)
}

/// `s` with leading and trailing whitespace removed.
pub fn trim(s: &str) -> (r: String)
    ensures
        r@ == trimmed(s@),
{
    let cs = chars_of(s);
    let (i, j) = trim_bounds(cs.as_slice());
    String::from_str(s.substring_char(i, j))
}

// ---------------------------------------------------------------------------
// Splitting on whitespace
// ---------------------------------------------------------------------------
/// Scans `s` left to right: the words completed so far, and the word under way.
pub open spec fn scan_words(s: Seq<char>) -> (Seq<Seq<char>>, Seq<char>)
    decreases s.len(),
{
    if s.len() == 0 {
        (Seq::empty(), Seq::empty())
    } else {
        let (done, cur) = scan_words(s.drop_last());
        if is_ws(s.last()) {
            if cur.len() > 0 {
                (done.push(cur), Seq::empty())
            } else {
                (done, cur)
            }
        } else {
            (done, cur.push(s.last()))
        }
    }
}

/// The maximal runs of non-whitespace characters of `s`, in order (what
/// `str::split_whitespace` yields).
pub open spec fn words(s: Seq<char>) -> Seq<Seq<char>> {
    let (done, cur) = scan_words(s);
    if cur.len() > 0 {
        done.push(cur)
    } else {
        done
    }
}

/// Every word is non-empty and holds no whitespace.
pub proof fn lemma_words_are_clean(s: Seq<char>)
    ensures
        forall|w: int|
            0 <= w < words(s).len() ==> #[trigger] words(s)[w].len() > 0 && forall|k: int|
                0 <= k < words(s)[w].len() ==> !is_ws(#[trigger] words(s)[w][k]),
{
    lemma_scan_words_clean(s);
}

proof fn lemma_scan_words_clean(s: Seq<char>)
    ensures
        forall|w: int|
            0 <= w < scan_words(s).0.len() ==> #[trigger] scan_words(s).0[w].len() > 0
                && forall|k: int|
                0 <= k < scan_words(s).0[w].len() ==> !is_ws(#[trigger] scan_words(s).0[w][k]),
        forall|k: int| 0 <= k < scan_words(s).1.len() ==> !is_ws(#[trigger] scan_words(s).1[k]),
    decreases s.len(),
{
    if s.len() > 0 {
        let t = s.drop_last();
        lemma_scan_words_clean(t);
        let (done, cur) = scan_words(t);
        let c = s.last();
        if is_ws(c) {
            if cur.len() > 0 {
                assert(scan_words(s).0 == done.push(cur));
                assert forall|w: int| 0 <= w < done.push(cur).len() implies #[trigger] done.push(
                    cur,
                )[w].len() > 0 && forall|k: int|
                    0 <= k < done.push(cur)[w].len() ==> !is_ws(
                        #[trigger] done.push(cur)[w][k],
                    ) by {
                    if w < done.len() {
                        assert(done.push(cur)[w] == done[w]);
                    } else {
                        assert(done.push(cur)[w] == cur);
                    }
                }
            }
        } else {
            assert(scan_words(s).1 == cur.push(c));
            assert forall|k: int| 0 <= k < cur.push(c).len() implies !is_ws(
                #[trigger] cur.push(c)[k],
            ) by {
                if k < cur.len() {
                    assert(cur.push(c)[k] == cur[k]);
                }
            }
        }
    }
}

// ---------------------------------------------------------------------------
// Decimal numbers
// ---------------------------------------------------------------------------
/// An ASCII decimal digit.
pub open spec fn is_digit(c: char) -> bool {
    '0' <= c <= '9'
}

/// The value of an ASCII decimal digit.
pub open spec fn digit_value(c: char) -> nat {
    (c as u32 - '0' as u32) as nat
}

/// The value of a string of decimal digits, most significant first.
pub open spec fn decimal_value(d: Seq<char>) -> nat
    decreases d.len(),
{
    if d.len() == 0 {
        0
    } else {
        decimal_value(d.drop_last()) * 10 + digit_value(d.last())
    }
}

/// The digits of an unsigned number: an optional leading `+` is dropped.
pub open spec fn unsigned_digits(s: Seq<char>) -> Seq<char> {
    if s.len() > 0 && s[0] == '+' {
        s.drop_first()
    } else {
        s
    }
}

/// Why a string is not a `u64`, as `core::num::IntErrorKind` tells it.
#[derive(Clone, Copy, PartialEq, Eq, Structural, Debug)]
pub enum IntErrorKind {
    /// The string is empty.
    Empty,
    /// A character that is not a decimal digit comes before any overflow.
    InvalidDigit,
    /// The digits before the first non-digit already exceed `u64::MAX`.
    PosOverflow,
}

/// The index of the first character of `d` that is not a decimal digit, or
/// `d.len()` when all of them are.
pub open spec fn first_non_digit(d: Seq<char>) -> int
    decreases d.len(),
{
    if d.len() == 0 || !is_digit(d[0]) {
        0
    } else {
        1 + first_non_digit(d.drop_first())
    }
}

/// What `str::parse::<u64>` gives. An optional leading `+` is dropped; the
/// rest must be one or more decimal digits. Scanning left to right, the first
/// problem met decides the error: a non-digit, or a value above `u64::MAX`.
pub open spec fn parse_u64_result(s: Seq<char>) -> Result<u64, IntErrorKind> {
    let d = unsigned_digits(s);
    if s.len() == 0 {
        Err(IntErrorKind::Empty)
    } else if d.len() == 0 {
        Err(IntErrorKind::InvalidDigit)
    } else {
        let j = first_non_digit(d);
        if decimal_value(d.take(j)) > u64::MAX {
            Err(IntErrorKind::PosOverflow)
        } else if j < d.len() {
            Err(IntErrorKind::InvalidDigit)
        } else {
            Ok(decimal_value(d) as u64)
        }
    }
}

/// What `str::parse::<u64>().unwrap_or_default()` gives.
pub open spec fn parse_u64_or_zero(s: Seq<char>) -> u64 {
    match parse_u64_result(s) {
        Ok(v) => v,
        Err(_) => 0,
    }
}

proof fn lemma_first_non_digit(d: Seq<char>, k: int)
    requires
        0 <= k <= d.len(),
        forall|i: int| 0 <= i < k ==> is_digit(#[trigger] d[i]),
        k == d.len() || !is_digit(d[k]),
    ensures
        first_non_digit(d) == k,
    decreases k,
{
    if k > 0 {
        let t = d.drop_first();
        assert forall|i: int| 0 <= i < k - 1 implies is_digit(#[trigger] t[i]) by {
            assert(t[i] == d[i + 1]);
        }
        assert(is_digit(d[0]));
        if k < d.len() {
            assert(t[k - 1] == d[k]);
        }
        lemma_first_non_digit(t, k - 1);
    }
}

proof fn lemma_first_non_digit_bounds(d: Seq<char>)
    ensures
        0 <= first_non_digit(d) <= d.len(),
        forall|i: int| 0 <= i < first_non_digit(d) ==> is_digit(#[trigger] d[i]),
        first_non_digit(d) == d.len() || !is_digit(d[first_non_digit(d)]),
    decreases d.len(),
{
    if d.len() > 0 && is_digit(d[0]) {
        let t = d.drop_first();
        lemma_first_non_digit_bounds(t);
        assert forall|i: int| 0 <= i < first_non_digit(d) implies is_digit(#[trigger] d[i]) by {
            if i > 0 {
                assert(d[i] == t[i - 1]);
            }
        }
        if first_non_digit(d) < d.len() {
            assert(d[first_non_digit(d)] == t[first_non_digit(t)]);
        }
    }
}

proof fn lemma_decimal_value_prefix(d: Seq<char>, i: int, j: int)
    requires
        0 <= i <= j <= d.len(),
    ensures
        decimal_value(d.take(i)) <= decimal_value(d.take(j)),
    decreases j - i,
{
    if i < j {
        lemma_decimal_value_prefix(d, i, j - 1);
        assert(d.take(j).drop_last() =~= d.take(j - 1));
    }
}

/// Parses `s` as `str::parse::<u64>` does.
pub fn parse_u64(s: &[char]) -> (r: Result<u64, IntErrorKind>)
    ensures
        r == parse_u64_result(s@),
{
    let n = s.len();
    if n == 0 {
        return Err(IntErrorKind::Empty);
    }
    let start: usize = if s[0] == '+' {
        1
    } else {
        0
    };
    let ghost d = unsigned_digits(s@);
    assert(d =~= s@.subrange(start as int, n as int));
    if start == n {
        return Err(IntErrorKind::InvalidDigit);
    }
    let mut acc: u64 = 0;
    let mut i: usize = start;
    assert(d.take(0) =~= Seq::<char>::empty());
    while i < n
        invariant
            start <= i <= n == s@.len(),
            start < n,
            d == s@.subrange(start as int, n as int),
            d == unsigned_digits(s@),
            forall|k: int| 0 <= k < i - start ==> is_digit(#[trigger] d[k]),
            acc as nat == decimal_value(d.take(i - start)),
        decreases n - i,
    {
        let c = s[i];
        let ghost k = i - start;
        assert(d[k] == c);
        if !('0' <= c && c <= '9') {
            proof {
                lemma_first_non_digit(d, k);
            }
            return Err(IntErrorKind::InvalidDigit);
        }
        let digit: u64 = ((c as u32) - ('0' as u32)) as u64;
        assert(d.take(k + 1).drop_last() =~= d.take(k));
        assert(d.take(k + 1).last() == c);
        assert(decimal_value(d.take(k + 1)) == acc * 10 + digit);
        let next = match acc.checked_mul(10) {
            Some(m) => m.checked_add(digit),
            None => None,
        };
        match next {
            Some(v) => {
                acc = v;
            },
            None => {
                proof {
                    lemma_first_non_digit_bounds(d);
                    let j = first_non_digit(d);
                    if j <= k {
                        assert(is_digit(d[j]));
                    }
                    lemma_decimal_value_prefix(d, k + 1, j);
                }
                return Err(IntErrorKind::PosOverflow);
            },
        }
        i = i + 1;
    }
    proof {
        lemma_first_non_digit(d, d.len() as int);
        assert(d.take(d.len() as int) =~= d);
    }
    Ok(acc)
}

/// The decimal rendering of a natural number.
pub open spec fn decimal_digits(n: nat) -> Seq<char>
    decreases n,
{
    if n < 10 {
        seq![digit_char(n)]
    } else {
        decimal_digits(n / 10).push(digit_char(n % 10))
    }
}

/// The ASCII digit for a value below ten.
pub open spec fn digit_char(d: nat) -> char {
    if d == 0 {
        '0'
    } else if d == 1 {
        '1'
    } else if d == 2 {
        '2'
    } else if d == 3 {
        '3'
    } else if d == 4 {
        '4'
    } else if d == 5 {
        '5'
    } else if d == 6 {
        '6'
    } else if d == 7 {
        '7'
    } else if d == 8 {
        '8'
    } else {
        '9'
    }
}

/// The decimal rendering of an integer, with a leading `-` when negative.
pub open spec fn signed_decimal(n: int) -> Seq<char> {
    if n < 0 {
        seq!['-'] + decimal_digits((-n) as nat)
    } else {
        decimal_digits(n as nat)
    }
}

fn digit_str(d: u64) -> (s: &'static str)
    requires
        d < 10,
    ensures
        s@ == seq![digit_char(d as nat)],
{
    proof {
        reveal_strlit("0");
        reveal_strlit("1");
        reveal_strlit("2");
        reveal_strlit("3");
        reveal_strlit("4");
        reveal_strlit("5");
        reveal_strlit("6");
        reveal_strlit("7");
        reveal_strlit("8");
        reveal_strlit("9");
    }
    let s = if d == 0 {
        "0"
    } else if d == 1 {
        "1"
    } else if d == 2 {
        "2"
    } else if d == 3 {
        "3"
    } else if d == 4 {
        "4"
    } else if d == 5 {
        "5"
    } else if d == 6 {
        "6"
    } else if d == 7 {
        "7"
    } else if d == 8 {
        "8"
    } else {
        "9"
    };
    assert(s@ =~= seq![digit_char(d as nat)]);
    s
}

/// The decimal rendering of `n`.
pub fn decimal_string(n: u64) -> (r: String)
    ensures
        r@ == decimal_digits(n as nat),
    decreases n,
{
    if n < 10 {
        String::from_str(digit_str(n))
    } else {
        let mut r = decimal_string(n / 10);
        r.append(digit_str(n % 10));
        r
    }
}

/// The decimal rendering of `n`, with a leading `-` when negative (what
/// `i32::to_string` gives).
pub fn signed_decimal_string(n: i32) -> (r: String)
    ensures
        r@ == signed_decimal(n as int),
{
    if n < 0 {
        let m: i64 = -(n as i64);
        let digits = decimal_string(m as u64);
        proof {
            reveal_strlit("-");
        }
        let mut r = String::from_str("-");
        r.append(digits.as_str());
        r
    } else {
        decimal_string(n as u64)
    }
}

} // verus!
