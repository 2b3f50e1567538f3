//! Text helpers: equality, prefixes, and whole numbers written in decimal.
//!
//! Every function is stated over the character sequence that a string
//! denotes, so that callers can reason about keys and values as plain
//! sequences.

use vstd::prelude::*;

verus! {

/// `prefix` opens `s`.
pub open spec fn has_prefix(s: Seq<char>, prefix: Seq<char>) -> bool {
    prefix.len() <= s.len() && s.subrange(0, prefix.len() as int) == prefix
}

/// `needle` stands in `s` at the position `at`.
pub open spec fn found_at(needle: Seq<char>, s: Seq<char>, at: int) -> bool {
    0 <= at && at + needle.len() <= s.len() && s.subrange(at, at + needle.len()) == needle
}

/// `needle` occurs somewhere in `s`.
pub open spec fn occurs_in(needle: Seq<char>, s: Seq<char>) -> bool {
    exists|at: int| found_at(needle, s, at)
}

/// The decimal digit with value `d`, for `0 <= d <= 9`.
pub open spec fn digit_char(d: int) -> char {
    (48 + d) as char
}

/// `c` is one of `'0'` to `'9'`.
pub open spec fn is_digit(c: char) -> bool {
    48 <= c as int <= 57
}

/// Every character of `s` is a decimal digit.
pub open spec fn all_digits(s: Seq<char>) -> bool {
    forall|i: int| 0 <= i < s.len() ==> is_digit(#[trigger] s[i])
}

/// The digits of `n`, most significant first, without leading zeros.
pub open spec fn digits_of(n: nat) -> Seq<char>
    decreases n,
{
    if n < 10 {
        seq![digit_char(n as int)]
    } else {
        digits_of(n / 10).push(digit_char((n % 10) as int))
    }
}

/// How `n` is written: a minus sign for a negative number, then its digits.
pub open spec fn decimal(n: int) -> Seq<char> {
    if n < 0 {
        seq!['-'] + digits_of((-n) as nat)
    } else {
        digits_of(n as nat)
    }
}

/// The number that a run of digits denotes (leading zeros allowed).
pub open spec fn digits_value(s: Seq<char>) -> nat
    decreases s.len(),
{
    if s.len() == 0 {
        0
    } else {
        (digits_value(s.drop_last()) * 10 + (s.last() as int - 48)) as nat
    }
}

/// The number that `s` denotes: an optional `+` or `-`, then at least one
/// digit and nothing else. `None` for any other text.
pub open spec fn parse_decimal(s: Seq<char>) -> Option<int> {
    if s.len() > 0 && (s[0] == '-' || s[0] == '+') {
        let body = s.skip(1);
        if body.len() > 0 && all_digits(body) {
            if s[0] == '-' {
                Some(-(digits_value(body) as int))
            } else {
                Some(digits_value(body) as int)
            }
        } else {
            None
        }
    } else if s.len() > 0 && all_digits(s) {
        Some(digits_value(s) as int)
    } else {
        None
    }
}

/// `parse_decimal`, kept only where the number fits in an `i64`.
pub open spec fn parse_i64_spec(s: Seq<char>) -> Option<i64> {
    match parse_decimal(s) {
        Some(v) => if i64::MIN <= v <= i64::MAX {
            Some(v as i64)
        } else {
            None
        },
        None => None,
    }
}

/// Whether two strings hold the same characters.
pub fn str_eq(a: &str, b: &str) -> (same: bool)
    ensures
        same == (a@ == b@),
{
    let x = a.as_bytes();
    let y = b.as_bytes();
    proof {
        // Distinct texts have distinct encodings: decoding undoes encoding.
        vstd::utf8::encode_utf8_decode_utf8(a@);
        vstd::utf8::encode_utf8_decode_utf8(b@);
    }
    if x.len() != y.len() {
        return false;
    }
    let mut i: usize = 0;
    while i < x.len()
        invariant
            i <= x.len(),
            x.len() == y.len(),
            x@ == vstd::utf8::encode_utf8(a@),
            y@ == vstd::utf8::encode_utf8(b@),
            forall|j: int| 0 <= j < i ==> x@[j] == y@[j],
        decreases x.len() - i,
    {
        if x[i] != y[i] {
            return false;
        }
        i += 1;
    }
    assert(x@ =~= y@);
    true
}

/// The characters of `s`, one by one.
pub fn to_chars(s: &str) -> (v: Vec<char>)
    ensures
        v@ == s@,
{
    let mut v: Vec<char> = Vec::new();
    for c in it: s.chars()
        invariant
            v@ == it.seq().take(it.index() as int),
            it.seq() == s@,
    {
        v.push(c);
        assert(it.seq().take(it.index() + 1) =~= it.seq().take(it.index() as int).push(c));
    }
    assert(v@ =~= s@);
    v
}

/// Whether `needle` stands in `s` at the position `at`.
fn matches_at(s: &Vec<char>, needle: &Vec<char>, at: usize) -> (r: bool)
    requires
        at + needle@.len() <= s@.len(),
    ensures
        r == (s@.subrange(at as int, at + needle@.len()) == needle@),
{
    let m = needle.len();
    let n = s.len();
    let mut j: usize = 0;
    while j < m
        invariant
            j <= m,
            m == needle@.len(),
            n == s@.len(),
            at + m <= n,
            forall|k: int| 0 <= k < j ==> s@[at + k] == needle@[k],
        decreases m - j,
    {
        if s[at + j] != needle[j] {
            assert(s@.subrange(at as int, at + m)[j as int] != needle@[j as int]);
            return false;
        }
        j += 1;
    }
    assert(s@.subrange(at as int, at + m) =~= needle@);
    true
}

/// Whether `s` begins with `prefix`.
pub fn starts_with(s: &str, prefix: &str) -> (r: bool)
    ensures
        r == has_prefix(s@, prefix@),
{
    let text = to_chars(s);
    let start = to_chars(prefix);
    if start.len() > text.len() {
        return false;
    }
    matches_at(&text, &start, 0)
}

/// Whether `needle` occurs somewhere in `s`. The empty text occurs in every
/// text.
pub fn contains(s: &str, needle: &str) -> (r: bool)
    ensures
        r == occurs_in(needle@, s@),
{
    let text = to_chars(s);
    let wanted = to_chars(needle);
    let n = text.len();
    let m = wanted.len();
    if m > n {
        return false;
    }
    let last = n - m;
    let mut i: usize = 0;
    while i < last
        invariant
            i <= last,
            last == n - m,
            n == text@.len(),
            m == wanted@.len(),
            text@ == s@,
            wanted@ == needle@,
            forall|k: int| 0 <= k < i ==> !found_at(needle@, s@, k),
        decreases last - i,
    {
        if matches_at(&text, &wanted, i) {
            assert(found_at(needle@, s@, i as int));
            return true;
        }
        i += 1;
    }
    let r = matches_at(&text, &wanted, last);
    assert(r == found_at(needle@, s@, last as int));
    r
}

/// What follows `prefix` in `s`, if `s` begins with it.
pub fn strip_prefix(s: &str, prefix: &str) -> (r: Option<String>)
    ensures
        match r {
            Some(rest) => has_prefix(s@, prefix@) && rest@ == s@.skip(prefix@.len() as int),
            None => !has_prefix(s@, prefix@),
        },
{
    if starts_with(s, prefix) {
        let rest = s.substring_char(prefix.unicode_len(), s.unicode_len());
        Some(rest.to_owned())
    } else {
        None
    }
}

/// `a` followed by `b`.
pub fn join(a: &str, b: &str) -> (r: String)
    ensures
        r@ == a@ + b@,
{
    let mut r = a.to_owned();
    r.append(b);
    r
}

fn digit_text(d: u64) -> (r: &'static str)
    requires
        d < 10,
    ensures
        r@ == seq![digit_char(d as int)],
{
    proof {
        reveal_strlit("0");
        reveal_strlit("1");
        reveal_strlit("2");
        reveal_strlit("3");
        reveal_strlit("4");
        reveal_strlit("5");
        reveal_strlit("6");
        reveal_strlit("7");
        reveal_strlit("8");
        reveal_strlit("9");
    }
    let r = if d == 0 {
        "0"
    } else if d == 1 {
        "1"
    } else if d == 2 {
        "2"
    } else if d == 3 {
        "3"
    } else if d == 4 {
        "4"
    } else if d == 5 {
        "5"
    } else if d == 6 {
        "6"
    } else if d == 7 {
        "7"
    } else if d == 8 {
        "8"
    } else {
        "9"
    };
    assert(r@ =~= seq![digit_char(d as int)]);
    r
}

/// Writes a natural number in decimal.
pub fn format_u64(n: u64) -> (r: String)
    ensures
        r@ == digits_of(n as nat),
    decreases n,
{
    if n < 10 {
        digit_text(n).to_owned()
    } else {
        let mut r = format_u64(n / 10);
        r.append(digit_text(n % 10));
        assert(r@ =~= digits_of(n as nat));
        r
    }
}

/// Writes a whole number in decimal.
pub fn format_i64(n: i64) -> (r: String)
    ensures
        r@ == decimal(n as int),
{
    if n < 0 {
        let magnitude: u64 = (-(n as i128)) as u64;
        let digits = format_u64(magnitude);
        proof {
            reveal_strlit("-");
        }
        let r = join("-", digits.as_str());
        assert(r@ =~= decimal(n as int));
        r
    } else {
        format_u64(n as u64)
    }
}

/// A run of digits is worth at least as much as any of its beginnings.
proof fn lemma_digits_value_grows(s: Seq<char>, k: int)
    requires
        all_digits(s),
        0 <= k <= s.len(),
    ensures
        digits_value(s.take(k)) <= digits_value(s),
    decreases s.len() - k,
{
    if k == s.len() {
        assert(s.take(k) =~= s);
    } else {
        lemma_digits_value_grows(s, k + 1);
        let longer = s.take(k + 1);
        assert(longer.drop_last() =~= s.take(k));
        assert(is_digit(s[k]));
        assert(longer.last() == s[k]);
    }
}

/// Reads the digits `s[from..]` as a number no larger than `limit`.
fn read_digits(bytes: &[u8], from: usize, limit: u64, Ghost(s): Ghost<Seq<char>>) -> (r: Option<u64>)
    requires
        from <= bytes@.len(),
        s.len() == bytes@.len(),
        forall|i: int| 0 <= i < s.len() ==> s[i] as int == bytes@[i] as int,
        limit <= 0x8000_0000_0000_0000,
    ensures
        match r {
            Some(v) => all_digits(s.skip(from as int)) && v == digits_value(s.skip(from as int))
                && v <= limit,
            None => !all_digits(s.skip(from as int)) || digits_value(s.skip(from as int)) > limit,
        },
{
    let ghost body = s.skip(from as int);
    let mut acc: u64 = 0;
    let mut i: usize = from;
    assert(body.take(0) =~= Seq::<char>::empty());
    while i < bytes.len()
        invariant
            from <= i <= bytes@.len(),
            s.len() == bytes@.len(),
            forall|j: int| 0 <= j < s.len() ==> s[j] as int == bytes@[j] as int,
            body == s.skip(from as int),
            all_digits(body.take(i - from)),
            acc == digits_value(body.take(i - from)),
            acc <= limit <= 0x8000_0000_0000_0000,
        decreases bytes@.len() - i,
    {
        let b = bytes[i];
        assert(body[i - from] == s[i as int]);
        if b < 48 || b > 57 {
            assert(!is_digit(body[i - from]));
            return None;
        }
        let next: u128 = (acc as u128) * 10 + ((b - 48) as u128);
        let ghost longer = body.take(i - from + 1);
        assert(longer.drop_last() =~= body.take(i - from));
        assert(longer.last() == body[i - from]);
        assert(next == digits_value(longer));
        assert(all_digits(longer)) by {
            assert forall|j: int| 0 <= j < longer.len() implies is_digit(#[trigger] longer[j]) by {
                if j < i - from {
                    assert(body.take(i - from)[j] == longer[j]);
                }
            }
        }
        if next > limit as u128 {
            proof {
                if all_digits(body) {
                    lemma_digits_value_grows(body, i - from + 1);
                }
            }
            return None;
        }
        acc = next as u64;
        i += 1;
    }
    assert(body.take(i - from) =~= body);
    Some(acc)
}

/// Reads a whole number written in decimal: an optional sign, then digits.
/// `None` for any other text, and for a number that does not fit.
pub fn parse_i64(s: &str) -> (r: Option<i64>)
    ensures
        r == parse_i64_spec(s@),
{
    if !s.is_ascii() {
        proof {
            let i = choose|i: int| 0 <= i < s@.len() && !('\0' <= #[trigger] s@[i] <= '\u{7f}');
            assert(!is_digit(s@[i]));
            if i > 0 {
                assert(s@.skip(1)[i - 1] == s@[i]);
            }
        }
        return None;
    }
    let bytes = s.as_bytes();
    proof {
        vstd::utf8::is_ascii_chars_encode_utf8(s@);
    }
    let n = bytes.len();
    if n == 0 {
        return None;
    }
    let first = bytes[0];
    if first == 45 {
        if n == 1 {
            return None;
        }
        match read_digits(bytes, 1, 0x8000_0000_0000_0000, Ghost(s@)) {
            Some(v) => Some((-(v as i128)) as i64),
            None => None,
        }
    } else if first == 43 {
        if n == 1 {
            return None;
        }
        match read_digits(bytes, 1, 0x7fff_ffff_ffff_ffff, Ghost(s@)) {
            Some(v) => Some(v as i64),
            None => None,
        }
    } else {
        assert(s@.skip(0) =~= s@);
        match read_digits(bytes, 0, 0x7fff_ffff_ffff_ffff, Ghost(s@)) {
            Some(v) => Some(v as i64),
            None => None,
        }
    }
}

/// The digits of a number are digits, there is at least one, and they are
/// worth that number.
pub proof fn lemma_digits_of(n: nat)
    ensures
        digits_of(n).len() > 0,
        all_digits(digits_of(n)),
        digits_value(digits_of(n)) == n,
    decreases n,
{
    if n < 10 {
        let s = digits_of(n);
        assert(s.drop_last() =~= Seq::<char>::empty());
        assert(digits_value(s.drop_last()) == 0);
    } else {
        lemma_digits_of(n / 10);
        let s = digits_of(n);
        assert(s.drop_last() =~= digits_of(n / 10));
        assert forall|i: int| 0 <= i < s.len() implies is_digit(#[trigger] s[i]) by {
            if i < s.len() - 1 {
                assert(s[i] == digits_of(n / 10)[i]);
            }
        }
    }
}

/// Reading what was written gives the number back.
pub proof fn lemma_parse_written(n: int)
    ensures
        parse_decimal(decimal(n)) == Some(n),
{
    if n < 0 {
        let digits = digits_of((-n) as nat);
        lemma_digits_of((-n) as nat);
        assert(decimal(n).skip(1) =~= digits);
    } else {
        lemma_digits_of(n as nat);
        assert(is_digit(digits_of(n as nat)[0]));
    }
}

} // verus!
