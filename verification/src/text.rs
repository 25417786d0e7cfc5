//! Strings as sequences of characters: comparing, ordering, and decimal
//! numbers.

use vstd::prelude::*;

verus! {

/// The characters of `s`, one by one.
pub fn chars_of(s: &str) -> (r: Vec<char>)
    ensures
        r@ == s@,
{
    let mut out: Vec<char> = Vec::new();
    for c in it: s.chars()
        invariant
            it.seq() == s@,
            out@ == s@.take(it.index() as int),
    {
        assert(s@.take(it.index() + 1) =~= s@.take(it.index() as int).push(c));
        out.push(c);
    }
    assert(s@.take(s@.len() as int) =~= s@);
    out
}

/// Whether two strings hold the same characters.
pub fn same_text(a: &str, b: &str) -> (r: bool)
    ensures
        r == (a@ == b@),
{
    let x = a.as_bytes();
    let y = b.as_bytes();
    proof {
        vstd::utf8::encode_utf8_decode_utf8(a@);
        vstd::utf8::encode_utf8_decode_utf8(b@);
    }
    let n: usize = x.len();
    if n != y.len() {
        return false;
    }
    let mut i: usize = 0;
    while i < n
        invariant
            n == x@.len(),
            n == y@.len(),
            i <= n,
            x@ == vstd::utf8::encode_utf8(a@),
            y@ == vstd::utf8::encode_utf8(b@),
            forall|k: int| 0 <= k < i ==> x@[k] == y@[k],
        decreases n - i,
    {
        if x[i] != y[i] {
            return false;
        }
        i += 1;
    }
    assert(x@ =~= y@);
    true
}

/// Whether `s` begins with the characters of `prefix`.
pub open spec fn has_prefix(s: Seq<char>, prefix: Seq<char>) -> bool {
    prefix.len() <= s.len() && s.take(prefix.len() as int) == prefix
}

/// Whether `s` begins with `prefix`.
pub fn begins_with(s: &str, prefix: &str) -> (r: bool)
    ensures
        r == has_prefix(s@, prefix@),
{
    let x: Vec<char> = chars_of(s);
    let y: Vec<char> = chars_of(prefix);
    if y.len() > x.len() {
        return false;
    }
    let mut i: usize = 0;
    while i < y.len()
        invariant
            i <= y@.len() <= x@.len(),
            x@ == s@,
            y@ == prefix@,
            forall|k: int| 0 <= k < i ==> x@[k] == y@[k],
        decreases y@.len() - i,
    {
        if x[i] != y[i] {
            assert(s@.take(prefix@.len() as int)[i as int] != prefix@[i as int]);
            return false;
        }
        i += 1;
    }
    assert(s@.take(prefix@.len() as int) =~= prefix@);
    true
}

/// Whether `a` comes before `b` in the order of their characters, that of a
/// dictionary.
pub open spec fn text_before(a: Seq<char>, b: Seq<char>) -> bool
    decreases b.len(),
{
    if b.len() == 0 {
        false
    } else if a.len() == 0 {
        true
    } else if a[0] != b[0] {
        a[0] < b[0]
    } else {
        text_before(a.skip(1), b.skip(1))
    }
}

/// No text comes before itself.
pub proof fn lemma_before_irreflexive(a: Seq<char>)
    ensures
        !text_before(a, a),
    decreases a.len(),
{
    if a.len() > 0 {
        lemma_before_irreflexive(a.skip(1));
    }
}

/// What comes before a text comes before all that the text comes before.
pub proof fn lemma_before_transitive(a: Seq<char>, b: Seq<char>, c: Seq<char>)
    requires
        text_before(a, b),
        text_before(b, c),
    ensures
        text_before(a, c),
    decreases c.len(),
{
    if a.len() > 0 && a[0] == b[0] && b[0] == c[0] {
        lemma_before_transitive(a.skip(1), b.skip(1), c.skip(1));
    }
}

/// Of two different texts, one comes before the other.
pub proof fn lemma_before_total(a: Seq<char>, b: Seq<char>)
    ensures
        a == b || text_before(a, b) || text_before(b, a),
    decreases b.len(),
{
    if a.len() > 0 && b.len() > 0 && a[0] == b[0] {
        lemma_before_total(a.skip(1), b.skip(1));
        if a.skip(1) == b.skip(1) {
            assert(a =~= seq![a[0]] + a.skip(1));
            assert(b =~= seq![b[0]] + b.skip(1));
        }
    } else if a.len() == 0 && b.len() == 0 {
        assert(a =~= b);
    }
}

/// Whether one text, given by its characters, comes before another.
pub fn comes_before(a: &[char], b: &[char]) -> (r: bool)
    ensures
        r == text_before(a@, b@),
{
    let mut i: usize = 0;
    proof {
        assert(a@.skip(0) =~= a@);
        assert(b@.skip(0) =~= b@);
    }
    while i < a.len() && i < b.len()
        invariant
            i <= a@.len(),
            i <= b@.len(),
            text_before(a@, b@) == text_before(a@.skip(i as int), b@.skip(i as int)),
        decreases a@.len() - i,
    {
        if a[i] != b[i] {
            return a[i] < b[i];
        }
        proof {
            assert(a@.skip(i as int).skip(1) =~= a@.skip(i + 1));
            assert(b@.skip(i as int).skip(1) =~= b@.skip(i + 1));
        }
        i += 1;
    }
    i < b.len()
}

// ----------------------------------------------------------------- decimals

/// The character of a digit.
pub open spec fn digit_char(d: nat) -> char {
    if d == 0 {
        '0'
    } else if d == 1 {
        '1'
    } else if d == 2 {
        '2'
    } else if d == 3 {
        '3'
    } else if d == 4 {
        '4'
    } else if d == 5 {
        '5'
    } else if d == 6 {
        '6'
    } else if d == 7 {
        '7'
    } else if d == 8 {
        '8'
    } else {
        '9'
    }
}

/// A number in decimal, without leading zeros.
pub open spec fn decimal(n: nat) -> Seq<char>
    decreases n,
{
    if n < 10 {
        seq![digit_char(n)]
    } else {
        decimal(n / 10).push(digit_char(n % 10))
    }
}

fn digit_text(d: u64) -> (r: &'static str)
    requires
        d < 10,
    ensures
        r@ == seq![digit_char(d as nat)],
{
    proof {
        reveal_strlit("0");
        reveal_strlit("1");
        reveal_strlit("2");
        reveal_strlit("3");
        reveal_strlit("4");
        reveal_strlit("5");
        reveal_strlit("6");
        reveal_strlit("7");
        reveal_strlit("8");
        reveal_strlit("9");
    }
    let r = match d {
        0 => "0",
        1 => "1",
        2 => "2",
        3 => "3",
        4 => "4",
        5 => "5",
        6 => "6",
        7 => "7",
        8 => "8",
        _ => "9",
    };
    assert(r@ =~= seq![digit_char(d as nat)]);
    r
}

/// Writes a number in decimal.
pub fn number_text(n: u64) -> (r: String)
    ensures
        r@ == decimal(n as nat),
    decreases n,
{
    if n < 10 {
        digit_text(n).to_owned()
    } else {
        let head = number_text(n / 10);
        let r = head.concat(digit_text(n % 10));
        assert(r@ =~= decimal(n as nat));
        r
    }
}

/// Whether a byte is a decimal digit.
pub open spec fn is_digit(b: u8) -> bool {
    0x30 <= b <= 0x39
}

/// The number that some digits spell.
pub open spec fn digits_value(s: Seq<u8>) -> nat
    decreases s.len(),
{
    if s.len() == 0 {
        0
    } else {
        10 * digits_value(s.drop_last()) + (s.last() - 0x30) as nat
    }
}

/// The digits that `s` begins with.
pub open spec fn leading_digits(s: Seq<u8>) -> Seq<u8>
    decreases s.len(),
{
    if s.len() == 0 || !is_digit(s[0]) {
        Seq::empty()
    } else {
        seq![s[0]] + leading_digits(s.skip(1))
    }
}

/// More digits make no smaller number.
pub proof fn lemma_digits_value_grows(s: Seq<u8>, n: int)
    requires
        0 <= n <= s.len(),
        forall|i: int| 0 <= i < s.len() ==> is_digit(#[trigger] s[i]),
    ensures
        digits_value(s.take(n)) <= digits_value(s),
    decreases s.len(),
{
    if n == s.len() {
        assert(s.take(n) =~= s);
    } else {
        assert(s.drop_last().take(n) =~= s.take(n));
        assert forall|i: int| 0 <= i < s.drop_last().len() implies is_digit(
            #[trigger] s.drop_last()[i],
        ) by {
            assert(s.drop_last()[i] == s[i]);
        }
        lemma_digits_value_grows(s.drop_last(), n);
    }
}

/// The number that digits spell, if there are any and it is no larger than
/// `limit`.
pub open spec fn bounded_value(s: Seq<u8>, limit: nat) -> Option<nat> {
    if s.len() > 0 && digits_value(s) <= limit {
        Some(digits_value(s))
    } else {
        None
    }
}

/// The first `n` bytes from `at` on are the leading digits.
proof fn lemma_leading_digits(s: Seq<u8>, n: int)
    requires
        0 <= n <= s.len(),
        forall|i: int| 0 <= i < n ==> is_digit(#[trigger] s[i]),
        n < s.len() ==> !is_digit(s[n]),
    ensures
        leading_digits(s) == s.take(n),
    decreases n,
{
    if n > 0 {
        let rest = s.skip(1);
        assert forall|i: int| 0 <= i < n - 1 implies is_digit(#[trigger] rest[i]) by {
            assert(rest[i] == s[i + 1]);
        }
        if n < s.len() {
            assert(rest[n - 1] == s[n]);
        }
        assert(is_digit(s[0]));
        lemma_leading_digits(rest, n - 1);
        assert(s.take(n) =~= seq![s[0]] + rest.take(n - 1));
    } else {
        assert(s.take(0) =~= Seq::<u8>::empty());
    }
}

/// The number that the digits from `at` on spell, if there are any and it is
/// no larger than `limit`.
pub fn read_digits(s: &[u8], at: usize, limit: u32) -> (r: Option<u32>)
    requires
        at <= s@.len(),
    ensures
        match r {
            Some(n) => bounded_value(leading_digits(s@.skip(at as int)), limit as nat) == Some(
                n as nat,
            ),
            None => bounded_value(leading_digits(s@.skip(at as int)), limit as nat) is None,
        },
{
    let ghost rest = s@.skip(at as int);
    let len: usize = s.len();
    let mut end: usize = at;
    while end < len && 0x30 <= s[end] && s[end] <= 0x39
        invariant
            at <= end <= len,
            len == s@.len(),
            rest == s@.skip(at as int),
            forall|i: int| 0 <= i < end - at ==> is_digit(#[trigger] rest[i]),
        decreases len - end,
    {
        assert(rest[end - at] == s@[end as int]);
        end += 1;
    }
    let ghost digits = rest.take(end - at);
    proof {
        if end < len {
            assert(rest[end - at] == s@[end as int]);
        }
        lemma_leading_digits(rest, end - at);
        assert forall|i: int| 0 <= i < digits.len() implies is_digit(#[trigger] digits[i]) by {
            assert(digits[i] == rest[i]);
        }
    }
    if end == at {
        return None;
    }
    let mut value: u32 = 0;
    let mut i: usize = at;
    assert(digits.take(0) =~= Seq::<u8>::empty());
    while i < end
        invariant
            at <= i <= end <= len,
            at < end,
            len == s@.len(),
            rest == s@.skip(at as int),
            digits == rest.take(end - at),
            digits == leading_digits(rest),
            forall|k: int| 0 <= k < digits.len() ==> is_digit(#[trigger] digits[k]),
            value == digits_value(digits.take(i - at)),
            value <= limit,
        decreases end - i,
    {
        proof {
            assert(digits.take(i + 1 - at).drop_last() =~= digits.take(i - at));
            assert(digits[i - at] == s@[i as int]);
            assert(is_digit(digits[i - at]));
            lemma_digits_value_grows(digits, i + 1 - at);
        }
        let next: u64 = value as u64 * 10 + (s[i] - 0x30) as u64;
        if next > limit as u64 {
            return None;
        }
        value = next as u32;
        i += 1;
    }
    assert(digits.take(end - at) =~= digits);
    Some(value)
}

/// Whether `pattern` occurs in `s` at `at`.
pub open spec fn occurs_at(s: Seq<u8>, pattern: Seq<u8>, at: int) -> bool {
    0 <= at && at + pattern.len() <= s.len() && s.subrange(at, at + pattern.len()) == pattern
}

/// Whether `at` is where `pattern` occurs first in `s`.
pub open spec fn first_at(s: Seq<u8>, pattern: Seq<u8>, at: int) -> bool {
    occurs_at(s, pattern, at) && forall|k: int| 0 <= k < at ==> !#[trigger] occurs_at(s, pattern, k)
}

/// Whether `pattern` does not occur in `s`.
pub open spec fn absent(s: Seq<u8>, pattern: Seq<u8>) -> bool {
    forall|k: int| !#[trigger] occurs_at(s, pattern, k)
}

fn matches_at(s: &[u8], pattern: &[u8], at: usize) -> (r: bool)
    requires
        at + pattern@.len() <= s@.len(),
    ensures
        r == occurs_at(s@, pattern@, at as int),
{
    let n: usize = pattern.len();
    let mut i: usize = 0;
    while i < n
        invariant
            i <= n,
            n == pattern@.len(),
            at + n <= s@.len(),
            forall|k: int| 0 <= k < i ==> s@[at + k] == pattern@[k],
        decreases n - i,
    {
        assert(at + i < s.len());
        if s[at + i] != pattern[i] {
            assert(s@.subrange(at as int, at + n)[i as int] != pattern@[i as int]);
            return false;
        }
        i += 1;
    }
    assert(s@.subrange(at as int, at + n) =~= pattern@);
    true
}

/// Where a pattern occurs first.
pub fn find_bytes(s: &[u8], pattern: &[u8]) -> (r: Option<usize>)
    ensures
        match r {
            Some(at) => first_at(s@, pattern@, at as int),
            None => absent(s@, pattern@),
        },
{
    let n: usize = s.len();
    let m: usize = pattern.len();
    if m > n {
        return None;
    }
    let last: usize = n - m;
    let mut at: usize = 0;
    while at <= last
        invariant
            n == s@.len(),
            m == pattern@.len(),
            m <= n,
            last == n - m,
            at <= last + 1,
            forall|k: int| 0 <= k < at ==> !#[trigger] occurs_at(s@, pattern@, k),
        decreases last + 1 - at,
    {
        if matches_at(s, pattern, at) {
            return Some(at);
        }
        if at == last {
            return None;
        }
        at += 1;
    }
    None
}

// -------------------------------------------------------------------- laws

/// Texts are ordered as in a dictionary: the first character in which they
/// differ decides, and the beginning of a text comes before the text.
pub proof fn law_dictionary_order(
    common: Seq<char>,
    a: char,
    x: Seq<char>,
    b: char,
    y: Seq<char>,
)
    requires
        a != b,
    ensures
        text_before(common + seq![a] + x, common + seq![b] + y) <==> a < b,
        text_before(common, common + seq![a] + x),
        !text_before(common + seq![a] + x, common),
    decreases common.len(),
{
    let s = common + seq![a] + x;
    let t = common + seq![b] + y;
    if common.len() > 0 {
        let rest = common.skip(1);
        law_dictionary_order(rest, a, x, b, y);
        assert(s.skip(1) =~= rest + seq![a] + x);
        assert(t.skip(1) =~= rest + seq![b] + y);
        assert(s[0] == common[0] && t[0] == common[0]);
    } else {
        assert(s[0] == a && t[0] == b);
    }
}

/// A number in decimal ends with its last digit, before which stands what is
/// left without it; a number below ten is a single digit. Only zero begins with
/// a zero.
pub proof fn law_decimal_digits(n: nat)
    ensures
        decimal(n).len() > 0,
        decimal(n).last() as int == '0' as int + n % 10,
        n < 10 ==> decimal(n).len() == 1,
        n >= 10 ==> decimal(n).drop_last() == decimal(n / 10),
        forall|i: int| 0 <= i < decimal(n).len() ==> '0' <= #[trigger] decimal(n)[i] <= '9',
        n > 0 ==> decimal(n)[0] != '0',
    decreases n,
{
    if n >= 10 {
        law_decimal_digits(n / 10);
        assert(decimal(n).drop_last() =~= decimal(n / 10));
        assert forall|i: int| 0 <= i < decimal(n).len() implies '0' <= #[trigger] decimal(n)[i]
            <= '9' by {
            if i < decimal(n / 10).len() {
                assert(decimal(n)[i] == decimal(n / 10)[i]);
            }
        }
        assert(decimal(n)[0] == decimal(n / 10)[0]);
    }
}

/// The bytes of some decimal digits.
pub open spec fn digit_bytes(s: Seq<char>) -> Seq<u8> {
    Seq::new(s.len(), |i: int| s[i] as u8)
}

/// The digits of a number in decimal spell the number.
pub proof fn law_decimal_is_read_back(n: nat)
    ensures
        digits_value(digit_bytes(decimal(n))) == n,
        digit_bytes(decimal(n)).len() > 0,
        forall|i: int|
            0 <= i < digit_bytes(decimal(n)).len() ==> 0x30 <= #[trigger] digit_bytes(decimal(n))[i]
                <= 0x39,
    decreases n,
{
    law_decimal_digits(n);
    let all = digit_bytes(decimal(n));
    if n >= 10 {
        law_decimal_is_read_back(n / 10);
        assert(all.drop_last() =~= digit_bytes(decimal(n / 10)));
    } else {
        assert(all.drop_last() =~= Seq::<u8>::empty());
        reveal_with_fuel(digits_value, 2);
    }
    assert forall|i: int| 0 <= i < all.len() implies 0x30 <= #[trigger] all[i] <= 0x39 by {
        assert('0' <= decimal(n)[i] <= '9');
    }
}

/// The leading digits are those that a text begins with: all are digits, and no
/// digit follows them.
pub proof fn law_leading_digits(s: Seq<u8>)
    ensures
        leading_digits(s).is_prefix_of(s),
        forall|i: int|
            0 <= i < leading_digits(s).len() ==> 0x30 <= #[trigger] leading_digits(s)[i] <= 0x39,
        leading_digits(s).len() < s.len() ==> !(0x30 <= s[leading_digits(s).len() as int] <= 0x39),
    decreases s.len(),
{
    if s.len() > 0 && is_digit(s[0]) {
        let rest = s.skip(1);
        law_leading_digits(rest);
        let d = leading_digits(rest);
        assert(leading_digits(s) =~= s.take(1int + d.len())) by {
            assert(d =~= rest.take(d.len() as int));
            assert(seq![s[0]] + rest.take(d.len() as int) =~= s.take(1int + d.len()));
        }
        assert forall|i: int| 0 <= i < leading_digits(s).len() implies 0x30
            <= #[trigger] leading_digits(s)[i] <= 0x39 by {
            if i > 0 {
                assert(leading_digits(s)[i] == d[i - 1]);
            }
        }
    } else {
        assert(s.take(0) =~= Seq::<u8>::empty());
    }
}

/// Digits before anything that is no digit are the leading digits.
pub proof fn law_digits_lead(digits: Seq<u8>, after: Seq<u8>)
    requires
        forall|i: int| 0 <= i < digits.len() ==> 0x30 <= #[trigger] digits[i] <= 0x39,
        after.len() > 0 ==> !(0x30 <= after[0] <= 0x39),
    ensures
        leading_digits(digits + after) == digits,
{
    let s = digits + after;
    let n = digits.len() as int;
    assert forall|i: int| 0 <= i < n implies is_digit(#[trigger] s[i]) by {
        assert(s[i] == digits[i]);
    }
    if n < s.len() {
        assert(s[n] == after[0]);
    }
    lemma_leading_digits(s, n);
    assert(s.take(n) =~= digits);
}

} // verus!
