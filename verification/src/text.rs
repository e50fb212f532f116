//! Integers as decimal text, as `ToString` writes them and `str::parse` reads them.
use vstd::prelude::*;

verus! {

/// The decimal digit for `d < 10`.
pub open spec fn digit_char(d: nat) -> char {
    if d == 0 { '0' } else if d == 1 { '1' } else if d == 2 { '2' } else if d == 3 { '3' } else if d == 4 { '4' }
    else if d == 5 { '5' } else if d == 6 { '6' } else if d == 7 { '7' } else if d == 8 { '8' } else { '9' }
}

/// The decimal text of a natural number, without leading zeros.
#[verifier::opaque]
pub open spec fn decimal(n: nat) -> Seq<char>
    decreases n,
{
    if n < 10 {
        seq![digit_char(n)]
    } else {
        decimal(n / 10).push(digit_char(n % 10))
    }
}

/// The decimal text of an integer, with a leading `-` when negative.
pub open spec fn int_text(i: int) -> Seq<char> {
    if i < 0 {
        seq!['-'] + decimal((-i) as nat)
    } else {
        decimal(i as nat)
    }
}

/// The one-digit text of `d < 10`.
fn digit_str(d: u64) -> (r: &'static str)
    requires
        d < 10,
    ensures
        r@ == seq![digit_char(d as nat)],
{
    proof {
        reveal_strlit("0");
        reveal_strlit("1");
        reveal_strlit("2");
        reveal_strlit("3");
        reveal_strlit("4");
        reveal_strlit("5");
        reveal_strlit("6");
        reveal_strlit("7");
        reveal_strlit("8");
        reveal_strlit("9");
    }
    let r = if d == 0 { "0" } else if d == 1 { "1" } else if d == 2 { "2" } else if d == 3 { "3" } else if d == 4 { "4" }
    else if d == 5 { "5" } else if d == 6 { "6" } else if d == 7 { "7" } else if d == 8 { "8" } else { "9" };
    assert(r@ =~= seq![digit_char(d as nat)]);
    r
}

/// Writes `n` in decimal.
pub fn u64_text(n: u64) -> (r: String)
    ensures
        r@ == decimal(n as nat),
    decreases n,
{
    reveal(decimal);
    if n < 10 {
        String::from_str(digit_str(n))
    } else {
        let mut s = u64_text(n / 10);
        s.append(digit_str(n % 10));
        s
    }
}

/// Writes `i` in decimal, with a leading `-` when negative.
pub fn i32_text(i: i32) -> (r: String)
    ensures
        r@ == int_text(i as int),
{
    if i < 0 {
        let mut s = String::from_str("-");
        let m: i64 = -(i as i64);
        let t = u64_text(m as u64);
        s.append(t.as_str());
        proof { reveal_strlit("-"); }
        assert(s@ =~= seq!['-'] + decimal((-i) as nat));
        s
    } else {
        u64_text(i as u64)
    }
}

/// Writes `n` in decimal.
pub fn usize_text(n: usize) -> (r: String)
    ensures
        r@ == decimal(n as nat),
{
    u64_text(n as u64)
}

/// Whether `c` is an ASCII decimal digit.
pub open spec fn is_digit_byte(c: u8) -> bool {
    48 <= c <= 57
}

/// The value of a string of ASCII decimal digits.
pub open spec fn digits_value(s: Seq<u8>) -> int
    decreases s.len(),
{
    if s.len() == 0 {
        0
    } else {
        digits_value(s.drop_last()) * 10 + (s.last() - 48)
    }
}

/// A non-empty string of ASCII digits whose value fits in a `u32`.
pub open spec fn u32_digits(s: Seq<u8>) -> Option<u32> {
    if s.len() > 0 && (forall|i: int| 0 <= i < s.len() ==> is_digit_byte(#[trigger] s[i])) && digits_value(s) <= u32::MAX {
        Some(digits_value(s) as u32)
    } else {
        None
    }
}

/// What `str::parse::<u32>` reads from the bytes `s`: digits with an
/// optional leading `+`.
pub open spec fn parse_u32(s: Seq<u8>) -> Option<u32> {
    if s.len() > 0 && s[0] == 43u8 {
        u32_digits(s.drop_first())
    } else {
        u32_digits(s)
    }
}

/// The value of a prefix of digits is at most the value of a longer prefix.
proof fn lemma_digits_monotone(s: Seq<u8>, k: int, j: int)
    requires
        0 <= k <= j <= s.len(),
        forall|i: int| 0 <= i < s.len() ==> is_digit_byte(#[trigger] s[i]),
    ensures
        digits_value(s.take(k)) <= digits_value(s.take(j)),
    decreases j - k,
{
    if k < j {
        lemma_digits_monotone(s, k, j - 1);
        assert(s.take(j).drop_last() =~= s.take(j - 1));
        assert(digits_value(s.take(j - 1)) >= 0) by {
            lemma_digits_nonneg(s.take(j - 1));
        }
    }
}

/// The value of a string of digits is not negative.
proof fn lemma_digits_nonneg(s: Seq<u8>)
    requires
        forall|i: int| 0 <= i < s.len() ==> is_digit_byte(#[trigger] s[i]),
    ensures
        digits_value(s) >= 0,
    decreases s.len(),
{
    if s.len() > 0 {
        lemma_digits_nonneg(s.drop_last());
    }
}

/// Reads a `u32` as `str::parse` does: digits with an optional leading `+`,
/// nothing else, and a value that fits.
pub fn parse_u32_exec(text: &str) -> (r: Option<u32>)
    ensures
        r == parse_u32(vstd::utf8::encode_utf8(text@)),
{
    let b = text.as_bytes();
    let ghost s = b@;
    let start: usize = if b.len() > 0 && b[0] == 43u8 { 1 } else { 0 };
    let ghost d = s.subrange(start as int, s.len() as int);
    assert(start == 1 ==> d =~= s.drop_first());
    assert(start == 0 ==> d =~= s);
    if start >= b.len() {
        return None;
    }
    assert(parse_u32(s) == u32_digits(d));
    let mut acc: u64 = 0;
    let mut i: usize = start;
    while i < b.len()
        invariant
            start <= i <= b.len(),
            s == b@,
            s == vstd::utf8::encode_utf8(text@),
            d == s.subrange(start as int, s.len() as int),
            start == 1 ==> d == s.drop_first(),
            start == 0 ==> d == s,
            start == 1 <==> (s.len() > 0 && s[0] == 43u8),
            parse_u32(s) == u32_digits(d),
            d.len() > 0,
            acc == digits_value(d.take(i - start)),
            acc <= u32::MAX,
            forall|k: int| 0 <= k < i - start ==> is_digit_byte(#[trigger] d[k]),
        decreases b.len() - i,
    {
        let c = b[i];
        if c < 48u8 || c > 57u8 {
            assert(!is_digit_byte(d[i - start]));
            return None;
        }
        assert(d.take(i - start + 1).drop_last() =~= d.take(i - start));
        acc = acc * 10 + (c - 48u8) as u64;
        if acc > 4294967295u64 {
            proof {
                if forall|k: int| 0 <= k < d.len() ==> is_digit_byte(#[trigger] d[k]) {
                    lemma_digits_monotone(d, i - start + 1, d.len() as int);
                    assert(d.take(d.len() as int) =~= d);
                }
            }
            return None;
        }
        i = i + 1;
    }
    assert(d.take(d.len() as int) =~= d);
    Some(acc as u32)
}

/// The bytes of ASCII text.
pub open spec fn ascii_bytes(s: Seq<char>) -> Seq<u8> {
    s.map_values(|c: char| c as u8)
}

/// The decimal text of `n` is made of ASCII digits whose value is `n`.
proof fn lemma_decimal_digits(n: nat)
    ensures
        decimal(n).len() > 0,
        forall|i: int| 0 <= i < decimal(n).len() ==> '0' <= #[trigger] decimal(n)[i] <= '9',
        digits_value(ascii_bytes(decimal(n))) == n,
    decreases n,
{
    reveal(decimal);
    if n < 10 {
        let b = ascii_bytes(decimal(n));
        assert(b.drop_last() =~= Seq::<u8>::empty());
        assert(digit_char(n) as u8 == 48 + n);
        assert(b.last() == digit_char(n) as u8);
        assert(digits_value(b) == digits_value(b.drop_last()) * 10 + (b.last() - 48));
        assert(digits_value(Seq::<u8>::empty()) == 0);
    } else {
        lemma_decimal_digits(n / 10);
        let s = decimal(n / 10);
        let t = decimal(n);
        assert(t == s.push(digit_char(n % 10)));
        assert(ascii_bytes(t).drop_last() =~= ascii_bytes(s));
        assert(digit_char(n % 10) as u8 == 48 + n % 10);
        assert(ascii_bytes(t).last() == digit_char(n % 10) as u8);
        assert(digits_value(ascii_bytes(t)) == digits_value(ascii_bytes(s)) * 10 + (ascii_bytes(t).last() - 48));
        assert((n / 10) * 10 + n % 10 == n);
        assert(forall|i: int| 0 <= i < t.len() ==> '0' <= #[trigger] t[i] <= '9') by {
            assert forall|i: int| 0 <= i < t.len() implies '0' <= #[trigger] t[i] <= '9' by {
                if i < s.len() {
                    assert(t[i] == s[i]);
                }
            }
        }
    }
}

/// Writing a number in decimal and reading it back as `str::parse` does
/// gives the number.
pub proof fn law_decimal_parses_back(n: u32)
    ensures
        parse_u32(vstd::utf8::encode_utf8(decimal(n as nat))) == Some(n),
{
    let t = decimal(n as nat);
    lemma_decimal_digits(n as nat);
    assert(vstd::utf8::is_ascii_chars(t));
    vstd::utf8::is_ascii_chars_encode_utf8(t);
    let b = vstd::utf8::encode_utf8(t);
    assert(b =~= ascii_bytes(t));
    assert(b[0] != 43u8);
    assert forall|i: int| 0 <= i < b.len() implies is_digit_byte(#[trigger] b[i]) by {
        assert(b[i] == t[i] as u8);
    }
}

} // verus!
