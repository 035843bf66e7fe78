//! Decimal and hexadecimal numerals: what a numeral denotes, how a number is
//! written, and that reading a written number gives it back.

use vstd::prelude::*;

verus! {

/// `String::push`: the character is added at the end of the string, and
/// nothing else of the string changes.
pub assume_specification[ String::push ](s: &mut String, c: char)
    ensures
        final(s)@ == old(s)@.push(c),
;

pub open spec fn is_digit(c: char) -> bool {
    '0' <= c <= '9'
}

pub open spec fn digit_value(c: char) -> nat {
    (c as int - '0' as int) as nat
}

/// The character for a digit below ten.
pub open spec fn digit_char(d: nat) -> char {
    (d + '0' as nat) as char
}

pub open spec fn all_digits(s: Seq<char>) -> bool {
    forall|i: int| 0 <= i < s.len() ==> is_digit(#[trigger] s[i])
}

/// The number that a string of decimal digits denotes; leading zeros do not count.
pub open spec fn decimal_value(s: Seq<char>) -> nat
    decreases s.len(),
{
    if s.len() == 0 {
        0
    } else {
        10 * decimal_value(s.drop_last()) + digit_value(s.last())
    }
}

/// The shortest decimal numeral of `n`.
pub open spec fn decimal_text(n: nat) -> Seq<char>
    decreases n,
{
    if n < 10 {
        seq![digit_char(n)]
    } else {
        decimal_text(n / 10).push(digit_char(n % 10))
    }
}

/// An unsigned number as the options of a configuration write it: an optional
/// `+`, then at least one digit, denoting at most `max`.
#[verifier::opaque]
pub open spec fn unsigned_of(s: Seq<char>, max: nat) -> Option<nat> {
    let d = if s.len() > 0 && s[0] == '+' {
        s.skip(1)
    } else {
        s
    };
    if d.len() > 0 && all_digits(d) && decimal_value(d) <= max {
        Some(decimal_value(d))
    } else {
        None
    }
}

/// A number at most `max` written as its shortest numeral: digits only, and
/// no leading zero unless the numeral is `0` itself.
pub open spec fn shortest_decimal_of(s: Seq<char>, max: nat) -> Option<nat> {
    if s.len() > 0 && all_digits(s) && (s.len() == 1 || s[0] != '0') && decimal_value(s) <= max {
        Some(decimal_value(s))
    } else {
        None
    }
}

pub open spec fn is_hex_digit(c: char) -> bool {
    ('0' <= c <= '9') || ('a' <= c <= 'f') || ('A' <= c <= 'F')
}

pub open spec fn hex_digit_value(c: char) -> nat {
    if '0' <= c <= '9' {
        (c as int - '0' as int) as nat
    } else if 'a' <= c <= 'f' {
        (c as int - 'a' as int + 10) as nat
    } else {
        (c as int - 'A' as int + 10) as nat
    }
}

/// The lower-case character for a hexadecimal digit below sixteen.
pub open spec fn hex_digit_char(d: nat) -> char {
    if d < 10 {
        (d + '0' as nat) as char
    } else {
        (d - 10 + 'a' as nat) as char
    }
}

pub open spec fn all_hex_digits(s: Seq<char>) -> bool {
    forall|i: int| 0 <= i < s.len() ==> is_hex_digit(#[trigger] s[i])
}

/// The number that a string of hexadecimal digits denotes.
pub open spec fn hex_value(s: Seq<char>) -> nat
    decreases s.len(),
{
    if s.len() == 0 {
        0
    } else {
        16 * hex_value(s.drop_last()) + hex_digit_value(s.last())
    }
}

/// The shortest lower-case hexadecimal numeral of `n`.
pub open spec fn hex_text(n: nat) -> Seq<char>
    decreases n,
{
    if n < 16 {
        seq![hex_digit_char(n)]
    } else {
        hex_text(n / 16).push(hex_digit_char(n % 16))
    }
}

/// A 16-bit group of an IPv6 address: one to four hexadecimal digits of either case.
pub open spec fn hex_group_of(s: Seq<char>) -> Option<u16> {
    if 1 <= s.len() <= 4 && all_hex_digits(s) {
        Some(hex_value(s) as u16)
    } else {
        None
    }
}

/// Digits and their characters correspond.
pub proof fn lemma_digit_chars(d: nat)
    requires
        d < 16,
    ensures
        is_hex_digit(hex_digit_char(d)),
        hex_digit_value(hex_digit_char(d)) == d,
        d < 10 ==> is_digit(digit_char(d)) && digit_value(digit_char(d)) == d,
        d < 10 ==> (d == 0 <==> digit_char(d) == '0'),
{
    let c = hex_digit_char(d);
    if d < 10 {
        assert(c as int == d + 48);
    } else {
        assert(c as int == d - 10 + 97);
    }
}

/// The numeral of a prefix never denotes more than the numeral itself.
pub proof fn lemma_decimal_value_prefix(s: Seq<char>, k: int)
    requires
        0 <= k <= s.len(),
    ensures
        decimal_value(s.take(k)) <= decimal_value(s),
    decreases s.len(),
{
    if k == s.len() {
        assert(s.take(k) =~= s);
    } else {
        assert(s.drop_last().take(k) =~= s.take(k));
        lemma_decimal_value_prefix(s.drop_last(), k);
    }
}

/// One more digit at the end.
pub proof fn lemma_decimal_value_push(s: Seq<char>, c: char)
    ensures
        decimal_value(s.push(c)) == 10 * decimal_value(s) + digit_value(c),
{
    assert(s.push(c).drop_last() =~= s);
}

/// One more hexadecimal digit at the end.
pub proof fn lemma_hex_value_push(s: Seq<char>, c: char)
    ensures
        hex_value(s.push(c)) == 16 * hex_value(s) + hex_digit_value(c),
{
    assert(s.push(c).drop_last() =~= s);
}

/// Up to four hexadecimal digits denote a number that fits sixteen bits.
pub proof fn lemma_hex_value_bound(s: Seq<char>)
    requires
        all_hex_digits(s),
        s.len() <= 4,
    ensures
        s.len() == 0 ==> hex_value(s) == 0,
        s.len() == 1 ==> hex_value(s) < 0x10,
        s.len() == 2 ==> hex_value(s) < 0x100,
        s.len() == 3 ==> hex_value(s) < 0x1000,
        s.len() == 4 ==> hex_value(s) < 0x10000,
    decreases s.len(),
{
    if s.len() > 0 {
        assert(is_hex_digit(s.last()));
        assert forall|i: int| 0 <= i < s.drop_last().len() implies is_hex_digit(
            #[trigger] s.drop_last()[i],
        ) by {
            assert(s.drop_last()[i] == s[i]);
        }
        lemma_hex_value_bound(s.drop_last());
    }
}

/// The shortest numeral is made of digits and starts with `0` only for zero.
pub proof fn lemma_decimal_text_shape(n: nat)
    ensures
        decimal_text(n).len() >= 1,
        all_digits(decimal_text(n)),
        decimal_text(n).len() == 1 || decimal_text(n)[0] != '0',
        decimal_value(decimal_text(n)) == n,
    decreases n,
{
    lemma_digit_chars(n % 10);
    if n < 10 {
        assert(decimal_text(n).drop_last() =~= Seq::<char>::empty());
        assert(decimal_value(Seq::<char>::empty()) == 0);
    } else {
        lemma_decimal_text_shape(n / 10);
        let p = decimal_text(n / 10);
        lemma_decimal_value_push(p, digit_char(n % 10));
        assert(p.push(digit_char(n % 10))[0] == p[0]);
        if p.len() == 1 {
            assert(decimal_value(p) == digit_value(p[0])) by {
                assert(p.drop_last() =~= Seq::<char>::empty());
                assert(decimal_value(Seq::<char>::empty()) == 0);
            }
        }
    }
}

/// Reading the shortest numeral of a number within the limit gives the number.
pub proof fn lemma_shortest_decimal_round_trip(n: nat, max: nat)
    requires
        n <= max,
    ensures
        shortest_decimal_of(decimal_text(n), max) == Some(n),
        unsigned_of(decimal_text(n), max) == Some(n),
{
    reveal(unsigned_of);
    lemma_decimal_text_shape(n);
    assert(is_digit(decimal_text(n)[0]));
}

/// The shortest hexadecimal numeral is made of hexadecimal digits and denotes its number.
pub proof fn lemma_hex_text_shape(n: nat)
    ensures
        hex_text(n).len() >= 1,
        all_hex_digits(hex_text(n)),
        hex_value(hex_text(n)) == n,
        n < 0x10 ==> hex_text(n).len() == 1,
        0x10 <= n < 0x100 ==> hex_text(n).len() == 2,
        0x100 <= n < 0x1000 ==> hex_text(n).len() == 3,
        0x1000 <= n < 0x10000 ==> hex_text(n).len() == 4,
    decreases n,
{
    lemma_digit_chars(n % 16);
    if n < 16 {
        assert(hex_text(n).drop_last() =~= Seq::<char>::empty());
        assert(hex_value(Seq::<char>::empty()) == 0);
    } else {
        lemma_hex_text_shape(n / 16);
        lemma_hex_value_push(hex_text(n / 16), hex_digit_char(n % 16));
    }
}

/// Reading the numeral of a 16-bit group gives the group.
pub proof fn lemma_hex_group_round_trip(g: u16)
    ensures
        hex_group_of(hex_text(g as nat)) == Some(g),
{
    lemma_hex_text_shape(g as nat);
}

/// The character of a decimal digit.
pub fn decimal_digit(d: u8) -> (c: char)
    requires
        d < 10,
    ensures
        c == digit_char(d as nat),
{
    (48u8 + d) as char
}

/// The lower-case character of a hexadecimal digit.
pub fn hex_digit(d: u8) -> (c: char)
    requires
        d < 16,
    ensures
        c == hex_digit_char(d as nat),
{
    if d < 10 {
        (48u8 + d) as char
    } else {
        (97u8 + (d - 10)) as char
    }
}

/// Appends the shortest decimal numeral of `n`.
pub fn push_decimal(out: &mut String, n: u64)
    ensures
        final(out)@ == old(out)@ + decimal_text(n as nat),
    decreases n,
{
    if n >= 10 {
        push_decimal(out, n / 10);
    }
    out.push(decimal_digit((n % 10) as u8));
    assert(final(out)@ =~= old(out)@ + decimal_text(n as nat));
}

/// Appends the shortest lower-case hexadecimal numeral of `n`.
pub fn push_hex(out: &mut String, n: u16)
    ensures
        final(out)@ == old(out)@ + hex_text(n as nat),
    decreases n,
{
    if n >= 16 {
        push_hex(out, n / 16);
    }
    out.push(hex_digit((n % 16) as u8));
    assert(final(out)@ =~= old(out)@ + hex_text(n as nat));
}

/// Reads the digits of `s` from `start` on as a number of at most `max`.
fn read_digits(s: &[char], start: usize, max: u32) -> (r: Option<u32>)
    requires
        start <= s.len(),
    ensures
        ({
            let d = s@.skip(start as int);
            if d.len() > 0 && all_digits(d) && decimal_value(d) <= max {
                r == Some(decimal_value(d) as u32)
            } else {
                r is None
            }
        }),
{
    let ghost d = s@.skip(start as int);
    if start == s.len() {
        return None;
    }
    let mut acc: u64 = 0;
    let mut i: usize = start;
    while i < s.len()
        invariant
            start <= i <= s.len(),
            d == s@.skip(start as int),
            all_digits(d.take(i - start)),
            acc == decimal_value(d.take(i - start)),
            acc <= max,
        decreases s.len() - i,
    {
        let c = s[i];
        assert(d[i - start] == c);
        if !(c >= '0' && c <= '9') {
            return None;
        }
        let v: u64 = (c as u32 - '0' as u32) as u64;
        let next: u64 = acc * 10 + v;
        proof {
            assert(d.take(i - start + 1) =~= d.take(i - start).push(c));
            lemma_decimal_value_push(d.take(i - start), c);
            assert forall|j: int| 0 <= j < i - start + 1 implies is_digit(
                #[trigger] d.take(i - start + 1)[j],
            ) by {
                if j < i - start {
                    assert(d.take(i - start)[j] == d[j]);
                }
            }
        }
        if next > max as u64 {
            proof {
                lemma_decimal_value_prefix(d, i - start + 1);
            }
            return None;
        }
        acc = next;
        i += 1;
    }
    assert(d.take(i - start) =~= d);
    Some(acc as u32)
}

/// Reads an unsigned number: an optional `+` and digits, denoting at most `max`.
pub fn parse_unsigned(s: &[char], max: u32) -> (r: Option<u32>)
    ensures
        match r {
            Some(v) => unsigned_of(s@, max as nat) == Some(v as nat),
            None => unsigned_of(s@, max as nat) is None,
        },
{
    reveal(unsigned_of);
    if s.len() > 0 && s[0] == '+' {
        read_digits(s, 1, max)
    } else {
        assert(s@.skip(0) =~= s@);
        read_digits(s, 0, max)
    }
}

/// Reads the shortest numeral of a number of at most `max`.
pub fn parse_shortest_decimal(s: &[char], max: u32) -> (r: Option<u32>)
    ensures
        match r {
            Some(v) => shortest_decimal_of(s@, max as nat) == Some(v as nat),
            None => shortest_decimal_of(s@, max as nat) is None,
        },
{
    assert(s@.skip(0) =~= s@);
    if s.len() > 1 && s[0] == '0' {
        return None;
    }
    read_digits(s, 0, max)
}

/// Reads one 16-bit group of an IPv6 address.
pub fn parse_hex_group(s: &[char]) -> (r: Option<u16>)
    ensures
        r == hex_group_of(s@),
{
    if s.len() == 0 || s.len() > 4 {
        return None;
    }
    let mut acc: u32 = 0;
    let mut i: usize = 0;
    while i < s.len()
        invariant
            i <= s.len() <= 4,
            all_hex_digits(s@.take(i as int)),
            acc == hex_value(s@.take(i as int)),
            acc < 0x10000,
        decreases s.len() - i,
    {
        let c = s[i];
        let v: u32 = if c >= '0' && c <= '9' {
            c as u32 - '0' as u32
        } else if c >= 'a' && c <= 'f' {
            c as u32 - 'a' as u32 + 10
        } else if c >= 'A' && c <= 'F' {
            c as u32 - 'A' as u32 + 10
        } else {
            return None;
        };
        proof {
            assert(s@.take(i + 1) =~= s@.take(i as int).push(c));
            lemma_hex_value_push(s@.take(i as int), c);
            assert forall|j: int| 0 <= j < i + 1 implies is_hex_digit(
                #[trigger] s@.take(i + 1)[j],
            ) by {
                if j < i {
                    assert(s@.take(i as int)[j] == s@[j]);
                }
            }
            lemma_hex_value_bound(s@.take(i as int));
            lemma_hex_value_bound(s@.take(i + 1));
        }
        acc = acc * 16 + v;
        i += 1;
    }
    assert(s@.take(i as int) =~= s@);
    Some(acc as u16)
}

} // verus!
