//! Reading and writing numbers in text: decimal fields as they stand in a
//! date or a time of day, and the digits that identifiers are made of.

use vstd::prelude::*;
use vstd::string::StringExecFns;

verus! {

/// `c` is one of the ten decimal digits.
pub open spec fn is_digit(c: char) -> bool {
    48 <= c as int <= 57
}

/// The number that a decimal digit stands for.
pub open spec fn digit_value(c: char) -> nat {
    (c as int - 48) as nat
}

/// The decimal digit for a number below ten.
pub open spec fn digit_char(d: nat) -> char {
    (d + 48) as char
}

/// The lower-case hexadecimal digit for a number below sixteen.
pub open spec fn hex_char(d: nat) -> char {
    if d < 10 {
        (d + 48) as char
    } else {
        (d + 87) as char
    }
}

/// Every character of `s` is a decimal digit.
pub open spec fn all_digits(s: Seq<char>) -> bool {
    forall|i: int| 0 <= i < s.len() ==> is_digit(#[trigger] s[i])
}

/// The number that a sequence of decimal digits writes, the empty sequence
/// writing zero.
pub open spec fn decimal_value(s: Seq<char>) -> nat
    decreases s.len(),
{
    if s.len() == 0 {
        0
    } else {
        decimal_value(s.drop_last()) * 10 + digit_value(s.last())
    }
}

/// A field without the plus sign that may stand in front of it.
pub open spec fn unsigned_part(s: Seq<char>) -> Seq<char> {
    if s.len() > 0 && s[0] == '+' {
        s.skip(1)
    } else {
        s
    }
}

/// The number that a field writes: an optional plus sign, then one or more
/// decimal digits and nothing else, the number being at most `max`.
pub open spec fn number_in(s: Seq<char>, max: nat) -> Option<nat> {
    let digits = unsigned_part(s);
    if digits.len() > 0 && all_digits(digits) && decimal_value(digits) <= max {
        Some(decimal_value(digits))
    } else {
        None
    }
}

/// Where `c` first stands in `s`; the length of `s` if it stands nowhere.
pub open spec fn first_index(s: Seq<char>, c: char) -> int
    decreases s.len(),
{
    if s.len() == 0 {
        0
    } else if s[0] == c {
        0
    } else {
        1 + first_index(s.skip(1), c)
    }
}

/// What stands before and after the first `c` in `s`, if there is one.
pub open spec fn split_once(s: Seq<char>, c: char) -> Option<(Seq<char>, Seq<char>)> {
    let i = first_index(s, c);
    if i < s.len() {
        Some((s.take(i), s.skip(i + 1)))
    } else {
        None
    }
}

/// The shortest decimal writing of `n`.
pub open spec fn decimal_digits(n: nat) -> Seq<char>
    decreases n,
{
    if n < 10 {
        seq![digit_char(n)]
    } else {
        decimal_digits(n / 10).push(digit_char(n % 10))
    }
}

/// `count` zeros.
pub open spec fn zeros(count: nat) -> Seq<char> {
    Seq::new(count, |i: int| '0')
}

/// The decimal writing of `n`, with zeros in front where it has fewer than
/// `width` digits.
pub open spec fn zero_padded(n: nat, width: nat) -> Seq<char> {
    let digits = decimal_digits(n);
    if digits.len() >= width {
        digits
    } else {
        zeros((width - digits.len()) as nat) + digits
    }
}

/// The shortest lower-case hexadecimal writing of `n`.
pub open spec fn hex_digits(n: nat) -> Seq<char>
    decreases n,
{
    if n < 16 {
        seq![hex_char(n)]
    } else {
        hex_digits(n / 16).push(hex_char(n % 16))
    }
}

/// `first_index` is the position of a character before which the
/// character does not stand.
pub proof fn lemma_first_index_at(s: Seq<char>, c: char, k: int)
    requires
        0 <= k <= s.len(),
        forall|j: int| 0 <= j < k ==> s[j] != c,
        k < s.len() ==> s[k] == c,
    ensures
        first_index(s, c) == k,
    decreases k,
{
    if k > 0 {
        let rest = s.skip(1);
        assert forall|j: int| 0 <= j < k - 1 implies rest[j] != c by {
            assert(rest[j] == s[j + 1]);
        }
        lemma_first_index_at(rest, c, k - 1);
    }
}

/// Digits appended to a number never make it smaller.
pub proof fn lemma_decimal_value_grows(s: Seq<char>, k: int)
    requires
        0 <= k <= s.len(),
    ensures
        decimal_value(s.take(k)) <= decimal_value(s),
    decreases s.len(),
{
    if k < s.len() {
        let shorter = s.drop_last();
        lemma_decimal_value_grows(shorter, k);
        assert(shorter.take(k) == s.take(k));
    } else {
        assert(s.take(k) == s);
    }
}

/// Zeros in front of a number do not change it.
pub proof fn lemma_leading_zeros(count: nat, s: Seq<char>)
    ensures
        decimal_value(zeros(count) + s) == decimal_value(s),
    decreases s.len(), count,
{
    let whole = zeros(count) + s;
    if s.len() > 0 {
        assert(whole.drop_last() == zeros(count) + s.drop_last());
        assert(whole.last() == s.last());
        lemma_leading_zeros(count, s.drop_last());
    } else if count > 0 {
        assert(whole.drop_last() == zeros((count - 1) as nat) + s);
        assert(whole.last() == '0');
        lemma_leading_zeros((count - 1) as nat, s);
    } else {
        assert(whole == s);
    }
}

/// The decimal writing of a number is made of digits and writes that number.
pub proof fn lemma_decimal_digits(n: nat)
    ensures
        decimal_digits(n).len() >= 1,
        all_digits(decimal_digits(n)),
        decimal_value(decimal_digits(n)) == n,
    decreases n,
{
    let d = decimal_digits(n);
    if n < 10 {
        assert(d.drop_last() == Seq::<char>::empty());
        assert(decimal_value(d.drop_last()) == 0);
    } else {
        lemma_decimal_digits(n / 10);
        assert(d.drop_last() == decimal_digits(n / 10));
    }
}

/// Reading what was written gives the number back: a number that is
/// written with zeros in front is read as itself.
pub proof fn lemma_number_in_zero_padded(n: nat, width: nat, max: nat)
    requires
        n <= max,
    ensures
        zero_padded(n, width).len() >= 1,
        all_digits(zero_padded(n, width)),
        number_in(zero_padded(n, width), max) == Some(n),
{
    lemma_decimal_digits(n);
    let digits = decimal_digits(n);
    if digits.len() < width {
        lemma_leading_zeros((width - digits.len()) as nat, digits);
    }
    let text = zero_padded(n, width);
    assert(is_digit(text[0]));
    assert(unsigned_part(text) == text);
}

/// The characters of a string slice, in order.
pub fn chars_of(s: &str) -> (v: Vec<char>)
    ensures
        v@ == s@,
{
    let mut v: Vec<char> = Vec::new();
    for c in it: s.chars()
        invariant
            it.seq() == s@,
            v@ == it.seq().take(it.index()),
    {
        v.push(c);
    }
    v
}

/// Looks for `c` in `chars` from `from` on and returns where it first
/// stands, or the length of `chars`.
pub fn find_from(chars: &Vec<char>, from: usize, c: char) -> (i: usize)
    requires
        from <= chars.len(),
    ensures
        from <= i <= chars.len(),
        i - from == first_index(chars@.skip(from as int), c),
{
    let mut i: usize = from;
    while i < chars.len() && chars[i] != c
        invariant
            from <= i <= chars.len(),
            forall|j: int| from <= j < i ==> chars@[j] != c,
        decreases chars.len() - i,
    {
        i += 1;
    }
    proof {
        lemma_first_index_at(chars@.skip(from as int), c, i - from);
    }
    i
}

/// Reads the field that `chars` holds from `from` up to `to`.
pub fn parse_number(chars: &Vec<char>, from: usize, to: usize, max: u32) -> (r: Option<u32>)
    requires
        from <= to <= chars.len(),
    ensures
        match r {
            Some(n) => number_in(chars@.subrange(from as int, to as int), max as nat) == Some(
                n as nat,
            ),
            None => number_in(chars@.subrange(from as int, to as int), max as nat).is_none(),
        },
{
    let ghost field = chars@.subrange(from as int, to as int);
    let start: usize = if from < to && chars[from] == '+' {
        from + 1
    } else {
        from
    };
    let ghost digits = chars@.subrange(start as int, to as int);
    assert(digits == unsigned_part(field));
    if start == to {
        return None;
    }
    let mut value: u64 = 0;
    let mut i: usize = start;
    while i < to
        invariant
            start <= i <= to <= chars.len(),
            field == chars@.subrange(from as int, to as int),
            digits == chars@.subrange(start as int, to as int),
            digits == unsigned_part(field),
            all_digits(digits.take(i - start)),
            value == decimal_value(digits.take(i - start)),
            value <= max,
        decreases to - i,
    {
        let c = chars[i];
        if c < '0' || c > '9' {
            assert(!is_digit(digits[i - start]));
            return None;
        }
        let d: u64 = (c as u32 - 48) as u64;
        let ghost longer = digits.take(i - start + 1);
        assert(longer.drop_last() == digits.take(i - start));
        assert(longer.last() == c);
        if value * 10 + d > max as u64 {
            proof {
                lemma_decimal_value_grows(digits, i - start + 1);
            }
            return None;
        }
        value = value * 10 + d;
        i += 1;
    }
    assert(digits.take(i - start) == digits);
    Some(value as u32)
}

/// The text of one decimal digit.
fn digit_text(d: u8) -> (s: &'static str)
    requires
        d < 10,
    ensures
        s@ == seq![digit_char(d as nat)],
{
    proof {
        reveal_strlit("0");
        reveal_strlit("1");
        reveal_strlit("2");
        reveal_strlit("3");
        reveal_strlit("4");
        reveal_strlit("5");
        reveal_strlit("6");
        reveal_strlit("7");
        reveal_strlit("8");
        reveal_strlit("9");
    }
    let s = match d {
        0 => "0",
        1 => "1",
        2 => "2",
        3 => "3",
        4 => "4",
        5 => "5",
        6 => "6",
        7 => "7",
        8 => "8",
        _ => "9",
    };
    assert(s@ =~= seq![digit_char(d as nat)]);
    s
}

/// The text of one lower-case hexadecimal digit.
fn hex_text(d: u8) -> (s: &'static str)
    requires
        d < 16,
    ensures
        s@ == seq![hex_char(d as nat)],
{
    if d < 10 {
        digit_text(d)
    } else {
        proof {
            reveal_strlit("a");
            reveal_strlit("b");
            reveal_strlit("c");
            reveal_strlit("d");
            reveal_strlit("e");
            reveal_strlit("f");
        }
        let s = match d {
            10 => "a",
            11 => "b",
            12 => "c",
            13 => "d",
            14 => "e",
            _ => "f",
        };
        assert(s@ =~= seq![hex_char(d as nat)]);
        s
    }
}

/// Appends the shortest decimal writing of `n` to `out`.
pub fn push_decimal(out: &mut String, n: u64)
    ensures
        final(out)@ == old(out)@ + decimal_digits(n as nat),
    decreases n,
{
    if n >= 10 {
        push_decimal(out, n / 10);
    }
    out.append(digit_text((n % 10) as u8));
    assert(out@ =~= old(out)@ + decimal_digits(n as nat));
}

/// Appends the decimal writing of `n` to `out`, with zeros in front where
/// it has fewer than `width` digits.
pub fn push_zero_padded(out: &mut String, n: u64, width: usize)
    ensures
        final(out)@ == old(out)@ + zero_padded(n as nat, width as nat),
{
    let mut count: usize = 1;
    let mut rest: u64 = n / 10;
    proof {
        reveal_with_fuel(decimal_digits, 2);
    }
    while rest > 0 && count < width
        invariant
            decimal_digits(n as nat).len() == count + (if rest > 0 {
                decimal_digits(rest as nat).len()
            } else {
                0
            }),
            count == 1 || count <= width,
        decreases rest,
    {
        proof {
            reveal_with_fuel(decimal_digits, 2);
        }
        rest = rest / 10;
        count += 1;
    }
    proof {
        assert(zeros(0) =~= Seq::<char>::empty());
        assert(old(out)@ + zeros(0) =~= old(out)@);
    }
    if rest == 0 {
        let mut written: usize = count;
        while written < width
            invariant
                count <= written,
                written <= width || written == count,
                out@ == old(out)@ + zeros((written - count) as nat),
            decreases width - written,
        {
            proof {
                reveal_strlit("0");
            }
            out.append("0");
            written += 1;
            assert(out@ =~= old(out)@ + zeros((written - count) as nat));
        }
    }
    push_decimal(out, n);
    assert(out@ =~= old(out)@ + zero_padded(n as nat, width as nat));
}

/// Appends the shortest lower-case hexadecimal writing of `n` to `out`.
pub fn push_hex(out: &mut String, n: u32)
    ensures
        final(out)@ == old(out)@ + hex_digits(n as nat),
    decreases n,
{
    if n >= 16 {
        push_hex(out, n / 16);
    }
    out.append(hex_text((n % 16) as u8));
    assert(out@ =~= old(out)@ + hex_digits(n as nat));
}

} // verus!
