//! Decimal integers: parsing with the rules of `str::parse` and rendering
//! with the rules of `Display`.

use vstd::prelude::*;
use crate::text::push_char;

verus! {

/// An ASCII decimal digit.
pub open spec fn is_digit(c: char) -> bool {
    '0' <= c <= '9'
}

/// Value of a decimal digit.
pub open spec fn digit_val(c: char) -> int {
    (c as int) - ('0' as int)
}

/// Every character is a decimal digit.
pub open spec fn all_digits(s: Seq<char>) -> bool {
    forall|i: int| 0 <= i < s.len() ==> is_digit(#[trigger] s[i])
}

/// The number written by a string of digits.
pub open spec fn digits_value(s: Seq<char>) -> nat
    decreases s.len(),
{
    if s.len() == 0 {
        0
    } else {
        (digits_value(s.drop_last()) * 10 + digit_val(s.last())) as nat
    }
}

/// `str::parse` for an unsigned integer type whose maximum is `max`: an
/// optional `+`, then one or more digits whose value fits.
pub open spec fn parse_unsigned(s: Seq<char>, max: int) -> Option<nat> {
    let d = if s.len() > 0 && s[0] == '+' {
        s.drop_first()
    } else {
        s
    };
    if d.len() > 0 && all_digits(d) && digits_value(d) <= max {
        Some(digits_value(d))
    } else {
        None
    }
}

/// `str::parse::<i64>`: an optional sign, then one or more digits whose
/// signed value fits in `i64`.
pub open spec fn parse_i64_spec(s: Seq<char>) -> Option<int> {
    if s.len() > 0 && s[0] == '-' {
        let d = s.drop_first();
        if d.len() > 0 && all_digits(d) && digits_value(d) <= 0x8000_0000_0000_0000 {
            Some(-(digits_value(d) as int))
        } else {
            None
        }
    } else {
        match parse_unsigned(s, i64::MAX as int) {
            Some(v) => Some(v as int),
            None => None,
        }
    }
}

proof fn lemma_digits_value_push(s: Seq<char>, c: char)
    requires
        is_digit(c),
    ensures
        digits_value(s.push(c)) == digits_value(s) * 10 + digit_val(c),
{
    assert(s.push(c).drop_last() =~= s);
}

/// Value of the digits `s[from..to]`, or `None` when it exceeds `max` or a
/// character is not a digit.
fn digits_in(s: &[char], from: usize, to: usize, max: u64) -> (r: Option<u64>)
    requires
        from <= to <= s@.len(),
    ensures
        match r {
            Some(v) => all_digits(s@.subrange(from as int, to as int)) && v == digits_value(
                s@.subrange(from as int, to as int),
            ) && v <= max,
            None => !(all_digits(s@.subrange(from as int, to as int)) && digits_value(
                s@.subrange(from as int, to as int),
            ) <= max),
        },
{
    let mut acc: u64 = 0;
    let mut i = from;
    while i < to
        invariant
            from <= i <= to <= s@.len(),
            all_digits(s@.subrange(from as int, i as int)),
            acc == digits_value(s@.subrange(from as int, i as int)),
            acc <= max,
        decreases to - i,
    {
        let c = s[i];
        if !('0' <= c && c <= '9') {
            assert(s@.subrange(from as int, to as int)[i - from] == c);
            return None;
        }
        proof {
            lemma_digits_value_push(s@.subrange(from as int, i as int), c);
            assert(s@.subrange(from as int, i + 1) =~= s@.subrange(from as int, i as int).push(c));
        }
        let d = (c as u64) - ('0' as u64);
        if d > max || acc > (max - d) / 10 {
            proof {
                // the remaining digits can only make the value larger
                lemma_prefix_value_le(s@.subrange(from as int, to as int), i + 1 - from);
                assert(s@.subrange(from as int, to as int).take(i + 1 - from) =~= s@.subrange(
                    from as int,
                    i + 1,
                ));
                if d <= max {
                    assert(acc * 10 + d > max) by (nonlinear_arith)
                        requires
                            acc > (max - d) / 10,
                            d <= max,
                    ;
                }
            }
            return None;
        }
        assert(acc * 10 + d <= max) by (nonlinear_arith)
            requires
                acc <= (max - d) / 10,
                d <= max,
        ;
        acc = acc * 10 + d;
        i += 1;
    }
    Some(acc)
}

/// Executable `all_digits` on `s[from..to]`.
pub fn all_digits_range(s: &[char], from: usize, to: usize) -> (r: bool)
    requires
        from <= to <= s@.len(),
    ensures
        r == all_digits(s@.subrange(from as int, to as int)),
{
    let mut i = from;
    while i < to
        invariant
            from <= i <= to <= s@.len(),
            forall|k: int| from <= k < i ==> is_digit(#[trigger] s@[k]),
        decreases to - i,
    {
        if !('0' <= s[i] && s[i] <= '9') {
            assert(s@.subrange(from as int, to as int)[i - from] == s@[i as int]);
            return false;
        }
        i += 1;
    }
    assert forall|k: int| 0 <= k < to - from implies is_digit(
        #[trigger] s@.subrange(from as int, to as int)[k],
    ) by {
        assert(s@.subrange(from as int, to as int)[k] == s@[from + k]);
    }
    true
}

/// A prefix of an all-digit string never has a larger value.
proof fn lemma_prefix_value_le(s: Seq<char>, k: int)
    requires
        0 <= k <= s.len(),
    ensures
        all_digits(s) ==> digits_value(s.take(k)) <= digits_value(s),
    decreases s.len() - k,
{
    if k < s.len() {
        lemma_prefix_value_le(s, k + 1);
        let t = s.take(k + 1);
        assert(t.drop_last() =~= s.take(k));
        if all_digits(s) {
            assert(is_digit(s[k]));
            assert(t.last() == s[k]);
        }
    } else {
        assert(s.take(k) =~= s);
    }
}

/// `str::parse::<u64>` (and narrower unsigned types via `max`) on `s[from..to]`.
pub fn parse_unsigned_range(s: &[char], from: usize, to: usize, max: u64) -> (r: Option<u64>)
    requires
        from <= to <= s@.len(),
    ensures
        match parse_unsigned(s@.subrange(from as int, to as int), max as int) {
            Some(v) => r == Some(v as u64),
            None => r is None,
        },
{
    let ghost t = s@.subrange(from as int, to as int);
    let mut a = from;
    if a < to && s[a] == '+' {
        a += 1;
        assert(t.drop_first() =~= s@.subrange(a as int, to as int));
    } else {
        if a < to {
            assert(t[0] == s@[from as int]);
        }
    }
    if a == to {
        return None;
    }
    digits_in(s, a, to, max)
}

/// `str::parse::<i64>` on `s[from..to]`.
pub fn parse_i64_range(s: &[char], from: usize, to: usize) -> (r: Option<i64>)
    requires
        from <= to <= s@.len(),
    ensures
        match parse_i64_spec(s@.subrange(from as int, to as int)) {
            Some(v) => r == Some(v as i64),
            None => r is None,
        },
{
    let ghost t = s@.subrange(from as int, to as int);
    if from < to && s[from] == '-' {
        assert(t[0] == s@[from as int]);
        assert(t.drop_first() =~= s@.subrange(from + 1, to as int));
        if from + 1 == to {
            return None;
        }
        match digits_in(s, from + 1, to, 0x8000_0000_0000_0000u64) {
            Some(v) => {
                if v == 0x8000_0000_0000_0000u64 {
                    Some(i64::MIN)
                } else {
                    Some(-(v as i64))
                }
            },
            None => None,
        }
    } else {
        if from < to {
            assert(t[0] == s@[from as int]);
        }
        match parse_unsigned_range(s, from, to, i64::MAX as u64) {
            Some(v) => Some(v as i64),
            None => None,
        }
    }
}

/// The character for a digit value.
pub open spec fn digit_char(d: int) -> char {
    ((d + ('0' as int)) as u32) as char
}

/// `Display` for a natural number: its decimal digits, no leading zeros.
pub open spec fn decimal(n: nat) -> Seq<char>
    decreases n,
{
    if n < 10 {
        seq![digit_char(n as int)]
    } else {
        decimal(n / 10).push(digit_char((n % 10) as int))
    }
}

/// `Display` for a signed integer.
pub open spec fn decimal_int(n: int) -> Seq<char> {
    if n < 0 {
        seq!['-'] + decimal((-n) as nat)
    } else {
        decimal(n as nat)
    }
}

proof fn lemma_digit_char(k: int)
    requires
        0 <= k < 10,
    ensures
        is_digit(digit_char(k)),
        digit_val(digit_char(k)) == k,
{
    assert((((k + 48) as u32) as char) as int == k + 48);
}

/// Decimal text is all digits, never empty, and reads back as the number.
pub proof fn lemma_decimal(n: nat)
    ensures
        decimal(n).len() > 0,
        all_digits(decimal(n)),
        digits_value(decimal(n)) == n,
        decimal(n)[0] != '+' && decimal(n)[0] != '-',
    decreases n,
{
    lemma_digit_char((n % 10) as int);
    if n >= 10 {
        lemma_decimal(n / 10);
        let d = decimal(n / 10);
        assert(decimal(n) == d.push(digit_char((n % 10) as int)));
        lemma_digits_value_push(d, digit_char((n % 10) as int));
        assert(n == (n / 10) * 10 + n % 10);
        assert(decimal(n)[0] == d[0]);
        assert forall|i: int| 0 <= i < decimal(n).len() implies is_digit(#[trigger] decimal(n)[i]) by {
            if i < d.len() {
                assert(decimal(n)[i] == d[i]);
            }
        }
    } else {
        let c = digit_char(n as int);
        assert(decimal(n) == seq![c]);
        assert(seq![c].drop_last() =~= Seq::<char>::empty());
        assert(seq![c].last() == c);
        assert(digits_value(Seq::<char>::empty()) == 0);
        assert(digits_value(seq![c]) == digit_val(c));
    }
}

/// `parse` reads back what `Display` wrote.
pub proof fn lemma_parse_decimal_int(n: int)
    requires
        i64::MIN <= n <= i64::MAX,
    ensures
        parse_i64_spec(decimal_int(n)) == Some(n),
{
    if n < 0 {
        lemma_decimal((-n) as nat);
        assert((seq!['-'] + decimal((-n) as nat)).drop_first() =~= decimal((-n) as nat));
    } else {
        lemma_decimal(n as nat);
    }
}

/// Appends `decimal(n)` to `s`.
pub fn push_decimal(s: &mut String, n: u64)
    ensures
        final(s)@ == old(s)@ + decimal(n as nat),
    decreases n,
{
    if n >= 10 {
        push_decimal(s, n / 10);
    }
    let d = n % 10;
    push_char(s, ((d as u8) + 48u8) as char);
    proof {
        if n >= 10 {
            assert(old(s)@ + decimal((n / 10) as nat).push(digit_char((n % 10) as int)) =~= (old(
                s,
            )@ + decimal((n / 10) as nat)).push(digit_char((n % 10) as int)));
        } else {
            assert(old(s)@.push(digit_char(n as int)) =~= old(s)@ + seq![digit_char(n as int)]);
        }
    }
}

/// Appends `decimal_int(n)` to `s`.
pub fn push_decimal_i64(s: &mut String, n: i64)
    ensures
        final(s)@ == old(s)@ + decimal_int(n as int),
{
    if n < 0 {
        push_char(s, '-');
        let m: u64 = if n == i64::MIN {
            0x8000_0000_0000_0000u64
        } else {
            (-n) as u64
        };
        push_decimal(s, m);
        assert(old(s)@.push('-') + decimal(m as nat) =~= old(s)@ + (seq!['-'] + decimal(
            m as nat,
        )));
    } else {
        push_decimal(s, n as u64);
    }
}

} // verus!
