//! Whole numbers in decimal notation: reading them from text and writing them.

use vstd::prelude::*;

verus! {

/// Whether `c` is one of the digits `0` to `9`.
pub open spec fn is_digit(c: char) -> bool {
    '0' <= c <= '9'
}

/// Whether `s` holds digits only.
pub open spec fn all_digits(s: Seq<char>) -> bool {
    forall|i: int| 0 <= i < s.len() ==> is_digit(#[trigger] s[i])
}

/// The value of the digit `c`.
pub open spec fn digit_value(c: char) -> int {
    c as int - '0' as int
}

/// The number that the digits of `s` write, the empty text counting as 0.
pub open spec fn digits_value(s: Seq<char>) -> int
    decreases s.len(),
{
    if s.len() == 0 {
        0
    } else {
        digits_value(s.drop_last()) * 10 + digit_value(s.last())
    }
}

/// The number that `s` writes, where it is one between `min` and `max`: an
/// optional sign (`-` only where `min` is negative, `+` always), then one or
/// more digits and nothing else.
pub open spec fn parsed(s: Seq<char>, min: int, max: int) -> Option<int> {
    let negative = min < 0 && s.len() > 0 && s[0] == '-';
    let signed = negative || (s.len() > 0 && s[0] == '+');
    let digits = if signed {
        s.skip(1)
    } else {
        s
    };
    let value = if negative {
        -digits_value(digits)
    } else {
        digits_value(digits)
    };
    if digits.len() > 0 && all_digits(digits) && min <= value <= max {
        Some(value)
    } else {
        None
    }
}

/// The value of digits is not negative, and a longer run of digits that
/// starts with them is worth at least as much.
pub proof fn lemma_digits_grow(s: Seq<char>, n: int)
    requires
        all_digits(s),
        0 <= n <= s.len(),
    ensures
        0 <= digits_value(s.take(n)) <= digits_value(s),
    decreases s.len() - n,
{
    lemma_digits_nonnegative(s.take(n));
    if n == s.len() {
        assert(s.take(n) =~= s);
    } else {
        assert(s.take(n + 1).drop_last() =~= s.take(n));
        assert(is_digit(s[n]));
        assert(s.take(n + 1).last() == s[n]);
        lemma_digits_grow(s, n + 1);
    }
}

/// The value of digits is not negative.
pub proof fn lemma_digits_nonnegative(s: Seq<char>)
    requires
        all_digits(s),
    ensures
        0 <= digits_value(s),
    decreases s.len(),
{
    if s.len() > 0 {
        assert(is_digit(s.last()));
        lemma_digits_nonnegative(s.drop_last());
    }
}

/// Reads the digits `s[from..]` as a number of at most `limit`. Returns
/// nothing where `s[from..]` is empty, holds another character or is worth
/// more than `limit`.
fn read_digits(s: &[char], from: usize, limit: u64) -> (r: Option<u64>)
    requires
        from <= s.len(),
        limit >= 9,
    ensures
        r.is_some() == (from < s.len() && all_digits(s@.skip(from as int)) && digits_value(
            s@.skip(from as int),
        ) <= limit),
        r matches Some(v) ==> v == digits_value(s@.skip(from as int)),
{
    if from >= s.len() {
        return None;
    }
    let ghost d = s@.skip(from as int);
    let mut acc: u64 = 0;
    let mut i: usize = from;
    assert(d.take(0) =~= Seq::<char>::empty());
    while i < s.len()
        invariant
            from <= i <= s.len(),
            d == s@.skip(from as int),
            all_digits(d.take(i - from)),
            acc == digits_value(d.take(i - from)),
            acc <= limit,
            limit >= 9,
        decreases s.len() - i,
    {
        let c = s[i];
        assert(d[i - from] == c);
        if c < '0' || c > '9' {
            assert(!is_digit(d[i - from]));
            return None;
        }
        let v: u64 = (c as u32 - '0' as u32) as u64;
        proof {
            assert(d.take(i - from + 1).drop_last() =~= d.take(i - from));
            assert(d.take(i - from + 1).last() == c);
            assert forall|k: int| 0 <= k < i - from + 1 implies is_digit(
                #[trigger] d.take(i - from + 1)[k],
            ) by {
                if k < i - from {
                    assert(d.take(i - from)[k] == d[k]);
                }
            }
        }
        if acc > (limit - v) / 10 {
            proof {
                let next = d.take(i - from + 1);
                assert(digits_value(next) == acc * 10 + v);
                assert(acc * 10 + v > limit) by (nonlinear_arith)
                    requires
                        acc > (limit - v) / 10,
                        0 <= v <= 9,
                        0 <= acc <= limit,
                ;
                if all_digits(d) {
                    lemma_digits_grow(d, i - from + 1);
                }
            }
            return None;
        }
        assert(acc * 10 + v <= limit) by (nonlinear_arith)
            requires
                acc <= (limit - v) / 10,
                0 <= v <= limit,
        ;
        acc = acc * 10 + v;
        i += 1;
    }
    assert(d.take(d.len() as int) =~= d);
    Some(acc)
}

/// Reads `s` as a number of 64 bits without sign.
pub fn parse_u64(s: &[char]) -> (r: Option<u64>)
    ensures
        r.is_some() == parsed(s@, 0, u64::MAX as int).is_some(),
        r matches Some(v) ==> parsed(s@, 0, u64::MAX as int) == Some(v as int),
{
    let from: usize = if s.len() > 0 && s[0] == '+' {
        1
    } else {
        0
    };
    assert(s@.skip(0) =~= s@);
    proof {
        if all_digits(s@.skip(from as int)) {
            lemma_digits_nonnegative(s@.skip(from as int));
        }
    }
    read_digits(s, from, u64::MAX)
}

/// Reads `s` as a number of 64 bits with sign.
pub fn parse_i64(s: &[char]) -> (r: Option<i64>)
    ensures
        r.is_some() == parsed(s@, i64::MIN as int, i64::MAX as int).is_some(),
        r matches Some(v) ==> parsed(s@, i64::MIN as int, i64::MAX as int) == Some(v as int),
{
    assert(s@.skip(0) =~= s@);
    if s.len() > 0 && s[0] == '-' {
        proof {
            if all_digits(s@.skip(1)) {
                lemma_digits_nonnegative(s@.skip(1));
            }
        }
        match read_digits(s, 1, 0x8000_0000_0000_0000u64) {
            Some(v) => {
                if v == 0x8000_0000_0000_0000u64 {
                    Some(i64::MIN)
                } else {
                    Some(-(v as i64))
                }
            },
            None => None,
        }
    } else {
        let from: usize = if s.len() > 0 && s[0] == '+' {
            1
        } else {
            0
        };
        proof {
            if all_digits(s@.skip(from as int)) {
                lemma_digits_nonnegative(s@.skip(from as int));
            }
        }
        match read_digits(s, from, 0x7fff_ffff_ffff_ffffu64) {
            Some(v) => Some(v as i64),
            None => None,
        }
    }
}

/// Reads `s` as a number of 32 bits with sign.
pub fn parse_i32(s: &[char]) -> (r: Option<i32>)
    ensures
        r.is_some() == parsed(s@, i32::MIN as int, i32::MAX as int).is_some(),
        r matches Some(v) ==> parsed(s@, i32::MIN as int, i32::MAX as int) == Some(v as int),
{
    assert(s@.skip(0) =~= s@);
    if s.len() > 0 && s[0] == '-' {
        proof {
            if all_digits(s@.skip(1)) {
                lemma_digits_nonnegative(s@.skip(1));
            }
        }
        match read_digits(s, 1, 0x8000_0000u64) {
            Some(v) => Some((-(v as i64)) as i32),
            None => None,
        }
    } else {
        let from: usize = if s.len() > 0 && s[0] == '+' {
            1
        } else {
            0
        };
        proof {
            if all_digits(s@.skip(from as int)) {
                lemma_digits_nonnegative(s@.skip(from as int));
            }
        }
        match read_digits(s, from, 0x7fff_ffffu64) {
            Some(v) => Some(v as i32),
            None => None,
        }
    }
}

/// The digit that writes `d`, a number from 0 to 9.
pub open spec fn digit_char(d: int) -> char {
    (d + '0' as int) as char
}

/// The digits that write `n` without leading zeros (`0` for zero).
pub open spec fn digits_of(n: nat) -> Seq<char>
    decreases n,
{
    if n < 10 {
        seq![digit_char(n as int)]
    } else {
        digits_of(n / 10).push(digit_char((n % 10) as int))
    }
}

/// `n` in decimal notation: `-` before a negative number, no sign otherwise.
pub open spec fn decimal(n: int) -> Seq<char> {
    if n < 0 {
        seq!['-'] + digits_of((-n) as nat)
    } else {
        digits_of(n as nat)
    }
}

/// The digits that write `n` are digits, at least one, and are worth `n`.
pub proof fn lemma_digits_of(n: nat)
    ensures
        digits_of(n).len() > 0,
        all_digits(digits_of(n)),
        digits_value(digits_of(n)) == n,
    decreases n,
{
    let last = digit_char((n % 10) as int);
    assert(is_digit(last) && digit_value(last) == n % 10);
    if n < 10 {
        assert(digits_of(n).drop_last() =~= Seq::<char>::empty());
        assert(digits_value(Seq::<char>::empty()) == 0);
        assert(digits_of(n).last() == last);
    } else {
        lemma_digits_of(n / 10);
        let d = digits_of(n);
        assert(d.drop_last() =~= digits_of(n / 10));
        assert(d.last() == last);
        assert(digits_value(d) == digits_value(d.drop_last()) * 10 + digit_value(d.last()));
        assert forall|i: int| 0 <= i < d.len() implies is_digit(#[trigger] d[i]) by {
            if i < d.len() - 1 {
                assert(d[i] == digits_of(n / 10)[i]);
            }
        }
    }
}

/// A number that is written in decimal and read again is the same number.
pub proof fn lemma_written_number_is_read_back(n: int, min: int, max: int)
    requires
        min <= n <= max,
    ensures
        parsed(decimal(n), min, max) == Some(n),
{
    if n < 0 {
        lemma_digits_of((-n) as nat);
        assert(decimal(n).skip(1) =~= digits_of((-n) as nat));
    } else {
        lemma_digits_of(n as nat);
        assert(is_digit(digits_of(n as nat)[0]));
    }
}

/// Appends the digits of `n` to `out`.
pub fn push_digits(out: &mut Vec<char>, n: u64)
    ensures
        final(out)@ == old(out)@ + digits_of(n as nat),
    decreases n,
{
    if n >= 10 {
        push_digits(out, n / 10);
    }
    let d: u8 = (n % 10) as u8;
    let c: char = (48u8 + d) as char;
    out.push(c);
    proof {
        assert(c == digit_char((n % 10) as int));
        if n < 10 {
            assert(old(out)@.push(c) =~= old(out)@ + digits_of(n as nat));
        } else {
            assert((old(out)@ + digits_of((n / 10) as nat)).push(c) =~= old(out)@ + digits_of(
                n as nat,
            ));
        }
    }
}

/// Appends `n` in decimal notation to `out`.
pub fn push_decimal(out: &mut Vec<char>, n: i64)
    ensures
        final(out)@ == old(out)@ + decimal(n as int),
{
    if n < 0 {
        out.push('-');
        let magnitude: u64 = if n == i64::MIN {
            0x8000_0000_0000_0000u64
        } else {
            (-n) as u64
        };
        push_digits(out, magnitude);
        assert(old(out)@.push('-') + digits_of(magnitude as nat) =~= old(out)@ + (seq!['-']
            + digits_of(magnitude as nat)));
    } else {
        push_digits(out, n as u64);
    }
}

} // verus!
