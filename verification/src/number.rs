//! Whole numbers in decimal.
use vstd::prelude::*;

use crate::text;

verus! {

/// The decimal digit `d`.
pub open spec fn digit_of(d: nat) -> char {
    ('0' as u32 + d) as char
}

/// `n` in decimal.
pub open spec fn decimal_of(n: nat) -> Seq<char>
    decreases n,
{
    if n < 10 {
        seq![digit_of(n)]
    } else {
        decimal_of(n / 10).push(digit_of(n % 10))
    }
}

/// `n` in decimal, with a minus sign where it is negative.
pub open spec fn signed_decimal_of(n: int) -> Seq<char> {
    if n < 0 {
        seq!['-'] + decimal_of((-n) as nat)
    } else {
        decimal_of(n as nat)
    }
}

/// The value of a decimal digit.
pub open spec fn digit_value(c: char) -> Option<nat> {
    if '0' <= c && c <= '9' {
        Some((c as u32 - '0' as u32) as nat)
    } else {
        None
    }
}

/// The number that a text of decimal digits, at least one, stands for.
pub open spec fn digits_value(s: Seq<char>) -> Option<nat>
    decreases s.len(),
{
    if s.len() == 0 {
        None
    } else {
        match (digit_value(s.last()), s.len() == 1, digits_value(s.drop_last())) {
            (Some(d), true, _) => Some(d),
            (Some(d), false, Some(n)) => Some(n * 10 + d),
            _ => None,
        }
    }
}

/// The number that a text stands for where it is an unsigned number of 64 bits,
/// with or without a plus sign.
pub open spec fn unsigned_value(s: Seq<char>) -> Option<nat> {
    let digits = if s.len() > 0 && s.first() == '+' {
        s.drop_first()
    } else {
        s
    };
    match digits_value(digits) {
        Some(n) if n <= u64::MAX => Some(n),
        _ => None,
    }
}

/// The number that a text stands for where it is a signed or an unsigned number
/// of 64 bits.
pub open spec fn integer_value(s: Seq<char>) -> Option<int> {
    if s.len() > 0 && s.first() == '-' {
        match digits_value(s.drop_first()) {
            Some(n) if -(n as int) >= i64::MIN => Some(-(n as int)),
            _ => None,
        }
    } else {
        match unsigned_value(s) {
            Some(n) => Some(n as int),
            None => None,
        }
    }
}

/// `n` in decimal.
pub fn decimal(n: u128) -> (s: String)
    ensures
        s@ == decimal_of(n as nat),
    decreases n,
{
    let d: u32 = (n % 10) as u32;
    let c: char = match d {
        0 => '0',
        1 => '1',
        2 => '2',
        3 => '3',
        4 => '4',
        5 => '5',
        6 => '6',
        7 => '7',
        8 => '8',
        _ => '9',
    };
    let mut s: String = if n < 10 {
        String::new()
    } else {
        decimal(n / 10)
    };
    s.push(c);
    assert(n < 10 ==> s@ =~= seq![c]);
    s
}

/// `n` in decimal, with a minus sign where it is negative.
pub fn signed_decimal(n: i128) -> (s: String)
    ensures
        s@ == signed_decimal_of(n as int),
{
    if n < 0 {
        let mut s: String = String::new();
        s.push('-');
        let size: u128 = if n == i128::MIN {
            0x8000_0000_0000_0000_0000_0000_0000_0000
        } else {
            (-n) as u128
        };
        let digits: String = decimal(size);
        s.append(digits.as_str());
        assert(s@ =~= seq!['-'] + decimal_of((-n) as nat));
        s
    } else {
        decimal(n as u128)
    }
}

proof fn lemma_digits_grow(s: Seq<char>, i: int)
    requires
        0 < i <= s.len(),
        digits_value(s) is Some,
    ensures
        digits_value(s.take(i)) is Some,
        digits_value(s.take(i))->0 <= digits_value(s)->0,
    decreases s.len() - i,
{
    if i < s.len() {
        lemma_digits_grow(s.drop_last(), i);
        assert(s.drop_last().take(i) =~= s.take(i));
    } else {
        assert(s.take(i) =~= s);
    }
}

/// The number that the characters from `from` on stand for, where it has at most
/// 64 bits.
fn parse_digits(v: &Vec<char>, from: usize) -> (r: Option<u64>)
    requires
        from <= v@.len(),
    ensures
        match r {
            Some(n) => digits_value(v@.skip(from as int)) == Some(n as nat),
            None => match digits_value(v@.skip(from as int)) {
                Some(n) => n > u64::MAX,
                None => true,
            },
        },
{
    let ghost s = v@.skip(from as int);
    if from == v.len() {
        return None;
    }
    let mut n: u64 = 0;
    let mut i: usize = from;
    while i < v.len()
        invariant
            from < v@.len(),
            from <= i <= v@.len(),
            s == v@.skip(from as int),
            i == from ==> n == 0,
            i > from ==> digits_value(s.take(i - from)) == Some(n as nat),
        decreases v@.len() - i,
    {
        let c: char = v[i];
        proof {
            let t = s.take(i - from + 1);
            assert(t.last() == c);
            assert(t.drop_last() =~= s.take(i - from));
            if digits_value(s) is Some {
                lemma_digits_grow(s, i - from + 1);
            }
        }
        if !('0' <= c && c <= '9') {
            return None;
        }
        let d: u64 = (c as u32 - '0' as u32) as u64;
        if n > (u64::MAX - d) / 10 {
            return None;
        }
        n = n * 10 + d;
        i = i + 1;
    }
    assert(s.take(v@.len() - from) =~= s);
    Some(n)
}

/// Reads an unsigned number of 64 bits.
pub fn parse_unsigned(s: &str) -> (r: Option<u64>)
    ensures
        match r {
            Some(n) => unsigned_value(s@) == Some(n as nat),
            None => unsigned_value(s@) is None,
        },
{
    let v: Vec<char> = text::chars_of(s);
    assert(v@.skip(0) =~= v@);
    if v.len() > 0 && v[0] == '+' {
        assert(v@.skip(1) =~= v@.drop_first());
        parse_digits(&v, 1)
    } else {
        parse_digits(&v, 0)
    }
}

/// Reads a signed or an unsigned number of 64 bits.
pub fn parse_integer(s: &str) -> (r: Option<i128>)
    ensures
        match r {
            Some(n) => integer_value(s@) == Some(n as int),
            None => integer_value(s@) is None,
        },
        r matches Some(n) ==> i64::MIN <= n <= u64::MAX,
{
    let v: Vec<char> = text::chars_of(s);
    if v.len() > 0 && v[0] == '-' {
        assert(v@.skip(1) =~= v@.drop_first());
        match parse_digits(&v, 1) {
            Some(n) => if n <= 0x8000_0000_0000_0000 {
                Some(-(n as i128))
            } else {
                None
            },
            None => None,
        }
    } else {
        match parse_unsigned(s) {
            Some(n) => Some(n as i128),
            None => None,
        }
    }
}

// ---- what holds of numbers and their texts ----

/// A text of digits grows tenfold with each digit that follows, and by its value. A text
/// with anything but the ten digits in it, or none, is no number.
pub proof fn law_digits(s: Seq<char>, c: char)
    ensures
        digits_value(Seq::<char>::empty()) is None,
        digits_value(seq![c]) == if '0' <= c <= '9' {
            Some((c as u32 - 48) as nat)
        } else {
            None
        },
        s.len() > 0 ==> digits_value(s.push(c)) == match digits_value(s) {
            Some(n) if '0' <= c <= '9' => Some((10 * n + (c as u32 - 48)) as nat),
            _ => None,
        },
{
    assert(s.push(c).drop_last() =~= s);
    assert(s.push(c).last() == c);
}

proof fn lemma_digit_roundtrip(d: nat)
    requires
        d < 10,
    ensures
        '0' <= digit_of(d) <= '9',
        digit_value(digit_of(d)) == Some(d),
{
}

/// The decimal of a number is read back as it, begins with no zero but that of zero
/// itself, and has digits only.
pub proof fn law_decimal_is_read_back(n: nat)
    ensures
        digits_value(decimal_of(n)) == Some(n),
        decimal_of(n).len() > 0,
        decimal_of(n).first() == '0' ==> n == 0 && decimal_of(n).len() == 1,
        forall|i: int| 0 <= i < decimal_of(n).len() ==> '0' <= #[trigger] decimal_of(n)[i] <= '9',
    decreases n,
{
    lemma_digit_roundtrip(n % 10);
    if n < 10 {
        assert(decimal_of(n).last() == digit_of(n));
    } else {
        law_decimal_is_read_back(n / 10);
        let s = decimal_of(n / 10);
        assert(decimal_of(n).drop_last() =~= s);
        assert(decimal_of(n).first() == s.first());
    }
}

proof fn lemma_digits_only(s: Seq<char>, i: int)
    requires
        0 <= i < s.len(),
        !('0' <= s[i] <= '9'),
    ensures
        digits_value(s) is None,
    decreases s.len(),
{
    if i < s.len() - 1 {
        assert(s.drop_last()[i] == s[i]);
        lemma_digits_only(s.drop_last(), i);
    }
}

/// A number of 64 bits is read from its decimal, also with a plus sign before it; one
/// that is larger is not, and neither is one with a minus sign.
pub proof fn law_unsigned_numbers(n: nat)
    ensures
        unsigned_value(decimal_of(n)) == if n <= 0xffff_ffff_ffff_ffff {
            Some(n)
        } else {
            None
        },
        unsigned_value(seq!['+'] + decimal_of(n)) == unsigned_value(decimal_of(n)),
        unsigned_value(seq!['-'] + decimal_of(n)) is None,
        unsigned_value(Seq::<char>::empty()) is None,
{
    law_decimal_is_read_back(n);
    let d = decimal_of(n);
    assert(d.first() == d[0]);
    assert((seq!['+'] + d).drop_first() =~= d);
    let m = seq!['-'] + d;
    assert(m[0] == '-');
    lemma_digits_only(m, 0);
}

/// A number between the least signed and the greatest unsigned one of 64 bits is read
/// from its decimal, with a minus sign where it is negative; no other number is.
pub proof fn law_integers(n: int)
    ensures
        integer_value(signed_decimal_of(n)) == if -0x8000_0000_0000_0000 <= n
            <= 0xffff_ffff_ffff_ffff {
            Some(n)
        } else {
            None
        },
        n >= 0 ==> signed_decimal_of(n) == decimal_of(n as nat),
        n < 0 ==> signed_decimal_of(n) == seq!['-'] + decimal_of((-n) as nat),
        n >= 0 ==> integer_value(seq!['+'] + decimal_of(n as nat)) == integer_value(
            decimal_of(n as nat),
        ),
{
    if n < 0 {
        let d = decimal_of((-n) as nat);
        law_decimal_is_read_back((-n) as nat);
        assert((seq!['-'] + d).drop_first() =~= d);
        assert((seq!['-'] + d).first() == '-');
    } else {
        law_unsigned_numbers(n as nat);
        law_decimal_is_read_back(n as nat);
        let d = decimal_of(n as nat);
        assert(d.first() == d[0]);
        assert((seq!['+'] + d).first() == '+');
    }
}

/// A text with a character that is neither a digit nor a sign at its start is no number.
pub proof fn law_no_number(s: Seq<char>, i: int)
    requires
        0 <= i < s.len(),
        !('0' <= s[i] <= '9'),
        i == 0 ==> s[0] != '+' && s[0] != '-',
    ensures
        unsigned_value(s) is None,
        integer_value(s) is None,
{
    lemma_digits_only(s, i);
    if i > 0 {
        assert(s.drop_first()[i - 1] == s[i]);
        lemma_digits_only(s.drop_first(), i - 1);
    }
}

} // verus!
