//! Decimal numbers, written and read.

use vstd::prelude::*;

verus! {

/// The character of a digit from 0 to 9.
pub open spec fn digit(d: int) -> char {
    (48 + d) as char
}

/// The decimal digits of a number, without leading zeros.
pub open spec fn decimal(n: nat) -> Seq<char>
    decreases n,
{
    if n < 10 {
        seq![digit(n as int)]
    } else {
        decimal(n / 10).push(digit((n % 10) as int))
    }
}

/// A signed number in decimal: a minus sign stands before a negative one only.
pub open spec fn signed_decimal(n: int) -> Seq<char> {
    if n < 0 {
        seq!['-'] + decimal((-n) as nat)
    } else {
        decimal(n as nat)
    }
}

pub open spec fn is_digit(c: char) -> bool {
    '0' <= c <= '9'
}

/// The value of a row of digits.
pub open spec fn number(s: Seq<char>) -> nat
    decreases s.len(),
{
    if s.len() == 0 {
        0
    } else {
        (number(s.drop_last()) * 10 + (s.last() as int - 48)) as nat
    }
}

/// Whether a text is made of digits, at least one of them.
pub open spec fn all_digits(s: Seq<char>) -> bool {
    &&& s.len() > 0
    &&& forall|i: int| 0 <= i < s.len() ==> is_digit(#[trigger] s[i])
}

/// The number that a text denotes: digits, which a plus sign may precede.
pub open spec fn u32_from(s: Seq<char>) -> Option<u32> {
    let digits = if s.len() > 0 && s[0] == '+' {
        s.drop_first()
    } else {
        s
    };
    if all_digits(digits) && number(digits) <= u32::MAX {
        Some(number(digits) as u32)
    } else {
        None
    }
}

/// The signed number that a text denotes: digits, which one sign may precede.
pub open spec fn i32_from(s: Seq<char>) -> Option<i32> {
    let digits = if s.len() > 0 && (s[0] == '+' || s[0] == '-') {
        s.drop_first()
    } else {
        s
    };
    let value = if s.len() > 0 && s[0] == '-' {
        -(number(digits) as int)
    } else {
        number(digits) as int
    };
    if all_digits(digits) && i32::MIN <= value <= i32::MAX {
        Some(value as i32)
    } else {
        None
    }
}

/// Appends a number in decimal.
pub fn push_decimal(out: &mut String, n: u64)
    ensures
        final(out)@ == old(out)@ + decimal(n as nat),
    decreases n,
{
    if n < 10 {
        out.push((48u8 + n as u8) as char);
        assert(out@ =~= old(out)@ + decimal(n as nat));
    } else {
        push_decimal(out, n / 10);
        out.push((48u8 + (n % 10) as u8) as char);
        assert(out@ =~= old(out)@ + decimal(n as nat));
    }
}

/// Appends a signed number in decimal.
pub fn push_signed(out: &mut String, n: i32)
    ensures
        final(out)@ == old(out)@ + signed_decimal(n as int),
{
    if n < 0 {
        out.push('-');
        push_decimal(out, (-(n as i64)) as u64);
        assert(out@ =~= old(out)@ + signed_decimal(n as int));
    } else {
        push_decimal(out, n as u64);
    }
}

/// The value that reading stops to tell apart: beyond every `u32` and `i32`.
pub const CEILING: u64 = 0x1_0000_0000;

/// The value of the digits from a position on, `CEILING` standing for that and all above;
/// `None` where they are not all digits, or there are none.
fn read_digits(chars: &Vec<char>, from: usize) -> (r: Option<u64>)
    requires
        from <= chars@.len(),
    ensures
        r is Some <==> all_digits(chars@.skip(from as int)),
        r matches Some(v) ==> v == (if number(chars@.skip(from as int)) < CEILING {
            number(chars@.skip(from as int)) as int
        } else {
            CEILING as int
        }),
{
    let ghost s = chars@.skip(from as int);
    if from == chars.len() {
        return None;
    }
    let mut value: u64 = 0;
    let mut i: usize = from;
    while i < chars.len()
        invariant
            from <= i <= chars@.len(),
            from < chars@.len(),
            s == chars@.skip(from as int),
            value <= CEILING,
            forall|j: int| 0 <= j < i - from ==> is_digit(#[trigger] s[j]),
            value == (if number(s.take(i - from)) < CEILING {
                number(s.take(i - from)) as int
            } else {
                CEILING as int
            }),
        decreases chars.len() - i,
    {
        let c = chars[i];
        assert(s[i - from] == c);
        if !('0' <= c && c <= '9') {
            return None;
        }
        let ghost before = s.take(i - from);
        assert(s.take(i + 1 - from).drop_last() =~= before);
        value = value * 10 + (c as u32 - 48) as u64;
        if value > CEILING {
            value = CEILING;
        }
        i += 1;
    }
    assert(s.take(i - from) =~= s);
    Some(value)
}

/// Reads an unsigned number.
pub fn parse_u32(chars: &Vec<char>) -> (r: Option<u32>)
    ensures
        r == u32_from(chars@),
{
    let from: usize = if chars.len() > 0 && chars[0] == '+' {
        1
    } else {
        0
    };
    assert(chars@.skip(0) =~= chars@);
    assert(chars@.len() > 0 ==> chars@.skip(1) =~= chars@.drop_first());
    match read_digits(chars, from) {
        Some(v) => if v < CEILING {
            Some(v as u32)
        } else {
            None
        },
        None => None,
    }
}

/// Reads a signed number.
pub fn parse_i32(chars: &Vec<char>) -> (r: Option<i32>)
    ensures
        r == i32_from(chars@),
{
    let negative = chars.len() > 0 && chars[0] == '-';
    let from: usize = if negative || (chars.len() > 0 && chars[0] == '+') {
        1
    } else {
        0
    };
    assert(chars@.skip(0) =~= chars@);
    assert(chars@.len() > 0 ==> chars@.skip(1) =~= chars@.drop_first());
    match read_digits(chars, from) {
        Some(v) => {
            if negative {
                if v <= 0x8000_0000 {
                    Some((-(v as i64)) as i32)
                } else {
                    None
                }
            } else if v <= 0x7fff_ffff {
                Some(v as i32)
            } else {
                None
            }
        },
        None => None,
    }
}

/// Decimal digits are digits, and their value is the number they were written for.
pub proof fn lemma_decimal(n: nat)
    ensures
        all_digits(decimal(n)),
        number(decimal(n)) == n,
    decreases n,
{
    if n < 10 {
        assert(decimal(n).drop_last() =~= Seq::<char>::empty());
        assert(number(Seq::<char>::empty()) == 0);
    } else {
        lemma_decimal(n / 10);
        assert(decimal(n).drop_last() =~= decimal(n / 10));
        assert forall|i: int| 0 <= i < decimal(n).len() implies is_digit(#[trigger] decimal(n)[i]) by {
            if i < decimal(n / 10).len() {
                assert(decimal(n)[i] == decimal(n / 10)[i]);
            }
        }
    }
}

/// Every unsigned number that is written in decimal is read back.
pub proof fn law_u32_written_is_read_back(n: u32)
    ensures
        u32_from(decimal(n as nat)) == Some(n),
{
    lemma_decimal(n as nat);
    assert(is_digit(decimal(n as nat)[0]));
}

/// Every signed number that is written in decimal is read back.
pub proof fn law_i32_written_is_read_back(n: i32)
    ensures
        i32_from(signed_decimal(n as int)) == Some(n),
{
    if n < 0 {
        lemma_decimal((-n) as nat);
        assert(signed_decimal(n as int).drop_first() =~= decimal((-n) as nat));
    } else {
        lemma_decimal(n as nat);
        assert(is_digit(decimal(n as nat)[0]));
    }
}

/// A number is written digit by digit, the last one behind what the others are written as.
pub proof fn law_decimal_is_written_digit_by_digit(n: nat, d: nat)
    requires
        d < 10,
    ensures
        decimal(d) == seq![(48 + d) as char],
        n > 0 ==> decimal(10 * n + d) == decimal(n).push((48 + d) as char),
{
    assert((10 * n + d) / 10 == n && (10 * n + d) % 10 == d);
}

/// A negative number is written as its opposite behind a minus sign, any other without a sign.
pub proof fn law_sign_is_written_first(n: nat)
    ensures
        signed_decimal(n as int) == decimal(n),
        n > 0 ==> signed_decimal(-n) == seq!['-'] + decimal(n),
{
}

/// A digit more makes a number ten times as big, and the digit on top; where that is no `u32`,
/// or where there was no number, there is none.
pub proof fn law_u32_is_read_digit_by_digit(s: Seq<char>, c: char)
    requires
        s.len() > 0,
        forall|i: int| 0 <= i < s.len() ==> '0' <= #[trigger] s[i] <= '9',
        '0' <= c <= '9',
    ensures
        u32_from(seq![c]) == Some((c as u32 - 48) as u32),
        u32_from(s.push(c)) == (match u32_from(s) {
            Some(n) if 10 * n + (c as u32 - 48) <= u32::MAX => Some(
                (10 * n + (c as u32 - 48)) as u32,
            ),
            _ => None,
        }),
{
    let one = seq![c];
    assert(one.drop_last() =~= Seq::<char>::empty());
    assert(number(Seq::<char>::empty()) == 0);
    assert(number(one) == c as int - 48);
    assert(all_digits(one));
    assert(s.push(c).drop_last() =~= s);
    assert(all_digits(s));
    assert(all_digits(s.push(c)));
    assert(is_digit(s[0]));
    assert(s.push(c)[0] == s[0]);
}

/// A plus sign before digits makes no difference. A text without digits, or with anything
/// but digits behind a plus sign, is no number.
pub proof fn law_only_digits_make_a_u32(s: Seq<char>)
    ensures
        s.len() > 0 && '0' <= s[0] <= '9' ==> u32_from(seq!['+'] + s) == u32_from(s),
        u32_from(Seq::<char>::empty()) is None,
        u32_from(seq!['+']) is None,
        (exists|i: int| 0 <= i < s.len() && !('0' <= #[trigger] s[i] <= '9') && !(i == 0 && s[i]
            == '+')) ==> u32_from(s) is None,
{
    assert((seq!['+'] + s).drop_first() =~= s);
    assert(seq!['+'].drop_first() =~= Seq::<char>::empty());
    if exists|i: int|
        0 <= i < s.len() && !('0' <= #[trigger] s[i] <= '9') && !(i == 0 && s[i] == '+') {
        let i = choose|i: int|
            0 <= i < s.len() && !('0' <= #[trigger] s[i] <= '9') && !(i == 0 && s[i] == '+');
        if s[0] == '+' {
            assert(!is_digit(s.drop_first()[i - 1]));
        } else {
            assert(!is_digit(s[i]));
        }
    }
}

/// A signed number is read as an unsigned one is, within its own range: digits alone or behind
/// a plus sign stand for themselves, digits behind a minus sign for the opposite.
pub proof fn law_i32_is_read_like_a_u32(s: Seq<char>)
    ensures
        s.len() > 0 && s[0] != '-' ==> i32_from(s) == (match u32_from(s) {
            Some(n) if n <= i32::MAX => Some(n as i32),
            _ => None,
        }),
        s.len() > 0 && s[0] != '+' ==> i32_from(seq!['-'] + s) == (match u32_from(s) {
            Some(n) if n <= 0x8000_0000 => Some((-n) as i32),
            _ => None,
        }),
        i32_from(Seq::<char>::empty()) is None,
        i32_from(seq!['-']) is None,
        i32_from(seq!['-', '+'] + s) is None,
{
    let minus = seq!['-'] + s;
    assert(minus.drop_first() =~= s);
    assert(seq!['-'].drop_first() =~= Seq::<char>::empty());
    let both = seq!['-', '+'] + s;
    assert(!is_digit(both.drop_first()[0]));
}

} // verus!
