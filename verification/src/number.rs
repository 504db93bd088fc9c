//! Decimal numerals: writing integers and reading them back.
use vstd::prelude::*;

use crate::text::chars_of;
use crate::text::is_ascii_digit;

verus! {

// ---------------------------------------------------------------------------
// Writing
// ---------------------------------------------------------------------------

/// The character for a digit.
pub open spec fn digit_char(d: int) -> char {
    (48 + d) as char
}

/// The decimal numeral of a natural number, without leading zeros.
pub open spec fn digits(n: nat) -> Seq<char>
    decreases n,
{
    if n < 10 {
        seq![digit_char(n as int)]
    } else {
        digits(n / 10).push(digit_char((n % 10) as int))
    }
}

/// The decimal numeral of an integer.
pub open spec fn decimal(n: int) -> Seq<char> {
    if n < 0 {
        seq!['-'] + digits((-n) as nat)
    } else {
        digits(n as nat)
    }
}

/// `n` times the character zero.
pub open spec fn zeros(n: nat) -> Seq<char> {
    Seq::new(n, |i: int| '0')
}

/// The numeral of `n`, filled up with zeros on the left to `width` characters.
pub open spec fn padded(n: nat, width: nat) -> Seq<char> {
    let d = digits(n);
    if d.len() < width {
        zeros((width - d.len()) as nat) + d
    } else {
        d
    }
}

/// The numeral of `n`.
pub fn show_u64(n: u64) -> (r: String)
    ensures
        r@ == digits(n as nat),
    decreases n,
{
    let last: u8 = 48 + (n % 10) as u8;
    if n < 10 {
        let mut s = String::new();
        s.push(last as char);
        assert(s@ =~= digits(n as nat));
        s
    } else {
        let mut s = show_u64(n / 10);
        s.push(last as char);
        s
    }
}

/// The numeral of `n`.
pub fn show_usize(n: usize) -> (r: String)
    ensures
        r@ == digits(n as nat),
{
    show_u64(n as u64)
}

/// The numeral of `n`.
pub fn show_i64(n: i64) -> (r: String)
    ensures
        r@ == decimal(n as int),
{
    if n >= 0 {
        show_u64(n as u64)
    } else {
        let magnitude: u64 = if n == i64::MIN {
            0x8000_0000_0000_0000
        } else {
            (-n) as u64
        };
        let mut s = String::new();
        s.push('-');
        s.append(show_u64(magnitude).as_str());
        assert(s@ =~= seq!['-'] + digits(magnitude as nat));
        s
    }
}

/// The numeral of `n`, filled up with zeros to `width` characters.
pub fn show_padded(n: u64, width: usize) -> (r: String)
    ensures
        r@ == padded(n as nat, width as nat),
{
    let numeral = show_u64(n);
    let cs = chars_of(numeral.as_str());
    let mut s = String::new();
    if cs.len() < width {
        let fill: usize = width - cs.len();
        let mut i: usize = 0;
        while i < fill
            invariant
                i <= fill,
                s@ == zeros(i as nat),
            decreases fill - i,
        {
            s.push('0');
            i += 1;
            assert(s@ =~= zeros(i as nat));
        }
    }
    s.append(numeral.as_str());
    assert(cs@.len() >= width ==> s@ =~= digits(n as nat));
    s
}

/// The numeral of an integer, filled up with zeros to `width` characters with
/// the sign.
pub open spec fn padded_decimal(n: int, width: nat) -> Seq<char> {
    if n < 0 {
        seq!['-'] + padded(
            (-n) as nat,
            if width > 0 {
                (width - 1) as nat
            } else {
                0
            },
        )
    } else {
        padded(n as nat, width)
    }
}

/// The numeral of an integer, filled up with zeros to `width` characters.
pub fn show_padded_i64(n: i64, width: usize) -> (r: String)
    ensures
        r@ == padded_decimal(n as int, width as nat),
{
    if n >= 0 {
        show_padded(n as u64, width)
    } else {
        let magnitude: u64 = if n == i64::MIN {
            0x8000_0000_0000_0000
        } else {
            (-n) as u64
        };
        let rest: usize = if width > 0 {
            width - 1
        } else {
            0
        };
        let mut s = String::new();
        s.push('-');
        s.append(show_padded(magnitude, rest).as_str());
        assert(s@ =~= seq!['-'] + padded(magnitude as nat, rest as nat));
        s
    }
}

// ---------------------------------------------------------------------------
// Reading
// ---------------------------------------------------------------------------

/// Whether `s` is made of digits alone.
pub open spec fn all_digits(s: Seq<char>) -> bool {
    forall|i: int| 0 <= i < s.len() ==> crate::text::is_digit(#[trigger] s[i])
}

/// The number that a row of digits stands for.
pub open spec fn value_of(s: Seq<char>) -> nat
    decreases s.len(),
{
    if s.len() == 0 {
        0
    } else {
        (value_of(s.drop_last()) * 10 + (s.last() as u32 - 48)) as nat
    }
}

/// `s` without a leading plus sign.
pub open spec fn unsigned_part(s: Seq<char>) -> Seq<char> {
    if s.len() > 1 && s[0] == '+' {
        s.drop_first()
    } else {
        s
    }
}

/// The number that `s` stands for, if `s` is a numeral, with or without a plus
/// sign, of a number up to `max`.
pub open spec fn parsed(s: Seq<char>, max: nat) -> Option<nat> {
    let d = unsigned_part(s);
    if d.len() > 0 && all_digits(d) && value_of(d) <= max {
        Some(value_of(d))
    } else {
        None
    }
}

/// A row of digits stands for no less than its beginning does.
proof fn lemma_value_grows(s: Seq<char>, n: int)
    requires
        all_digits(s),
        0 <= n <= s.len(),
    ensures
        value_of(s.take(n)) <= value_of(s),
    decreases s.len() - n,
{
    if n < s.len() {
        lemma_value_grows(s, n + 1);
        assert(s.take(n + 1).drop_last() =~= s.take(n));
        assert(crate::text::is_digit(s[n]));
    } else {
        assert(s.take(n) =~= s);
    }
}

/// Reads the digits of `cs` from position `from` on as a number up to `max`.
fn parse_digits(cs: &Vec<char>, from: usize, max: u64) -> (r: Option<u64>)
    requires
        from < cs@.len(),
    ensures
        ({
            let d = cs@.skip(from as int);
            match r {
                Some(n) => all_digits(d) && value_of(d) == n && n <= max,
                None => !all_digits(d) || value_of(d) > max,
            }
        }),
{
    let ghost d = cs@.skip(from as int);
    let mut value: u64 = 0;
    let mut i: usize = from;
    while i < cs.len()
        invariant
            from <= i <= cs@.len(),
            d == cs@.skip(from as int),
            value == value_of(d.take(i - from)),
            value <= max,
            forall|k: int| 0 <= k < i - from ==> crate::text::is_digit(#[trigger] d[k]),
        decreases cs@.len() - i,
    {
        let c = cs[i];
        assert(c == d[i - from]);
        if !is_ascii_digit(c) {
            return None;
        }
        let digit: u64 = (c as u32 - 48) as u64;
        let ghost next = d.take(i - from + 1);
        assert(next.drop_last() =~= d.take(i - from));
        if value > max / 10 || digit > max - value * 10 {
            proof {
                assert(value_of(next) > max);
                if all_digits(d) {
                    lemma_value_grows(d, i - from + 1);
                }
            }
            return None;
        }
        value = value * 10 + digit;
        i += 1;
    }
    assert(d.take(d.len() as int) =~= d);
    Some(value)
}

/// Reads a number up to `max`.
pub fn parse_bounded(s: &str, max: u64) -> (r: Option<u64>)
    ensures
        match r {
            Some(n) => parsed(s@, max as nat) == Some(n as nat),
            None => parsed(s@, max as nat) is None,
        },
{
    let cs = chars_of(s);
    if cs.len() == 0 {
        return None;
    }
    if cs.len() > 1 && cs[0] == '+' {
        assert(cs@.skip(1) =~= s@.drop_first());
        parse_digits(&cs, 1, max)
    } else {
        assert(cs@.skip(0) =~= s@);
        parse_digits(&cs, 0, max)
    }
}

/// Reads a `u64`.
pub fn parse_u64(s: &str) -> (r: Option<u64>)
    ensures
        match r {
            Some(n) => parsed(s@, u64::MAX as nat) == Some(n as nat),
            None => parsed(s@, u64::MAX as nat) is None,
        },
{
    parse_bounded(s, u64::MAX)
}

/// Reads a `usize`.
pub fn parse_usize(s: &str) -> (r: Option<usize>)
    ensures
        match r {
            Some(n) => parsed(s@, usize::MAX as nat) == Some(n as nat),
            None => parsed(s@, usize::MAX as nat) is None,
        },
{
    match parse_bounded(s, usize::MAX as u64) {
        Some(n) => Some(n as usize),
        None => None,
    }
}

// ---------------------------------------------------------------------------
// Laws
// ---------------------------------------------------------------------------

/// The numeral of `n` is a nonempty row of digits that stands for `n`.
pub proof fn law_digits_stand_for_number(n: nat)
    ensures
        digits(n).len() > 0,
        all_digits(digits(n)),
        value_of(digits(n)) == n,
    decreases n,
{
    if n < 10 {
        assert(digits(n).drop_last() =~= Seq::<char>::empty());
        assert(value_of(Seq::<char>::empty()) == 0);
        assert(digits(n).last() as u32 == 48 + n);
    } else {
        law_digits_stand_for_number(n / 10);
        let d = digits(n);
        assert(d.drop_last() =~= digits(n / 10));
        assert(d.last() as u32 == 48 + n % 10);
        assert forall|i: int| 0 <= i < d.len() implies crate::text::is_digit(#[trigger] d[i]) by {
            if i < d.len() - 1 {
                assert(d[i] == digits(n / 10)[i]);
            }
        }
    }
}

/// Reading the numeral of a number gives the number back.
pub proof fn law_parse_reads_numeral(n: nat, max: nat)
    requires
        n <= max,
    ensures
        parsed(digits(n), max) == Some(n),
{
    law_digits_stand_for_number(n);
    assert(crate::text::is_digit(digits(n)[0]));
}

} // verus!
