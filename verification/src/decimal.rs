//! Numbers and amounts of money as text: writing them in decimal notation
//! and reading them from it.

use vstd::prelude::*;
use vstd::string::*;
use crate::text::chars_of;

verus! {

/// The character that writes the digit `d`.
pub open spec fn digit_char(d: nat) -> char {
    if d == 0 {
        '0'
    } else if d == 1 {
        '1'
    } else if d == 2 {
        '2'
    } else if d == 3 {
        '3'
    } else if d == 4 {
        '4'
    } else if d == 5 {
        '5'
    } else if d == 6 {
        '6'
    } else if d == 7 {
        '7'
    } else if d == 8 {
        '8'
    } else {
        '9'
    }
}

/// The digit that a character writes, if it is one of `0` to `9`.
pub open spec fn digit_value(c: char) -> Option<nat> {
    if c == '0' {
        Some(0)
    } else if c == '1' {
        Some(1)
    } else if c == '2' {
        Some(2)
    } else if c == '3' {
        Some(3)
    } else if c == '4' {
        Some(4)
    } else if c == '5' {
        Some(5)
    } else if c == '6' {
        Some(6)
    } else if c == '7' {
        Some(7)
    } else if c == '8' {
        Some(8)
    } else if c == '9' {
        Some(9)
    } else {
        None
    }
}

/// The decimal notation of a natural number, without leading zeros.
pub open spec fn decimal_text(n: nat) -> Seq<char>
    decreases n,
{
    if n < 10 {
        seq![digit_char(n)]
    } else {
        decimal_text(n / 10).push(digit_char(n % 10))
    }
}

fn digit_str(d: u128) -> (r: &'static str)
    requires
        d < 10,
    ensures
        r@ == seq![digit_char(d as nat)],
{
    proof {
        reveal_strlit("0");
        reveal_strlit("1");
        reveal_strlit("2");
        reveal_strlit("3");
        reveal_strlit("4");
        reveal_strlit("5");
        reveal_strlit("6");
        reveal_strlit("7");
        reveal_strlit("8");
        reveal_strlit("9");
    }
    let r = if d == 0 {
        "0"
    } else if d == 1 {
        "1"
    } else if d == 2 {
        "2"
    } else if d == 3 {
        "3"
    } else if d == 4 {
        "4"
    } else if d == 5 {
        "5"
    } else if d == 6 {
        "6"
    } else if d == 7 {
        "7"
    } else if d == 8 {
        "8"
    } else {
        "9"
    };
    assert(r@ =~= seq![digit_char(d as nat)]);
    r
}

/// Writes a number in decimal notation.
pub fn decimal_string(n: u128) -> (r: String)
    ensures
        r@ == decimal_text(n as nat),
    decreases n,
{
    if n < 10 {
        String::from_str(digit_str(n))
    } else {
        let mut s = decimal_string(n / 10);
        s.append(digit_str(n % 10));
        assert(s@ =~= decimal_text((n / 10) as nat).push(digit_char((n % 10) as nat)));
        s
    }
}

/// An amount of cents written as a number with two decimals: 1234 is `12.34`.
pub open spec fn cents_text(cents: nat) -> Seq<char> {
    decimal_text(cents / 100) + seq!['.', digit_char(cents % 100 / 10), digit_char(cents % 10)]
}

/// A signed amount of cents with two decimals; a minus sign leads a negative one.
pub open spec fn signed_cents_text(cents: int) -> Seq<char> {
    if cents < 0 {
        seq!['-'] + cents_text((-cents) as nat)
    } else {
        cents_text(cents as nat)
    }
}

/// Writes an amount of cents as a number with two decimals.
pub fn cents_string(cents: u128) -> (r: String)
    ensures
        r@ == cents_text(cents as nat),
{
    proof {
        reveal_strlit(".");
    }
    let mut s = decimal_string(cents / 100);
    s.append(".");
    s.append(digit_str(cents % 100 / 10));
    s.append(digit_str(cents % 10));
    assert(s@ =~= cents_text(cents as nat));
    s
}

/// Writes a signed amount of cents as a number with two decimals.
pub fn signed_cents_string(cents: i128) -> (r: String)
    requires
        cents > i128::MIN,
    ensures
        r@ == signed_cents_text(cents as int),
{
    if cents < 0 {
        proof {
            reveal_strlit("-");
        }
        let size: u128 = (-cents) as u128;
        let digits = cents_string(size);
        let mut s = String::from_str("-");
        s.append(digits.as_str());
        assert(s@ =~= signed_cents_text(cents as int));
        s
    } else {
        cents_string(cents as u128)
    }
}

/// Every character of the text is a decimal digit.
pub open spec fn all_digits(s: Seq<char>) -> bool {
    forall|i: int| 0 <= i < s.len() ==> (#[trigger] digit_value(s[i])) is Some
}

/// The number that a run of digits writes; the empty run writes zero.
pub open spec fn digits_value(s: Seq<char>) -> nat
    decreases s.len(),
{
    if s.len() == 0 {
        0
    } else {
        digits_value(s.drop_last()) * 10 + digit_value(s.last()).unwrap_or(0)
    }
}

/// The number that a text writes: one or more decimal digits, nothing else.
pub open spec fn number_of(s: Seq<char>) -> Option<nat> {
    if s.len() > 0 && all_digits(s) {
        Some(digits_value(s))
    } else {
        None
    }
}

/// The shorter a run of leading digits, the smaller the number it writes.
pub proof fn lemma_digits_value_prefix(s: Seq<char>, k: int)
    requires
        0 <= k <= s.len(),
    ensures
        digits_value(s.take(k)) <= digits_value(s),
    decreases s.len(),
{
    if k == s.len() {
        assert(s.take(k) =~= s);
    } else {
        assert(s.drop_last().take(k) =~= s.take(k));
        lemma_digits_value_prefix(s.drop_last(), k);
    }
}

fn digit_of(c: char) -> (r: Option<u64>)
    ensures
        match r {
            Some(d) => digit_value(c) == Some(d as nat) && d < 10,
            None => digit_value(c) is None,
        },
{
    if c == '0' {
        Some(0)
    } else if c == '1' {
        Some(1)
    } else if c == '2' {
        Some(2)
    } else if c == '3' {
        Some(3)
    } else if c == '4' {
        Some(4)
    } else if c == '5' {
        Some(5)
    } else if c == '6' {
        Some(6)
    } else if c == '7' {
        Some(7)
    } else if c == '8' {
        Some(8)
    } else if c == '9' {
        Some(9)
    } else {
        None
    }
}

/// What `parse_digits` returns: the number written, unless it is above `limit`.
pub open spec fn number_up_to(s: Seq<char>, limit: nat) -> Option<nat> {
    match number_of(s) {
        Some(n) => if n <= limit {
            Some(n)
        } else {
            None
        },
        None => None,
    }
}

/// Reads the digits `chars[from..to]` as a number no greater than `u64::MAX`.
pub fn parse_digits(chars: &Vec<char>, from: usize, to: usize) -> (r: Option<u64>)
    requires
        from <= to <= chars.len(),
    ensures
        match r {
            Some(n) => number_up_to(chars@.subrange(from as int, to as int), u64::MAX as nat)
                == Some(n as nat),
            None => number_up_to(chars@.subrange(from as int, to as int), u64::MAX as nat)
                is None,
        },
{
    let ghost run = chars@.subrange(from as int, to as int);
    if from == to {
        return None;
    }
    let mut acc: u64 = 0;
    let mut i: usize = from;
    while i < to
        invariant
            from <= i <= to <= chars.len(),
            run == chars@.subrange(from as int, to as int),
            all_digits(run.take(i - from)),
            acc as nat == digits_value(run.take(i - from)),
        decreases to - i,
    {
        let ghost before = run.take(i - from);
        let ghost after = run.take(i + 1 - from);
        proof {
            assert(after.drop_last() =~= before);
            assert(after.last() == chars@[i as int]);
        }
        match digit_of(chars[i]) {
            None => {
                proof {
                    assert(digit_value(run[i - from]) is None);
                }
                return None;
            },
            Some(d) => {
                if acc > (u64::MAX - d) / 10 {
                    proof {
                        assert(digits_value(after) == acc * 10 + d);
                        lemma_digits_value_prefix(run, i + 1 - from);
                    }
                    return None;
                }
                acc = acc * 10 + d;
                proof {
                    assert forall|j: int| 0 <= j < after.len() implies (#[trigger] digit_value(
                        after[j],
                    )) is Some by {
                        if j < before.len() {
                            assert(after[j] == before[j]);
                        }
                    }
                }
            },
        }
        i += 1;
    }
    proof {
        assert(run.take(to - from) =~= run);
    }
    Some(acc)
}

/// The number that a text writes, where it fits in thirty-two bits.
pub fn parse_u32(s: &str) -> (r: Option<u32>)
    ensures
        match r {
            Some(n) => number_up_to(s@, u32::MAX as nat) == Some(n as nat),
            None => number_up_to(s@, u32::MAX as nat) is None,
        },
{
    let chars = chars_of(s);
    proof {
        assert(chars@.subrange(0, chars@.len() as int) =~= s@);
    }
    match parse_digits(&chars, 0, chars.len()) {
        Some(n) => if n <= 0xffff_ffff {
            Some(n as u32)
        } else {
            None
        },
        None => None,
    }
}

/// The greatest amount of cents that the ledger holds.
pub const MAX_CENTS: u64 = 0x7fff_ffff_ffff_ffff;

/// The amount of cents that a text writes. Three shapes are read: whole units
/// (`12`), units and tenths (`12.5`), units and cents (`12.50`).
pub open spec fn cents_of(s: Seq<char>) -> Option<nat> {
    let n = s.len() as int;
    if number_of(s) is Some {
        Some(number_of(s).unwrap() * 100)
    } else if n >= 3 && s[n - 2] == '.' && number_of(s.take(n - 2)) is Some && digit_value(
        s[n - 1],
    ) is Some {
        Some(number_of(s.take(n - 2)).unwrap() * 100 + digit_value(s[n - 1]).unwrap() * 10)
    } else if n >= 4 && s[n - 3] == '.' && number_of(s.take(n - 3)) is Some && digit_value(
        s[n - 2],
    ) is Some && digit_value(s[n - 1]) is Some {
        Some(
            number_of(s.take(n - 3)).unwrap() * 100 + digit_value(s[n - 2]).unwrap() * 10
                + digit_value(s[n - 1]).unwrap(),
        )
    } else {
        None
    }
}

/// What `parse_cents` returns: the amount written, unless it is above `MAX_CENTS`.
pub open spec fn cents_up_to_max(s: Seq<char>) -> Option<nat> {
    match cents_of(s) {
        Some(c) => if c <= MAX_CENTS {
            Some(c)
        } else {
            None
        },
        None => None,
    }
}

fn cents_from_parts(units: u64, tenths: u64, hundredths: u64) -> (r: Option<u64>)
    requires
        tenths < 10,
        hundredths < 10,
    ensures
        match r {
            Some(c) => c == units * 100 + tenths * 10 + hundredths && c <= MAX_CENTS,
            None => units * 100 + tenths * 10 + hundredths > MAX_CENTS,
        },
{
    let total: u128 = units as u128 * 100 + tenths as u128 * 10 + hundredths as u128;
    if total <= MAX_CENTS as u128 {
        Some(total as u64)
    } else {
        None
    }
}

/// Reads an amount of money written with up to two decimals.
pub fn parse_cents(s: &str) -> (r: Option<u64>)
    ensures
        match r {
            Some(c) => cents_up_to_max(s@) == Some(c as nat),
            None => cents_up_to_max(s@) is None,
        },
{
    let chars = chars_of(s);
    let n = chars.len();
    proof {
        assert(chars@.subrange(0, n as int) =~= s@);
        if n >= 2 {
            assert(chars@.subrange(0, n - 2) =~= s@.take(n - 2));
        }
        if n >= 3 {
            assert(chars@.subrange(0, n - 3) =~= s@.take(n - 3));
        }
    }
    match parse_digits(&chars, 0, n) {
        Some(units) => {
            return cents_from_parts(units, 0, 0);
        },
        None => {},
    }
    if n >= 3 && chars[n - 2] == '.' {
        proof {
            assert(digit_value(s@[n - 2]) is None);
        }
        match (parse_digits(&chars, 0, n - 2), digit_of(chars[n - 1])) {
            (Some(units), Some(tenths)) => {
                return cents_from_parts(units, tenths, 0);
            },
            _ => {},
        }
    }
    if n >= 4 && chars[n - 3] == '.' {
        proof {
            assert(digit_value(s@[n - 3]) is None);
            assert(s@.take(n - 2)[n - 3] == s@[n - 3]);
        }
        match (parse_digits(&chars, 0, n - 3), digit_of(chars[n - 2]), digit_of(chars[n - 1])) {
            (Some(units), Some(tenths), Some(hundredths)) => {
                return cents_from_parts(units, tenths, hundredths);
            },
            _ => {},
        }
    }
    proof {
        if n >= 4 && number_of(s@.take(n - 2)) is Some {
            assert(digit_value(s@.take(n - 2)[n - 3]) is Some);
        }
    }
    None
}

/// The magnitude of a signed amount.
pub open spec fn magnitude(amount: int) -> int {
    if amount < 0 {
        -amount
    } else {
        amount
    }
}

/// The magnitude of a signed amount of cents.
pub fn magnitude_of(amount: i64) -> (r: u64)
    ensures
        r == magnitude(amount as int),
{
    if amount >= 0 {
        amount as u64
    } else if amount == i64::MIN {
        0x8000_0000_0000_0000
    } else {
        (-amount) as u64
    }
}

} // verus!
