//! The 60-symbol alphabet of the "x" format and its compact timestamp text.
use crate::calendar::{civil_seconds, is_valid_civil, CivilTime};
use vstd::prelude::*;

verus! {

/// Largest year that the "x" format is read back into.
pub const X_MAX_YEAR: u32 = 262143;

/// The symbol of digit `d` (0..60): `0`-`9`, then `A`-`Z`, then `a`-`x`.
pub open spec fn symbol_of(d: int) -> char {
    if d < 10 {
        (48 + d) as char
    } else if d < 36 {
        (55 + d) as char
    } else {
        (61 + d) as char
    }
}

/// The digit that a symbol stands for, if it is one of the 60.
pub open spec fn digit_of(c: char) -> Option<int> {
    if '0' <= c && c <= '9' {
        Some(c as int - 48)
    } else if 'A' <= c && c <= 'Z' {
        Some(c as int - 55)
    } else if 'a' <= c && c <= 'x' {
        Some(c as int - 61)
    } else {
        None
    }
}

/// The alphabet is a bijection between the digits 0..60 and its 60 symbols.
pub proof fn lemma_alphabet_bijection()
    ensures
        forall|d: int| 0 <= d < 60 ==> #[trigger] digit_of(symbol_of(d)) == Some(d),
        forall|c: char| #[trigger]
            digit_of(c) matches Some(d) ==> 0 <= d < 60 && symbol_of(d) == c,
        forall|a: int, b: int|
            0 <= a < 60 && 0 <= b < 60 && a != b ==> #[trigger] symbol_of(a) != #[trigger] symbol_of(
                b,
            ),
{
    assert forall|a: int, b: int|
        0 <= a < 60 && 0 <= b < 60 && a != b implies #[trigger] symbol_of(a) != #[trigger] symbol_of(
            b,
        ) by {
        assert(digit_of(symbol_of(a)) == Some(a));
        assert(digit_of(symbol_of(b)) == Some(b));
    }
}

/// Base-60 digits of `n`, most significant first; zero has the single digit 0.
pub open spec fn base60_digits(n: nat) -> Seq<int>
    decreases n,
{
    if n < 60 {
        seq![n as int]
    } else {
        base60_digits(n / 60).push((n % 60) as int)
    }
}

pub open spec fn symbols(ds: Seq<int>) -> Seq<char> {
    ds.map_values(|d: int| symbol_of(d))
}

/// The year as the "x" format writes it: a negative year wraps around as a `u32` does.
pub open spec fn x_year(y: int) -> nat {
    if y >= 0 {
        y as nat
    } else {
        (y + 0x1_0000_0000) as nat
    }
}

/// The "x" text of a calendar time: the year in base 60, then one symbol each for the
/// zero-based month and day, the hour, the minute and the second.
pub open spec fn x_text(c: CivilTime) -> Seq<char> {
    symbols(base60_digits(x_year(c.year as int))) + seq![
        symbol_of(c.month - 1),
        symbol_of(c.day - 1),
        symbol_of(c.hour as int),
        symbol_of(c.minute as int),
        symbol_of(c.second as int),
    ]
}

pub open spec fn all_symbols(s: Seq<char>) -> bool {
    forall|i: int| 0 <= i < s.len() ==> (#[trigger] digit_of(s[i])) is Some
}

/// The number that a run of symbols spells in base 60, most significant first.
pub open spec fn base60_value(s: Seq<char>) -> int
    decreases s.len(),
{
    if s.len() == 0 {
        0
    } else {
        base60_value(s.drop_last()) * 60 + digit_of(s.last()).unwrap()
    }
}

/// The calendar time that an "x" text spells, when it is at least five symbols long; the
/// year is the value of all but the last five.
pub open spec fn x_civil(s: Seq<char>) -> CivilTime
    recommends
        s.len() >= 5,
{
    let n = s.len() as int;
    CivilTime {
        year: base60_value(s.take(n - 5)) as i32,
        month: (digit_of(s[n - 5]).unwrap() + 1) as u32,
        day: (digit_of(s[n - 4]).unwrap() + 1) as u32,
        hour: digit_of(s[n - 3]).unwrap() as u32,
        minute: digit_of(s[n - 2]).unwrap() as u32,
        second: digit_of(s[n - 1]).unwrap() as u32,
    }
}

/// The seconds since the epoch that an "x" text stands for, or `None` where it is shorter than
/// five symbols, holds a character outside the alphabet, spells a year above 262143, or spells
/// no valid calendar time.
pub open spec fn x_seconds(s: Seq<char>) -> Option<int> {
    if s.len() < 5 || !all_symbols(s) {
        None
    } else if base60_value(s.take(s.len() - 5)) > X_MAX_YEAR {
        None
    } else if !is_valid_civil(x_civil(s)) {
        None
    } else {
        Some(civil_seconds(x_civil(s)))
    }
}

/// The symbol of a digit below 60.
pub fn digit_symbol(d: u32) -> (c: char)
    requires
        d < 60,
    ensures
        c == symbol_of(d as int),
{
    let b = d as u8;
    if b < 10 {
        (48 + b) as char
    } else if b < 36 {
        (55 + b) as char
    } else {
        (61 + b) as char
    }
}

/// The digit of a symbol, or `None` for a character outside the alphabet.
pub fn symbol_digit(c: char) -> (r: Option<u32>)
    ensures
        r matches Some(d) ==> digit_of(c) == Some(d as int),
        r is None ==> digit_of(c) is None,
{
    let u = c as u32;
    if '0' <= c && c <= '9' {
        Some(u - 48)
    } else if 'A' <= c && c <= 'Z' {
        Some(u - 55)
    } else if 'a' <= c && c <= 'x' {
        Some(u - 61)
    } else {
        None
    }
}

/// Appends the base-60 symbols of `n`, most significant first.
fn push_base60(out: &mut String, n: u32)
    ensures
        final(out)@ == old(out)@ + symbols(base60_digits(n as nat)),
    decreases n,
{
    if n >= 60 {
        push_base60(out, n / 60);
    }
    out.push(digit_symbol(n % 60));
    proof {
        let ds = base60_digits(n as nat);
        if n >= 60 {
            assert(symbols(ds) =~= symbols(base60_digits((n / 60) as nat)).push(symbol_of((n % 60) as int)));
        } else {
            assert(symbols(ds) =~= seq![symbol_of(n as int)]);
        }
    }
}

/// Writes a valid calendar time in the "x" format.
pub fn x_encode(c: &CivilTime) -> (r: String)
    requires
        is_valid_civil(*c),
    ensures
        r@ == x_text(*c),
        all_symbols(r@),
{
    let mut out = String::new();
    let y: u32 = if c.year >= 0 {
        c.year as u32
    } else {
        (c.year as i64 + 0x1_0000_0000i64) as u32
    };
    push_base60(&mut out, y);
    out.push(digit_symbol(c.month - 1));
    out.push(digit_symbol(c.day - 1));
    out.push(digit_symbol(c.hour));
    out.push(digit_symbol(c.minute));
    out.push(digit_symbol(c.second));
    assert(out@ =~= x_text(*c));
    proof {
        lemma_alphabet_bijection();
        let head = symbols(base60_digits(x_year(c.year as int)));
        lemma_digits_value(x_year(c.year as int));
        assert forall|i: int| 0 <= i < out@.len() implies (#[trigger] digit_of(out@[i])) is Some by {
            if i < head.len() {
                assert(out@[i] == head[i]);
            }
        }
    }
    out
}

proof fn lemma_base60_value_grows(s: Seq<char>, k: int)
    requires
        0 <= k <= s.len(),
        all_symbols(s),
    ensures
        base60_value(s.take(k)) <= base60_value(s),
        0 <= base60_value(s.take(k)),
    decreases s.len() - k,
{
    if k < s.len() {
        lemma_base60_value_grows(s, k + 1);
        let t = s.take(k + 1);
        assert(t.drop_last() =~= s.take(k));
        assert(digit_of(s[k]) is Some);
        assert(base60_value(s.take(k)) >= 0);
    } else {
        assert(s.take(k) =~= s);
        lemma_base60_value_nonneg(s);
    }
}

proof fn lemma_base60_value_nonneg(s: Seq<char>)
    requires
        all_symbols(s),
    ensures
        0 <= base60_value(s),
    decreases s.len(),
{
    if s.len() > 0 {
        assert(all_symbols(s.drop_last()));
        lemma_base60_value_nonneg(s.drop_last());
        assert(digit_of(s[s.len() - 1]) is Some);
    }
}

/// Reads the calendar time out of an "x" text; `None` exactly where `x_seconds` has none.
pub fn x_decode(s: &str) -> (r: Option<CivilTime>)
    ensures
        r is Some <==> x_seconds(s@) is Some,
        r matches Some(c) ==> c == x_civil(s@) && is_valid_civil(c) && 0 <= c.year <= X_MAX_YEAR
            && x_seconds(s@) == Some(civil_seconds(c)),
{
    let n = s.unicode_len();
    if n < 5 {
        return None;
    }
    let mut fields: Vec<u32> = Vec::new();
    let mut i: usize = n - 5;
    while i < n
        invariant
            n == s@.len(),
            n >= 5,
            n - 5 <= i <= n,
            fields.len() == i - (n - 5),
            forall|j: int| 0 <= j < fields.len() ==> digit_of(s@[n - 5 + j]) == Some(fields[j] as int),
        decreases n - i,
    {
        match symbol_digit(s.get_char(i)) {
            Some(d) => fields.push(d),
            None => {
                return None;
            },
        }
        i = i + 1;
    }
    let mut year: u32 = 0;
    let mut k: usize = 0;
    let ghost head = s@.take(n - 5);
    while k < n - 5
        invariant
            n == s@.len(),
            n >= 5,
            head == s@.take(n - 5),
            k <= n - 5,
            year <= X_MAX_YEAR,
            all_symbols(head.take(k as int)),
            year == base60_value(head.take(k as int)),
        decreases n - 5 - k,
    {
        let d = match symbol_digit(s.get_char(k)) {
            Some(d) => d,
            None => {
                return None;
            },
        };
        proof {
            let t = head.take(k + 1);
            assert(t.drop_last() =~= head.take(k as int));
            assert(t.last() == s@[k as int]);
            assert(all_symbols(t));
        }
        if year > (X_MAX_YEAR - d) / 60 {
            proof {
                let t = head.take(k + 1);
                assert(base60_value(t) > X_MAX_YEAR);
                if all_symbols(s@) {
                    assert(all_symbols(head));
                    assert(head.take(k + 1) =~= head.take(k + 1).take(k + 1));
                    lemma_base60_value_grows(head, k + 1);
                }
            }
            return None;
        }
        year = year * 60 + d;
        k = k + 1;
    }
    proof {
        assert(head.take(n - 5) =~= head);
        assert(all_symbols(s@)) by {
            assert forall|j: int| 0 <= j < s@.len() implies (#[trigger] digit_of(s@[j])) is Some by {
                if j < n - 5 {
                    assert(head[j] == s@[j]);
                } else {
                    assert(digit_of(s@[n - 5 + (j - (n - 5))]) == Some(fields[j - (n - 5)] as int));
                }
            }
        }
    }
    let c = CivilTime {
        year: year as i32,
        month: fields[0] + 1,
        day: fields[1] + 1,
        hour: fields[2],
        minute: fields[3],
        second: fields[4],
    };
    assert(c == x_civil(s@));
    if c.month >= 1 && c.month <= 12 && c.hour < 24 && c.minute < 60 && c.second < 60 && c.day
        >= 1 && c.day <= month_length(c.year, c.month) {
        assert(is_valid_civil(c));
        Some(c)
    } else {
        None
    }
}

proof fn lemma_digits_value(n: nat)
    ensures
        all_symbols(symbols(base60_digits(n))),
        base60_value(symbols(base60_digits(n))) == n,
    decreases n,
{
    lemma_alphabet_bijection();
    let s = symbols(base60_digits(n));
    if n >= 60 {
        lemma_digits_value(n / 60);
        vstd::arithmetic::div_mod::lemma_fundamental_div_mod(n as int, 60);
        assert(s.drop_last() =~= symbols(base60_digits(n / 60)));
        assert(s.last() == symbol_of((n % 60) as int));
        assert(digit_of(s.last()) == Some((n % 60) as int));
        assert(all_symbols(s)) by {
            assert forall|i: int| 0 <= i < s.len() implies (#[trigger] digit_of(s[i])) is Some by {
                if i < s.len() - 1 {
                    assert(s[i] == s.drop_last()[i]);
                }
            }
        }
    } else {
        assert(s.drop_last() =~= Seq::<char>::empty());
        assert(digit_of(s[0]) == Some(n as int));
        assert(base60_value(s.drop_last()) == 0);
    }
}

/// Reading back the "x" text of a valid calendar time of a year in 0..=262143 gives the same
/// time.
pub proof fn lemma_x_round_trip(c: CivilTime)
    requires
        is_valid_civil(c),
        0 <= c.year <= X_MAX_YEAR,
    ensures
        x_seconds(x_text(c)) == Some(civil_seconds(c)),
{
    lemma_alphabet_bijection();
    lemma_digits_value(c.year as nat);
    let head = symbols(base60_digits(c.year as nat));
    let t = x_text(c);
    let n = t.len() as int;
    assert(t.take(n - 5) =~= head);
    assert(digit_of(t[n - 5]) == Some(c.month - 1));
    assert(digit_of(t[n - 4]) == Some(c.day - 1));
    assert(digit_of(t[n - 3]) == Some(c.hour as int));
    assert(digit_of(t[n - 2]) == Some(c.minute as int));
    assert(digit_of(t[n - 1]) == Some(c.second as int));
    assert(all_symbols(t)) by {
        assert forall|i: int| 0 <= i < t.len() implies (#[trigger] digit_of(t[i])) is Some by {
            if i < n - 5 {
                assert(t[i] == head[i]);
            }
        }
    }
    assert(x_civil(t) == c);
}

/// The number of days in a month of a year.
pub fn month_length(y: i32, m: u32) -> (r: u32)
    requires
        1 <= m <= 12,
    ensures
        r == crate::calendar::days_in_month(y as int, m as int),
{
    if m == 2 {
        if (y % 4 == 0 && y % 100 != 0) || y % 400 == 0 {
            29
        } else {
            28
        }
    } else if m == 4 || m == 6 || m == 9 || m == 11 {
        30
    } else {
        31
    }
}

} // verus!
