//! Binary-coded decimal drawn with the Braille Patterns block, and the clock built from it.
use crate::calendar::{is_valid_civil, CivilTime};
use vstd::prelude::*;

verus! {

/// The dots that the tens digit of a byte raises.
pub open spec fn tens_dots(t: int) -> int {
    if t == 1 {
        0x40
    } else if t == 2 {
        0x04
    } else if t == 3 {
        0x44
    } else if t == 4 {
        0x02
    } else if t == 5 {
        0x42
    } else if t == 6 {
        0x06
    } else if t == 7 {
        0x46
    } else if t == 8 {
        0x01
    } else if t == 9 {
        0x41
    } else {
        0
    }
}

/// The dots that the ones digit of a byte raises.
pub open spec fn ones_dots(o: int) -> int {
    if o == 1 {
        0x80
    } else if o == 2 {
        0x20
    } else if o == 3 {
        0xA0
    } else if o == 4 {
        0x10
    } else if o == 5 {
        0x90
    } else if o == 6 {
        0x30
    } else if o == 7 {
        0xB0
    } else if o == 8 {
        0x08
    } else if o == 9 {
        0x88
    } else {
        0
    }
}

/// The Braille cell of a number in 0..=99.
pub open spec fn braille_of(x: int) -> char {
    (0x2800 + tens_dots(x / 10) + ones_dots(x % 10)) as char
}

/// The clock text of a calendar time: an optional `-`, century and year of century, then month,
/// day, hour, minute and second, one Braille cell each, with `|` between the fields.
pub open spec fn bcd_text(c: CivilTime) -> Seq<char> {
    let y = if c.year < 0 {
        -c.year
    } else {
        c.year as int
    };
    let sign = if c.year < 0 {
        seq!['-']
    } else {
        Seq::<char>::empty()
    };
    sign + seq![
        braille_of(y / 100),
        braille_of(y % 100),
        '|',
        braille_of(c.month as int),
        '|',
        braille_of(c.day as int),
        '|',
        braille_of(c.hour as int),
        '|',
        braille_of(c.minute as int),
        '|',
        braille_of(c.second as int),
    ]
}

/// Whether the clock can draw a year: its century must fit one cell.
pub open spec fn bcd_year_fits(y: int) -> bool {
    -9999 <= y <= 9999
}

/// The Braille cell that shows a number in 0..=99 as two decimal digits.
pub fn bcd_braille(x: u8) -> (c: char)
    requires
        x <= 99,
    ensures
        c == braille_of(x as int),
{
    let tens = x / 10;
    let ones = x - tens * 10;
    let t: u32 = match tens {
        0 => 0x00,
        1 => 0x40,
        2 => 0x04,
        3 => 0x44,
        4 => 0x02,
        5 => 0x42,
        6 => 0x06,
        7 => 0x46,
        8 => 0x01,
        _ => 0x41,
    };
    let o: u32 = match ones {
        0 => 0x00,
        1 => 0x80,
        2 => 0x20,
        3 => 0xA0,
        4 => 0x10,
        5 => 0x90,
        6 => 0x30,
        7 => 0xB0,
        8 => 0x08,
        _ => 0x88,
    };
    core::char::from_u32(0x2800 + t + o).unwrap()
}

/// Draws a valid calendar time whose year has at most four digits as a Braille clock.
pub fn bcd_encode(c: &CivilTime) -> (r: String)
    requires
        is_valid_civil(*c),
        bcd_year_fits(c.year as int),
    ensures
        r@ == bcd_text(*c),
{
    let mut out = String::new();
    let y: u32 = if c.year < 0 {
        out.push('-');
        (-c.year) as u32
    } else {
        c.year as u32
    };
    let century = y / 100;
    out.push(bcd_braille(century as u8));
    out.push(bcd_braille((y - century * 100) as u8));
    out.push('|');
    out.push(bcd_braille(c.month as u8));
    out.push('|');
    out.push(bcd_braille(c.day as u8));
    out.push('|');
    out.push(bcd_braille(c.hour as u8));
    out.push('|');
    out.push(bcd_braille(c.minute as u8));
    out.push('|');
    out.push(bcd_braille(c.second as u8));
    assert(out@ =~= bcd_text(*c));
    out
}

} // verus!
