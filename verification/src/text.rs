//! The fixed texts of the report: decimal number strings (sheet names, month
//! labels), the seven weekday labels, and the six wellbeing-level trend
//! glyphs.

use vstd::prelude::*;

verus! {

pub open spec fn digit_char(d: int) -> char {
    if d == 0 {
        '0'
    } else if d == 1 {
        '1'
    } else if d == 2 {
        '2'
    } else if d == 3 {
        '3'
    } else if d == 4 {
        '4'
    } else if d == 5 {
        '5'
    } else if d == 6 {
        '6'
    } else if d == 7 {
        '7'
    } else if d == 8 {
        '8'
    } else {
        '9'
    }
}

/// The decimal digit string of `n`, without padding or sign.
pub open spec fn dec_digits(n: nat) -> Seq<char>
    decreases n,
{
    if n < 10 {
        seq![digit_char(n as int)]
    } else {
        dec_digits(n / 10).push(digit_char((n % 10) as int))
    }
}

/// Appends one decimal digit to `s`.
fn push_digit(s: &mut String, d: u32)
    requires
        d < 10,
    ensures
        final(s)@ == old(s)@.push(digit_char(d as int)),
{
    let t: &str = match d {
        0 => "0",
        1 => "1",
        2 => "2",
        3 => "3",
        4 => "4",
        5 => "5",
        6 => "6",
        7 => "7",
        8 => "8",
        _ => "9",
    };
    proof {
        reveal_strlit("0");
        reveal_strlit("1");
        reveal_strlit("2");
        reveal_strlit("3");
        reveal_strlit("4");
        reveal_strlit("5");
        reveal_strlit("6");
        reveal_strlit("7");
        reveal_strlit("8");
        reveal_strlit("9");
    }
    s.append(t);
    proof {
        assert(s@ =~= old(s)@.push(digit_char(d as int)));
    }
}

/// Appends the decimal digits of `n` to `s`.
pub fn push_decimal(s: &mut String, n: u32)
    ensures
        final(s)@ == old(s)@ + dec_digits(n as nat),
    decreases n,
{
    if n < 10 {
        push_digit(s, n);
        proof {
            assert(s@ =~= old(s)@ + dec_digits(n as nat));
        }
    } else {
        push_decimal(s, n / 10);
        push_digit(s, n % 10);
        proof {
            assert(s@ =~= old(s)@ + dec_digits(n as nat));
        }
    }
}

/// The decimal digit string of `n`, as the sheet names and labels use it.
pub fn decimal_string(n: u32) -> (s: String)
    ensures
        s@ == dec_digits(n as nat),
{
    let mut s = String::new();
    push_decimal(&mut s, n);
    proof {
        assert(s@ =~= dec_digits(n as nat));
    }
    s
}

/// The fixed weekday label table, Monday-first: label of ISO weekday `w`.
pub open spec fn weekday_label(w: int) -> Seq<char> {
    if w == 1 {
        seq!['月']
    } else if w == 2 {
        seq!['火']
    } else if w == 3 {
        seq!['水']
    } else if w == 4 {
        seq!['木']
    } else if w == 5 {
        seq!['金']
    } else if w == 6 {
        seq!['土']
    } else {
        seq!['日']
    }
}

/// The weekday label as a string value.
pub fn weekday_label_string(w: u8) -> (s: String)
    requires
        1 <= w <= 7,
    ensures
        s@ == weekday_label(w as int),
{
    let t: &str = match w {
        1 => "月",
        2 => "火",
        3 => "水",
        4 => "木",
        5 => "金",
        6 => "土",
        _ => "日",
    };
    proof {
        reveal_strlit("月");
        reveal_strlit("火");
        reveal_strlit("水");
        reveal_strlit("木");
        reveal_strlit("金");
        reveal_strlit("土");
        reveal_strlit("日");
    }
    let s = t.to_owned();
    proof {
        assert(s@ =~= weekday_label(w as int));
    }
    s
}

/// The fixed trend-glyph table: glyph of wellbeing level `l`, best (5, rising
/// arrow) down to worst (0, double-down arrow).
pub open spec fn level_glyph(l: int) -> Seq<char> {
    if l == 5 {
        seq!['↑']
    } else if l == 4 {
        seq!['↗']
    } else if l == 3 {
        seq!['→']
    } else if l == 2 {
        seq!['↘']
    } else if l == 1 {
        seq!['↓']
    } else {
        seq!['⇓']
    }
}

/// The trend glyph as a string value.
pub fn level_glyph_string(l: u8) -> (s: String)
    requires
        l <= 5,
    ensures
        s@ == level_glyph(l as int),
{
    let t: &str = match l {
        5 => "↑",
        4 => "↗",
        3 => "→",
        2 => "↘",
        1 => "↓",
        _ => "⇓",
    };
    proof {
        reveal_strlit("↑");
        reveal_strlit("↗");
        reveal_strlit("→");
        reveal_strlit("↘");
        reveal_strlit("↓");
        reveal_strlit("⇓");
    }
    let s = t.to_owned();
    proof {
        assert(s@ =~= level_glyph(l as int));
    }
    s
}

/// The month label: the month number followed by the month character.
pub open spec fn month_label(m: int) -> Seq<char> {
    dec_digits(m as nat) + seq!['月']
}

/// The month label as a string value.
pub fn month_label_string(m: u8) -> (s: String)
    requires
        1 <= m <= 12,
    ensures
        s@ == month_label(m as int),
{
    let mut s = decimal_string(m as u32);
    proof {
        reveal_strlit("月");
    }
    s.append("月");
    proof {
        assert(s@ =~= month_label(m as int));
    }
    s
}

} // verus!
