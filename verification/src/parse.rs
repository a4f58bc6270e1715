//! Parsing the delta-log text: a headerless table with a two-row preamble,
//! three positional comma-separated fields per line (a slash-separated date,
//! an integer wellbeing level, a free-text comment), any of which may be
//! missing or unparseable and is then taken as absent.

use vstd::prelude::*;

use crate::date::Date;
use crate::ingest::InputRow;
use vstd::std_specs::iter::IteratorSpec;

verus! {

/// Index of the first occurrence of `sep` in `s`, or `s.len()` if none.
pub open spec fn scan_to(s: Seq<char>, sep: char) -> nat
    decreases s.len(),
{
    if s.len() == 0 {
        0
    } else if s[0] == sep {
        0
    } else {
        1 + scan_to(s.subrange(1, s.len() as int), sep)
    }
}

pub proof fn lemma_scan_to(s: Seq<char>, sep: char)
    ensures
        scan_to(s, sep) <= s.len(),
        scan_to(s, sep) < s.len() ==> s[scan_to(s, sep) as int] == sep,
        forall|i: int| 0 <= i < scan_to(s, sep) ==> s[i] != sep,
    decreases s.len(),
{
    if s.len() > 0 && s[0] != sep {
        let t = s.subrange(1, s.len() as int);
        lemma_scan_to(t, sep);
        assert forall|i: int| 0 <= i < scan_to(s, sep) implies s[i] != sep by {
            if i > 0 {
                assert(t[i - 1] == s[i]);
            }
        }
    }
}

/// `scan_to` is determined by being the first occurrence.
pub proof fn lemma_scan_to_is(s: Seq<char>, sep: char, j: int)
    requires
        0 <= j <= s.len(),
        j < s.len() ==> s[j] == sep,
        forall|i: int| 0 <= i < j ==> s[i] != sep,
    ensures
        scan_to(s, sep) == j,
{
    lemma_scan_to(s, sep);
    if scan_to(s, sep) < j {
        assert(s[scan_to(s, sep) as int] == sep);
        assert(false);
    }
    if j < scan_to(s, sep) {
        assert(s[j] != sep);
        assert(false);
    }
}

/// The fields of `s` split on `sep`: one more field than separators, fields
/// may be empty, the separators themselves belong to no field.
pub open spec fn fields_of(s: Seq<char>, sep: char) -> Seq<Seq<char>>
    decreases s.len(),
{
    let e = scan_to(s, sep);
    if e >= s.len() {
        seq![s]
    } else {
        seq![s.subrange(0, e as int)] + fields_of(s.subrange(e as int + 1, s.len() as int), sep)
    }
}

/// Splits `s` on `sep`.
pub fn split_on(s: &Vec<char>, sep: char) -> (parts: Vec<Vec<char>>)
    ensures
        parts@.map_values(|p: Vec<char>| p@) == fields_of(s@, sep),
{
    let mut parts: Vec<Vec<char>> = Vec::new();
    let mut cur: Vec<char> = Vec::new();
    proof {
        assert(s@.subrange(0, s@.len() as int) =~= s@);
        assert(parts@.map_values(|p: Vec<char>| p@) + fields_of(s@, sep) =~= fields_of(s@, sep));
    }
    let mut i: usize = 0;
    while i < s.len()
        invariant
            i <= s@.len(),
            cur@.len() <= i,
            cur@ == s@.subrange(i - cur@.len(), i as int),
            forall|j: int| i - cur@.len() <= j < i ==> s@[j] != sep,
            fields_of(s@, sep) == parts@.map_values(|p: Vec<char>| p@) + fields_of(
                s@.subrange(i - cur@.len(), s@.len() as int),
                sep,
            ),
        decreases s@.len() - i,
    {
        let ghost start = i - cur@.len();
        let ghost pre_parts = parts@.map_values(|p: Vec<char>| p@);
        let ghost pre_cur = cur@;
        let c = s[i];
        if c == sep {
            proof {
                let suffix = s@.subrange(start, s@.len() as int);
                assert forall|t: int| 0 <= t < i - start implies suffix[t] != sep by {
                    assert(suffix[t] == s@[start + t]);
                }
                lemma_scan_to_is(suffix, sep, i - start);
                assert(suffix.subrange(0, i - start) =~= pre_cur);
                assert(suffix.subrange(i - start + 1, suffix.len() as int) =~= s@.subrange(
                    i + 1,
                    s@.len() as int,
                ));
                assert(fields_of(suffix, sep) == seq![pre_cur] + fields_of(
                    s@.subrange(i + 1, s@.len() as int),
                    sep,
                ));
            }
            let done = cur;
            cur = Vec::new();
            parts.push(done);
            proof {
                assert(parts@.map_values(|p: Vec<char>| p@) =~= pre_parts.push(pre_cur));
                assert(pre_parts.push(pre_cur) + fields_of(s@.subrange(i + 1, s@.len() as int), sep)
                    =~= pre_parts + (seq![pre_cur] + fields_of(
                    s@.subrange(i + 1, s@.len() as int),
                    sep,
                )));
                assert(cur@ =~= s@.subrange(i + 1, i + 1));
            }
        } else {
            cur.push(c);
            proof {
                assert(cur@ =~= s@.subrange(start, i + 1));
            }
        }
        i += 1;
    }
    proof {
        let start = i - cur@.len();
        let suffix = s@.subrange(start, s@.len() as int);
        assert forall|t: int| 0 <= t < i - start implies suffix[t] != sep by {
            assert(suffix[t] == s@[start + t]);
        }
        lemma_scan_to_is(suffix, sep, i - start);
        assert(fields_of(suffix, sep) == seq![suffix]);
        assert(suffix =~= cur@);
    }
    let ghost pre_parts = parts@.map_values(|p: Vec<char>| p@);
    let ghost pre_cur = cur@;
    parts.push(cur);
    proof {
        assert(parts@.map_values(|p: Vec<char>| p@) =~= pre_parts.push(pre_cur));
        assert(pre_parts.push(pre_cur) =~= pre_parts + seq![pre_cur]);
    }
    parts
}

// ---------------------------------------------------------------------------
// Field values.
// ---------------------------------------------------------------------------

pub open spec fn is_digit(c: char) -> bool {
    48 <= c as u32 <= 57
}

pub open spec fn digit_val(c: char) -> int {
    c as u32 - 48
}

pub open spec fn all_digits(s: Seq<char>) -> bool {
    forall|i: int| 0 <= i < s.len() ==> is_digit(#[trigger] s[i])
}

/// The number a digit string denotes.
pub open spec fn dec_value(s: Seq<char>) -> int
    decreases s.len(),
{
    if s.len() == 0 {
        0
    } else {
        10 * dec_value(s.drop_last()) + digit_val(s.last())
    }
}

pub open spec fn pow10(n: nat) -> int
    decreases n,
{
    if n == 0 {
        1
    } else {
        10 * pow10((n - 1) as nat)
    }
}

pub proof fn lemma_pow10_pos(n: nat)
    ensures
        pow10(n) >= 1,
    decreases n,
{
    if n > 0 {
        lemma_pow10_pos((n - 1) as nat);
    }
}

pub proof fn lemma_pow10_mono(a: nat, b: nat)
    requires
        a <= b,
    ensures
        pow10(a) <= pow10(b),
    decreases b,
{
    if a < b {
        lemma_pow10_mono(a, (b - 1) as nat);
        lemma_pow10_pos((b - 1) as nat);
    }
}

pub proof fn lemma_dec_value_bound(s: Seq<char>)
    requires
        all_digits(s),
    ensures
        0 <= dec_value(s) < pow10(s.len()),
    decreases s.len(),
{
    if s.len() > 0 {
        lemma_dec_value_bound(s.drop_last());
    }
}

/// Reads a digit string's value.
fn dec_value_of(f: &Vec<char>, from: usize, to: usize) -> (v: u64)
    requires
        from <= to <= f@.len(),
        to - from <= 10,
        all_digits(f@.subrange(from as int, to as int)),
    ensures
        v == dec_value(f@.subrange(from as int, to as int)),
{
    let ghost digits = f@.subrange(from as int, to as int);
    proof {
        reveal_with_fuel(pow10, 10);
    }
    let mut v: u64 = 0;
    let mut i: usize = from;
    while i < to
        invariant
            from <= i <= to <= f@.len(),
            to - from <= 10,
            digits == f@.subrange(from as int, to as int),
            all_digits(digits),
            v == dec_value(digits.subrange(0, i - from)),
            pow10(9) == 1000000000,
        decreases to - i,
    {
        proof {
            lemma_dec_value_bound(digits.subrange(0, i - from));
            lemma_pow10_mono(digits.subrange(0, i - from).len(), 9);
            assert(digits.subrange(0, i - from + 1).drop_last() =~= digits.subrange(0, i - from));
            assert(digits.subrange(0, i - from + 1).last() == f@[i as int]);
            assert(is_digit(f@[i as int])) by {
                assert(digits[i - from] == f@[i as int]);
            }
        }
        let c: u32 = f[i] as u32;
        v = v * 10 + (c - 48) as u64;
        i += 1;
    }
    proof {
        assert(digits.subrange(0, digits.len() as int) =~= digits);
    }
    v
}

/// Whether all of `f[from..to]` are decimal digits.
fn all_digits_in(f: &Vec<char>, from: usize, to: usize) -> (b: bool)
    requires
        from <= to <= f@.len(),
    ensures
        b == all_digits(f@.subrange(from as int, to as int)),
{
    let ghost digits = f@.subrange(from as int, to as int);
    let mut i: usize = from;
    while i < to
        invariant
            from <= i <= to <= f@.len(),
            digits == f@.subrange(from as int, to as int),
            forall|j: int| 0 <= j < i - from ==> is_digit(#[trigger] digits[j]),
        decreases to - i,
    {
        let c: u32 = f[i] as u32;
        if c < 48 || c > 57 {
            proof {
                assert(digits[i - from] == f@[i as int]);
            }
            return false;
        }
        proof {
            assert(digits[i - from] == f@[i as int]);
        }
        i += 1;
    }
    true
}

/// The wellbeing level a field denotes: a decimal integer, optionally
/// negative, of at most ten digits, within the 32-bit signed range; anything
/// else counts as absent.
pub open spec fn level_of_field(f: Seq<char>) -> Option<i32> {
    if f.len() > 0 && f[0] == '-' {
        let d = f.subrange(1, f.len() as int);
        if 1 <= d.len() <= 10 && all_digits(d) && dec_value(d) <= 0x8000_0000 {
            Some((-dec_value(d)) as i32)
        } else {
            None
        }
    } else {
        if 1 <= f.len() <= 10 && all_digits(f) && dec_value(f) <= 0x7fff_ffff {
            Some(dec_value(f) as i32)
        } else {
            None
        }
    }
}

/// Parses a level field.
pub fn parse_level(f: &Vec<char>) -> (r: Option<i32>)
    ensures
        r == level_of_field(f@),
{
    if f.len() > 0 && f[0] == '-' {
        let from: usize = 1;
        let to: usize = f.len();
        if to - from < 1 || to - from > 10 || !all_digits_in(f, from, to) {
            return None;
        }
        let v = dec_value_of(f, from, to);
        if v <= 0x8000_0000 {
            Some((-(v as i64)) as i32)
        } else {
            None
        }
    } else {
        let to: usize = f.len();
        if to < 1 || to > 10 || !all_digits_in(f, 0, to) {
            proof {
                assert(f@.subrange(0, f@.len() as int) =~= f@);
            }
            return None;
        }
        proof {
            assert(f@.subrange(0, f@.len() as int) =~= f@);
        }
        let v = dec_value_of(f, 0, to);
        if v <= 0x7fff_ffff {
            Some(v as i32)
        } else {
            None
        }
    }
}

/// The date a field denotes: three slash-separated digit runs (up to four
/// year digits, up to two each for month and day) naming a real calendar
/// day; anything else counts as absent.
pub open spec fn date_of_field(f: Seq<char>) -> Option<Date> {
    let ps = fields_of(f, '/');
    if ps.len() == 3 && 1 <= ps[0].len() <= 4 && 1 <= ps[1].len() <= 2 && 1 <= ps[2].len() <= 2
        && all_digits(ps[0]) && all_digits(ps[1]) && all_digits(ps[2]) {
        let dt = Date {
            year: dec_value(ps[0]) as i32,
            month: dec_value(ps[1]) as u8,
            day: dec_value(ps[2]) as u8,
        };
        if dt.valid() {
            Some(dt)
        } else {
            None
        }
    } else {
        None
    }
}

/// Parses a date field.
pub fn parse_date_field(f: &Vec<char>) -> (r: Option<Date>)
    ensures
        r == date_of_field(f@),
        r matches Some(d) ==> d.valid(),
{
    let parts = split_on(f, '/');
    let ghost ps = fields_of(f@, '/');
    if parts.len() != 3 {
        return None;
    }
    proof {
        assert(parts@[0]@ == ps[0] && parts@[1]@ == ps[1] && parts@[2]@ == ps[2]);
    }
    let ylen = parts[0].len();
    let mlen = parts[1].len();
    let dlen = parts[2].len();
    if ylen < 1 || ylen > 4 || mlen < 1 || mlen > 2 || dlen < 1 || dlen > 2 {
        return None;
    }
    if !all_digits_in(&parts[0], 0, ylen) || !all_digits_in(&parts[1], 0, mlen)
        || !all_digits_in(&parts[2], 0, dlen) {
        proof {
            assert(ps[0].subrange(0, ps[0].len() as int) =~= ps[0]);
            assert(ps[1].subrange(0, ps[1].len() as int) =~= ps[1]);
            assert(ps[2].subrange(0, ps[2].len() as int) =~= ps[2]);
        }
        return None;
    }
    proof {
        assert(ps[0].subrange(0, ps[0].len() as int) =~= ps[0]);
        assert(ps[1].subrange(0, ps[1].len() as int) =~= ps[1]);
        assert(ps[2].subrange(0, ps[2].len() as int) =~= ps[2]);
        lemma_dec_value_bound(ps[0]);
        lemma_dec_value_bound(ps[1]);
        lemma_dec_value_bound(ps[2]);
        assert(pow10(4) == 10000 && pow10(2) == 100) by {
            reveal_with_fuel(pow10, 5);
        }
    }
    let y = dec_value_of(&parts[0], 0, ylen);
    let m = dec_value_of(&parts[1], 0, mlen);
    let d = dec_value_of(&parts[2], 0, dlen);
    Date::new(y as i32, m as u8, d as u8)
}

/// Relies on String::push: appends one character to the string.
#[verifier::external_body]
fn push_char(s: &mut String, c: char)
    ensures
        final(s)@ == old(s)@.push(c),
{
    s.push(c);
}

/// The comment a field denotes: its text, absent when the field is empty.
pub fn parse_comment(f: &Vec<char>) -> (r: Option<String>)
    ensures
        match r {
            Some(c) => f@.len() > 0 && c@ == f@,
            None => f@.len() == 0,
        },
{
    if f.len() == 0 {
        return None;
    }
    let mut c = String::new();
    let mut i: usize = 0;
    while i < f.len()
        invariant
            i <= f@.len(),
            c@ == f@.subrange(0, i as int),
        decreases f@.len() - i,
    {
        push_char(&mut c, f[i]);
        proof {
            assert(f@.subrange(0, i as int).push(f@[i as int]) =~= f@.subrange(0, i + 1));
        }
        i += 1;
    }
    proof {
        assert(f@.subrange(0, f@.len() as int) =~= f@);
    }
    Some(c)
}

// ---------------------------------------------------------------------------
// Lines and rows.
// ---------------------------------------------------------------------------

/// The characters of `text` as a vector.
fn to_chars(text: &str) -> (v: Vec<char>)
    ensures
        v@ == text@,
{
    broadcast use vstd::string::group_string_axioms;

    let mut it = text.chars();
    let mut v: Vec<char> = Vec::new();
    loop
        invariant
            it.obeys_prophetic_iter_laws(),
            it.decrease() is Some,
            v@ + it.remaining() == text@,
        ensures
            v@ == text@,
        decreases it.decrease()->0,
    {
        match it.next() {
            Some(c) => {
                v.push(c);
                proof {
                    assert(v@ + it.remaining() =~= text@);
                }
            },
            None => {
                proof {
                    assert(v@ =~= text@);
                }
                break ;
            },
        }
    }
    v
}

/// A line with its trailing carriage return, if any, removed.
pub open spec fn trim_cr(l: Seq<char>) -> Seq<char> {
    if l.len() > 0 && l.last() == '\r' {
        l.drop_last()
    } else {
        l
    }
}

/// The lines of `s`: split on line feeds, each line stripped of a trailing
/// carriage return; a final line feed ends the last line rather than opening
/// an empty one.
pub open spec fn lines_of(s: Seq<char>) -> Seq<Seq<char>>
    decreases s.len(),
{
    if s.len() == 0 {
        Seq::empty()
    } else {
        let e = scan_to(s, '\n');
        if e >= s.len() {
            seq![trim_cr(s)]
        } else {
            seq![trim_cr(s.subrange(0, e as int))] + lines_of(
                s.subrange(e as int + 1, s.len() as int),
            )
        }
    }
}

/// The text with a leading byte-order mark, if any, removed.
pub open spec fn strip_bom(s: Seq<char>) -> Seq<char> {
    if s.len() > 0 && s[0] == '\u{feff}' {
        s.subrange(1, s.len() as int)
    } else {
        s
    }
}

/// How one data line is read: the first comma-separated field as the date,
/// the second as the level, the third as the comment, each absent where
/// missing or unparseable (an empty third field is an absent comment).
pub open spec fn row_matches(row: InputRow, l: Seq<char>) -> bool {
    let fs = fields_of(l, ',');
    &&& row.date == date_of_field(fs[0])
    &&& row.level == (if fs.len() >= 2 {
        level_of_field(fs[1])
    } else {
        None::<i32>
    })
    &&& (if fs.len() >= 3 && fs[2].len() > 0 {
        row.comment matches Some(c) && c@ == fs[2]
    } else {
        row.comment is None
    })
}

/// Reads one data line into a row.
fn parse_line_row(line: &Vec<char>) -> (row: InputRow)
    ensures
        row_matches(row, line@),
        row.date matches Some(d) ==> d.valid(),
{
    let fields = split_on(line, ',');
    let ghost fs = fields_of(line@, ',');
    proof {
        assert(fields@.map_values(|p: Vec<char>| p@).len() >= 1);
        assert(fields@[0]@ == fs[0]);
    }
    let date = parse_date_field(&fields[0]);
    let level = if fields.len() >= 2 {
        proof {
            assert(fields@[1]@ == fs[1]);
        }
        parse_level(&fields[1])
    } else {
        None
    };
    let comment = if fields.len() >= 3 {
        proof {
            assert(fields@[2]@ == fs[2]);
        }
        parse_comment(&fields[2])
    } else {
        None
    };
    InputRow { date, level, comment }
}

/// Reads the delta-log text into raw rows: the first two lines are preamble
/// and are skipped, every later line yields one row.
pub fn parse_delta_log(text: &str) -> (rows: Vec<InputRow>)
    ensures
        ({
            let lines = lines_of(strip_bom(text@));
            &&& rows@.len() == (if lines.len() >= 2 {
                lines.len() - 2
            } else {
                0int
            })
            &&& forall|i: int| 0 <= i < rows@.len() ==> row_matches(#[trigger] rows@[i], lines[i + 2])
            &&& forall|i: int|
                0 <= i < rows@.len() ==> ((#[trigger] rows@[i]).date matches Some(d) ==> d.valid())
        }),
{
    let chars = to_chars(text);
    let start: usize = if chars.len() > 0 && chars[0] == '\u{feff}' {
        1
    } else {
        0
    };
    let ghost body = strip_bom(text@);
    proof {
        assert(body =~= chars@.subrange(start as int, chars@.len() as int));
    }
    let ghost all_lines = lines_of(body);
    let mut rows: Vec<InputRow> = Vec::new();
    let mut p: usize = start;
    let mut line_idx: usize = 0;
    while p < chars.len()
        invariant
            start <= p <= chars@.len(),
            line_idx <= p,
            chars@ == text@,
            body == strip_bom(text@),
            all_lines == lines_of(body),
            line_idx <= all_lines.len(),
            lines_of(chars@.subrange(p as int, chars@.len() as int)) == all_lines.skip(
                line_idx as int,
            ),
            rows@.len() == (if line_idx >= 2 {
                line_idx - 2
            } else {
                0int
            }),
            forall|i: int| 0 <= i < rows@.len() ==> row_matches(#[trigger] rows@[i], all_lines[i + 2]),
            forall|i: int|
                0 <= i < rows@.len() ==> ((#[trigger] rows@[i]).date matches Some(d) ==> d.valid()),
        decreases chars@.len() - p,
    {
        let ghost suffix = chars@.subrange(p as int, chars@.len() as int);
        let mut e: usize = p;
        while e < chars.len() && chars[e] != '\n'
            invariant
                p <= e <= chars@.len(),
                forall|j: int| p <= j < e ==> chars@[j] != '\n',
            decreases chars@.len() - e,
        {
            e += 1;
        }
        let t: usize = if e > p && chars[e - 1] == '\r' {
            e - 1
        } else {
            e
        };
        let mut line: Vec<char> = Vec::new();
        let mut q: usize = p;
        while q < t
            invariant
                p <= q <= t <= chars@.len(),
                line@ == chars@.subrange(p as int, q as int),
            decreases t - q,
        {
            line.push(chars[q]);
            proof {
                assert(line@ =~= chars@.subrange(p as int, q + 1));
            }
            q += 1;
        }
        proof {
            assert forall|j: int| 0 <= j < e - p implies suffix[j] != '\n' by {
                assert(suffix[j] == chars@[p + j]);
            }
            lemma_scan_to_is(suffix, '\n', e - p);
            if e < chars@.len() {
                assert(suffix.subrange(0, e - p) =~= chars@.subrange(p as int, e as int));
                assert(suffix.subrange(e - p + 1, suffix.len() as int) =~= chars@.subrange(
                    e + 1,
                    chars@.len() as int,
                ));
            } else {
                assert(suffix =~= chars@.subrange(p as int, e as int));
            }
            assert(trim_cr(chars@.subrange(p as int, e as int)) =~= line@) by {
                if e > p && chars@[e - 1] == '\r' {
                    assert(chars@.subrange(p as int, e as int).drop_last() =~= chars@.subrange(
                        p as int,
                        t as int,
                    ));
                }
            }
            if e < chars@.len() {
                assert(lines_of(suffix)[0] == line@);
            } else {
                assert(lines_of(suffix)[0] == line@);
            }
            assert(all_lines.skip(line_idx as int).len() >= 1);
            assert(line_idx < all_lines.len());
            assert(all_lines.skip(line_idx as int)[0] == all_lines[line_idx as int]);
            assert(all_lines[line_idx as int] == line@);
        }
        if line_idx >= 2 {
            let row = parse_line_row(&line);
            rows.push(row);
        }
        line_idx += 1;
        proof {
            if e < chars@.len() {
                assert(lines_of(suffix) == seq![line@] + lines_of(
                    chars@.subrange(e + 1, chars@.len() as int),
                ));
                assert(lines_of(chars@.subrange(e + 1, chars@.len() as int)) =~= all_lines.skip(
                    line_idx as int,
                )) by {
                    assert(all_lines.skip(line_idx as int) =~= all_lines.skip(line_idx - 1).skip(1));
                }
            } else {
                assert(lines_of(suffix) == seq![line@]);
                assert(all_lines.skip(line_idx as int) =~= Seq::<Seq<char>>::empty()) by {
                    assert(all_lines.skip(line_idx as int) =~= all_lines.skip(line_idx - 1).skip(1));
                }
                assert(lines_of(chars@.subrange(
                    chars@.len() as int,
                    chars@.len() as int,
                )) =~= Seq::<Seq<char>>::empty()) by {
                    assert(chars@.subrange(chars@.len() as int, chars@.len() as int) =~= Seq::<
                        char,
                    >::empty());
                }
            }
        }
        if e < chars.len() {
            p = e + 1;
        } else {
            p = chars.len();
        }
    }
    proof {
        assert(chars@.subrange(p as int, chars@.len() as int) =~= Seq::<char>::empty());
        assert(all_lines.skip(line_idx as int).len() == 0);
        assert(line_idx == all_lines.len());
    }
    rows
}

} // verus!
