use vstd::prelude::*;
use vstd::string::StringSliceAdditionalSpecFns;

use crate::color_utils::Color;
use crate::record::{Coordinate, Record};

verus! {

pub open spec fn is_decimal_digit(b: u8) -> bool {
    48 <= b <= 57
}

/// The value of a run of decimal digits.
pub open spec fn digits_value(s: Seq<u8>) -> int
    decreases s.len(),
{
    if s.len() == 0 {
        0
    } else {
        digits_value(s.drop_last()) * 10 + (s.last() - 48)
    }
}

pub open spec fn all_digits(s: Seq<u8>) -> bool {
    forall|i: int| 0 <= i < s.len() ==> is_decimal_digit(#[trigger] s[i])
}

/// The integer written in `s`: an optional `+` or `-`, then one or more
/// decimal digits.
pub open spec fn decimal_value(s: Seq<u8>) -> Option<int> {
    if s.len() > 0 && (s[0] == 43 || s[0] == 45) {
        let rest = s.drop_first();
        if rest.len() > 0 && all_digits(rest) {
            Some(if s[0] == 45 { -digits_value(rest) } else { digits_value(rest) })
        } else {
            None
        }
    } else if s.len() > 0 && all_digits(s) {
        Some(digits_value(s))
    } else {
        None
    }
}

/// What `i32::from_str` gives for `s`.
pub open spec fn i32_value(s: Seq<u8>) -> Option<i32> {
    match decimal_value(s) {
        Some(v) => if i32::MIN <= v <= i32::MAX {
            Some(v as i32)
        } else {
            None
        },
        None => None,
    }
}

/// What `u32::from_str` gives for `s`: no `-` sign is accepted.
pub open spec fn u32_value(s: Seq<u8>) -> Option<u32> {
    match decimal_value(s) {
        Some(v) => if s[0] != 45 && 0 <= v <= u32::MAX {
            Some(v as u32)
        } else {
            None
        },
        None => None,
    }
}

proof fn lemma_digits_value_grows(s: Seq<u8>, k: int)
    requires
        all_digits(s),
        0 <= k <= s.len(),
    ensures
        0 <= digits_value(s.take(k)) <= digits_value(s),
    decreases s.len(),
{
    if s.len() > 0 {
        let t = s.drop_last();
        assert(all_digits(t)) by {
            assert forall|i: int| 0 <= i < t.len() implies is_decimal_digit(#[trigger] t[i]) by {
                assert(t[i] == s[i]);
            }
        }
        assert(is_decimal_digit(s[s.len() - 1]));
        if k == s.len() {
            assert(s.take(k) =~= s);
            lemma_digits_value_grows(t, t.len() as int);
            assert(t.take(t.len() as int) =~= t);
        } else {
            lemma_digits_value_grows(t, k);
            assert(t.take(k) =~= s.take(k));
            lemma_digits_value_grows(t, t.len() as int);
            assert(t.take(t.len() as int) =~= t);
        }
    }
}

/// The value of `s[start..]` when it is one or more decimal digits worth at
/// most `2^32`; `None` otherwise.
fn digits_from(s: &[u8], start: usize) -> (r: Option<u64>)
    requires
        start <= s@.len(),
    ensures
        match r {
            Some(v) => {
                let rest = s@.subrange(start as int, s@.len() as int);
                &&& rest.len() > 0
                &&& all_digits(rest)
                &&& v == digits_value(rest)
                &&& v <= 0x1_0000_0000
            },
            None => {
                let rest = s@.subrange(start as int, s@.len() as int);
                rest.len() == 0 || !all_digits(rest) || digits_value(rest) > 0x1_0000_0000
            },
        },
{
    let ghost rest = s@.subrange(start as int, s@.len() as int);
    if start == s.len() {
        return None;
    }
    let mut value: u64 = 0;
    let mut i: usize = start;
    while i < s.len()
        invariant
            start <= i <= s@.len(),
            rest == s@.subrange(start as int, s@.len() as int),
            all_digits(rest.take(i - start)),
            value == digits_value(rest.take(i - start)),
            value <= 0x1_0000_0000,
        decreases s@.len() - i,
    {
        let b = s[i];
        assert(rest[i - start] == b);
        if b < 48 || b > 57 {
            return None;
        }
        let ghost prev = rest.take(i - start);
        assert(rest.take(i - start + 1).drop_last() =~= prev);
        assert(all_digits(rest.take(i - start + 1))) by {
            assert forall|j: int| 0 <= j < i - start + 1 implies is_decimal_digit(
                #[trigger] rest.take(i - start + 1)[j],
            ) by {
                if j < i - start {
                    assert(rest.take(i - start + 1)[j] == prev[j]);
                }
            }
        }
        let next: u64 = value * 10 + (b - 48) as u64;
        i = i + 1;
        if next > 0x1_0000_0000 {
            proof {
                if all_digits(rest) {
                    lemma_digits_value_grows(rest, i - start);
                }
            }
            return None;
        }
        value = next;
    }
    assert(rest.take(i - start) =~= rest);
    Some(value)
}

/// Reads a decimal `i32` as `i32::from_str` does.
pub fn parse_i32(s: &[u8]) -> (r: Option<i32>)
    ensures
        r == i32_value(s@),
{
    let mut start: usize = 0;
    let mut negative = false;
    if s.len() > 0 && (s[0] == 43 || s[0] == 45) {
        negative = s[0] == 45;
        start = 1;
        if s.len() == 1 {
            return None;
        }
    }
    assert(start == 1 ==> s@.subrange(1, s@.len() as int) =~= s@.drop_first());
    assert(start == 0 ==> s@.subrange(0, s@.len() as int) =~= s@);
    match digits_from(s, start) {
        Some(v) => {
            if negative {
                if v > 0x8000_0000 {
                    None
                } else {
                    Some((0 - v as i64) as i32)
                }
            } else {
                if v > 0x7fff_ffff {
                    None
                } else {
                    Some(v as i32)
                }
            }
        },
        None => None,
    }
}

/// Reads a decimal `u32` as `u32::from_str` does.
pub fn parse_u32(s: &[u8]) -> (r: Option<u32>)
    ensures
        r == u32_value(s@),
{
    let mut start: usize = 0;
    if s.len() > 0 && (s[0] == 43 || s[0] == 45) {
        if s[0] == 45 || s.len() == 1 {
            return None;
        }
        start = 1;
    }
    assert(start == 1 ==> s@.subrange(1, s@.len() as int) =~= s@.drop_first());
    assert(start == 0 ==> s@.subrange(0, s@.len() as int) =~= s@);
    match digits_from(s, start) {
        Some(v) => if v > 0xffff_ffff {
            None
        } else {
            Some(v as u32)
        },
        None => None,
    }
}

/// Bytes of a coordinate field that are read: digits, `,` and `-`.
pub open spec fn kept_byte(b: u8) -> bool {
    is_decimal_digit(b) || b == 44 || b == 45
}

/// The kept bytes of `s`, split at each `,`.
pub open spec fn pieces(s: Seq<u8>) -> Seq<Seq<u8>>
    decreases s.len(),
{
    if s.len() == 0 {
        seq![seq![]]
    } else {
        let p = pieces(s.drop_last());
        let b = s.last();
        if !kept_byte(b) {
            p
        } else if b == 44 {
            p.push(seq![])
        } else {
            p.update(p.len() - 1, p.last().push(b))
        }
    }
}

pub open spec fn byte_views(v: Seq<Vec<u8>>) -> Seq<Seq<u8>> {
    v.map_values(|w: Vec<u8>| w@)
}

/// The shape written in a coordinate field: two numbers for a point, three for
/// a circle (center, then radius), four for a rectangle (two corners).
pub open spec fn coordinate_value(s: Seq<u8>) -> Option<Coordinate> {
    let p = pieces(s);
    if p.len() == 2 {
        match (i32_value(p[0]), i32_value(p[1])) {
            (Some(x), Some(y)) => Some(Coordinate::Point { x, y }),
            _ => None,
        }
    } else if p.len() == 3 {
        match (i32_value(p[0]), i32_value(p[1]), u32_value(p[2])) {
            (Some(x), Some(y), Some(r)) => Some(Coordinate::Circle { x, y, r }),
            _ => None,
        }
    } else if p.len() == 4 {
        match (i32_value(p[0]), i32_value(p[1]), i32_value(p[2]), i32_value(p[3])) {
            (Some(x1), Some(y1), Some(x2), Some(y2)) => Some(
                Coordinate::Rectangle { x1, y1, x2, y2 },
            ),
            _ => None,
        }
    } else {
        None
    }
}

/// The value of one hexadecimal digit.
pub open spec fn hex_digit(b: u8) -> Option<int> {
    if 48 <= b <= 57 {
        Some(b - 48)
    } else if 97 <= b <= 102 {
        Some(b - 87)
    } else if 65 <= b <= 70 {
        Some(b - 55)
    } else {
        None
    }
}

/// What `u8::from_str_radix` gives in base 16 for the two bytes `a`, `b`.
pub open spec fn hex_pair(a: u8, b: u8) -> Option<u8> {
    match (hex_digit(a), hex_digit(b)) {
        (Some(h), Some(l)) => Some((h * 16 + l) as u8),
        _ => if a == 43 {
            match hex_digit(b) {
                Some(l) => Some(l as u8),
                None => None,
            }
        } else {
            None
        },
    }
}

/// The color written as `#rrggbb` (the first byte is not looked at; bytes
/// after the seventh are ignored).
pub open spec fn color_value(s: Seq<u8>) -> Option<Color> {
    if s.len() < 7 {
        None
    } else {
        match (hex_pair(s[1], s[2]), hex_pair(s[3], s[4]), hex_pair(s[5], s[6])) {
            (Some(r), Some(g), Some(b)) => Some(Color { r, g, b, a: 255 }),
            _ => None,
        }
    }
}

/// Splits the kept bytes of `s` at each `,`.
pub fn split_fields(s: &[u8]) -> (r: Vec<Vec<u8>>)
    ensures
        byte_views(r@) == pieces(s@),
{
    let mut done: Vec<Vec<u8>> = Vec::new();
    let mut current: Vec<u8> = Vec::new();
    let mut i: usize = 0;
    assert(s@.take(0) =~= Seq::<u8>::empty());
    assert(byte_views(done@).push(current@) =~= pieces(s@.take(0)));
    while i < s.len()
        invariant
            i <= s@.len(),
            byte_views(done@).push(current@) == pieces(s@.take(i as int)),
        decreases s@.len() - i,
    {
        let b = s[i];
        let ghost before = byte_views(done@).push(current@);
        assert(s@.take(i + 1).drop_last() =~= s@.take(i as int));
        assert(s@.take(i + 1).last() == b);
        if b == 44 {
            done.push(current);
            current = Vec::new();
            assert(byte_views(done@).push(current@) =~= before.push(seq![]));
        } else if b == 45 || (b >= 48 && b <= 57) {
            current.push(b);
            assert(byte_views(done@).push(current@) =~= before.update(
                before.len() - 1,
                before.last().push(b),
            ));
        }
        i = i + 1;
    }
    assert(s@.take(s@.len() as int) =~= s@);
    done.push(current);
    done
}

/// Reads a coordinate field such as `-12,7` or `{X: 3, Y: 4, R: 5}`: every
/// byte but digits, `,` and `-` is dropped, and the rest split at `,`.
pub fn parse_coordinate(s: &[u8]) -> (r: Option<Coordinate>)
    ensures
        r == coordinate_value(s@),
{
    let numbers = split_fields(s);
    proof {
        assert(numbers@.len() == byte_views(numbers@).len());
        assert forall|k: int| 0 <= k < numbers@.len() implies numbers@[k]@ == pieces(s@)[k] by {
            assert(byte_views(numbers@)[k] == numbers@[k]@);
        }
    }
    if numbers.len() == 2 {
        match (parse_i32(numbers[0].as_slice()), parse_i32(numbers[1].as_slice())) {
            (Some(x), Some(y)) => Some(Coordinate::Point { x, y }),
            _ => None,
        }
    } else if numbers.len() == 3 {
        match (
            parse_i32(numbers[0].as_slice()),
            parse_i32(numbers[1].as_slice()),
            parse_u32(numbers[2].as_slice()),
        ) {
            (Some(x), Some(y), Some(r)) => Some(Coordinate::Circle { x, y, r }),
            _ => None,
        }
    } else if numbers.len() == 4 {
        match (
            parse_i32(numbers[0].as_slice()),
            parse_i32(numbers[1].as_slice()),
            parse_i32(numbers[2].as_slice()),
            parse_i32(numbers[3].as_slice()),
        ) {
            (Some(x1), Some(y1), Some(x2), Some(y2)) => Some(
                Coordinate::Rectangle { x1, y1, x2, y2 },
            ),
            _ => None,
        }
    } else {
        None
    }
}

fn hex_digit_of(b: u8) -> (r: Option<u8>)
    ensures
        match hex_digit(b) {
            Some(v) => r == Some(v as u8),
            None => r is None,
        },
{
    if b >= 48 && b <= 57 {
        Some(b - 48)
    } else if b >= 97 && b <= 102 {
        Some(b - 87)
    } else if b >= 65 && b <= 70 {
        Some(b - 55)
    } else {
        None
    }
}

fn parse_hex_pair(a: u8, b: u8) -> (r: Option<u8>)
    ensures
        r == hex_pair(a, b),
{
    match (hex_digit_of(a), hex_digit_of(b)) {
        (Some(h), Some(l)) => Some(h * 16 + l),
        _ => if a == 43 {
            hex_digit_of(b)
        } else {
            None
        },
    }
}

/// Reads a color field written `#rrggbb`.
pub fn parse_color(s: &[u8]) -> (r: Option<Color>)
    ensures
        r == color_value(s@),
{
    if s.len() < 7 {
        return None;
    }
    match (parse_hex_pair(s[1], s[2]), parse_hex_pair(s[3], s[4]), parse_hex_pair(s[5], s[6])) {
        (Some(r), Some(g), Some(b)) => Some(Color { r, g, b, a: 255 }),
        _ => None,
    }
}

/// Milliseconds since the Unix epoch of the date and time that `s` spells in
/// the strftime-style format `fmt`, read as UTC; `None` when `s` does not
/// match `fmt`.
pub uninterp spec fn date_time_millis(s: Seq<char>, fmt: Seq<char>) -> Option<i64>;

/// Relies on chrono's `NaiveDateTime::parse_from_str`, then
/// `and_utc().timestamp_millis()`: the result depends on `s` and `fmt` alone.
#[verifier::external_body]
fn parse_date_time(s: &str, fmt: &str) -> (r: Option<i64>)
    ensures
        r == date_time_millis(s@, fmt@),
{
    match chrono::NaiveDateTime::parse_from_str(s, fmt) {
        Ok(t) => Some(t.and_utc().timestamp_millis()),
        Err(_) => None,
    }
}

/// The layout of a record's timestamp field, e.g. `2023-07-20 13:00:26.088 UTC`.
pub const TIMESTAMP_FORMAT: &'static str = "%Y-%m-%d %H:%M:%S%.f %Z";

/// Reads a record's timestamp field, in milliseconds since the Unix epoch.
pub fn parse_timestamp(s: &str) -> (r: Option<i64>)
    ensures
        r == date_time_millis(s@, TIMESTAMP_FORMAT@),
{
    parse_date_time(s, TIMESTAMP_FORMAT)
}

/// Which field of a record could not be read.
#[derive(Clone, Copy, Debug, PartialEq, Eq, Structural)]
pub enum FieldError {
    Timestamp,
    Coordinate,
    Color,
}

impl Record {
    /// Builds a record from its text fields; the first field that cannot be
    /// read, in the order timestamp, coordinate, color, is reported.
    pub fn from_fields(timestamp: &str, user: String, coordinate: &str, pixel_color: &str) -> (r:
        Result<Record, FieldError>)
        ensures
            match (
                date_time_millis(timestamp@, TIMESTAMP_FORMAT@),
                coordinate_value(coordinate.spec_bytes()),
                color_value(pixel_color.spec_bytes()),
            ) {
                (None, _, _) => r == Err::<Record, FieldError>(FieldError::Timestamp),
                (Some(_), None, _) => r == Err::<Record, FieldError>(FieldError::Coordinate),
                (Some(_), Some(_), None) => r == Err::<Record, FieldError>(FieldError::Color),
                (Some(t), Some(c), Some(p)) => r matches Ok(rec) && rec.timestamp == t
                    && rec.user@ == user@ && rec.coordinate == c && rec.pixel_color == p,
            },
    {
        let t = match parse_timestamp(timestamp) {
            Some(t) => t,
            None => return Err(FieldError::Timestamp),
        };
        let c = match parse_coordinate(coordinate.as_bytes()) {
            Some(c) => c,
            None => return Err(FieldError::Coordinate),
        };
        let p = match parse_color(pixel_color.as_bytes()) {
            Some(p) => p,
            None => return Err(FieldError::Color),
        };
        Ok(Record { timestamp: t, user, coordinate: c, pixel_color: p })
    }
}

} // verus!
