//! Normalizing the date strings found in PDF metadata.
//!
//! A PDF date looks like `D:YYYYMMDDHHMMSS`, possibly truncated after the
//! day or the minute.  The longest prefix that parses as a real calendar
//! date wins and is rendered as `YYYY-MM-DD HH:MM:SS UTC`; a string that
//! parses under no format is passed through unchanged, and an empty string
//! yields nothing.  Calendar validity is chrono's judgement; the rendering
//! is this crate's own.
use vstd::prelude::*;

use chrono::{Datelike, Timelike};

use crate::hash::hex_digit;
use crate::numfmt::append_digit;

verus! {

/// What chrono's `NaiveDateTime::parse_from_str` answers for this input and
/// format: a function of the two strings alone.  `None` stands for a parse
/// error; `Some` carries year, month, day, hour, minute, second.
pub uninterp spec fn chrono_datetime_parts(s: Seq<char>, fmt: Seq<char>) -> Option<
    (i32, u32, u32, u32, u32, u32),
>;

/// What chrono's `NaiveDate::parse_from_str` answers: year, month, day.
pub uninterp spec fn chrono_date_parts(s: Seq<char>, fmt: Seq<char>) -> Option<(i32, u32, u32)>;

/// Relies on chrono's NaiveDateTime::parse_from_str to judge whether the
/// digits form a real calendar date and time, and on Datelike/Timelike for
/// the documented component ranges (month 1–12, day 1–31, hour below 24,
/// minute and second below 60).
#[verifier::external_body]
fn parse_datetime(s: &str, fmt: &str) -> (r: Option<(i32, u32, u32, u32, u32, u32)>)
    ensures
        r == chrono_datetime_parts(s@, fmt@),
        r matches Some(p) ==> 1 <= p.1 <= 12 && 1 <= p.2 <= 31 && p.3 < 24 && p.4 < 60 && p.5
            < 60,
{
    match chrono::NaiveDateTime::parse_from_str(s, fmt) {
        Ok(dt) => Some((dt.year(), dt.month(), dt.day(), dt.hour(), dt.minute(), dt.second())),
        Err(_) => None,
    }
}

/// Relies on chrono's NaiveDate::parse_from_str to judge whether the digits
/// form a real calendar date, and on Datelike for the component ranges.
#[verifier::external_body]
fn parse_date(s: &str, fmt: &str) -> (r: Option<(i32, u32, u32)>)
    ensures
        r == chrono_date_parts(s@, fmt@),
        r matches Some(p) ==> 1 <= p.1 <= 12 && 1 <= p.2 <= 31,
{
    match chrono::NaiveDate::parse_from_str(s, fmt) {
        Ok(d) => Some((d.year(), d.month(), d.day())),
        Err(_) => None,
    }
}

/// A two-digit zero-padded decimal.
pub open spec fn pad2(n: int) -> Seq<char> {
    seq![hex_digit(n / 10 % 10), hex_digit(n % 10)]
}

/// A four-digit zero-padded decimal.
pub open spec fn pad4(n: int) -> Seq<char> {
    seq![
        hex_digit(n / 1000 % 10),
        hex_digit(n / 100 % 10),
        hex_digit(n / 10 % 10),
        hex_digit(n % 10),
    ]
}

/// The normalized rendering `YYYY-MM-DD HH:MM:SS UTC`.
pub open spec fn render_ts(y: int, mo: int, d: int, h: int, mi: int, s: int) -> Seq<char> {
    pad4(y) + "-"@ + pad2(mo) + "-"@ + pad2(d) + " "@ + pad2(h) + ":"@ + pad2(mi) + ":"@ + pad2(s)
        + " UTC"@
}

/// The date string without its `D:` prefix.
pub open spec fn strip_d_prefix(s: Seq<char>) -> Seq<char> {
    if s.len() >= 2 && s[0] == 'D' && s[1] == ':' {
        s.subrange(2, s.len() as int)
    } else {
        s
    }
}

/// What normalizing a PDF date yields: nothing for an empty string; the
/// rendering of the longest digit prefix (fourteen, twelve, then eight)
/// that chrono accepts with a four-digit year; the input itself when none
/// parses.
pub open spec fn pdf_date_spec(input: Seq<char>) -> Option<Seq<char>> {
    if input.len() == 0 {
        None
    } else {
        let ds = strip_d_prefix(input);
        if ds.len() >= 14 && (chrono_datetime_parts(ds.subrange(0, 14), "%Y%m%d%H%M%S"@)
            matches Some(p) && 0 <= p.0 <= 9999) {
            let p = chrono_datetime_parts(ds.subrange(0, 14), "%Y%m%d%H%M%S"@)->0;
            Some(render_ts(p.0 as int, p.1 as int, p.2 as int, p.3 as int, p.4 as int, p.5 as int))
        } else if ds.len() >= 12 && (chrono_datetime_parts(ds.subrange(0, 12), "%Y%m%d%H%M"@)
            matches Some(p) && 0 <= p.0 <= 9999) {
            let p = chrono_datetime_parts(ds.subrange(0, 12), "%Y%m%d%H%M"@)->0;
            Some(render_ts(p.0 as int, p.1 as int, p.2 as int, p.3 as int, p.4 as int, 0))
        } else if ds.len() >= 8 && (chrono_date_parts(ds.subrange(0, 8), "%Y%m%d"@) matches Some(p)
            && 0 <= p.0 <= 9999) {
            let p = chrono_date_parts(ds.subrange(0, 8), "%Y%m%d"@)->0;
            Some(render_ts(p.0 as int, p.1 as int, p.2 as int, 0, 0, 0))
        } else {
            Some(input)
        }
    }
}

fn append_pad2(r: &mut String, n: u32)
    requires
        n < 100,
    ensures
        final(r)@ == old(r)@ + pad2(n as int),
{
    append_digit(r, (n / 10) as u64);
    append_digit(r, (n % 10) as u64);
    proof {
        assert(r@ =~= old(r)@ + pad2(n as int));
    }
}

fn append_pad4(r: &mut String, n: i32)
    requires
        0 <= n <= 9999,
    ensures
        final(r)@ == old(r)@ + pad4(n as int),
{
    append_digit(r, (n / 1000) as u64 % 10);
    append_digit(r, (n / 100) as u64 % 10);
    append_digit(r, (n / 10) as u64 % 10);
    append_digit(r, n as u64 % 10);
    proof {
        assert(r@ =~= old(r)@ + pad4(n as int));
    }
}

fn render_timestamp(y: i32, mo: u32, d: u32, h: u32, mi: u32, s: u32) -> (r: String)
    requires
        0 <= y <= 9999,
        mo < 100,
        d < 100,
        h < 100,
        mi < 100,
        s < 100,
    ensures
        r@ == render_ts(y as int, mo as int, d as int, h as int, mi as int, s as int),
{
    let mut r = String::new();
    append_pad4(&mut r, y);
    r.append("-");
    append_pad2(&mut r, mo);
    r.append("-");
    append_pad2(&mut r, d);
    r.append(" ");
    append_pad2(&mut r, h);
    r.append(":");
    append_pad2(&mut r, mi);
    r.append(":");
    append_pad2(&mut r, s);
    r.append(" UTC");
    proof {
        assert(r@ =~= render_ts(y as int, mo as int, d as int, h as int, mi as int, s as int));
    }
    r
}

/// Normalizes a PDF metadata date string, as `pdf_date_spec` describes.
pub fn parse_pdf_date(pdf_date: &str) -> (r: Option<String>)
    ensures
        match r {
            Some(out) => pdf_date_spec(pdf_date@) == Some(out@),
            None => pdf_date_spec(pdf_date@) is None,
        },
{
    let n = pdf_date.unicode_len();
    if n == 0 {
        return None;
    }
    let stripped = if n >= 2 && pdf_date.get_char(0) == 'D' && pdf_date.get_char(1) == ':' {
        pdf_date.substring_char(2, n)
    } else {
        pdf_date
    };
    proof {
        assert(stripped@ == strip_d_prefix(pdf_date@));
    }
    let m = stripped.unicode_len();
    if m >= 14 {
        let slice = stripped.substring_char(0, 14);
        match parse_datetime(slice, "%Y%m%d%H%M%S") {
            Some(p) => {
                let (y, mo, d, h, mi, s) = p;
                if 0 <= y && y <= 9999 {
                    return Some(render_timestamp(y, mo, d, h, mi, s));
                }
            },
            None => {},
        }
    }
    if m >= 12 {
        let slice = stripped.substring_char(0, 12);
        match parse_datetime(slice, "%Y%m%d%H%M") {
            Some(p) => {
                let (y, mo, d, h, mi, _s) = p;
                if 0 <= y && y <= 9999 {
                    return Some(render_timestamp(y, mo, d, h, mi, 0));
                }
            },
            None => {},
        }
    }
    if m >= 8 {
        let slice = stripped.substring_char(0, 8);
        match parse_date(slice, "%Y%m%d") {
            Some(p) => {
                let (y, mo, d) = p;
                if 0 <= y && y <= 9999 {
                    return Some(render_timestamp(y, mo, d, 0, 0, 0));
                }
            },
            None => {},
        }
    }
    Some(String::from_str(pdf_date))
}

} // verus!
