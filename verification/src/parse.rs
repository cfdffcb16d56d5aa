use vstd::prelude::*;

use crate::clock::local_offset;
use crate::render::{digit, offset_str, padded, rfc3339_str};
use crate::timestamp::{days_in_month, Timestamp};
use crate::timestamp::month_length;

verus! {

/// Whether `c` is a decimal digit character.
pub open spec fn is_digit(c: char) -> bool {
    48 <= c as int <= 57
}

/// The value of the decimal digit character `c`.
pub open spec fn digit_val(c: char) -> int {
    c as int - 48
}

/// Whether the `n` characters of `s` starting at `i` are all decimal digits.
pub open spec fn digits_at(s: Seq<char>, i: int, n: int) -> bool {
    forall|j: int| i <= j < i + n ==> is_digit(#[trigger] s[j])
}

/// The value of the `n`-digit decimal number written in `s` at `i`.
pub open spec fn num_at(s: Seq<char>, i: int, n: int) -> int
    decreases n,
{
    if n <= 0 {
        0
    } else {
        num_at(s, i, n - 1) * 10 + digit_val(s[i + n - 1])
    }
}

pub open spec fn pow10(n: nat) -> int
    decreases n,
{
    if n == 0 {
        1
    } else {
        10 * pow10((n - 1) as nat)
    }
}

pub proof fn lemma_pow10_small()
    ensures
        pow10(0) == 1,
        pow10(1) == 10,
        pow10(2) == 100,
        pow10(3) == 1000,
        pow10(4) == 10000,
        pow10(5) == 100000,
{
    assert(pow10(1) == 10 * pow10(0));
    assert(pow10(2) == 10 * pow10(1));
    assert(pow10(3) == 10 * pow10(2));
    assert(pow10(4) == 10 * pow10(3));
    assert(pow10(5) == 10 * pow10(4));
}

/// An `n`-digit number lies below the `n`-th power of ten.
pub proof fn lemma_num_at_bound(s: Seq<char>, i: int, n: nat)
    requires
        digits_at(s, i, n as int),
    ensures
        0 <= num_at(s, i, n as int) < pow10(n),
    decreases n,
{
    if n > 0 {
        assert(digits_at(s, i, n as int - 1));
        lemma_num_at_bound(s, i, (n - 1) as nat);
        assert(is_digit(s[i + n - 1]));
    }
}

/// Whether a calendar date `YYYY-MM-DD` is written in `s` at `i`.
pub open spec fn is_date_at(s: Seq<char>, i: int) -> bool {
    &&& digits_at(s, i, 4)
    &&& s[i + 4] == '-'
    &&& digits_at(s, i + 5, 2)
    &&& s[i + 7] == '-'
    &&& digits_at(s, i + 8, 2)
    &&& 1 <= num_at(s, i + 5, 2) <= 12
    &&& 1 <= num_at(s, i + 8, 2) <= days_in_month(num_at(s, i, 4), num_at(s, i + 5, 2))
}

/// Whether `s` is exactly a bare calendar date `YYYY-MM-DD`.
pub open spec fn is_date_str(s: Seq<char>) -> bool {
    s.len() == 10 && is_date_at(s, 0)
}

/// Whether a UTC offset `+HH:MM` or `-HH:MM` is written in `s` at `i`.
pub open spec fn is_offset_at(s: Seq<char>, i: int) -> bool {
    &&& (s[i] == '+' || s[i] == '-')
    &&& digits_at(s, i + 1, 2)
    &&& s[i + 3] == ':'
    &&& digits_at(s, i + 4, 2)
    &&& num_at(s, i + 1, 2) <= 23
    &&& num_at(s, i + 4, 2) <= 59
}

/// The offset written in `s` at `i`, in seconds east of UTC.
pub open spec fn spec_offset_secs(s: Seq<char>, i: int) -> int {
    let mag = (num_at(s, i + 1, 2) * 60 + num_at(s, i + 4, 2)) * 60;
    if s[i] == '-' {
        -mag
    } else {
        mag
    }
}

/// Whether `s` is exactly a full offset-aware timestamp
/// `YYYY-MM-DDTHH:MM:SS` followed by `Z` or by a `+HH:MM`/`-HH:MM` offset.
pub open spec fn is_rfc3339_str(s: Seq<char>) -> bool {
    &&& (s.len() == 20 || s.len() == 25)
    &&& is_date_at(s, 0)
    &&& s[10] == 'T'
    &&& digits_at(s, 11, 2)
    &&& s[13] == ':'
    &&& digits_at(s, 14, 2)
    &&& s[16] == ':'
    &&& digits_at(s, 17, 2)
    &&& num_at(s, 11, 2) <= 23
    &&& num_at(s, 14, 2) <= 59
    &&& num_at(s, 17, 2) <= 59
    &&& if s.len() == 20 {
        s[19] == 'Z'
    } else {
        is_offset_at(s, 19)
    }
}

/// The timestamp written in a string satisfying [`is_rfc3339_str`].
pub open spec fn parsed_timestamp(s: Seq<char>) -> Timestamp {
    Timestamp {
        year: num_at(s, 0, 4) as i64,
        month: num_at(s, 5, 2) as i64,
        day: num_at(s, 8, 2) as i64,
        hour: num_at(s, 11, 2) as i64,
        minute: num_at(s, 14, 2) as i64,
        second: num_at(s, 17, 2) as i64,
        offset: if s.len() == 20 {
            0
        } else {
            spec_offset_secs(s, 19) as i64
        },
    }
}

/// Reads the `n`-digit decimal number written in `s` at `start`.
fn parse_num(s: &str, start: usize, n: usize) -> (r: Option<i64>)
    requires
        start + n <= s@.len(),
        s@.len() <= 25,
        n <= 5,
    ensures
        r matches Some(v) ==> digits_at(s@, start as int, n as int) && v == num_at(
            s@,
            start as int,
            n as int,
        ) && 0 <= v,
        r is None ==> !digits_at(s@, start as int, n as int),
{
    let mut acc: i64 = 0;
    let mut k: usize = 0;
    while k < n
        invariant
            start + n <= s@.len() <= 25,
            n <= 5,
            0 <= k <= n,
            digits_at(s@, start as int, k as int),
            acc == num_at(s@, start as int, k as int),
            0 <= acc < pow10(k as nat),
        decreases n - k,
    {
        proof {
            lemma_pow10_small();
        }
        let c = s.get_char(start + k);
        let u = c as u32;
        if u < 48 || u > 57 {
            proof {
                assert(!is_digit(s@[start + k as int]));
            }
            return None;
        }
        proof {
            assert(pow10((k + 1) as nat) == 10 * pow10(k as nat));
            assert(num_at(s@, start as int, k + 1 as int) == num_at(s@, start as int, k as int)
                * 10 + digit_val(s@[start + k as int]));
            assert forall|j: int| start <= j < start + k + 1 implies is_digit(#[trigger] s@[j]) by {
                if j < start + k {
                    assert(digits_at(s@, start as int, k as int));
                    assert(is_digit(s@[j]));
                }
            }
        }
        acc = acc * 10 + ((u - 48) as i64);
        k = k + 1;
    }
    Some(acc)
}

/// Reads a bare calendar date `YYYY-MM-DD` as `(year, month, day)`,
/// rejecting anything else, month 0 or 13, or a day the month does not have.
pub fn parse_date(s: &str) -> (r: Option<(i64, i64, i64)>)
    ensures
        is_date_str(s@) ==> r == Some(
            (num_at(s@, 0, 4) as i64, num_at(s@, 5, 2) as i64, num_at(s@, 8, 2) as i64),
        ),
        !is_date_str(s@) ==> r is None,
{
    let n = s.unicode_len();
    if n != 10 {
        return None;
    }
    let year = match parse_num(s, 0, 4) {
        Some(v) => v,
        None => {
            return None;
        },
    };
    if s.get_char(4) != '-' {
        return None;
    }
    let month = match parse_num(s, 5, 2) {
        Some(v) => v,
        None => {
            return None;
        },
    };
    if s.get_char(7) != '-' {
        return None;
    }
    let day = match parse_num(s, 8, 2) {
        Some(v) => v,
        None => {
            return None;
        },
    };
    if month < 1 || month > 12 {
        return None;
    }
    if day < 1 || day > month_length(year, month) {
        return None;
    }
    Some((year, month, day))
}

/// Reads a full offset-aware timestamp `YYYY-MM-DDTHH:MM:SS` followed by `Z`
/// or an explicit `+HH:MM`/`-HH:MM` offset; anything else is rejected.
pub fn parse_rfc3339(s: &str) -> (r: Option<Timestamp>)
    ensures
        is_rfc3339_str(s@) ==> r == Some(parsed_timestamp(s@)),
        !is_rfc3339_str(s@) ==> r is None,
        r matches Some(t) ==> t.wf(),
{
    let n = s.unicode_len();
    if n != 20 && n != 25 {
        return None;
    }
    let year = match parse_num(s, 0, 4) {
        Some(v) => v,
        None => {
            return None;
        },
    };
    if s.get_char(4) != '-' {
        return None;
    }
    let month = match parse_num(s, 5, 2) {
        Some(v) => v,
        None => {
            return None;
        },
    };
    if s.get_char(7) != '-' {
        return None;
    }
    let day = match parse_num(s, 8, 2) {
        Some(v) => v,
        None => {
            return None;
        },
    };
    if month < 1 || month > 12 {
        return None;
    }
    if day < 1 || day > month_length(year, month) {
        return None;
    }
    if s.get_char(10) != 'T' {
        return None;
    }
    let hour = match parse_num(s, 11, 2) {
        Some(v) => v,
        None => {
            return None;
        },
    };
    if s.get_char(13) != ':' {
        return None;
    }
    let minute = match parse_num(s, 14, 2) {
        Some(v) => v,
        None => {
            return None;
        },
    };
    if s.get_char(16) != ':' {
        return None;
    }
    let second = match parse_num(s, 17, 2) {
        Some(v) => v,
        None => {
            return None;
        },
    };
    if hour > 23 || minute > 59 || second > 59 {
        return None;
    }
    let offset: i64 = if n == 20 {
        if s.get_char(19) != 'Z' {
            return None;
        }
        0
    } else {
        let sign = s.get_char(19);
        if sign != '+' && sign != '-' {
            return None;
        }
        let oh = match parse_num(s, 20, 2) {
            Some(v) => v,
            None => {
                return None;
            },
        };
        if s.get_char(22) != ':' {
            return None;
        }
        let om = match parse_num(s, 23, 2) {
            Some(v) => v,
            None => {
                return None;
            },
        };
        if oh > 23 || om > 59 {
            return None;
        }
        let mag = (oh * 60 + om) * 60;
        proof {
            assert(mag % 60 == 0) by (nonlinear_arith)
                requires
                    mag == (oh * 60 + om) * 60,
            ;
            assert((-mag) % 60 == 0) by (nonlinear_arith)
                requires
                    mag % 60 == 0,
                    -86400 < mag < 86400,
            ;
        }
        if sign == '-' {
            -mag
        } else {
            mag
        }
    };
    proof {
        lemma_pow10_small();
        lemma_num_at_bound(s@, 0, 4);
    }
    let t = Timestamp { year, month, day, hour, minute, second, offset };
    assert(t.wf());
    assert(t == parsed_timestamp(s@));
    Some(t)
}

pub proof fn lemma_padded_len(v: int, w: nat)
    ensures
        padded(v, w as int).len() == w,
    decreases w,
{
    if w > 0 {
        lemma_padded_len(v / 10, (w - 1) as nat);
    }
}

/// The digit character of `d` reads back as `d`.
pub proof fn lemma_digit_val(d: int)
    requires
        0 <= d <= 9,
    ensures
        is_digit(digit(d)),
        digit_val(digit(d)) == d,
{
}

/// Reading `n` digits sees only the characters under them: equal regions
/// read equal numbers.
pub proof fn lemma_num_at_transfer(s1: Seq<char>, s2: Seq<char>, i1: int, i2: int, n: int)
    requires
        0 <= n,
        forall|j: int| i1 <= j < i1 + n ==> #[trigger] s1[j] == s2[i2 + (j - i1)],
    ensures
        num_at(s1, i1, n) == num_at(s2, i2, n),
        digits_at(s1, i1, n) <==> digits_at(s2, i2, n),
    decreases n,
{
    if n > 0 {
        lemma_num_at_transfer(s1, s2, i1, i2, n - 1);
        assert(s1[i1 + n - 1] == s2[i2 + n - 1]);
        assert forall|j: int| i1 <= j < i1 + n && digits_at(s2, i2, n) implies is_digit(
            #[trigger] s1[j],
        ) by {
            assert(s1[j] == s2[i2 + (j - i1)]);
            assert(is_digit(s2[i2 + (j - i1)]));
        }
        assert forall|j: int| i2 <= j < i2 + n && digits_at(s1, i1, n) implies is_digit(
            #[trigger] s2[j],
        ) by {
            assert(s2[j] == s1[i1 + (j - i2)]);
            assert(is_digit(s1[i1 + (j - i2)]));
        }
    }
}

/// A zero-padded rendering is all digits and reads back as the value it
/// rendered.
pub proof fn lemma_padded_reads_back(v: int, w: nat)
    requires
        0 <= v < pow10(w),
    ensures
        padded(v, w as int).len() == w,
        digits_at(padded(v, w as int), 0, w as int),
        num_at(padded(v, w as int), 0, w as int) == v,
    decreases w,
{
    lemma_padded_len(v, w);
    if w > 0 {
        let p = padded(v, w as int);
        let p0 = padded(v / 10, (w - 1) as int);
        assert(pow10(w) == 10 * pow10((w - 1) as nat));
        assert(v / 10 < pow10((w - 1) as nat)) by (nonlinear_arith)
            requires
                0 <= v,
                v < 10 * pow10((w - 1) as nat),
        ;
        assert(0 <= v / 10);
        lemma_padded_reads_back(v / 10, (w - 1) as nat);
        assert(p == p0.push(digit(v % 10)));
        lemma_digit_val(v % 10);
        assert(p[w - 1] == digit(v % 10));
        assert(forall|j: int| 0 <= j < w - 1 ==> #[trigger] p[j] == p0[j]);
        lemma_num_at_transfer(p, p0, 0, 0, w - 1);
        assert(num_at(p, 0, w as int) == num_at(p, 0, w - 1) * 10 + digit_val(p[w - 1]));
        assert(v == 10 * (v / 10) + v % 10);
        assert forall|j: int| 0 <= j < w implies is_digit(#[trigger] p[j]) by {
            if j < w - 1 {
                assert(p[j] == p0[j]);
                assert(is_digit(p0[0 + j]));
            }
        }
    }
}

/// Law (round trip): rendering a well-formed timestamp in the stored form
/// and parsing the string back yields the timestamp itself: nothing of the
/// model is lost at the stored string's whole-second precision.
pub proof fn lemma_render_parse_round_trip(t: Timestamp)
    requires
        t.wf(),
    ensures
        is_rfc3339_str(rfc3339_str(t)),
        parsed_timestamp(rfc3339_str(t)) == t,
{
    lemma_pow10_small();
    let s = rfc3339_str(t);
    let py = padded(t.year as int, 4);
    let pmo = padded(t.month as int, 2);
    let pd = padded(t.day as int, 2);
    let ph = padded(t.hour as int, 2);
    let pmi = padded(t.minute as int, 2);
    let psec = padded(t.second as int, 2);
    lemma_padded_reads_back(t.year as int, 4);
    lemma_padded_reads_back(t.month as int, 2);
    lemma_padded_reads_back(t.day as int, 2);
    lemma_padded_reads_back(t.hour as int, 2);
    lemma_padded_reads_back(t.minute as int, 2);
    lemma_padded_reads_back(t.second as int, 2);
    let off = t.offset as int;
    let mag = if off >= 0 {
        off
    } else {
        -off
    };
    let mins = mag / 60;
    let oh = mins / 60;
    let om = mins % 60;
    assert(mag <= 86340) by (nonlinear_arith)
        requires
            0 <= mag < 86400,
            mag % 60 == 0,
    ;
    assert(mins <= 1439) by (nonlinear_arith)
        requires
            0 <= mag <= 86340,
            mins == mag / 60,
    ;
    assert(oh <= 23) by (nonlinear_arith)
        requires
            0 <= mins <= 1439,
            oh == mins / 60,
    ;
    assert(0 <= om < 60);
    let poh = padded(oh, 2);
    let pom = padded(om, 2);
    lemma_padded_reads_back(oh, 2);
    lemma_padded_reads_back(om, 2);
    let osign: Seq<char> = if off >= 0 {
        seq!['+']
    } else {
        seq!['-']
    };
    assert(offset_str(off) == osign + padded(oh, 2) + seq![':'] + padded(om, 2));
    assert(s.len() == 25);
    // The digit regions of `s` are exactly the padded renderings.
    assert(forall|j: int| 0 <= j < 4 ==> #[trigger] s[j] == py[j - 0]);
    assert(forall|j: int| 5 <= j < 7 ==> #[trigger] s[j] == pmo[j - 5]);
    assert(forall|j: int| 8 <= j < 10 ==> #[trigger] s[j] == pd[j - 8]);
    assert(forall|j: int| 11 <= j < 13 ==> #[trigger] s[j] == ph[j - 11]);
    assert(forall|j: int| 14 <= j < 16 ==> #[trigger] s[j] == pmi[j - 14]);
    assert(forall|j: int| 17 <= j < 19 ==> #[trigger] s[j] == psec[j - 17]);
    assert(forall|j: int| 20 <= j < 22 ==> #[trigger] s[j] == poh[j - 20]);
    assert(forall|j: int| 23 <= j < 25 ==> #[trigger] s[j] == pom[j - 23]);
    assert(s[4] == '-' && s[7] == '-' && s[10] == 'T' && s[13] == ':' && s[16] == ':' && s[22]
        == ':');
    assert(s[19] == (if off >= 0 {
        '+'
    } else {
        '-'
    }));
    lemma_num_at_transfer(s, py, 0, 0, 4);
    lemma_num_at_transfer(s, pmo, 5, 0, 2);
    lemma_num_at_transfer(s, pd, 8, 0, 2);
    lemma_num_at_transfer(s, ph, 11, 0, 2);
    lemma_num_at_transfer(s, pmi, 14, 0, 2);
    lemma_num_at_transfer(s, psec, 17, 0, 2);
    lemma_num_at_transfer(s, poh, 20, 0, 2);
    lemma_num_at_transfer(s, pom, 23, 0, 2);
    assert(num_at(s, 0, 4) == t.year);
    assert(num_at(s, 5, 2) == t.month);
    assert(num_at(s, 8, 2) == t.day);
    assert(num_at(s, 11, 2) == t.hour);
    assert(num_at(s, 14, 2) == t.minute);
    assert(num_at(s, 17, 2) == t.second);
    assert(num_at(s, 20, 2) == oh);
    assert(num_at(s, 23, 2) == om);
    assert(is_date_at(s, 0));
    assert(is_offset_at(s, 19));
    assert(is_rfc3339_str(s));
    // The offset reads back as itself.
    assert(mins == 60 * oh + om);
    assert(mag == 60 * mins);
    assert(spec_offset_secs(s, 19) == (if s[19] == '-' {
        -((oh * 60 + om) * 60)
    } else {
        (oh * 60 + om) * 60
    }));
    assert((oh * 60 + om) * 60 == mag);
    assert(spec_offset_secs(s, 19) == off);
    assert(parsed_timestamp(s) == t);
}

/// Parses a lower date bound: a full timestamp is taken as it stands, and a
/// bare calendar date denotes the start of that day, 00:00:00, in the
/// machine's timezone. Anything else is reported as a validation failure.
pub fn to_datetime_from(s: &str) -> (r: Result<Timestamp, String>)
    ensures
        is_rfc3339_str(s@) ==> r == Ok::<Timestamp, String>(parsed_timestamp(s@)),
        !is_rfc3339_str(s@) && is_date_str(s@) ==> (r matches Ok(t) ==> t.year == num_at(s@, 0, 4)
            && t.month == num_at(s@, 5, 2) && t.day == num_at(s@, 8, 2) && t.hour == 0 && t.minute
            == 0 && t.second == 0),
        !is_rfc3339_str(s@) && !is_date_str(s@) ==> r is Err,
        r matches Ok(t) ==> t.wf(),
{
    if let Some(t) = parse_rfc3339(s) {
        return Ok(t);
    }
    match parse_date(s) {
        Some((year, month, day)) => {
            proof {
                lemma_pow10_small();
                lemma_num_at_bound(s@, 0, 4);
            }
            match local_offset(year, month, day, 0, 0, 0) {
                Some(offset) => {
                    let t = Timestamp { year, month, day, hour: 0, minute: 0, second: 0, offset };
                    assert(t.wf());
                    Ok(t)
                },
                None => Err("Invalid input for date/datetime.".to_owned()),
            }
        },
        None => Err("Invalid input for date/datetime.".to_owned()),
    }
}

/// Parses an upper date bound: a full timestamp is taken as it stands, and a
/// bare calendar date denotes the end of that day, 23:59:59, in the
/// machine's timezone, so that the whole day falls within the bound.
/// Anything else is reported as a validation failure.
pub fn to_datetime_to(s: &str) -> (r: Result<Timestamp, String>)
    ensures
        is_rfc3339_str(s@) ==> r == Ok::<Timestamp, String>(parsed_timestamp(s@)),
        !is_rfc3339_str(s@) && is_date_str(s@) ==> (r matches Ok(t) ==> t.year == num_at(s@, 0, 4)
            && t.month == num_at(s@, 5, 2) && t.day == num_at(s@, 8, 2) && t.hour == 23 && t.minute
            == 59 && t.second == 59),
        !is_rfc3339_str(s@) && !is_date_str(s@) ==> r is Err,
        r matches Ok(t) ==> t.wf(),
{
    if let Some(t) = parse_rfc3339(s) {
        return Ok(t);
    }
    match parse_date(s) {
        Some((year, month, day)) => {
            proof {
                lemma_pow10_small();
                lemma_num_at_bound(s@, 0, 4);
            }
            match local_offset(year, month, day, 23, 59, 59) {
                Some(offset) => {
                    let t = Timestamp {
                        year,
                        month,
                        day,
                        hour: 23,
                        minute: 59,
                        second: 59,
                        offset,
                    };
                    assert(t.wf());
                    Ok(t)
                },
                None => Err("Invalid input for date/datetime.".to_owned()),
            }
        },
        None => Err("Invalid input for date/datetime.".to_owned()),
    }
}

} // verus!
