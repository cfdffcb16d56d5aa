use vstd::prelude::*;

use crate::priority::Priority;
use crate::timestamp::Timestamp;
use crate::todo::Todo;

verus! {

/// The decimal digit character for `d` (0 through 9).
pub open spec fn digit(d: int) -> char {
    if d == 0 {
        '0'
    } else if d == 1 {
        '1'
    } else if d == 2 {
        '2'
    } else if d == 3 {
        '3'
    } else if d == 4 {
        '4'
    } else if d == 5 {
        '5'
    } else if d == 6 {
        '6'
    } else if d == 7 {
        '7'
    } else if d == 8 {
        '8'
    } else {
        '9'
    }
}

/// The last `w` decimal digits of `n`, zero-padded on the left.
pub open spec fn padded(n: int, w: int) -> Seq<char>
    decreases w,
{
    if w <= 0 {
        Seq::empty()
    } else {
        padded(n / 10, w - 1).push(digit(n % 10))
    }
}

/// The decimal digits of a positive `n`, without leading zeros.
pub open spec fn dec_digits(n: int) -> Seq<char>
    decreases n,
{
    if n <= 0 {
        Seq::empty()
    } else {
        dec_digits(n / 10).push(digit(n % 10))
    }
}

/// The decimal rendering of a non-negative `n`.
pub open spec fn dec_str(n: int) -> Seq<char> {
    if n == 0 {
        seq!['0']
    } else {
        dec_digits(n)
    }
}

/// The compact calendar-date rendering `YYYY-MM-DD`.
pub open spec fn date_str(t: Timestamp) -> Seq<char> {
    padded(t.year as int, 4) + seq!['-'] + padded(t.month as int, 2) + seq!['-'] + padded(
        t.day as int,
        2,
    )
}

/// The `+HH:MM`/`-HH:MM` rendering of a UTC offset given in seconds.
pub open spec fn offset_str(off: int) -> Seq<char> {
    let sign = if off >= 0 {
        seq!['+']
    } else {
        seq!['-']
    };
    let mins = (if off >= 0 {
        off
    } else {
        -off
    }) / 60;
    sign + padded(mins / 60, 2) + seq![':'] + padded(mins % 60, 2)
}

/// The full offset-aware rendering `YYYY-MM-DDTHH:MM:SS+HH:MM`.
pub open spec fn rfc3339_str(t: Timestamp) -> Seq<char> {
    date_str(t) + seq!['T'] + padded(t.hour as int, 2) + seq![':'] + padded(t.minute as int, 2)
        + seq![':'] + padded(t.second as int, 2) + offset_str(t.offset as int)
}

/// A one-character string slice holding the digit character for `d`.
fn digit_str(d: i64) -> (r: &'static str)
    requires
        0 <= d <= 9,
    ensures
        r@ == seq![digit(d as int)],
{
    proof {
        reveal_strlit("0");
        reveal_strlit("1");
        reveal_strlit("2");
        reveal_strlit("3");
        reveal_strlit("4");
        reveal_strlit("5");
        reveal_strlit("6");
        reveal_strlit("7");
        reveal_strlit("8");
        reveal_strlit("9");
        assert("0"@ =~= seq![digit(0)]);
        assert("1"@ =~= seq![digit(1)]);
        assert("2"@ =~= seq![digit(2)]);
        assert("3"@ =~= seq![digit(3)]);
        assert("4"@ =~= seq![digit(4)]);
        assert("5"@ =~= seq![digit(5)]);
        assert("6"@ =~= seq![digit(6)]);
        assert("7"@ =~= seq![digit(7)]);
        assert("8"@ =~= seq![digit(8)]);
        assert("9"@ =~= seq![digit(9)]);
    }
    match d {
        0 => "0",
        1 => "1",
        2 => "2",
        3 => "3",
        4 => "4",
        5 => "5",
        6 => "6",
        7 => "7",
        8 => "8",
        _ => "9",
    }
}

/// Appends the last `w` decimal digits of `n`, zero-padded on the left.
fn push_padded(out: &mut String, n: i64, w: u64)
    requires
        0 <= n,
    ensures
        final(out)@ == old(out)@ + padded(n as int, w as int),
    decreases w,
{
    if w == 0 {
        assert(out@ =~= old(out)@ + padded(n as int, 0));
    } else {
        push_padded(out, n / 10, w - 1);
        out.append(digit_str(n % 10));
        assert(out@ =~= old(out)@ + padded(n as int, w as int));
    }
}

/// Appends the decimal digits of a positive `n`.
fn push_dec_digits(out: &mut String, n: i64)
    requires
        0 < n,
    ensures
        final(out)@ == old(out)@ + dec_digits(n as int),
    decreases n,
{
    if n >= 10 {
        push_dec_digits(out, n / 10);
    }
    out.append(digit_str(n % 10));
    proof {
        if n < 10 {
            assert(dec_digits((n as int) / 10) =~= Seq::<char>::empty());
        }
    }
    assert(out@ =~= old(out)@ + dec_digits(n as int));
}

/// Appends the decimal rendering of a non-negative `n`.
fn push_dec(out: &mut String, n: i64)
    requires
        0 <= n,
    ensures
        final(out)@ == old(out)@ + dec_str(n as int),
{
    if n == 0 {
        proof {
            reveal_strlit("0");
        }
        out.append("0");
        assert(out@ =~= old(out)@ + dec_str(0));
    } else {
        push_dec_digits(out, n);
    }
}

/// Appends the `+HH:MM`/`-HH:MM` rendering of a UTC offset in seconds.
fn push_offset(out: &mut String, off: i64)
    requires
        -86400 < off < 86400,
    ensures
        final(out)@ == old(out)@ + offset_str(off as int),
{
    proof {
        reveal_strlit("+");
        reveal_strlit("-");
        reveal_strlit(":");
    }
    let a: i64 = if off >= 0 {
        out.append("+");
        off
    } else {
        out.append("-");
        -off
    };
    let mins: i64 = a / 60;
    push_padded(out, mins / 60, 2);
    out.append(":");
    push_padded(out, mins % 60, 2);
    assert(out@ =~= old(out)@ + offset_str(off as int));
}

/// Renders the compact calendar date `YYYY-MM-DD` of `t`.
pub fn format_date(t: &Timestamp) -> (r: String)
    requires
        t.wf(),
    ensures
        r@ == date_str(*t),
{
    proof {
        reveal_strlit("-");
    }
    let mut out = String::new();
    push_padded(&mut out, t.year, 4);
    out.append("-");
    push_padded(&mut out, t.month, 2);
    out.append("-");
    push_padded(&mut out, t.day, 2);
    assert(out@ =~= date_str(*t));
    out
}

/// Renders the full offset-aware timestamp `YYYY-MM-DDTHH:MM:SS+HH:MM` of
/// `t`; this is the form under which dates are persisted.
pub fn format_rfc3339(t: &Timestamp) -> (r: String)
    requires
        t.wf(),
    ensures
        r@ == rfc3339_str(*t),
{
    proof {
        reveal_strlit("T");
        reveal_strlit(":");
    }
    let mut out = String::new();
    push_padded(&mut out, t.year, 4);
    proof {
        reveal_strlit("-");
    }
    out.append("-");
    push_padded(&mut out, t.month, 2);
    out.append("-");
    push_padded(&mut out, t.day, 2);
    out.append("T");
    push_padded(&mut out, t.hour, 2);
    out.append(":");
    push_padded(&mut out, t.minute, 2);
    out.append(":");
    push_padded(&mut out, t.second, 2);
    push_offset(&mut out, t.offset);
    assert(out@ =~= rfc3339_str(*t));
    out
}

/// The priority name as it stands in the listing's fixed-width column:
/// padded on the right with spaces to 9 characters.
pub open spec fn padded_name(p: Priority) -> Seq<char> {
    match p {
        Priority::Normal => "NORMAL   "@,
        Priority::Important => "IMPORTANT"@,
        Priority::Critical => "CRITICAL "@,
    }
}

/// One listing line: the `#`-prefixed id, the priority name in its
/// fixed-width column, the date (compact by default, the full stored
/// timestamp in extended mode), and the task text.
pub open spec fn line_str(t: Todo, extended: bool) -> Seq<char> {
    "#"@ + dec_str(t.id as int) + ": "@ + padded_name(t.priority) + ": "@ + (if extended {
        rfc3339_str(t.date)
    } else {
        date_str(t.date)
    }) + ": "@ + t.text@
}

/// Renders one listing line of `t`, without any terminal styling.
pub fn format_line(t: &Todo, extended: bool) -> (r: String)
    requires
        t.date.wf(),
        0 <= t.id,
    ensures
        r@ == line_str(*t, extended),
{
    let mut out = String::new();
    out.append("#");
    push_dec(&mut out, t.id);
    out.append(": ");
    match t.priority {
        Priority::Normal => out.append("NORMAL   "),
        Priority::Important => out.append("IMPORTANT"),
        Priority::Critical => out.append("CRITICAL "),
    }
    out.append(": ");
    let date = if extended {
        format_rfc3339(&t.date)
    } else {
        format_date(&t.date)
    };
    out.append(date.as_str());
    out.append(": ");
    out.append(t.text.as_str());
    assert(out@ =~= line_str(*t, extended));
    out
}

} // verus!
