//! The backup directory's name: a civil time as fixed-width decimal digits.

use vstd::prelude::*;
use vstd::string::StringExecFns;

verus! {

/// The decimal digit character for `d`.
pub open spec fn digit_char(d: int) -> char {
    if d == 0 {
        '0'
    } else if d == 1 {
        '1'
    } else if d == 2 {
        '2'
    } else if d == 3 {
        '3'
    } else if d == 4 {
        '4'
    } else if d == 5 {
        '5'
    } else if d == 6 {
        '6'
    } else if d == 7 {
        '7'
    } else if d == 8 {
        '8'
    } else {
        '9'
    }
}

/// `n` as two decimal digits, zero-padded.
pub open spec fn dec2(n: int) -> Seq<char> {
    seq![digit_char(n / 10), digit_char(n % 10)]
}

/// `n` as four decimal digits, zero-padded.
pub open spec fn dec4(n: int) -> Seq<char> {
    seq![
        digit_char(n / 1000),
        digit_char((n / 100) % 10),
        digit_char((n / 10) % 10),
        digit_char(n % 10),
    ]
}

/// The backup directory's name for a run that started at the given civil
/// time: the digits of the date, an underscore, the digits of the time of
/// day. The fields have fixed widths, so names of later runs sort
/// lexically after names of earlier ones.
pub open spec fn stamp_of(
    year: int,
    month: int,
    day: int,
    hour: int,
    minute: int,
    second: int,
) -> Seq<char> {
    dec4(year) + dec2(month) + dec2(day) + seq!['_'] + dec2(hour) + dec2(minute) + dec2(second)
}

fn digit_str(d: u32) -> (r: &'static str)
    requires
        d < 10,
    ensures
        r@ == seq![digit_char(d as int)],
{
    let r: &'static str = if d == 0 {
        "0"
    } else if d == 1 {
        "1"
    } else if d == 2 {
        "2"
    } else if d == 3 {
        "3"
    } else if d == 4 {
        "4"
    } else if d == 5 {
        "5"
    } else if d == 6 {
        "6"
    } else if d == 7 {
        "7"
    } else if d == 8 {
        "8"
    } else {
        "9"
    };
    proof {
        reveal_strlit("0");
        reveal_strlit("1");
        reveal_strlit("2");
        reveal_strlit("3");
        reveal_strlit("4");
        reveal_strlit("5");
        reveal_strlit("6");
        reveal_strlit("7");
        reveal_strlit("8");
        reveal_strlit("9");
        assert(r@ =~= seq![digit_char(d as int)]);
    }
    r
}

fn push_dec2(out: &mut String, n: u32)
    requires
        n < 100,
    ensures
        final(out)@ == old(out)@ + dec2(n as int),
{
    out.append(digit_str(n / 10));
    out.append(digit_str(n % 10));
    proof {
        assert(out@ =~= old(out)@ + dec2(n as int));
    }
}

fn push_dec4(out: &mut String, n: u32)
    requires
        n < 10000,
    ensures
        final(out)@ == old(out)@ + dec4(n as int),
{
    out.append(digit_str(n / 1000));
    out.append(digit_str((n / 100) % 10));
    out.append(digit_str((n / 10) % 10));
    out.append(digit_str(n % 10));
    proof {
        assert(out@ =~= old(out)@ + dec4(n as int));
    }
}

/// The name of the run's backup directory, from the run's start time.
pub fn format_stamp(year: u32, month: u32, day: u32, hour: u32, minute: u32, second: u32) -> (r:
    String)
    requires
        year < 10000,
        month < 100,
        day < 100,
        hour < 100,
        minute < 100,
        second < 100,
    ensures
        r@ == stamp_of(year as int, month as int, day as int, hour as int, minute as int,
            second as int),
        r@.len() == 15,
{
    let mut out = String::new();
    push_dec4(&mut out, year);
    push_dec2(&mut out, month);
    push_dec2(&mut out, day);
    out.append("_");
    push_dec2(&mut out, hour);
    push_dec2(&mut out, minute);
    push_dec2(&mut out, second);
    proof {
        reveal_strlit("_");
        assert("_"@ =~= seq!['_']);
        assert(out@ =~= stamp_of(year as int, month as int, day as int, hour as int,
            minute as int, second as int));
    }
    out
}

} // verus!
