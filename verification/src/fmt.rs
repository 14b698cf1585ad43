//! Rendering of summaries: decimal numbers, compact duration tokens, and
//! the per-window report block.

use vstd::prelude::*;
use crate::sum::Sum;
use crate::sum::SumModel;
use crate::sum::sum_within;
use crate::aggregate::MAX_TOTAL;

verus! {

/// The decimal digit character for `d` in `0..10`.
pub open spec fn digit_char(d: int) -> char {
    if d == 0 {
        '0'
    } else if d == 1 {
        '1'
    } else if d == 2 {
        '2'
    } else if d == 3 {
        '3'
    } else if d == 4 {
        '4'
    } else if d == 5 {
        '5'
    } else if d == 6 {
        '6'
    } else if d == 7 {
        '7'
    } else if d == 8 {
        '8'
    } else {
        '9'
    }
}

/// The decimal digit string of a non-negative `n`, no leading zeroes
/// (a single zero for `n == 0`).
pub open spec fn dec_digits(n: int) -> Seq<char>
    decreases n,
{
    if n < 10 {
        seq![digit_char(n)]
    } else {
        dec_digits(n / 10).push(digit_char(n % 10))
    }
}

/// The compact duration token for `secs` seconds: hours as `h` when above
/// zero, minutes as `m` when hours or minutes are above zero, and seconds
/// as `s` always.
pub open spec fn spec_format_duration(secs: int) -> Seq<char> {
    let h = secs / 3600;
    let m = (secs % 3600) / 60;
    let s = secs % 60;
    (if h > 0 {
        dec_digits(h).push('h')
    } else {
        Seq::empty()
    }) + (if m > 0 || h > 0 {
        dec_digits(m).push('m')
    } else {
        Seq::empty()
    }) + dec_digits(s).push('s')
}

/// A volume of `centi` hundredths of an ounce rendered to one decimal
/// place, rounding half up at the dropped hundredth.
pub open spec fn spec_format_oz(centi: int) -> Seq<char> {
    let t = (centi + 5) / 10;
    dec_digits(t / 10).push('.').push(digit_char(t % 10))
}

/// The bottle volume per counted session, or `n/a` for a summary with no
/// counted session (a day or window can legitimately have none).
pub open spec fn spec_session_avg(s: SumModel) -> Seq<char> {
    if s.bottle_sessions == 0 {
        "n/a"@
    } else {
        spec_format_oz(s.bottle_oz / s.bottle_sessions)
    }
}

/// The report block for one summary: all nine fields, one line each, in
/// the fixed field order.
pub open spec fn spec_render_sum(s: SumModel) -> Seq<char> {
    "Total Diapers: "@ + dec_digits(s.total_diapers) + "\n"@ + "Poo Diapers: "@ + dec_digits(
        s.poo_diapers,
    ) + "\n"@ + "Bottle: "@ + spec_format_oz(s.bottle_oz) + " oz ("@ + spec_session_avg(s)
        + " oz per session)"@ + "\n"@ + "Bottle Sessions: "@ + dec_digits(s.bottle_sessions) + "\n"@
        + "Breast Feeding: "@ + spec_format_duration(s.breast_duration) + "\n"@ + "Pumping: "@
        + spec_format_oz(s.pumping_oz) + " oz"@ + "\n"@ + "Tummy Time: "@ + spec_format_duration(
        s.tummy_time_duration,
    ) + "\n"@ + "Max Sleep: "@ + spec_format_duration(s.max_sleep_duration) + "\n"@
        + "Total Sleep: "@ + spec_format_duration(s.total_sleep_duration) + "\n"@
}

/// The one-character string for digit `d`.
fn digit_str(d: u64) -> (r: &'static str)
    requires
        d < 10,
    ensures
        r@ == seq![digit_char(d as int)],
{
    proof {
        reveal_strlit("0");
        reveal_strlit("1");
        reveal_strlit("2");
        reveal_strlit("3");
        reveal_strlit("4");
        reveal_strlit("5");
        reveal_strlit("6");
        reveal_strlit("7");
        reveal_strlit("8");
        reveal_strlit("9");
    }
    match d {
        0 => "0",
        1 => "1",
        2 => "2",
        3 => "3",
        4 => "4",
        5 => "5",
        6 => "6",
        7 => "7",
        8 => "8",
        _ => "9",
    }
}

/// The decimal digit string of `n`.
pub fn format_u64(n: u64) -> (out: String)
    ensures
        out@ == dec_digits(n as int),
    decreases n,
{
    if n < 10 {
        String::from_str(digit_str(n))
    } else {
        let mut s = format_u64(n / 10);
        s.append(digit_str(n % 10));
        proof {
            assert(s@ =~= dec_digits(n as int));
        }
        s
    }
}

/// The compact duration token for `secs` seconds, as the report prints it.
pub fn format_duration(secs: u64) -> (out: String)
    ensures
        out@ == spec_format_duration(secs as int),
{
    let hours = secs / 3600;
    let rem = secs % 3600;
    let minutes = rem / 60;
    let seconds = rem % 60;
    proof {
        assert((secs as int % 3600) % 60 == secs as int % 60) by (nonlinear_arith);
    }
    let mut out = String::new();
    if hours > 0 {
        let h = format_u64(hours);
        out.append(h.as_str());
        out.append("h");
        proof {
            reveal_strlit("h");
        }
    }
    if minutes > 0 || hours > 0 {
        let m = format_u64(minutes);
        out.append(m.as_str());
        out.append("m");
        proof {
            reveal_strlit("m");
        }
    }
    let s = format_u64(seconds);
    out.append(s.as_str());
    out.append("s");
    proof {
        reveal_strlit("s");
        assert(out@ =~= spec_format_duration(secs as int));
    }
    out
}

/// A volume of `centi` hundredths of an ounce to one decimal place.
pub fn format_oz(centi: u64) -> (out: String)
    requires
        centi <= 8 * MAX_TOTAL,
    ensures
        out@ == spec_format_oz(centi as int),
{
    let t = (centi + 5) / 10;
    let mut out = format_u64(t / 10);
    out.append(".");
    out.append(digit_str(t % 10));
    proof {
        reveal_strlit(".");
        assert(out@ =~= spec_format_oz(centi as int));
    }
    out
}

/// Renders the report block for one summary, all nine fields in the fixed
/// order the report uses.
pub fn render_sum(s: &Sum) -> (out: String)
    requires
        sum_within(s@, MAX_TOTAL as int),
    ensures
        out@ == spec_render_sum(s@),
{
    let mut out = String::new();
    out.append("Total Diapers: ");
    let d = format_u64(s.total_diapers);
    out.append(d.as_str());
    out.append("\n");
    out.append("Poo Diapers: ");
    let p = format_u64(s.poo_diapers);
    out.append(p.as_str());
    out.append("\n");
    out.append("Bottle: ");
    let b = format_oz(s.bottle_oz);
    out.append(b.as_str());
    out.append(" oz (");
    if s.bottle_sessions == 0 {
        out.append("n/a");
    } else {
        proof {
            assert(s.bottle_oz as int / s.bottle_sessions as int <= s.bottle_oz as int) by (nonlinear_arith)
                requires
                    s.bottle_sessions >= 1,
                    s.bottle_oz >= 0,
            ;
        }
        let avg = format_oz(s.bottle_oz / s.bottle_sessions);
        out.append(avg.as_str());
    }
    out.append(" oz per session)");
    out.append("\n");
    out.append("Bottle Sessions: ");
    let bs = format_u64(s.bottle_sessions);
    out.append(bs.as_str());
    out.append("\n");
    out.append("Breast Feeding: ");
    let bf = format_duration(s.breast_duration);
    out.append(bf.as_str());
    out.append("\n");
    out.append("Pumping: ");
    let po = format_oz(s.pumping_oz);
    out.append(po.as_str());
    out.append(" oz");
    out.append("\n");
    out.append("Tummy Time: ");
    let tt = format_duration(s.tummy_time_duration);
    out.append(tt.as_str());
    out.append("\n");
    out.append("Max Sleep: ");
    let ms = format_duration(s.max_sleep_duration);
    out.append(ms.as_str());
    out.append("\n");
    out.append("Total Sleep: ");
    let ts = format_duration(s.total_sleep_duration);
    out.append(ts.as_str());
    out.append("\n");
    proof {
        assert(out@ =~= spec_render_sum(s@));
    }
    out
}

} // verus!
