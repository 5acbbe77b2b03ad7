use vstd::prelude::*;
use crate::digits::{dec_chars, digit_char, push_dec_chars};
use crate::text::chars_to_string;
use vstd::string::StringExecFns;

verus! {

/// Seconds in one whole day.
pub const SECS_PER_DAY: i64 = 86400;

/// Text shown once the target instant is in the past.
pub open spec fn terminal_text() -> Seq<char> {
    "Esperanza en la Ciudad"@
}

/// A value below one hundred as two decimal digits.
pub open spec fn two_digit_chars(v: int) -> Seq<char> {
    seq![digit_char(v / 10), digit_char(v % 10)]
}

/// The `hh:mm:ss` part of the countdown for a non-negative duration.
pub open spec fn hms_chars(secs: int) -> Seq<char> {
    two_digit_chars(secs % 86400 / 3600) + seq![':'] + two_digit_chars(secs % 3600 / 60)
        + seq![':'] + two_digit_chars(secs % 60)
}

/// The countdown display text for a remaining duration in whole seconds: the
/// terminal text once negative, else the whole days (when any) and `hh:mm:ss`.
pub open spec fn countdown_text(secs: int) -> Seq<char> {
    if secs < 0 {
        terminal_text()
    } else if secs / 86400 > 0 {
        dec_chars((secs / 86400) as nat) + " días, "@ + hms_chars(secs)
    } else {
        hms_chars(secs)
    }
}

/// Appends a value below one hundred as two decimal digits.
fn push_two_digits(v: u64, out: &mut Vec<char>)
    requires
        v < 100,
    ensures
        final(out)@ == old(out)@ + two_digit_chars(v as int),
{
    let hi: u8 = (v / 10) as u8;
    let lo: u8 = (v % 10) as u8;
    out.push((48 + hi) as char);
    out.push((48 + lo) as char);
    proof {
        assert(out@ =~= old(out)@ + two_digit_chars(v as int));
    }
}

/// Number of whole days remaining in a non-negative duration, truncating.
pub fn days_remaining(duration_seconds: i64) -> (r: i64)
    requires
        duration_seconds >= 0,
    ensures
        r == duration_seconds as int / 86400,
{
    duration_seconds / SECS_PER_DAY
}

/// Computes the countdown display text for a remaining duration in seconds.
pub fn countdown_time(duration_seconds: i64) -> (r: String)
    ensures
        r@ == countdown_text(duration_seconds as int),
{
    if duration_seconds < 0 {
        String::from_str("Esperanza en la Ciudad")
    } else {
        let total: u64 = duration_seconds as u64;
        let days: u64 = total / 86400;
        let hours: u64 = (total % 86400) / 3600;
        let minutes: u64 = (total % 3600) / 60;
        let seconds: u64 = total % 60;
        proof {
            assert(hours < 24) by (nonlinear_arith)
                requires
                    hours == (total % 86400) / 3600,
                    total % 86400 < 86400,
            ;
            assert(minutes < 60) by (nonlinear_arith)
                requires
                    minutes == (total % 3600) / 60,
                    total % 3600 < 3600,
            ;
        }
        let mut out: Vec<char> = Vec::new();
        if days > 0 {
            push_dec_chars(days, &mut out);
            out.push(' ');
            out.push('d');
            out.push('í');
            out.push('a');
            out.push('s');
            out.push(',');
            out.push(' ');
            proof {
                reveal_strlit(" días, ");
                assert(out@ =~= dec_chars(days as nat) + " días, "@);
            }
        }
        push_two_digits(hours, &mut out);
        out.push(':');
        push_two_digits(minutes, &mut out);
        out.push(':');
        push_two_digits(seconds, &mut out);
        proof {
            if days > 0 {
                assert(out@ =~= countdown_text(duration_seconds as int));
            } else {
                assert(out@ =~= countdown_text(duration_seconds as int));
            }
        }
        chars_to_string(&out)
    }
}

/// The header greeting shown once the target instant has passed; nothing
/// while the countdown still runs.
pub fn header_text(duration_seconds: i64) -> (r: Option<String>)
    ensures
        duration_seconds < 0 ==> (r matches Some(t) && t@ == "¡Feliz Aniversario!"@),
        duration_seconds >= 0 ==> r is None,
{
    if duration_seconds < 0 {
        Some(String::from_str("¡Feliz Aniversario!"))
    } else {
        None
    }
}

} // verus!
