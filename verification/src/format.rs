//! Formatting helpers of the install progress display and the storage
//! pages.

use vstd::prelude::*;

use crate::sort::byte_len;
use crate::text::{chars_of, chars_to_string, dec, decimal, extend};

verus! {

/// Two digits, zero first when below ten.
pub open spec fn two_digits(n: nat) -> Seq<char> {
    if n < 10 {
        seq!['0'] + dec(n)
    } else {
        dec(n)
    }
}

/// A duration of whole seconds as the progress display shows it:
/// `1h05m` from an hour on, `2m07s` from a minute on, else `42s`.
pub open spec fn duration_text(secs: nat) -> Seq<char> {
    if secs >= 3600 {
        dec(secs / 3600) + seq!['h'] + two_digits((secs % 3600) / 60) + seq!['m']
    } else if secs >= 60 {
        dec(secs / 60) + seq!['m'] + two_digits(secs % 60) + seq!['s']
    } else {
        dec(secs) + seq!['s']
    }
}

fn push_two_digits(buf: &mut Vec<char>, n: u64)
    requires
        n < 100,
    ensures
        final(buf)@ == old(buf)@ + two_digits(n as nat),
{
    if n < 10 {
        buf.push('0');
    }
    let d = decimal(n);
    extend(buf, &d);
}

/// Format a duration given in whole seconds.
pub fn format_duration(secs: u64) -> (r: String)
    ensures
        r@ == duration_text(secs as nat),
{
    let mut out: Vec<char> = Vec::new();
    if secs >= 3600 {
        let h = decimal(secs / 3600);
        extend(&mut out, &h);
        out.push('h');
        push_two_digits(&mut out, (secs % 3600) / 60);
        out.push('m');
    } else if secs >= 60 {
        let m = decimal(secs / 60);
        extend(&mut out, &m);
        out.push('m');
        push_two_digits(&mut out, secs % 60);
        out.push('s');
    } else {
        let s = decimal(secs);
        extend(&mut out, &s);
        out.push('s');
    }
    chars_to_string(&out)
}

/// At most `max` characters of `s`: all of it when it is no longer than
/// `max` bytes or has no more than `max` characters, else its first `max`
/// characters.
pub fn truncate_str(s: &str, max: usize) -> (r: &str)
    ensures
        r@ == if byte_len(s@) <= max || s@.len() <= max {
            s@
        } else {
            s@.take(max as int)
        },
{
    if s.len() <= max {
        return s;
    }
    let n = chars_of(s).len();
    if n <= max {
        s
    } else {
        s.substring_char(0, max)
    }
}

} // verus!
