//! The console supervisor's side of the graphical session: how messages to
//! and from the GUI are framed on the socket, which arguments a restored GUI
//! is started with, and the exit code the supervisor passes on.

use vstd::prelude::*;

use crate::sort::string_views;
use crate::text::{chars_eq, chars_of, has_prefix, starts_with};

verus! {

/// The largest message either side accepts.
pub const MAX_MESSAGE: usize = 16384;

/// The refusal of a message over the limit.
pub open spec fn oversized_message() -> Seq<char> {
    "Oversized session message"@
}

/// A length as four bytes, most significant first.
pub open spec fn be_bytes(n: nat) -> Seq<u8> {
    seq![
        ((n / 0x100_0000) % 0x100) as u8,
        ((n / 0x1_0000) % 0x100) as u8,
        ((n / 0x100) % 0x100) as u8,
        (n % 0x100) as u8,
    ]
}

/// Four bytes, most significant first, as a number.
pub open spec fn be_value(h: Seq<u8>) -> nat {
    h[0] as nat * 0x100_0000 + h[1] as nat * 0x1_0000 + h[2] as nat * 0x100 + h[3] as nat
}

/// A message as sent: its length in four big-endian bytes, then the
/// bytes; refused over `MAX_MESSAGE` bytes.
pub fn frame(data: &[u8]) -> (r: Result<Vec<u8>, String>)
    ensures
        match r {
            Ok(f) => data@.len() <= MAX_MESSAGE && f@ == be_bytes(data@.len()) + data@,
            Err(m) => data@.len() > MAX_MESSAGE && m@ == oversized_message(),
        },
{
    let n = data.len();
    if n > MAX_MESSAGE {
        return Err("Oversized session message".to_string());
    }
    let mut f: Vec<u8> = Vec::new();
    f.push(((n / 0x100_0000) % 0x100) as u8);
    f.push(((n / 0x1_0000) % 0x100) as u8);
    f.push(((n / 0x100) % 0x100) as u8);
    f.push((n % 0x100) as u8);
    let mut i: usize = 0;
    while i < n
        invariant
            i <= n == data@.len(),
            n <= MAX_MESSAGE,
            f@ == be_bytes(n as nat) + data@.take(i as int),
        decreases n - i,
    {
        f.push(data[i]);
        assert(data@.take(i + 1) =~= data@.take(i as int).push(data@[i as int]));
        assert(f@ =~= be_bytes(n as nat) + data@.take(i + 1));
        i = i + 1;
    }
    assert(data@.take(n as int) =~= data@);
    Ok(f)
}

/// The length a received header announces, refused over `MAX_MESSAGE`.
pub fn frame_length(header: [u8; 4]) -> (r: Result<usize, String>)
    ensures
        match r {
            Ok(n) => be_value(header@) <= MAX_MESSAGE && n == be_value(header@),
            Err(m) => be_value(header@) > MAX_MESSAGE && m@ == oversized_message(),
        },
{
    let n: u64 = header[0] as u64 * 0x100_0000 + header[1] as u64 * 0x1_0000 + header[2] as u64
        * 0x100 + header[3] as u64;
    if n > 16384 {
        return Err("Oversized session message".to_string());
    }
    Ok(n as usize)
}

/// Whether the argument is `--ui-scale=…`.
pub open spec fn is_scale_setting(a: Seq<char>) -> bool {
    has_prefix(a, "--ui-scale="@)
}

/// The arguments a restored GUI gets: only the scale, as `--ui-scale
/// <value>` (when a value follows) or `--ui-scale=<value>`; a restored GUI
/// must not read secrets or a configuration again, nor start an
/// installation.
pub open spec fn restored_args(args: Seq<Seq<char>>, i: int) -> Seq<Seq<char>>
    decreases args.len() - i,
{
    if i < 0 || i >= args.len() {
        seq![]
    } else if args[i] == "--ui-scale"@ {
        if i + 1 < args.len() {
            seq![args[i], args[i + 1]] + restored_args(args, i + 1)
        } else {
            restored_args(args, i + 1)
        }
    } else if is_scale_setting(args[i]) {
        seq![args[i]] + restored_args(args, i + 1)
    } else {
        restored_args(args, i + 1)
    }
}

/// Select the arguments a restored GUI is started with.
pub fn restored_arguments(args: &Vec<String>) -> (r: Vec<String>)
    ensures
        string_views(r@) == restored_args(string_views(args@), 0),
{
    let ghost a = string_views(args@);
    let scale = chars_of("--ui-scale");
    let setting = chars_of("--ui-scale=");
    let mut out: Vec<String> = Vec::new();
    let mut i: usize = 0;
    while i < args.len()
        invariant
            i <= args.len(),
            a == string_views(args@),
            scale@ == "--ui-scale"@,
            setting@ == "--ui-scale="@,
            restored_args(a, 0) == string_views(out@) + restored_args(a, i as int),
        decreases args.len() - i,
    {
        let ghost before = string_views(out@);
        let arg = chars_of(args[i].as_str());
        if chars_eq(&arg, &scale) {
            if i + 1 < args.len() {
                out.push(args[i].as_str().to_string());
                out.push(args[i + 1].as_str().to_string());
                assert(string_views(out@) =~= before + seq![a[i as int], a[i + 1]]);
            }
        } else if starts_with(&arg, &setting) {
            out.push(args[i].as_str().to_string());
            assert(string_views(out@) =~= before + seq![a[i as int]]);
        }
        i = i + 1;
    }
    assert(string_views(out@) + restored_args(a, i as int) =~= string_views(out@));
    out
}

/// The exit code passed on for a child that ended: its own code, or 128
/// and the signal that ended it (1 when neither is known).
pub fn exit_code(code: Option<i32>, signal: Option<i32>) -> (r: i32)
    requires
        signal matches Some(s) ==> s <= i32::MAX - 128,
    ensures
        r == match code {
            Some(c) => c as int,
            None => 128 + match signal {
                Some(s) => s as int,
                None => 1,
            },
        },
{
    match code {
        Some(c) => c,
        None => 128 + match signal {
            Some(s) => s,
            None => 1,
        },
    }
}

} // verus!
