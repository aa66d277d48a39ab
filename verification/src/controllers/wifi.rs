//! Reading the wired connection's address from `ip -4 addr` output.

use vstd::prelude::*;

use crate::text::{
    chars_of, chars_to_string, find, find_char, has_prefix, lines, slice, split_lines,
    split_whitespace, starts_with, trim, trimmed, views, words,
};

verus! {

/// The first IPv4 address on an `inet` line that is not loopback, without
/// its prefix length. An `inet` line with nothing after the word ends the
/// search with nothing.
pub open spec fn ipv4_scan(ls: Seq<Seq<char>>) -> Option<Seq<char>>
    decreases ls.len(),
{
    if ls.len() == 0 {
        None
    } else {
        let t = trim(ls[0]);
        if has_prefix(t, "inet "@) {
            let ws = words(t.skip("inet "@.len() as int));
            if ws.len() == 0 {
                None
            } else if has_prefix(ws[0], "127."@) {
                ipv4_scan(ls.skip(1))
            } else {
                match find(ws[0], '/') {
                    Some(i) => Some(ws[0].take(i)),
                    None => Some(ws[0]),
                }
            }
        } else {
            ipv4_scan(ls.skip(1))
        }
    }
}

/// The machine's IPv4 address as `ip -4 addr` lists it, loopback skipped.
pub fn parse_ipv4_from_ip_addr(output: &str) -> (r: Option<String>)
    ensures
        match r {
            Some(a) => ipv4_scan(lines(output@)) == Some(a@),
            None => ipv4_scan(lines(output@)) is None,
        },
{
    let ls = split_lines(output);
    let inet = chars_of("inet ");
    let lo = chars_of("127.");
    let mut i: usize = 0;
    assert(views(ls@).skip(0) == views(ls@));
    while i < ls.len()
        invariant
            i <= ls.len(),
            views(ls@) == lines(output@),
            inet@ == "inet "@,
            lo@ == "127."@,
            ipv4_scan(lines(output@)) == ipv4_scan(views(ls@).skip(i as int)),
        decreases ls.len() - i,
    {
        let ghost rest = views(ls@).skip(i as int);
        assert(rest[0] == ls@[i as int]@);
        assert(rest.skip(1) == views(ls@).skip(i + 1));
        let t = trimmed(&ls[i]);
        if starts_with(&t, &inet) {
            let after = slice(&t, inet.len(), t.len());
            let ws = split_whitespace(&after);
            if ws.len() == 0 {
                return None;
            }
            if !starts_with(&ws[0], &lo) {
                return match find_char(&ws[0], '/') {
                    Some(k) => Some(chars_to_string(&slice(&ws[0], 0, k))),
                    None => Some(chars_to_string(&ws[0])),
                };
            }
        }
        i = i + 1;
    }
    None
}

} // verus!
