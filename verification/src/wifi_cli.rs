//! Reading the network listing `iwctl station <iface> get-networks` prints.

use vstd::prelude::*;

use crate::text::{
    chars_of, chars_to_string, has_prefix, is_alpha, is_ascii_alphabetic, lines, split_lines,
    starts_with, trim, trimmed, views,
};

verus! {

/// A WiFi network discovered by a scan.
#[derive(Debug, Clone, PartialEq, Eq)]
pub struct WifiNetwork {
    pub ssid: String,
    /// Signal strength 0–100.
    pub signal_percent: u8,
    /// Security type as reported by iwd (e.g. "psk", "open", "8021x").
    pub security: String,
}

/// A network as plain values: ssid, signal, security.
pub open spec fn net_view(n: WifiNetwork) -> (Seq<char>, u8, Seq<char>) {
    (n.ssid@, n.signal_percent, n.security@)
}

// ───────────────────────────── escapes ────────────────────────────────

/// The rest of an escape sequence's text after its final letter.
pub open spec fn after_csi(t: Seq<char>) -> Seq<char>
    decreases t.len(),
{
    if t.len() == 0 {
        t
    } else if is_alpha(t[0]) {
        t.drop_first()
    } else {
        after_csi(t.drop_first())
    }
}

pub proof fn lemma_after_csi_len(t: Seq<char>)
    ensures
        after_csi(t).len() <= t.len(),
    decreases t.len(),
{
    if t.len() > 0 && !is_alpha(t[0]) {
        lemma_after_csi_len(t.drop_first());
    }
}

/// `s` without ANSI escape sequences: `ESC [ … letter` is dropped whole,
/// an `ESC` not followed by `[` is dropped alone.
pub open spec fn strip_escapes(s: Seq<char>) -> Seq<char>
    decreases s.len(),
{
    if s.len() == 0 {
        s
    } else if s[0] == '\x1b' {
        if s.len() > 1 && s[1] == '[' {
            proof {
                lemma_after_csi_len(s.skip(2));
            }
            strip_escapes(after_csi(s.skip(2)))
        } else {
            strip_escapes(s.drop_first())
        }
    } else {
        seq![s[0]] + strip_escapes(s.drop_first())
    }
}

proof fn lemma_after_csi_skip(v: Seq<char>, i: int)
    requires
        0 <= i <= v.len(),
    ensures
        after_csi(v.skip(i)) == if i == v.len() {
            v.skip(i)
        } else if is_alpha(v[i]) {
            v.skip(i + 1)
        } else {
            after_csi(v.skip(i + 1))
        },
{
    if i < v.len() {
        assert(v.skip(i).drop_first() == v.skip(i + 1));
        assert(v.skip(i)[0] == v[i]);
    }
}

/// Strip ANSI/VT100 escape sequences from a string.
pub fn strip_ansi(s: &str) -> (r: String)
    ensures
        r@ == strip_escapes(s@),
{
    let v = chars_of(s);
    let mut out: Vec<char> = Vec::new();
    let mut i: usize = 0;
    assert(v@.skip(0) == v@);
    while i < v.len()
        invariant
            i <= v.len(),
            out@ + strip_escapes(v@.skip(i as int)) == strip_escapes(s@),
            v@ == s@,
        decreases v.len() - i,
    {
        let c = v[i];
        assert(v@.skip(i as int)[0] == c);
        assert(v@.skip(i as int).drop_first() == v@.skip(i + 1));
        if c == '\x1b' {
            if i + 1 < v.len() && v[i + 1] == '[' {
                assert(v@.skip(i as int).skip(2) == v@.skip(i + 2));
                assert(v@.skip(i as int)[1] == v@[i + 1]);
                let mut j = i + 2;
                while j < v.len() && !is_ascii_alphabetic(v[j])
                    invariant
                        i + 2 <= j <= v.len(),
                        after_csi(v@.skip(i + 2)) == after_csi(v@.skip(j as int)),
                    decreases v.len() - j,
                {
                    proof {
                        lemma_after_csi_skip(v@, j as int);
                    }
                    j += 1;
                }
                proof {
                    lemma_after_csi_skip(v@, j as int);
                }
                if j < v.len() {
                    i = j + 1;
                } else {
                    i = j;
                }
            } else {
                i += 1;
            }
        } else {
            out.push(c);
            i += 1;
        }
    }
    assert(strip_escapes(v@.skip(i as int)) == Seq::<char>::empty());
    assert(out@ =~= strip_escapes(s@));
    chars_to_string(&out)
}

// ───────────────────────────── columns ────────────────────────────────

/// The fields finished so far, the field being read (without spaces that
/// may turn out to be a gap), and the count of those pending spaces.
pub open spec fn column_scan(s: Seq<char>) -> (Seq<Seq<char>>, Seq<char>, nat)
    decreases s.len(),
{
    if s.len() == 0 {
        (seq![], seq![], 0)
    } else {
        let (done, cur, spaces) = column_scan(s.drop_last());
        let c = s.last();
        if c == ' ' {
            (done, cur, spaces + 1)
        } else if spaces >= 2 {
            (done.push(cur), seq![c], 0)
        } else {
            (done, cur + Seq::new(spaces, |k: int| ' ') + seq![c], 0)
        }
    }
}

/// `s` split on runs of two or more spaces; single spaces stay inside a
/// field, and the last field is trimmed and dropped when empty.
pub open spec fn columns(s: Seq<char>) -> Seq<Seq<char>> {
    let (done, cur, spaces) = column_scan(s);
    let tail = trim(cur + Seq::new(spaces, |k: int| ' '));
    if tail.len() == 0 {
        done
    } else {
        done.push(tail)
    }
}

fn push_spaces(buf: &mut Vec<char>, n: usize)
    ensures
        final(buf)@ == old(buf)@ + Seq::new(n as nat, |k: int| ' '),
{
    for k in 0..n
        invariant
            buf@ == old(buf)@ + Seq::new(k as nat, |j: int| ' '),
    {
        buf.push(' ');
        assert(Seq::new((k + 1) as nat, |j: int| ' ') == Seq::new(k as nat, |j: int| ' ').push(
            ' ',
        ));
    }
}

/// Split `s` on runs of two or more spaces.
pub fn split_columns(s: &str) -> (r: Vec<String>)
    ensures
        r@.map_values(|x: String| x@) == columns(s@),
{
    let v = chars_of(s);
    let mut done: Vec<Vec<char>> = Vec::new();
    let mut cur: Vec<char> = Vec::new();
    let mut spaces: usize = 0;
    for i in 0..v.len()
        invariant
            v@ == s@,
            (views(done@), cur@, spaces as nat) == column_scan(v@.take(i as int)),
            spaces <= i,
    {
        let c = v[i];
        assert(v@.take(i + 1).drop_last() == v@.take(i as int));
        if c == ' ' {
            spaces += 1;
        } else if spaces >= 2 {
            let ghost before = done@;
            done.push(cur);
            cur = Vec::new();
            cur.push(c);
            spaces = 0;
            assert(views(done@) == views(before).push(done@.last()@));
        } else {
            push_spaces(&mut cur, spaces);
            cur.push(c);
            spaces = 0;
        }
    }
    assert(v@.take(v.len() as int) == v@);
    push_spaces(&mut cur, spaces);
    let tail = trimmed(&cur);
    if tail.len() > 0 {
        let ghost before = done@;
        done.push(tail);
        assert(views(done@) == views(before).push(tail@));
    }
    let mut out: Vec<String> = Vec::new();
    for k in 0..done.len()
        invariant
            out.len() == k,
            forall|j: int| 0 <= j < k ==> #[trigger] out@[j]@ == done@[j]@,
    {
        out.push(chars_to_string(&done[k]));
    }
    assert(out@.map_values(|x: String| x@) =~= views(done@));
    out
}

// ───────────────────────────── listing ────────────────────────────────

/// `s` without leading `>`, `*` and space characters.
pub open spec fn strip_markers(s: Seq<char>) -> Seq<char>
    decreases s.len(),
{
    if s.len() > 0 && (s[0] == '>' || s[0] == '*' || s[0] == ' ') {
        strip_markers(s.drop_first())
    } else {
        s
    }
}

/// A line of the table's frame: only rule characters and spaces.
pub open spec fn is_rule(t: Seq<char>) -> bool {
    forall|i: int| 0 <= i < t.len() ==> (t[i] == '─' || t[i] == '-' || t[i] == ' ')
}

/// The number of `*` in `s`.
pub open spec fn stars(s: Seq<char>) -> nat
    decreases s.len(),
{
    if s.len() == 0 {
        0
    } else {
        stars(s.drop_last()) + if s.last() == '*' {
            1nat
        } else {
            0nat
        }
    }
}

/// The signal a star count stands for: 25 per star, at most 100.
pub open spec fn stars_percent(n: nat) -> u8 {
    if n >= 4 {
        100
    } else {
        (n * 25) as u8
    }
}

/// The network a listing line describes, if it describes one.
pub open spec fn line_network(l: Seq<char>) -> Option<(Seq<char>, u8, Seq<char>)> {
    let t = trim(strip_escapes(l));
    if t.len() == 0 || has_prefix(t, "Available"@) || has_prefix(t, "Network name"@) || is_rule(
        t,
    ) {
        None
    } else {
        let parts = columns(strip_markers(t));
        if parts.len() < 3 || trim(parts[0]).len() == 0 {
            None
        } else {
            Some((trim(parts[0]), stars_percent(stars(trim(parts[2]))), trim(parts[1])))
        }
    }
}

/// The networks described by the first `n` lines, in order.
pub open spec fn listed_networks(ls: Seq<Seq<char>>, n: int) -> Seq<(Seq<char>, u8, Seq<char>)>
    decreases n,
{
    if n <= 0 {
        seq![]
    } else {
        match line_network(ls[n - 1]) {
            Some(x) => listed_networks(ls, n - 1).push(x),
            None => listed_networks(ls, n - 1),
        }
    }
}

proof fn lemma_strip_markers_skip(s: Seq<char>, i: int)
    requires
        0 <= i <= s.len(),
        forall|j: int| 0 <= j < i ==> (s[j] == '>' || s[j] == '*' || s[j] == ' '),
    ensures
        strip_markers(s) == strip_markers(s.skip(i)),
    decreases i,
{
    if i > 0 {
        assert(s.drop_first().skip(i - 1) == s.skip(i));
        lemma_strip_markers_skip(s.drop_first(), i - 1);
    } else {
        assert(s.skip(0) == s);
    }
}

fn is_rule_line(t: &Vec<char>) -> (r: bool)
    ensures
        r == is_rule(t@),
{
    for i in 0..t.len()
        invariant
            forall|j: int| 0 <= j < i ==> (t@[j] == '─' || t@[j] == '-' || t@[j] == ' '),
    {
        if !(t[i] == '─' || t[i] == '-' || t[i] == ' ') {
            return false;
        }
    }
    true
}

fn count_stars(t: &Vec<char>) -> (r: usize)
    ensures
        r == stars(t@),
{
    let mut n: usize = 0;
    for i in 0..t.len()
        invariant
            n == stars(t@.take(i as int)),
            n <= i,
    {
        assert(t@.take(i + 1).drop_last() == t@.take(i as int));
        if t[i] == '*' {
            n += 1;
        }
    }
    assert(t@.take(t.len() as int) == t@);
    n
}

/// The network one listing line describes.
fn parse_line(l: &Vec<char>) -> (r: Option<WifiNetwork>)
    ensures
        match r {
            Some(n) => line_network(l@) == Some(net_view(n)),
            None => line_network(l@) is None,
        },
{
    let clean = strip_ansi(chars_to_string(l).as_str());
    let cv = chars_of(clean.as_str());
    let t = trimmed(&cv);
    let available = chars_of("Available");
    let header = chars_of("Network name");
    if t.len() == 0 || starts_with(&t, &available) || starts_with(&t, &header) || is_rule_line(&t) {
        return None;
    }
    let mut i: usize = 0;
    while i < t.len() && (t[i] == '>' || t[i] == '*' || t[i] == ' ')
        invariant
            i <= t.len(),
            forall|j: int| 0 <= j < i ==> (t@[j] == '>' || t@[j] == '*' || t@[j] == ' '),
        decreases t.len() - i,
    {
        i += 1;
    }
    proof {
        lemma_strip_markers_skip(t@, i as int);
        let u = t@.skip(i as int);
        if u.len() > 0 {
            assert(u[0] == t@[i as int]);
        }
    }
    let data = chars_to_string(&crate::text::slice(&t, i, t.len()));
    let parts = split_columns(data.as_str());
    if parts.len() < 3 {
        return None;
    }
    assert(parts@.map_values(|x: String| x@)[0] == parts@[0]@);
    assert(parts@.map_values(|x: String| x@)[1] == parts@[1]@);
    assert(parts@.map_values(|x: String| x@)[2] == parts@[2]@);
    let ssid = trimmed(&chars_of(parts[0].as_str()));
    if ssid.len() == 0 {
        return None;
    }
    let security = trimmed(&chars_of(parts[1].as_str()));
    let n = count_stars(&trimmed(&chars_of(parts[2].as_str())));
    let signal: u8 = if n >= 4 {
        100
    } else {
        (n as u8) * 25
    };
    Some(
        WifiNetwork {
            ssid: chars_to_string(&ssid),
            signal_percent: signal,
            security: chars_to_string(&security),
        },
    )
}

/// Parse `iwctl station <iface> get-networks` output into `WifiNetwork` list.
///
/// Header, frame and empty lines are skipped; the status markers `>` and
/// `*` before the name are dropped; the fields are separated by runs of two
/// or more spaces. Signal asterisks map to percentage: `*`=25, `**`=50,
/// `***`=75, `****`=100.
pub fn parse_get_networks(output: &str) -> (r: Vec<WifiNetwork>)
    ensures
        r@.map_values(|n: WifiNetwork| net_view(n)) == listed_networks(
            lines(output@),
            lines(output@).len() as int,
        ),
{
    let ls = split_lines(output);
    let ghost lsv = views(ls@);
    let mut networks: Vec<WifiNetwork> = Vec::new();
    for i in 0..ls.len()
        invariant
            lsv == views(ls@),
            lsv == lines(output@),
            networks@.map_values(|n: WifiNetwork| net_view(n)) == listed_networks(lsv, i as int),
    {
        assert(lsv[i as int] == ls@[i as int]@);
        let ghost before = networks@;
        match parse_line(&ls[i]) {
            Some(n) => {
                networks.push(n);
                assert(networks@.map_values(|n: WifiNetwork| net_view(n)) =~= before.map_values(
                    |n: WifiNetwork| net_view(n),
                ).push(net_view(networks@.last())));
            },
            None => {},
        }
    }
    networks
}

} // verus!
