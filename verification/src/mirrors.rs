//! Mirror selection: which mirrors of the status list are worth measuring,
//! the order the measured ones are kept in, and the pacman mirrorlist
//! written from them.

use vstd::prelude::*;

use crate::sort::{law_sort_by_sorts, lemma_insert_by_at, sort_by, sorted_by, strict_order, string_views};
use crate::text::{
    ascii_lower_seq, chars_eq, chars_of, chars_to_string, dec, decimal, extend, extend_str,
    to_ascii_lowercase, trim, trimmed,
};

verus! {

/// A mirror that delivered data, with what was measured of it.
#[derive(Debug)]
pub struct RankedMirror {
    pub url: String,
    pub country: String,
    /// Time to the response headers of a small object, in milliseconds.
    pub latency_ms: u64,
    pub bytes_per_sec: u64,
}

/// What the candidate filter reads of one entry of the mirror status list.
/// `complete` says whether the mirror passed enough of its recent checks.
#[derive(Debug)]
pub struct MirrorFacts {
    pub url: String,
    pub protocol: String,
    pub country: String,
    pub country_code: String,
    pub active: bool,
    pub complete: bool,
    /// Seconds behind upstream; `None` when never synced.
    pub delay: Option<i64>,
}

/// The wanted countries as compared: trimmed, lower case, blanks dropped.
pub open spec fn wanted_countries(cs: Seq<Seq<char>>) -> Seq<Seq<char>>
    decreases cs.len(),
{
    if cs.len() == 0 {
        seq![]
    } else {
        let rest = wanted_countries(cs.drop_last());
        let c = ascii_lower_seq(trim(cs.last()));
        if c.len() > 0 {
            rest.push(c)
        } else {
            rest
        }
    }
}

/// Whether a mirror is worth measuring: active, served over https at a
/// URL ending in `/`, complete enough, synced no longer than `max_delay`
/// seconds ago (a mirror ahead of the check counts as not behind), and in
/// one of the wanted countries by name or code when any are wanted.
pub open spec fn is_candidate(m: MirrorFacts, wanted: Seq<Seq<char>>, max_delay: u64) -> bool {
    &&& m.active
    &&& m.protocol@ == "https"@
    &&& m.url@.len() > 0 && m.url@.last() == '/'
    &&& m.complete
    &&& m.delay matches Some(d) && (if d < 0 {
        0
    } else {
        d as int
    }) <= max_delay
    &&& wanted.len() == 0 || wanted.contains(ascii_lower_seq(m.country@)) || wanted.contains(
        ascii_lower_seq(m.country_code@),
    )
}

/// The indices of the candidates among `ms`, in status-list order.
pub open spec fn candidate_positions(ms: Seq<MirrorFacts>, wanted: Seq<Seq<char>>, max_delay: u64) -> Seq<
    int,
>
    decreases ms.len(),
{
    if ms.len() == 0 {
        seq![]
    } else {
        let rest = candidate_positions(ms.drop_last(), wanted, max_delay);
        if is_candidate(ms.last(), wanted, max_delay) {
            rest.push(ms.len() - 1)
        } else {
            rest
        }
    }
}

/// The mirrors picked for measuring are exactly those that are active,
/// served over `https` at a URL ending in `/`, complete, synced at most
/// `max_delay` seconds ago (one ahead of the check counts as not behind),
/// and, when countries are wanted, in one of them by name or code; they
/// come in status-list order, each once.
pub proof fn law_candidates_are_the_usable_mirrors(
    ms: Seq<MirrorFacts>,
    wanted: Seq<Seq<char>>,
    max_delay: u64,
)
    ensures
        forall|k: int|
            0 <= k < candidate_positions(ms, wanted, max_delay).len() ==> {
                let i = #[trigger] candidate_positions(ms, wanted, max_delay)[k];
                &&& 0 <= i < ms.len()
                &&& ms[i].active
                &&& ms[i].protocol@ == "https"@
                &&& ms[i].url@.len() > 0 && ms[i].url@.last() == '/'
                &&& ms[i].complete
                &&& ms[i].delay is Some
                &&& ms[i].delay.unwrap() <= max_delay
                &&& wanted.len() == 0 || wanted.contains(ascii_lower_seq(ms[i].country@))
                    || wanted.contains(ascii_lower_seq(ms[i].country_code@))
            },
        forall|i: int|
            0 <= i < ms.len() && ms[i].active && ms[i].protocol@ == "https"@ && ms[i].url@.len() > 0
                && ms[i].url@.last() == '/' && ms[i].complete && ms[i].delay is Some
                && ms[i].delay.unwrap() <= max_delay && (wanted.len() == 0 || wanted.contains(
                ascii_lower_seq(ms[i].country@),
            ) || wanted.contains(ascii_lower_seq(ms[i].country_code@)))
                ==> candidate_positions(ms, wanted, max_delay).contains(i),
        forall|a: int, b: int|
            0 <= a < b < candidate_positions(ms, wanted, max_delay).len() ==> candidate_positions(
                ms,
                wanted,
                max_delay,
            )[a] < candidate_positions(ms, wanted, max_delay)[b],
    decreases ms.len(),
{
    if ms.len() > 0 {
        let p = ms.drop_last();
        law_candidates_are_the_usable_mirrors(p, wanted, max_delay);
        let cp = candidate_positions(p, wanted, max_delay);
        let c = candidate_positions(ms, wanted, max_delay);
        assert forall|k: int| 0 <= k < cp.len() implies c[k] == cp[k] && ms[#[trigger] cp[k]] == p[cp[k]] by {}
        assert forall|i: int|
            0 <= i < ms.len() && ms[i].active && ms[i].protocol@ == "https"@ && ms[i].url@.len() > 0
                && ms[i].url@.last() == '/' && ms[i].complete && ms[i].delay is Some
                && ms[i].delay.unwrap() <= max_delay && (wanted.len() == 0 || wanted.contains(
                ascii_lower_seq(ms[i].country@),
            ) || wanted.contains(ascii_lower_seq(ms[i].country_code@))) implies c.contains(i) by {
            if i < p.len() {
                assert(ms[i] == p[i]);
                assert(cp.contains(i));
                let k = choose|k: int| 0 <= k < cp.len() && cp[k] == i;
                assert(c[k] == i);
            } else {
                assert(is_candidate(ms.last(), wanted, max_delay));
                assert(c[c.len() - 1] == i);
            }
        }
    }
}

fn wanted_list(countries: &Vec<String>) -> (r: Vec<Vec<char>>)
    ensures
        r@.map_values(|v: Vec<char>| v@) == wanted_countries(string_views(countries@)),
{
    let mut r: Vec<Vec<char>> = Vec::new();
    let mut i: usize = 0;
    while i < countries.len()
        invariant
            i <= countries.len(),
            r@.map_values(|v: Vec<char>| v@) == wanted_countries(
                string_views(countries@).take(i as int),
            ),
        decreases countries.len() - i,
    {
        assert(string_views(countries@).take(i + 1).drop_last() == string_views(countries@).take(
            i as int,
        ));
        let c = to_ascii_lowercase(&trimmed(&chars_of(countries[i].as_str())));
        if c.len() > 0 {
            let ghost before = r@;
            r.push(c);
            assert(r@.map_values(|v: Vec<char>| v@) =~= before.map_values(|v: Vec<char>| v@).push(
                c@,
            ));
        }
        i = i + 1;
    }
    assert(string_views(countries@).take(countries.len() as int) == string_views(countries@));
    r
}

fn listed(wanted: &Vec<Vec<char>>, c: &Vec<char>) -> (r: bool)
    ensures
        r == wanted@.map_values(|v: Vec<char>| v@).contains(c@),
{
    let ghost ws = wanted@.map_values(|v: Vec<char>| v@);
    let mut i: usize = 0;
    while i < wanted.len()
        invariant
            i <= wanted.len(),
            ws == wanted@.map_values(|v: Vec<char>| v@),
            forall|j: int| 0 <= j < i ==> ws[j] != c@,
        decreases wanted.len() - i,
    {
        if chars_eq(&wanted[i], c) {
            assert(ws[i as int] == c@);
            return true;
        }
        i = i + 1;
    }
    false
}

fn candidate(m: &MirrorFacts, wanted: &Vec<Vec<char>>, max_delay: u64) -> (r: bool)
    ensures
        r == is_candidate(*m, wanted@.map_values(|v: Vec<char>| v@), max_delay),
{
    let url = chars_of(m.url.as_str());
    let https = chars_of("https");
    if !(m.active && chars_eq(&chars_of(m.protocol.as_str()), &https) && url.len() > 0
        && url[url.len() - 1] == '/' && m.complete) {
        return false;
    }
    let recent = match m.delay {
        Some(d) => {
            let behind: u64 = if d < 0 {
                0
            } else {
                d as u64
            };
            behind <= max_delay
        },
        None => false,
    };
    if !recent {
        return false;
    }
    wanted.len() == 0 || listed(wanted, &to_ascii_lowercase(&chars_of(m.country.as_str())))
        || listed(wanted, &to_ascii_lowercase(&chars_of(m.country_code.as_str())))
}

/// The positions in `status` of the mirrors worth measuring, in order.
/// `countries` are names or codes, any case; none means anywhere.
pub fn candidate_indices(status: &Vec<MirrorFacts>, countries: &Vec<String>, max_delay_secs: u64) -> (r:
    Vec<usize>)
    ensures
        r@.map_values(|i: usize| i as int) == candidate_positions(
            status@,
            wanted_countries(string_views(countries@)),
            max_delay_secs,
        ),
{
    let wanted = wanted_list(countries);
    let ghost w = wanted_countries(string_views(countries@));
    let mut r: Vec<usize> = Vec::new();
    let mut i: usize = 0;
    while i < status.len()
        invariant
            i <= status.len(),
            wanted@.map_values(|v: Vec<char>| v@) == w,
            r@.map_values(|k: usize| k as int) == candidate_positions(
                status@.take(i as int),
                w,
                max_delay_secs,
            ),
        decreases status.len() - i,
    {
        assert(status@.take(i + 1).drop_last() == status@.take(i as int));
        if candidate(&status[i], &wanted, max_delay_secs) {
            let ghost before = r@;
            r.push(i);
            assert(r@.map_values(|k: usize| k as int) =~= before.map_values(|k: usize| k as int).push(
                i as int,
            ));
        }
        i = i + 1;
    }
    assert(status@.take(status.len() as int) == status@);
    r
}

/// Faster first: more bytes per second, and at equal throughput the
/// quicker answer.
pub open spec fn faster() -> spec_fn(RankedMirror, RankedMirror) -> bool {
    |a: RankedMirror, b: RankedMirror|
        a.bytes_per_sec > b.bytes_per_sec || (a.bytes_per_sec == b.bytes_per_sec && a.latency_ms
            < b.latency_ms)
}

/// The kept mirrors are every measured mirror, fastest first: none after
/// one with lower throughput, or with equal throughput and a longer
/// latency.
pub proof fn law_fastest_first(ranked: Seq<RankedMirror>)
    ensures
        sorted_by(sort_by(ranked, faster()), faster()),
        sort_by(ranked, faster()).to_multiset() == ranked.to_multiset(),
        forall|i: int, j: int|
            0 <= i < j < sort_by(ranked, faster()).len() ==> {
                let a = #[trigger] sort_by(ranked, faster())[i];
                let b = #[trigger] sort_by(ranked, faster())[j];
                &&& a.bytes_per_sec >= b.bytes_per_sec
                &&& a.bytes_per_sec == b.bytes_per_sec ==> a.latency_ms <= b.latency_ms
            },
{
    assert(strict_order(faster()));
    law_sort_by_sorts(ranked, faster());
    let r = sort_by(ranked, faster());
    assert forall|i: int, j: int| 0 <= i < j < r.len() implies #[trigger] r[i].bytes_per_sec
        >= #[trigger] r[j].bytes_per_sec && (r[i].bytes_per_sec == r[j].bytes_per_sec
        ==> r[i].latency_ms <= r[j].latency_ms) by {
        assert(!(faster())(r[j], r[i]));
    }
}

/// The wanted countries are the given ones trimmed and in lower case, in
/// the order given, blank ones left out.
pub proof fn law_wanted_countries(cs: Seq<Seq<char>>)
    ensures
        forall|k: int|
            0 <= k < wanted_countries(cs).len() ==> #[trigger] wanted_countries(cs)[k].len() > 0
                && exists|i: int|
                0 <= i < cs.len() && wanted_countries(cs)[k] == ascii_lower_seq(trim(cs[i])),
        forall|i: int|
            0 <= i < cs.len() && ascii_lower_seq(trim(#[trigger] cs[i])).len() > 0
                ==> wanted_countries(cs).contains(ascii_lower_seq(trim(cs[i]))),
        wanted_countries(cs).len() <= cs.len(),
    decreases cs.len(),
{
    if cs.len() > 0 {
        let p = cs.drop_last();
        law_wanted_countries(p);
        let wp = wanted_countries(p);
        let w = wanted_countries(cs);
        assert forall|k: int| 0 <= k < w.len() implies #[trigger] w[k].len() > 0 && exists|i: int|
            0 <= i < cs.len() && w[k] == ascii_lower_seq(trim(cs[i])) by {
            if k < wp.len() {
                assert(w[k] == wp[k]);
                let i = choose|i: int| 0 <= i < p.len() && wp[k] == ascii_lower_seq(trim(p[i]));
                assert(cs[i] == p[i]);
            } else {
                assert(w[k] == ascii_lower_seq(trim(cs[cs.len() - 1])));
            }
        }
        assert forall|i: int|
            0 <= i < cs.len() && ascii_lower_seq(trim(#[trigger] cs[i])).len() > 0 implies w.contains(
            ascii_lower_seq(trim(cs[i])),
        ) by {
            if i < p.len() {
                assert(cs[i] == p[i]);
                assert(wp.contains(ascii_lower_seq(trim(p[i]))));
                let k = choose|k: int| 0 <= k < wp.len() && wp[k] == ascii_lower_seq(trim(p[i]));
                assert(w[k] == wp[k]);
            } else {
                assert(w[w.len() - 1] == ascii_lower_seq(trim(cs[i])));
            }
        }
    }
}

/// The measured mirrors in the order they are kept: a stable sort by
/// `faster`.
pub fn fastest_first(ranked: Vec<RankedMirror>) -> (r: Vec<RankedMirror>)
    ensures
        r@ == sort_by(ranked@, faster()),
{
    let mut out: Vec<RankedMirror> = Vec::new();
    let mut rest = ranked;
    let ghost all = rest@;
    let ghost mut i: int = 0;
    while rest.len() > 0
        invariant
            0 <= i <= all.len(),
            all.len() == i + rest.len(),
            rest@ == all.skip(i),
            out@ == sort_by(all.take(i), faster()),
        decreases rest.len(),
    {
        let x = rest.remove(0);
        assert(rest@ =~= all.skip(i + 1));
        let mut j: usize = 0;
        while j < out.len() && !(x.bytes_per_sec > out[j].bytes_per_sec || (x.bytes_per_sec
            == out[j].bytes_per_sec && x.latency_ms < out[j].latency_ms))
            invariant
                j <= out.len(),
                forall|k: int| 0 <= k < j ==> !(faster())(x, #[trigger] out@[k]),
            decreases out.len() - j,
        {
            j = j + 1;
        }
        proof {
            lemma_insert_by_at(out@, x, faster(), j as int);
        }
        out.insert(j, x);
        assert(all.take(i + 1).drop_last() =~= all.take(i));
        proof {
            i = i + 1;
        }
    }
    assert(all.take(all.len() as int) =~= all);
    out
}

/// The first line of every mirrorlist this writes.
pub open spec fn mirrorlist_header() -> Seq<char> {
    "# Written by archinstall_zfs: mirrors measured on a sustained transfer,\n# fastest first.\n"@
}

/// One mirror's entry: a comment with its country (`?` when unknown),
/// throughput in KiB/s and latency, then its `Server` line.
pub open spec fn mirror_entry(m: RankedMirror) -> Seq<char> {
    "# "@ + (if m.country@.len() == 0 {
        "?"@
    } else {
        m.country@
    }) + " — "@ + dec((m.bytes_per_sec / 1024) as nat) + " KiB/s, "@ + dec(m.latency_ms as nat)
        + " ms\nServer = "@ + m.url@ + "$repo/os/$arch\n"@
}

pub open spec fn mirror_entries(ms: Seq<RankedMirror>) -> Seq<char>
    decreases ms.len(),
{
    if ms.len() == 0 {
        seq![]
    } else {
        mirror_entries(ms.drop_last()) + mirror_entry(ms.last())
    }
}

/// A pacman mirrorlist of the first `keep` mirrors.
pub fn mirrorlist(ranked: &Vec<RankedMirror>, keep: usize) -> (r: String)
    ensures
        r@ == mirrorlist_header() + mirror_entries(
            ranked@.take(if keep < ranked.len() {
                keep as int
            } else {
                ranked.len() as int
            }),
        ),
{
    let mut out: Vec<char> = Vec::new();
    extend_str(
        &mut out,
        "# Written by archinstall_zfs: mirrors measured on a sustained transfer,\n# fastest first.\n",
    );
    let n = if keep < ranked.len() {
        keep
    } else {
        ranked.len()
    };
    let mut i: usize = 0;
    while i < n
        invariant
            i <= n <= ranked.len(),
            out@ == mirrorlist_header() + mirror_entries(ranked@.take(i as int)),
        decreases n - i,
    {
        let m = &ranked[i];
        let ghost before = out@;
        extend_str(&mut out, "# ");
        if m.country.as_str().is_empty() {
            extend_str(&mut out, "?");
        } else {
            extend_str(&mut out, m.country.as_str());
        }
        extend_str(&mut out, " — ");
        let kib = decimal(m.bytes_per_sec / 1024);
        extend(&mut out, &kib);
        extend_str(&mut out, " KiB/s, ");
        let ms = decimal(m.latency_ms);
        extend(&mut out, &ms);
        extend_str(&mut out, " ms\nServer = ");
        extend_str(&mut out, m.url.as_str());
        extend_str(&mut out, "$repo/os/$arch\n");
        assert(ranked@.take(i + 1).drop_last() == ranked@.take(i as int));
        assert(out@ =~= before + mirror_entry(ranked@[i as int]));
        i = i + 1;
    }
    chars_to_string(&out)
}

/// Quicker to answer first.
pub open spec fn quicker() -> spec_fn((u64, usize), (u64, usize)) -> bool {
    |a: (u64, usize), b: (u64, usize)| a.0 < b.0
}

/// Latencies paired with their positions.
pub open spec fn indexed(ls: Seq<u64>) -> Seq<(u64, usize)> {
    Seq::new(ls.len(), |i: int| (ls[i], i as usize))
}

/// Which probed mirrors get a throughput sample: the `sample_count`
/// quickest to answer, by position in `latencies`, quickest first and in
/// probe order among equals.
pub fn sample_order(latencies: &Vec<u64>, sample_count: usize) -> (r: Vec<usize>)
    ensures
        ({
            let sorted = sort_by(indexed(latencies@), quicker());
            let n = if sample_count < sorted.len() {
                sample_count as int
            } else {
                sorted.len() as int
            };
            r@ == sorted.take(n).map_values(|p: (u64, usize)| p.1)
        }),
{
    let ghost all = indexed(latencies@);
    let mut out: Vec<(u64, usize)> = Vec::new();
    let mut i: usize = 0;
    while i < latencies.len()
        invariant
            i <= latencies.len(),
            all == indexed(latencies@),
            out@ == sort_by(all.take(i as int), quicker()),
        decreases latencies.len() - i,
    {
        let x = (latencies[i], i);
        assert(x == all[i as int]);
        let mut j: usize = 0;
        while j < out.len() && !(x.0 < out[j].0)
            invariant
                j <= out.len(),
                forall|k: int| 0 <= k < j ==> !(quicker())(x, #[trigger] out@[k]),
            decreases out.len() - j,
        {
            j = j + 1;
        }
        proof {
            lemma_insert_by_at(out@, x, quicker(), j as int);
        }
        out.insert(j, x);
        assert(all.take(i + 1).drop_last() =~= all.take(i as int));
        i = i + 1;
    }
    assert(all.take(latencies.len() as int) =~= all);
    let n = if sample_count < out.len() {
        sample_count
    } else {
        out.len()
    };
    let mut r: Vec<usize> = Vec::new();
    let mut k: usize = 0;
    while k < n
        invariant
            k <= n <= out.len(),
            r@ == out@.take(k as int).map_values(|p: (u64, usize)| p.1),
        decreases n - k,
    {
        r.push(out[k].1);
        assert(out@.take(k + 1).map_values(|p: (u64, usize)| p.1) =~= out@.take(k as int).map_values(
            |p: (u64, usize)| p.1,
        ).push(out@[k as int].1));
        k = k + 1;
    }
    r
}

} // verus!
