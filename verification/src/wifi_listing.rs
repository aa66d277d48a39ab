//! The networks several scans found between them.
//!
//! One scan is not a complete picture on an adapter that drops a subset of
//! the channels, and the networks it misses are not the same ones each
//! time, so a listing is what the scans found together: each network kept
//! at its best reading, and what an earlier listing saw recently carried
//! over, so the list offered only grows more complete.

use vstd::prelude::*;

use crate::sort::lex_lt;
use crate::text::{chars_eq, chars_of};
use crate::wifi::WifiNetwork;

verus! {

/// A network and when it was last seen (a monotonic time; `None` for never).
pub type Entry = (WifiNetwork, Option<u64>);

/// The entries by SSID.
pub open spec fn entries_map(es: Seq<Entry>) -> Map<Seq<char>, Entry>
    decreases es.len(),
{
    if es.len() == 0 {
        Map::empty()
    } else {
        entries_map(es.drop_last()).insert(es.last().0.ssid@, es.last())
    }
}

/// No SSID is listed twice.
pub open spec fn unique_ssids(es: Seq<Entry>) -> bool {
    forall|i: int, j: int|
        #![trigger es[i], es[j]]
        0 <= i < j < es.len() ==> es[i].0.ssid@ != es[j].0.ssid@
}

proof fn lemma_entries_map(es: Seq<Entry>)
    requires
        unique_ssids(es),
    ensures
        forall|k: Seq<char>|
            #[trigger] entries_map(es).contains_key(k) <==> exists|i: int|
                0 <= i < es.len() && es[i].0.ssid@ == k,
        forall|i: int| 0 <= i < es.len() ==> #[trigger] entries_map(es)[es[i].0.ssid@] == es[i],
        entries_map(es).dom().finite(),
        entries_map(es).len() == es.len(),
    decreases es.len(),
{
    if es.len() > 0 {
        let p = es.drop_last();
        assert(unique_ssids(p)) by {
            assert forall|i: int, j: int| 0 <= i < j < p.len() implies p[i].0.ssid@ != p[j].0.ssid@ by {
                assert(p[i] == es[i] && p[j] == es[j]);
            }
        }
        lemma_entries_map(p);
        let k0 = es.last().0.ssid@;
        assert(!entries_map(p).contains_key(k0)) by {
            if entries_map(p).contains_key(k0) {
                let i = choose|i: int| 0 <= i < p.len() && p[i].0.ssid@ == k0;
                assert(es[i] == p[i]);
                assert(es[i].0.ssid@ != es[es.len() - 1].0.ssid@);
            }
        }
        assert forall|k: Seq<char>| #[trigger] entries_map(es).contains_key(k) <==> exists|i: int|
            0 <= i < es.len() && es[i].0.ssid@ == k by {
            if entries_map(es).contains_key(k) && k != k0 {
                let i = choose|i: int| 0 <= i < p.len() && p[i].0.ssid@ == k;
                assert(es[i] == p[i]);
            }
            if exists|i: int| 0 <= i < es.len() && es[i].0.ssid@ == k {
                let i = choose|i: int| 0 <= i < es.len() && es[i].0.ssid@ == k;
                if i < p.len() {
                    assert(p[i] == es[i]);
                }
            }
        }
        assert forall|i: int| 0 <= i < es.len() implies #[trigger] entries_map(es)[es[i].0.ssid@]
            == es[i] by {
            if i < p.len() {
                assert(p[i] == es[i]);
                assert(es[i].0.ssid@ != k0);
            }
        }
    }
}

proof fn lemma_update_same_key(es: Seq<Entry>, i: int, e: Entry)
    requires
        unique_ssids(es),
        0 <= i < es.len(),
        e.0.ssid@ == es[i].0.ssid@,
    ensures
        unique_ssids(es.update(i, e)),
        entries_map(es.update(i, e)) == entries_map(es).insert(e.0.ssid@, e),
    decreases es.len(),
{
    let u = es.update(i, e);
    assert(unique_ssids(u)) by {
        assert forall|a: int, b: int| 0 <= a < b < u.len() implies u[a].0.ssid@ != u[b].0.ssid@ by {
            assert(es[a].0.ssid@ != es[b].0.ssid@);
        }
    }
    let d = es.drop_last();
    if i == es.len() - 1 {
        assert(u.drop_last() =~= d);
        assert(entries_map(u) =~= entries_map(es).insert(e.0.ssid@, e));
    } else {
        assert(unique_ssids(d)) by {
            assert forall|a: int, b: int| 0 <= a < b < d.len() implies d[a].0.ssid@ != d[b].0.ssid@ by {
                assert(d[a] == es[a] && d[b] == es[b]);
            }
        }
        lemma_update_same_key(d, i, e);
        assert(u.drop_last() =~= d.update(i, e));
        assert(es.last().0.ssid@ != e.0.ssid@) by {
            assert(es[i].0.ssid@ != es[es.len() - 1].0.ssid@);
        }
        assert(entries_map(u) =~= entries_map(es).insert(e.0.ssid@, e));
    }
}

/// `n` seen at `now` in listing `m`: a network already listed at least as
/// strong keeps its reading and is marked seen; otherwise `n` is listed.
pub open spec fn add_one(m: Map<Seq<char>, Entry>, n: WifiNetwork, now: u64) -> Map<
    Seq<char>,
    Entry,
> {
    if m.contains_key(n.ssid@) && m[n.ssid@].0.signal_percent >= n.signal_percent {
        m.insert(n.ssid@, (m[n.ssid@].0, Some(now)))
    } else {
        m.insert(n.ssid@, (n, Some(now)))
    }
}

/// A scan's networks added one after another.
pub open spec fn add_all(m: Map<Seq<char>, Entry>, ns: Seq<WifiNetwork>, now: u64) -> Map<
    Seq<char>,
    Entry,
>
    decreases ns.len(),
{
    if ns.len() == 0 {
        m
    } else {
        add_one(add_all(m, ns.drop_last(), now), ns.last(), now)
    }
}

/// A listing only grows when a scan is added, and every network keeps the
/// strongest reading any scan gave of it: each network listed before is
/// still listed, at least as strong; each network of the scan is listed, at
/// least as strong as the scan saw it; and nothing else is listed.
pub proof fn law_added_networks_keep_their_best(
    m: Map<Seq<char>, Entry>,
    ns: Seq<WifiNetwork>,
    now: u64,
)
    ensures
        forall|k: Seq<char>|
            #[trigger] m.contains_key(k) ==> add_all(m, ns, now).contains_key(k) && add_all(
                m,
                ns,
                now,
            )[k].0.signal_percent >= m[k].0.signal_percent,
        forall|i: int|
            0 <= i < ns.len() ==> add_all(m, ns, now).contains_key(#[trigger] ns[i].ssid@)
                && add_all(m, ns, now)[ns[i].ssid@].0.signal_percent >= ns[i].signal_percent,
        forall|k: Seq<char>|
            #[trigger] add_all(m, ns, now).contains_key(k) ==> m.contains_key(k) || exists|i: int|
                0 <= i < ns.len() && ns[i].ssid@ == k,
    decreases ns.len(),
{
    if ns.len() > 0 {
        let p = ns.drop_last();
        law_added_networks_keep_their_best(m, p, now);
        let a = add_all(m, p, now);
        let n = ns.last();
        assert forall|i: int| 0 <= i < ns.len() implies add_all(m, ns, now).contains_key(
            #[trigger] ns[i].ssid@,
        ) && add_all(m, ns, now)[ns[i].ssid@].0.signal_percent >= ns[i].signal_percent by {
            if i < p.len() {
                assert(ns[i] == p[i]);
                assert(a.contains_key(p[i].ssid@));
            }
        }
        assert forall|k: Seq<char>| #[trigger] add_all(m, ns, now).contains_key(k) implies m.contains_key(k)
            || exists|i: int| 0 <= i < ns.len() && ns[i].ssid@ == k by {
            if k == n.ssid@ {
                assert(ns[ns.len() - 1].ssid@ == k);
            } else if !m.contains_key(k) {
                assert(a.contains_key(k));
                let i = choose|i: int| 0 <= i < p.len() && p[i].ssid@ == k;
                assert(ns[i] == p[i]);
            }
        }
    }
}

/// How long a network that a scan no longer reports stays listed, in
/// seconds: two minutes.
pub const NETWORK_MEMORY_SECS: u64 = 120;

/// Whether an entry seen at `seen` is still worth showing at `now`, when
/// entries are kept for `memory` seconds.
pub open spec fn is_recent(seen: Option<u64>, now: u64, memory: u64) -> bool {
    match seen {
        Some(at) => (if at <= now {
            now - at
        } else {
            0
        }) < memory,
        None => false,
    }
}

/// This listing with the recent entries of `previous` that it lacks.
pub open spec fn with_carried(
    m: Map<Seq<char>, Entry>,
    previous: Map<Seq<char>, Entry>,
    now: u64,
    memory: u64,
) -> Map<Seq<char>, Entry> {
    Map::new(
        |k: Seq<char>|
            m.contains_key(k) || (previous.contains_key(k) && is_recent(previous[k].1, now, memory)),
        |k: Seq<char>|
            if m.contains_key(k) {
                m[k]
            } else {
                previous[k]
            },
    )
}

/// Carrying an earlier listing over changes nothing this listing holds:
/// every network it lists stays listed with the same reading.
pub proof fn law_carrying_over_only_adds(
    m: Map<Seq<char>, Entry>,
    previous: Map<Seq<char>, Entry>,
    now: u64,
    memory: u64,
)
    ensures
        forall|k: Seq<char>|
            #[trigger] m.contains_key(k) ==> with_carried(m, previous, now, memory).contains_key(k)
                && with_carried(m, previous, now, memory)[k] == m[k],
{
}

/// Stronger first, and by name among equally strong.
pub open spec fn listed_before(a: WifiNetwork, b: WifiNetwork) -> bool {
    a.signal_percent > b.signal_percent || (a.signal_percent == b.signal_percent && lex_lt(
        a.ssid@,
        b.ssid@,
    ))
}

pub proof fn lemma_lex_total(a: Seq<char>, b: Seq<char>)
    requires
        a != b,
    ensures
        lex_lt(a, b) || lex_lt(b, a),
    decreases a.len(),
{
    if a.len() == 0 {
        assert(b.len() > 0) by {
            if b.len() == 0 {
                assert(a =~= b);
            }
        }
    } else if b.len() == 0 {
    } else if a[0] != b[0] {

    } else {
        assert(a.skip(1) != b.skip(1)) by {
            if a.skip(1) == b.skip(1) {
                assert(a =~= seq![a[0]] + a.skip(1));
                assert(b =~= seq![b[0]] + b.skip(1));
            }
        }
        lemma_lex_total(a.skip(1), b.skip(1));
    }
}

pub proof fn lemma_lex_trans(a: Seq<char>, b: Seq<char>, c: Seq<char>)
    requires
        lex_lt(a, b),
        lex_lt(b, c),
    ensures
        lex_lt(a, c),
    decreases a.len(),
{
    if a.len() > 0 && b.len() > 0 && c.len() > 0 && a[0] == b[0] && b[0] == c[0] {
        lemma_lex_trans(a.skip(1), b.skip(1), c.skip(1));
    }
}

proof fn lemma_lex_irreflexive(a: Seq<char>)
    ensures
        !lex_lt(a, a),
    decreases a.len(),
{
    if a.len() > 0 {
        lemma_lex_irreflexive(a.skip(1));
    }
}

/// Every network listed before every later one.
pub open spec fn strictly_ordered(o: Seq<WifiNetwork>) -> bool {
    forall|a: int, c: int|
        #![trigger o[a], o[c]]
        0 <= a < c < o.len() ==> listed_before(o[a], o[c])
}

proof fn lemma_insert_ordered(o: Seq<WifiNetwork>, x: WifiNetwork, j: int)
    requires
        0 <= j <= o.len(),
        strictly_ordered(o),
        forall|k: int| 0 <= k < j ==> !listed_before(x, #[trigger] o[k]),
        j < o.len() ==> listed_before(x, o[j]),
        forall|k: int| 0 <= k < o.len() ==> #[trigger] o[k].ssid@ != x.ssid@,
    ensures
        strictly_ordered(o.insert(j, x)),
{
    assert forall|k: int| 0 <= k < j implies listed_before(#[trigger] o[k], x) by {
        lemma_lex_total(o[k].ssid@, x.ssid@);
    }
    assert forall|k: int| j < k < o.len() implies listed_before(x, #[trigger] o[k]) by {
        assert(listed_before(o[j], o[k]));
        if x.signal_percent == o[j].signal_percent && o[j].signal_percent == o[k].signal_percent {
            lemma_lex_trans(x.ssid@, o[j].ssid@, o[k].ssid@);
        }
    }
    let n = o.insert(j, x);
    assert forall|a: int, c: int|
        #![trigger n[a], n[c]]
        0 <= a < c < n.len() implies listed_before(n[a], n[c]) by {
        if c < j {
            assert(n[a] == o[a] && n[c] == o[c]);
        } else if c == j {
            assert(n[a] == o[a]);
        } else if a < j {
            assert(n[a] == o[a] && n[c] == o[c - 1]);
            if o[a].signal_percent == x.signal_percent && x.signal_percent == o[c - 1].signal_percent {
                lemma_lex_trans(o[a].ssid@, x.ssid@, o[c - 1].ssid@);
            }
        } else if a == j {
            assert(n[c] == o[c - 1]);
        } else {
            assert(n[a] == o[a - 1] && n[c] == o[c - 1]);
        }
    }
}

/// The networks scans found, each by its SSID once.
pub struct Listing {
    entries: Vec<Entry>,
}

impl View for Listing {
    type V = Map<Seq<char>, Entry>;

    closed spec fn view(&self) -> Map<Seq<char>, Entry> {
        entries_map(self.entries@)
    }
}

fn copy_network(n: &WifiNetwork) -> (r: WifiNetwork)
    ensures
        r == *n,
{
    WifiNetwork {
        ssid: n.ssid.clone(),
        signal_percent: n.signal_percent,
        security: n.security,
        known: n.known,
    }
}

impl Listing {
    pub closed spec fn well_formed(&self) -> bool {
        unique_ssids(self.entries@)
    }

    /// A listing of nothing.
    pub fn new() -> (r: Listing)
        ensures
            r.well_formed(),
            r@ == Map::<Seq<char>, Entry>::empty(),
    {
        Listing { entries: Vec::new() }
    }

    /// How many networks are listed.
    pub fn len(&self) -> (r: usize)
        requires
            self.well_formed(),
        ensures
            r == self@.len(),
    {
        proof {
            lemma_entries_map(self.entries@);
        }
        self.entries.len()
    }

    pub fn is_empty(&self) -> (r: bool)
        requires
            self.well_formed(),
        ensures
            r == (self@.len() == 0),
    {
        self.len() == 0
    }

    fn position(&self, ssid: &str) -> (r: Option<usize>)
        requires
            self.well_formed(),
        ensures
            match r {
                Some(i) => i < self.entries.len() && self.entries@[i as int].0.ssid@ == ssid@,
                None => !self@.contains_key(ssid@),
            },
    {
        proof {
            lemma_entries_map(self.entries@);
        }
        let s = chars_of(ssid);
        let mut i: usize = 0;
        while i < self.entries.len()
            invariant
                i <= self.entries.len(),
                s@ == ssid@,
                forall|j: int| 0 <= j < i ==> self.entries@[j].0.ssid@ != ssid@,
            decreases self.entries.len() - i,
        {
            if chars_eq(&chars_of(self.entries[i].0.ssid.as_str()), &s) {
                return Some(i);
            }
            i = i + 1;
        }
        None
    }

    /// Record one network seen at `now`.
    pub fn add_network(&mut self, network: WifiNetwork, now: u64)
        requires
            old(self).well_formed(),
        ensures
            final(self).well_formed(),
            final(self)@ == add_one(old(self)@, network, now),
    {
        proof {
            lemma_entries_map(self.entries@);
        }
        let ghost before = self.entries@;
        match self.position(network.ssid.as_str()) {
            Some(i) => {
                let (seen, _) = self.entries.remove(i);
                let entry = if seen.signal_percent >= network.signal_percent {
                    (seen, Some(now))
                } else {
                    (network, Some(now))
                };
                self.entries.insert(i, entry);
                assert(self.entries@ =~= before.update(i as int, entry));
                proof {
                    lemma_update_same_key(before, i as int, entry);
                    assert(entries_map(before)[network.ssid@] == before[i as int]);
                }
            },
            None => {
                let entry = (network, Some(now));
                self.entries.push(entry);
                proof {
                    let after = self.entries@;
                    assert(after.drop_last() =~= before);
                    assert(unique_ssids(after)) by {
                        assert forall|a: int, b: int| 0 <= a < b < after.len() implies after[a].0.ssid@
                            != after[b].0.ssid@ by {
                            if b == before.len() {
                                assert(entries_map(before)[before[a].0.ssid@] == before[a]);
                            } else {
                                assert(before[a].0.ssid@ != before[b].0.ssid@);
                            }
                        }
                    }
                }
            },
        }
    }

    /// Record a scan's networks, seen at `now`. A network seen twice is
    /// kept at its best reading, which is also the one nearest the user.
    pub fn add(&mut self, networks: Vec<WifiNetwork>, now: u64)
        requires
            old(self).well_formed(),
        ensures
            final(self).well_formed(),
            final(self)@ == add_all(old(self)@, networks@, now),
    {
        let ghost start = self@;
        let ghost all = networks@;
        let mut rest = networks;
        let ghost mut i: int = 0;
        while rest.len() > 0
            invariant
                self.well_formed(),
                0 <= i <= all.len(),
                all.len() == i + rest.len(),
                rest@ == all.skip(i),
                self@ == add_all(start, all.take(i), now),
            decreases rest.len(),
        {
            let n = rest.remove(0);
            assert(n == all[i]);
            assert(rest@ =~= all.skip(i + 1));
            self.add_network(n, now);
            assert(all.take(i + 1).drop_last() =~= all.take(i));
            proof {
                i = i + 1;
            }
        }
        assert(all.take(all.len() as int) =~= all);
    }

    /// Add the entries of `previous` seen less than
    /// [`NETWORK_MEMORY_SECS`] before `now` that this listing lacks.
    /// Nothing this listing holds changes.
    pub fn carried_over(&mut self, previous: &Listing, now: u64)
        requires
            old(self).well_formed(),
            previous.well_formed(),
        ensures
            final(self).well_formed(),
            final(self)@ == with_carried(old(self)@, previous@, now, NETWORK_MEMORY_SECS),
    {
        let ghost start = self@;
        let ghost prev = previous.entries@;
        proof {
            lemma_entries_map(prev);
        }
        let mut i: usize = 0;
        while i < previous.entries.len()
            invariant
                self.well_formed(),
                prev == previous.entries@,
                unique_ssids(prev),
                i <= prev.len(),
                self@ == with_carried(start, entries_map(prev.take(i as int)), now, NETWORK_MEMORY_SECS),
            decreases prev.len() - i,
        {
            let (n, seen) = (&previous.entries[i].0, previous.entries[i].1);
            let recent = match seen {
                Some(at) => {
                    let age = if at <= now {
                        now - at
                    } else {
                        0
                    };
                    age < NETWORK_MEMORY_SECS
                },
                None => false,
            };
            let ghost mid = self@;
            let ghost t = prev.take(i as int);
            let ghost t1 = prev.take(i + 1);
            assert(t1.drop_last() =~= t);
            assert(t1.last() == prev[i as int]);
            if recent && self.position(n.ssid.as_str()).is_none() {
                let entry = (copy_network(n), seen);
                let ghost before = self.entries@;
                proof {
                    lemma_entries_map(before);
                }
                self.entries.push(entry);
                proof {
                    let after = self.entries@;
                    assert(after.drop_last() =~= before);
                    assert(unique_ssids(after)) by {
                        assert forall|a: int, b: int| 0 <= a < b < after.len() implies after[a].0.ssid@
                            != after[b].0.ssid@ by {
                            if b == before.len() {
                                assert(entries_map(before)[before[a].0.ssid@] == before[a]);
                            } else {
                                assert(before[a].0.ssid@ != before[b].0.ssid@);
                            }
                        }
                    }
                    assert(self@ =~= with_carried(start, entries_map(t1), now, NETWORK_MEMORY_SECS));
                }
            } else {
                proof {
                    lemma_entries_map(self.entries@);
                    assert(unique_ssids(t)) by {
                        assert forall|a: int, b: int| 0 <= a < b < t.len() implies t[a].0.ssid@
                            != t[b].0.ssid@ by {
                            assert(t[a] == prev[a] && t[b] == prev[b]);
                        }
                    }
                    lemma_entries_map(t);
                    let k0 = n.ssid@;
                    assert(!entries_map(t).contains_key(k0)) by {
                        if entries_map(t).contains_key(k0) {
                            let j = choose|j: int| 0 <= j < t.len() && t[j].0.ssid@ == k0;
                            assert(prev[j].0.ssid@ != prev[i as int].0.ssid@);
                        }
                    }
                    if recent {
                        assert(mid.contains_key(k0));
                        assert(start.contains_key(k0));
                    }
                    assert(self@ =~= with_carried(start, entries_map(t1), now, NETWORK_MEMORY_SECS));
                }
            }
            i = i + 1;
        }
        assert(prev.take(prev.len() as int) =~= prev);
    }

    /// The listed networks, stronger first and by name among equals.
    pub fn clone_networks(&self) -> (r: Vec<WifiNetwork>)
        requires
            self.well_formed(),
        ensures
            r@.len() == self@.len(),
            forall|i: int|
                0 <= i < r@.len() ==> self@.contains_key(#[trigger] r@[i].ssid@) && self@[r@[i].ssid@].0
                    == r@[i],
            forall|i: int, j: int|
                #![trigger r@[i], r@[j]]
                0 <= i < j < r@.len() ==> listed_before(r@[i], r@[j]),
    {
        proof {
            lemma_entries_map(self.entries@);
        }
        let ghost es = self.entries@;
        let mut out: Vec<WifiNetwork> = Vec::new();
        let ghost mut src: Seq<int> = seq![];
        let mut i: usize = 0;
        while i < self.entries.len()
            invariant
                es == self.entries@,
                unique_ssids(es),
                i <= es.len(),
                out@.len() == i,
                src.len() == i,
                forall|a: int|
                    0 <= a < out@.len() ==> 0 <= #[trigger] src[a] < i && out@[a] == es[src[a]].0,
                strictly_ordered(out@),
            decreases es.len() - i,
        {
            let x = copy_network(&self.entries[i].0);
            let mut j: usize = 0;
            while j < out.len() && !(x.signal_percent > out[j].signal_percent || (
            x.signal_percent == out[j].signal_percent && crate::sort::str_lt(
                x.ssid.as_str(),
                out[j].ssid.as_str(),
            )))
                invariant
                    j <= out.len(),
                    forall|k: int| 0 <= k < j ==> !listed_before(x, #[trigger] out@[k]),
                decreases out.len() - j,
            {
                j = j + 1;
            }
            let ghost o = out@;
            proof {
                assert forall|k: int| 0 <= k < o.len() implies #[trigger] o[k].ssid@ != x.ssid@ by {
                    assert(es[src[k]].0.ssid@ != es[i as int].0.ssid@);
                }
                lemma_insert_ordered(o, x, j as int);
            }
            out.insert(j, x);
            proof {
                let s0 = src;
                src = s0.insert(j as int, i as int);
                assert forall|a: int| 0 <= a < out@.len() implies 0 <= #[trigger] src[a] < i + 1
                    && out@[a] == es[src[a]].0 by {
                    if a < j {
                        assert(src[a] == s0[a] && out@[a] == o[a]);
                    } else if a > j {
                        assert(src[a] == s0[a - 1] && out@[a] == o[a - 1]);
                    }
                }
            }
            i = i + 1;
        }
        proof {
            assert forall|a: int| 0 <= a < out@.len() implies self@.contains_key(
                #[trigger] out@[a].ssid@,
            ) && self@[out@[a].ssid@].0 == out@[a] by {
                assert(entries_map(es)[es[src[a]].0.ssid@] == es[src[a]]);
            }
        }
        out
    }
}

} // verus!
