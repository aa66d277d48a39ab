//! The offline wifi backend: a fixed set of networks and a small state
//! machine, so that connect → current network → disconnect round-trips
//! behave like real hardware without a wireless daemon. Used by tests,
//! demos and development machines.
//!
//! `HomeNetwork` is always known, so connecting to it needs no passphrase.
//! Open networks always connect; any other secured network needs a
//! non-empty passphrase, which is accepted as correct; enterprise networks
//! never connect.

use vstd::prelude::*;

use crate::sort::{ascending, contains_string, sort_by, sort_strings, string_views};
use crate::text::{chars_eq, chars_of};
use crate::wifi::{canned_known, canned_networks, KnownNetworkInfo, Security, StationState, WifiError, WifiNetwork};

verus! {

/// The security of the canned network named `ssid`; `None` when no such
/// network is in range.
pub open spec fn mock_security(ssid: Seq<char>) -> Option<Security> {
    if ssid == "HomeNetwork"@ {
        Some(Security::Psk)
    } else if ssid == "Neighbour 5G"@ {
        Some(Security::Psk)
    } else if ssid == "CoffeeShop"@ {
        Some(Security::Open)
    } else if ssid == "CorpNet"@ {
        Some(Security::Enterprise)
    } else if ssid == "DistantAP"@ {
        Some(Security::Psk)
    } else {
        None
    }
}

/// Whether the backend has a saved profile for `ssid`.
pub open spec fn remembers(known: Seq<Seq<char>>, ssid: Seq<char>) -> bool {
    ssid == "HomeNetwork"@ || known.contains(ssid)
}

/// Why a connection is refused.
#[derive(Debug, Clone, Copy, PartialEq, Eq)]
pub enum Refusal {
    NotInRange,
    Enterprise,
    PassphraseRequired,
}

/// Whether, and why, connecting to `ssid` with `passphrase` is refused.
pub open spec fn connect_refusal(
    known: Seq<Seq<char>>,
    ssid: Seq<char>,
    passphrase: Option<Seq<char>>,
) -> Option<Refusal> {
    match mock_security(ssid) {
        None => Some(Refusal::NotInRange),
        Some(Security::Enterprise) => Some(Refusal::Enterprise),
        Some(Security::Open) => None,
        Some(_) => if remembers(known, ssid) || (passphrase is Some && passphrase->0.len() > 0) {
            None
        } else {
            Some(Refusal::PassphraseRequired)
        },
    }
}

/// The saved profiles after joining `ssid`.
pub open spec fn joined(known: Seq<Seq<char>>, ssid: Seq<char>) -> Seq<Seq<char>> {
    if known.contains(ssid) {
        known
    } else {
        known.push(ssid)
    }
}

/// `s` without any `x`.
pub open spec fn without(s: Seq<Seq<char>>, x: Seq<char>) -> Seq<Seq<char>>
    decreases s.len(),
{
    if s.len() == 0 {
        seq![]
    } else {
        without(s.drop_last(), x) + if s.last() == x {
            seq![]
        } else {
            seq![s.last()]
        }
    }
}

/// The saved profiles as listed: `HomeNetwork` and every other saved
/// one, in ascending order of their names.
pub open spec fn known_listing(known: Seq<Seq<char>>) -> Seq<Seq<char>> {
    sort_by(seq!["HomeNetwork"@] + without(known, "HomeNetwork"@), ascending())
}

/// The message of an enterprise network's refusal.
pub open spec fn enterprise_message() -> Seq<char> {
    "Enterprise networks are not supported by the mock backend"@
}

/// The offline backend's state: the network it is connected to, and the
/// networks it has joined.
#[derive(Debug)]
pub struct MockWifi {
    connected_ssid: Option<String>,
    known: Vec<String>,
}

impl MockWifi {
    pub closed spec fn connected(&self) -> Option<Seq<char>> {
        match self.connected_ssid {
            Some(s) => Some(s@),
            None => None,
        }
    }

    pub closed spec fn known(&self) -> Seq<Seq<char>> {
        string_views(self.known@)
    }

    /// Each network is saved once.
    pub closed spec fn wf(&self) -> bool {
        self.known().no_duplicates()
    }

    /// Not connected, nothing saved beyond the seeded `HomeNetwork`.
    pub fn new() -> (r: MockWifi)
        ensures
            r.wf(),
            r.connected() is None,
            r.known() == Seq::<Seq<char>>::empty(),
    {
        MockWifi { connected_ssid: None, known: Vec::new() }
    }

    /// The networks in range, strongest first, marked known where a
    /// profile is saved.
    pub fn scan_networks(&self) -> (r: Vec<WifiNetwork>)
        ensures
            r.len() == 5,
            forall|i: int| 0 <= i < 5 ==> #[trigger] r@[i].known == remembers(self.known(), r@[i].ssid@),
            forall|i: int| 0 <= i < 5 ==> mock_security(#[trigger] r@[i].ssid@) == Some(r@[i].security),
    {
        let r = canned_networks(&self.known);
        proof {
            reveal_strlit("HomeNetwork");
            reveal_strlit("Neighbour 5G");
            reveal_strlit("CoffeeShop");
            reveal_strlit("CorpNet");
            reveal_strlit("DistantAP");
            assert forall|i: int| 0 <= i < 5 implies #[trigger] r@[i].known == remembers(
                self.known(),
                r@[i].ssid@,
            ) by {
                lemma_canned_known(self.known@, r@[i].ssid@);
            }
            assert("HomeNetwork"@.len() == 11 && "Neighbour 5G"@.len() == 12 && "CoffeeShop"@.len()
                == 10 && "CorpNet"@.len() == 7 && "DistantAP"@.len() == 9);
            assert("CoffeeShop"@ != "HomeNetwork"@ && "CoffeeShop"@ != "Neighbour 5G"@);
            assert("CorpNet"@ != "HomeNetwork"@ && "CorpNet"@ != "Neighbour 5G"@ && "CorpNet"@
                != "CoffeeShop"@);
            assert(mock_security(r@[0].ssid@) == Some(r@[0].security));
            assert(mock_security(r@[1].ssid@) == Some(r@[1].security));
            assert(mock_security(r@[2].ssid@) == Some(r@[2].security));
            assert(mock_security(r@[3].ssid@) == Some(r@[3].security));
            assert(mock_security(r@[4].ssid@) == Some(r@[4].security));
        }
        r
    }

    /// Connect to `ssid`. Open networks and saved ones always connect;
    /// another secured network needs a non-empty passphrase; enterprise
    /// networks never connect. A connection saves the network's profile.
    pub fn connect(&mut self, ssid: &str, passphrase: Option<&str>) -> (r: Result<(), WifiError>)
        requires
            old(self).wf(),
        ensures
            final(self).wf(),
            match connect_refusal(
                old(self).known(),
                ssid@,
                match passphrase {
                    Some(p) => Some(p@),
                    None => None,
                },
            ) {
                None => r is Ok && final(self).connected() == Some(ssid@) && final(self).known()
                    == joined(old(self).known(), ssid@),
                Some(refusal) => final(self).connected() == old(self).connected() && final(self).known() == old(self).known() && match refusal {
                    Refusal::NotInRange => r matches Err(WifiError::NetworkNotFound(s)) && s@
                        == ssid@,
                    Refusal::Enterprise => r matches Err(WifiError::ConnectFailed(m)) && m@
                        == enterprise_message(),
                    Refusal::PassphraseRequired => r matches Err(
                        WifiError::PassphraseRequired(s),
                    ) && s@ == ssid@,
                },
            },
    {
        let security = match security_of(ssid) {
            Some(s) => s,
            None => return Err(WifiError::NetworkNotFound(ssid.to_string())),
        };
        match security {
            Security::Enterprise => {
                return Err(
                    WifiError::ConnectFailed(
                        "Enterprise networks are not supported by the mock backend".to_string(),
                    ),
                );
            },
            Security::Open => {},
            Security::Wep | Security::Psk => {
                let saved = chars_eq(&chars_of(ssid), &chars_of("HomeNetwork")) || contains_string(
                    &self.known,
                    ssid,
                );
                if !saved {
                    let given = match passphrase {
                        Some(p) => !p.is_empty(),
                        None => false,
                    };
                    if !given {
                        return Err(WifiError::PassphraseRequired(ssid.to_string()));
                    }
                }
            },
        }
        self.join(ssid);
        Ok(())
    }

    /// Mark `ssid` connected and saved.
    fn join(&mut self, ssid: &str)
        requires
            old(self).wf(),
        ensures
            final(self).wf(),
            final(self).connected() == Some(ssid@),
            final(self).known() == joined(old(self).known(), ssid@),
    {
        self.connected_ssid = Some(ssid.to_string());
        if !contains_string(&self.known, ssid) {
            let ghost k0 = self.known@;
            self.known.push(ssid.to_string());
            assert(string_views(self.known@) =~= string_views(k0).push(ssid@));
        }
    }

    /// Connect to a network that does not broadcast its name: it needs a
    /// non-empty passphrase, which is accepted.
    pub fn connect_hidden(&mut self, ssid: &str, passphrase: Option<&str>) -> (r: Result<
        (),
        WifiError,
    >)
        requires
            old(self).wf(),
        ensures
            final(self).wf(),
            match passphrase {
                Some(p) if p@.len() > 0 => r is Ok && final(self).connected() == Some(ssid@)
                    && final(self).known() == joined(old(self).known(), ssid@),
                _ => r matches Err(WifiError::PassphraseRequired(s)) && s@ == ssid@ && final(self).connected() == old(self).connected() && final(self).known() == old(self).known(),
            },
    {
        let given = match passphrase {
            Some(p) => !p.is_empty(),
            None => false,
        };
        if !given {
            return Err(WifiError::PassphraseRequired(ssid.to_string()));
        }
        self.join(ssid);
        Ok(())
    }

    pub fn disconnect(&mut self)
        requires
            old(self).wf(),
        ensures
            final(self).wf(),
            final(self).connected() is None,
            final(self).known() == old(self).known(),
    {
        self.connected_ssid = None;
    }

    pub fn station_state(&self) -> (r: StationState)
        ensures
            r == (if self.connected() is Some {
                StationState::Connected
            } else {
                StationState::Disconnected
            }),
    {
        match self.connected_ssid {
            Some(_) => StationState::Connected,
            None => StationState::Disconnected,
        }
    }

    pub fn check_connected(&self) -> (r: bool)
        ensures
            r == self.connected() is Some,
    {
        self.connected_ssid.is_some()
    }

    pub fn current_ssid(&self) -> (r: Option<String>)
        ensures
            match r {
                Some(s) => self.connected() == Some(s@),
                None => self.connected() is None,
            },
    {
        match &self.connected_ssid {
            Some(s) => Some(s.clone()),
            None => None,
        }
    }

    /// The saved profiles: `HomeNetwork` and every network joined since,
    /// by name.
    pub fn list_known_networks(&self) -> (r: Vec<KnownNetworkInfo>)
        ensures
            r@.len() == known_listing(self.known()).len(),
            forall|i: int| 0 <= i < r@.len() ==> (#[trigger] r@[i]).ssid@ == known_listing(self.known())[i]
                && r@[i].security == Security::Psk && !r@[i].hidden,
    {
        let mut names: Vec<String> = Vec::new();
        names.push("HomeNetwork".to_string());
        let mut i: usize = 0;
        let home = chars_of("HomeNetwork");
        while i < self.known.len()
            invariant
                i <= self.known.len(),
                home@ == "HomeNetwork"@,
                string_views(names@) == seq!["HomeNetwork"@] + without(
                    string_views(self.known@).take(i as int),
                    "HomeNetwork"@,
                ),
            decreases self.known.len() - i,
        {
            let ghost n0 = names@;
            let ghost k = string_views(self.known@);
            assert(k.take(i + 1).drop_last() =~= k.take(i as int));
            assert(k.take(i + 1).last() == self.known@[i as int]@);
            if !chars_eq(&chars_of(self.known[i].as_str()), &home) {
                names.push(self.known[i].clone());
                assert(string_views(names@) =~= string_views(n0).push(self.known@[i as int]@));
            } else {
                assert(without(k.take(i + 1), "HomeNetwork"@) =~= without(k.take(i as int), "HomeNetwork"@));
            }
            i = i + 1;
        }
        assert(string_views(self.known@).take(self.known.len() as int) =~= string_views(self.known@));
        let sorted = sort_strings(names, false);
        let mut r: Vec<KnownNetworkInfo> = Vec::new();
        let mut j: usize = 0;
        while j < sorted.len()
            invariant
                j <= sorted.len(),
                r@.len() == j,
                forall|x: int| 0 <= x < j ==> (#[trigger] r@[x]).ssid@ == sorted@[x]@
                    && r@[x].security == Security::Psk && !r@[x].hidden,
            decreases sorted.len() - j,
        {
            r.push(KnownNetworkInfo { ssid: sorted[j].clone(), security: Security::Psk, hidden: false });
            j = j + 1;
        }
        proof {
            assert(string_views(sorted@).len() == sorted@.len());
            assert forall|x: int| 0 <= x < r@.len() implies (#[trigger] r@[x]).ssid@ == known_listing(
                self.known(),
            )[x] by {
                assert(string_views(sorted@)[x] == sorted@[x]@);
            }
        }
        r
    }

    /// Forget a saved network; forgetting the connected one also
    /// disconnects.
    pub fn forget_network(&mut self, ssid: &str)
        requires
            old(self).wf(),
        ensures
            final(self).wf(),
            final(self).known() == without(old(self).known(), ssid@),
            final(self).connected() == (if old(self).connected() == Some(ssid@) {
                None
            } else {
                old(self).connected()
            }),
    {
        let target = chars_of(ssid);
        let mut kept: Vec<String> = Vec::new();
        let mut i: usize = 0;
        while i < self.known.len()
            invariant
                i <= self.known.len(),
                target@ == ssid@,
                string_views(self.known@).no_duplicates(),
                string_views(kept@) == without(string_views(self.known@).take(i as int), ssid@),
                forall|x: Seq<char>| #[trigger] string_views(kept@).contains(x) ==> string_views(
                    self.known@,
                ).take(i as int).contains(x),
                string_views(kept@).no_duplicates(),
            decreases self.known.len() - i,
        {
            let ghost k = string_views(self.known@);
            let ghost k0 = kept@;
            assert(k.take(i + 1).drop_last() =~= k.take(i as int));
            assert(k.take(i + 1).last() == self.known@[i as int]@);
            if !chars_eq(&chars_of(self.known[i].as_str()), &target) {
                proof {
                    assert(!k.take(i as int).contains(k[i as int])) by {
                        if k.take(i as int).contains(k[i as int]) {
                            let w = choose|w: int| 0 <= w < i && k.take(i as int)[w] == k[i as int];
                            assert(k[w] == k[i as int]);
                        }
                    }
                    assert(!string_views(k0).contains(k[i as int]));
                }
                kept.push(self.known[i].clone());
                proof {
                    assert(string_views(kept@) =~= string_views(k0).push(k[i as int]));
                    assert(string_views(kept@).no_duplicates()) by {
                        assert forall|a: int, b: int| 0 <= a < b < string_views(kept@).len() implies string_views(kept@)[a] != string_views(kept@)[b] by {
                            if b == string_views(k0).len() {
                                assert(string_views(k0)[a] == string_views(kept@)[a]);
                            }
                        }
                    }
                    assert forall|x: Seq<char>| #[trigger] string_views(kept@).contains(x) implies k.take(
                        i + 1,
                    ).contains(x) by {
                        let w = choose|w: int| 0 <= w < string_views(kept@).len() && string_views(kept@)[w] == x;
                        if w < string_views(k0).len() {
                            assert(string_views(k0).contains(x));
                            let v = choose|v: int| 0 <= v < i && k.take(i as int)[v] == x;
                            assert(k.take(i + 1)[v] == x);
                        } else {
                            assert(k.take(i + 1)[i as int] == x);
                        }
                    }
                }
            } else {
                proof {
                    assert(without(k.take(i + 1), ssid@) =~= without(k.take(i as int), ssid@));
                    assert forall|x: Seq<char>| #[trigger] string_views(kept@).contains(x) implies k.take(
                        i + 1,
                    ).contains(x) by {
                        let v = choose|v: int| 0 <= v < i && k.take(i as int)[v] == x;
                        assert(k.take(i + 1)[v] == x);
                    }
                }
            }
            i = i + 1;
        }
        assert(string_views(self.known@).take(self.known.len() as int) =~= string_views(self.known@));
        self.known = kept;
        let disconnect = match &self.connected_ssid {
            Some(c) => chars_eq(&chars_of(c.as_str()), &target),
            None => false,
        };
        if disconnect {
            self.connected_ssid = None;
        }
    }
}

/// `canned_known` over the saved names as plain values.
proof fn lemma_canned_known(known: Seq<String>, ssid: Seq<char>)
    ensures
        canned_known(known, ssid) == remembers(string_views(known), ssid),
{
    if canned_known(known, ssid) && ssid != "HomeNetwork"@ {
        let i = choose|i: int| 0 <= i < known.len() && known[i]@ == ssid;
        assert(string_views(known)[i] == ssid);
    }
    if string_views(known).contains(ssid) {
        let i = choose|i: int| 0 <= i < string_views(known).len() && string_views(known)[i] == ssid;
        assert(known[i]@ == ssid);
    }
}

/// The security of the canned network `ssid`.
fn security_of(ssid: &str) -> (r: Option<Security>)
    ensures
        r == mock_security(ssid@),
{
    let s = chars_of(ssid);
    if chars_eq(&s, &chars_of("HomeNetwork")) {
        Some(Security::Psk)
    } else if chars_eq(&s, &chars_of("Neighbour 5G")) {
        Some(Security::Psk)
    } else if chars_eq(&s, &chars_of("CoffeeShop")) {
        Some(Security::Open)
    } else if chars_eq(&s, &chars_of("CorpNet")) {
        Some(Security::Enterprise)
    } else if chars_eq(&s, &chars_of("DistantAP")) {
        Some(Security::Psk)
    } else {
        None
    }
}

/// Open networks and saved secured ones always connect, whatever the
/// passphrase; enterprise networks never do; an unsaved secured network
/// connects exactly when a non-empty passphrase is given.
pub proof fn law_connection_rules(known: Seq<Seq<char>>, ssid: Seq<char>, passphrase: Option<Seq<char>>)
    ensures
        mock_security(ssid) == Some(Security::Open) ==> connect_refusal(known, ssid, passphrase) is None,
        mock_security(ssid) == Some(Security::Enterprise) ==> connect_refusal(known, ssid, passphrase)
            == Some(Refusal::Enterprise),
        (mock_security(ssid) == Some(Security::Psk) || mock_security(ssid) == Some(Security::Wep))
            && remembers(known, ssid) ==> connect_refusal(known, ssid, passphrase) is None,
        (mock_security(ssid) == Some(Security::Psk) || mock_security(ssid) == Some(Security::Wep))
            && !remembers(known, ssid) ==> (connect_refusal(known, ssid, passphrase) is None <==> (
        passphrase is Some && passphrase->0.len() > 0)),
        mock_security("HomeNetwork"@) == Some(Security::Psk) && remembers(known, "HomeNetwork"@),
{
}

/// A network once joined stays saved until it is forgotten: joining keeps
/// every saved profile and adds the new one; forgetting removes exactly
/// the forgotten one.
pub proof fn law_profiles_persist(known: Seq<Seq<char>>, ssid: Seq<char>, other: Seq<char>)
    ensures
        joined(known, ssid).contains(ssid),
        known.contains(other) ==> joined(known, ssid).contains(other),
        !without(known, ssid).contains(ssid),
        other != ssid ==> (without(known, ssid).contains(other) <==> known.contains(other)),
    decreases known.len(),
{
    if known.len() > 0 {
        law_profiles_persist(known.drop_last(), ssid, other);
        let w = without(known.drop_last(), ssid);
        if known.contains(other) && other != ssid {
            let i = choose|i: int| 0 <= i < known.len() && known[i] == other;
            if i < known.len() - 1 {
                assert(known.drop_last()[i] == other);
            }
        }
        if known.drop_last().contains(other) {
            let i = choose|i: int| 0 <= i < known.drop_last().len() && known.drop_last()[i] == other;
            assert(known[i] == other);
        }
        if known.last() != ssid {
            assert(without(known, ssid) == w.push(known.last()));
            if without(known, ssid).contains(other) && other != known.last() {
                let i = choose|i: int| 0 <= i < w.push(known.last()).len() && w.push(known.last())[i] == other;
                assert(w[i] == other);
            }
            if w.contains(other) {
                let i = choose|i: int| 0 <= i < w.len() && w[i] == other;
                assert(w.push(known.last())[i] == other);
            }
            assert(w.push(known.last())[w.len() as int] == known.last());
            if without(known, ssid).contains(ssid) {
                let i = choose|i: int| 0 <= i < w.push(known.last()).len() && w.push(known.last())[i] == ssid;
                assert(w[i] == ssid);
            }
        } else {
            assert(without(known, ssid) =~= w);
        }
    } else {
        assert(joined(known, ssid)[0] == ssid);
    }
    if known.contains(other) && !known.contains(ssid) {
        let i = choose|i: int| 0 <= i < known.len() && known[i] == other;
        assert(joined(known, ssid)[i] == other);
    }
    if !known.contains(ssid) {
        assert(joined(known, ssid)[known.len() as int] == ssid);
    }
}

} // verus!
