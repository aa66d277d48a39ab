//! WiFi vocabulary shared by every backend, and the decisions that do not
//! need the wireless daemon: signal normalisation, which networks need a
//! passphrase, and the canned listing of the offline backend.

use vstd::prelude::*;

use crate::text::chars_of;

verus! {

/// Wifi security mode exposed in the UI.
#[derive(Debug, Clone, Copy, PartialEq, Eq)]
pub enum Security {
    Open,
    Wep,
    Psk,
    /// 802.1x / EAP enterprise networks; scanned and shown, but the
    /// installer does not implement their connection flow.
    Enterprise,
}

impl Security {
    pub fn requires_passphrase(self) -> (r: bool)
        ensures
            r == (self == Security::Wep || self == Security::Psk),
    {
        match self {
            Security::Wep | Security::Psk => true,
            _ => false,
        }
    }
}

impl Security {
    /// The security NetworkManager's flags describe: unsecured is open, EAP
    /// is enterprise, anything else secured is a passphrase network (WEP is
    /// not told apart and is extinct).
    pub fn from_flags(secured: bool, is_eap: bool) -> (r: Security)
        ensures
            r == if !secured {
                Security::Open
            } else if is_eap {
                Security::Enterprise
            } else {
                Security::Psk
            },
    {
        if !secured {
            Security::Open
        } else if is_eap {
            Security::Enterprise
        } else {
            Security::Psk
        }
    }
}

/// A wifi network, as seen by a scan.
#[derive(Debug, Clone, PartialEq, Eq)]
pub struct WifiNetwork {
    pub ssid: String,
    /// Signal strength normalized to 0-100.
    pub signal_percent: u8,
    pub security: Security,
    /// True if the backend has a saved profile for this network.
    pub known: bool,
}

/// A saved network profile — a network the user previously connected to.
#[derive(Debug, Clone, PartialEq, Eq)]
pub struct KnownNetworkInfo {
    pub ssid: String,
    pub security: Security,
    pub hidden: bool,
}

/// Current state of the wireless station, normalized across backends.
#[derive(Debug, Clone, Copy, PartialEq, Eq)]
pub enum StationState {
    Connected,
    Disconnected,
    Connecting,
    Disconnecting,
    Roaming,
}

/// Why a wifi operation failed. A D-Bus failure carries the bus's message.
#[derive(Debug, PartialEq, Eq)]
pub enum WifiError {
    NotAvailable,
    NoAdapter,
    NoStation,
    NetworkNotFound(String),
    PassphraseRequired(String),
    ConnectFailed(String),
    ScanFailed,
    Dbus(String),
}

/// `a / b` rounded toward zero, as Rust's integer division does.
pub open spec fn div_toward_zero(a: int, b: int) -> int {
    if a >= 0 {
        a / b
    } else {
        -((-a) / b)
    }
}

/// The percentage for a signal of `dbm_times_100` hundredths of a dBm:
/// 100 from -50 dBm up, 0 from -100 dBm down, linear in between.
pub open spec fn signal_percent(dbm_times_100: i16) -> u8 {
    let dbm = div_toward_zero(dbm_times_100 as int, 100);
    if dbm >= -50 {
        100
    } else if dbm <= -100 {
        0
    } else {
        ((dbm + 100) * 2) as u8
    }
}

/// Map a raw signal strength in `dBm * 100` units to a 0-100 percentage.
pub fn signal_to_percent(dbm_times_100: i16) -> (r: u8)
    ensures
        r == signal_percent(dbm_times_100),
        r <= 100,
{
    let x = dbm_times_100 as i32;
    let dbm: i32 = if x >= 0 {
        x / 100
    } else {
        -((-x) / 100)
    };
    if dbm >= -50 {
        100
    } else if dbm <= -100 {
        0
    } else {
        ((dbm + 100) * 2) as u8
    }
}

/// Whether `ssid` is among `known`, or is the seeded `HomeNetwork`.
pub open spec fn canned_known(known: Seq<String>, ssid: Seq<char>) -> bool {
    ssid == "HomeNetwork"@ || exists|i: int| 0 <= i < known.len() && known[i]@ == ssid
}

fn is_known(known: &Vec<String>, ssid: &str) -> (r: bool)
    ensures
        r == canned_known(known@, ssid@),
{
    let s = chars_of(ssid);
    let home = chars_of("HomeNetwork");
    if crate::text::chars_eq(&s, &home) {
        return true;
    }
    for i in 0..known.len()
        invariant
            s@ == ssid@,
            forall|j: int| 0 <= j < i ==> known@[j]@ != ssid@,
    {
        let k = chars_of(known[i].as_str());
        if crate::text::chars_eq(&k, &s) {
            return true;
        }
    }
    false
}

/// The fixed listing of the offline backend, strongest first, each marked
/// known when its ssid is `HomeNetwork` or among `known`.
pub fn canned_networks(known: &Vec<String>) -> (r: Vec<WifiNetwork>)
    ensures
        r.len() == 5,
        r@[0].ssid@ == "HomeNetwork"@ && r@[0].signal_percent == 90 && r@[0].security
            == Security::Psk && r@[0].known,
        r@[1].ssid@ == "Neighbour 5G"@ && r@[1].signal_percent == 72 && r@[1].security
            == Security::Psk && r@[1].known == canned_known(known@, "Neighbour 5G"@),
        r@[2].ssid@ == "CoffeeShop"@ && r@[2].signal_percent == 55 && r@[2].security
            == Security::Open && r@[2].known == canned_known(known@, "CoffeeShop"@),
        r@[3].ssid@ == "CorpNet"@ && r@[3].signal_percent == 48 && r@[3].security
            == Security::Enterprise && r@[3].known == canned_known(known@, "CorpNet"@),
        r@[4].ssid@ == "DistantAP"@ && r@[4].signal_percent == 22 && r@[4].security
            == Security::Psk && r@[4].known == canned_known(known@, "DistantAP"@),
{
    let mut r: Vec<WifiNetwork> = Vec::new();
    r.push(
        WifiNetwork {
            ssid: "HomeNetwork".to_string(),
            signal_percent: 90,
            security: Security::Psk,
            known: is_known(known, "HomeNetwork"),
        },
    );
    r.push(
        WifiNetwork {
            ssid: "Neighbour 5G".to_string(),
            signal_percent: 72,
            security: Security::Psk,
            known: is_known(known, "Neighbour 5G"),
        },
    );
    r.push(
        WifiNetwork {
            ssid: "CoffeeShop".to_string(),
            signal_percent: 55,
            security: Security::Open,
            known: is_known(known, "CoffeeShop"),
        },
    );
    r.push(
        WifiNetwork {
            ssid: "CorpNet".to_string(),
            signal_percent: 48,
            security: Security::Enterprise,
            known: is_known(known, "CorpNet"),
        },
    );
    r.push(
        WifiNetwork {
            ssid: "DistantAP".to_string(),
            signal_percent: 22,
            security: Security::Psk,
            known: is_known(known, "DistantAP"),
        },
    );
    r
}

/// What a connection request does before the daemon is asked to connect.
#[derive(Debug, Clone, Copy, PartialEq, Eq)]
pub enum ConnectStart {
    /// The network is connected already: nothing to do.
    AlreadyConnected,
    /// A secured network with no saved profile and no passphrase given.
    PassphraseRequired,
    /// Go ahead; a passphrase, when needed, comes from the one given or
    /// from the saved profile.
    Connect,
}

/// `connect_start` as a function of its arguments.
pub open spec fn connect_start_spec(connected: bool, security: Security, passphrase_given: bool, known: bool) -> ConnectStart {
    if connected {
        ConnectStart::AlreadyConnected
    } else if (security == Security::Wep || security == Security::Psk) && !passphrase_given && !known {
        ConnectStart::PassphraseRequired
    } else {
        ConnectStart::Connect
    }
}


/// The first decision of a connection: a connected network is left as
/// it is, and only a secured network that is neither saved nor given a
/// passphrase asks for one.
pub fn connect_start(connected: bool, security: Security, passphrase_given: bool, known: bool) -> (r:
    ConnectStart)
    ensures
        r == connect_start_spec(connected, security, passphrase_given, known),
{
    if connected {
        ConnectStart::AlreadyConnected
    } else if security.requires_passphrase() && !passphrase_given && !known {
        ConnectStart::PassphraseRequired
    } else {
        ConnectStart::Connect
    }
}

/// Saved and connected networks never ask for a new password.
pub proof fn law_saved_networks_need_no_new_password(security: Security, passphrase_given: bool)
    ensures
        connect_start_spec(true, security, passphrase_given, false) == ConnectStart::AlreadyConnected,
        connect_start_spec(false, security, passphrase_given, true) == ConnectStart::Connect,
{
}

/// The passphrase NetworkManager is handed for a network of `security`:
/// none for an open one; for a secured one the passphrase given, which
/// must not be empty (NetworkManager is not asked to look up a saved
/// profile). Enterprise networks are not supported by the installer.
pub fn nm_credentials(ssid: &str, security: Security, passphrase: Option<String>) -> (r: Result<
    Option<String>,
    WifiError,
>)
    ensures
        match security {
            Security::Open => r == Ok::<Option<String>, WifiError>(None),
            Security::Enterprise => r matches Err(WifiError::ConnectFailed(m)) && m@
                == "Enterprise (802.1x) networks are not supported by the installer"@,
            _ => match passphrase {
                Some(p) if p@.len() > 0 => r matches Ok(Some(q)) && q@ == p@,
                _ => r matches Err(WifiError::PassphraseRequired(s)) && s@ == ssid@,
            },
        },
{
    match security {
        Security::Open => Ok(None),
        Security::Enterprise => Err(
            WifiError::ConnectFailed(
                "Enterprise (802.1x) networks are not supported by the installer".to_string(),
            ),
        ),
        _ => match passphrase {
            Some(p) => {
                if p.as_str().is_empty() {
                    Err(WifiError::PassphraseRequired(ssid.to_string()))
                } else {
                    Ok(Some(p))
                }
            },
            None => Err(WifiError::PassphraseRequired(ssid.to_string())),
        },
    }
}

} // verus!
