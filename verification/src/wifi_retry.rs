//! When a failed wifi connection is tried again.
//!
//! Connecting goes through a D-Bus service and awaits its answer; what is
//! decided between the answers stands here: which failures another attempt
//! could fix, and how many attempts a connection gets.

use vstd::prelude::*;

verus! {

/// How many times a connection that fails for a reason another attempt
/// could fix is tried.
pub const CONNECT_ATTEMPTS: usize = 3;

/// How an iwd connection attempt failed, as far as retrying cares.
#[derive(Debug, Clone, Copy, PartialEq, Eq)]
pub enum IwdConnectFailure {
    Failed,
    Aborted,
    Busy,
    InProgress,
    /// A missing agent, an unsupported network, or anything else that
    /// fails the same way every time.
    Other,
}

impl IwdConnectFailure {
    /// A timeout or an aborted attempt is the adapter having a bad moment,
    /// while a missing agent or an unsupported network will fail the same
    /// way every time.
    pub fn worth_another_attempt(self) -> (r: bool)
        ensures
            r <==> !(self is Other),
    {
        match self {
            IwdConnectFailure::Failed => true,
            IwdConnectFailure::Aborted => true,
            IwdConnectFailure::Busy => true,
            IwdConnectFailure::InProgress => true,
            IwdConnectFailure::Other => false,
        }
    }
}

/// How a NetworkManager connection attempt failed, as far as retrying
/// cares.
#[derive(Debug, Clone, Copy, PartialEq, Eq)]
pub enum NmConnectFailure {
    /// The access point was not in the list this time.
    NotFound,
    Timeout,
    SupplicantTimeout,
    SupplicantConfigFailed,
    Stuck,
    /// A rejected passphrase, or anything else another attempt repeats.
    Other,
}

impl NmConnectFailure {
    /// NetworkManager says which part gave way, so a passphrase it rejected
    /// is reported at once and only the failures another attempt could fix
    /// are repeated: an access point missing from the list this time, and
    /// the association timeouts some adapters produce after a boot.
    pub fn worth_another_attempt(self) -> (r: bool)
        ensures
            r <==> !(self is Other),
    {
        match self {
            NmConnectFailure::NotFound => true,
            NmConnectFailure::Timeout => true,
            NmConnectFailure::SupplicantTimeout => true,
            NmConnectFailure::SupplicantConfigFailed => true,
            NmConnectFailure::Stuck => true,
            NmConnectFailure::Other => false,
        }
    }
}

/// What follows a failed attempt.
#[derive(Debug, Clone, Copy, PartialEq, Eq)]
pub enum AfterFailure {
    /// Wait, then attempt once more.
    TryAgain,
    /// Report the failure.
    GiveUp,
}

/// The attempts of one connection: which one is running.
#[derive(Debug)]
pub struct ConnectAttempts {
    attempt: usize,
}

impl ConnectAttempts {
    /// The number of the attempt that is running, counting from one.
    pub closed spec fn current(&self) -> nat {
        self.attempt as nat
    }

    /// Attempts are counted from one, up to [`CONNECT_ATTEMPTS`].
    pub closed spec fn wf(&self) -> bool {
        1 <= self.attempt <= CONNECT_ATTEMPTS
    }

    /// A connection about to make its first attempt.
    pub fn new() -> (r: ConnectAttempts)
        ensures
            r.wf(),
            r.current() == 1,
    {
        ConnectAttempts { attempt: 1 }
    }

    /// The number of the attempt that is running.
    pub fn attempt(&self) -> (r: usize)
        ensures
            r == self.current(),
    {
        self.attempt
    }

    /// The running attempt failed; `worth` says whether another attempt
    /// could fix its failure. The connection tries again only then, and
    /// only while attempts are left; trying again starts the next attempt.
    pub fn on_failure(&mut self, worth: bool) -> (r: AfterFailure)
        requires
            old(self).wf(),
        ensures
            final(self).wf(),
            r == AfterFailure::TryAgain <==> (worth && old(self).current() < CONNECT_ATTEMPTS),
            r == AfterFailure::TryAgain ==> final(self).current() == old(self).current() + 1,
            r == AfterFailure::GiveUp ==> final(self).current() == old(self).current(),
    {
        if self.attempt < CONNECT_ATTEMPTS && worth {
            self.attempt = self.attempt + 1;
            AfterFailure::TryAgain
        } else {
            AfterFailure::GiveUp
        }
    }
}

/// No connection gets more than [`CONNECT_ATTEMPTS`] attempts: every
/// count that `new` and `on_failure` produce lies between one and it.
pub proof fn law_attempts_are_bounded(a: ConnectAttempts)
    requires
        a.wf(),
    ensures
        1 <= a.current() <= CONNECT_ATTEMPTS,
{
}

} // verus!
