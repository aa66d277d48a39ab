//! Whether the machine is online: Arch's connectivity endpoint must answer
//! `200 OK` with exactly its known text. Redirects, captive-portal pages and
//! server errors are not mistaken for a working connection, and a portal's
//! endless page is not read past the length of the expected answer.

use vstd::prelude::*;

verus! {

/// Arch's connectivity endpoint, also used by its NetworkManager package.
pub const CONNECTIVITY_URL: &'static str = "http://ping.archlinux.org/nm-check.txt";

/// How long one probe may take, in seconds.
pub const PROBE_TIMEOUT_SECS: u64 = 5;

/// The body the endpoint answers with: `NetworkManager is online\n`.
pub const EXPECTED_RESPONSE: [u8; 25] = [78, 101, 116, 119, 111, 114, 107, 77, 97, 110, 97, 103, 101, 114, 32, 105, 115, 32, 111, 110, 108, 105, 110, 101, 10];

/// The expected body as a sequence.
pub open spec fn expected_response() -> Seq<u8> {
    seq![78u8, 101, 116, 119, 111, 114, 107, 77, 97, 110, 97, 103, 101, 114, 32, 105, 115, 32, 111, 110, 108, 105, 110, 101, 10]
}

/// The body of a probe's answer as far as it has been read. Reading stops
/// as soon as the body would grow past the expected answer, so a portal's
/// large or endless page costs no more memory than the real answer.
pub struct ProbeBody {
    body: Vec<u8>,
}

impl View for ProbeBody {
    type V = Seq<u8>;

    closed spec fn view(&self) -> Seq<u8> {
        self.body@
    }
}

proof fn lemma_expected_len()
    ensures
        EXPECTED_RESPONSE@ == expected_response(),
        expected_response().len() == 25,
{
    assert(EXPECTED_RESPONSE@ =~= expected_response());
}

impl ProbeBody {
    pub fn new() -> (r: ProbeBody)
        ensures
            r@ == Seq::<u8>::empty(),
    {
        ProbeBody { body: Vec::new() }
    }

    /// Take the next chunk of the body. Refused, and the probe failed,
    /// when the body would then be longer than the expected answer.
    pub fn take_chunk(&mut self, chunk: &[u8]) -> (r: bool)
        ensures
            r == (old(self)@.len() + chunk@.len() <= expected_response().len()),
            r ==> final(self)@ == old(self)@ + chunk@,
            !r ==> final(self)@ == old(self)@,
            old(self)@.len() <= expected_response().len() ==> final(self)@.len()
                <= expected_response().len(),
    {
        proof {
            lemma_expected_len();
        }
        if self.body.len() > EXPECTED_RESPONSE.len() || chunk.len() > EXPECTED_RESPONSE.len() - self.body.len() {
            return false;
        }
        let mut i: usize = 0;
        let ghost start = self.body@;
        while i < chunk.len()
            invariant
                i <= chunk.len(),
                self.body@ == start + chunk@.take(i as int),
            decreases chunk.len() - i,
        {
            self.body.push(chunk[i]);
            assert(chunk@.take(i + 1) =~= chunk@.take(i as int).push(chunk@[i as int]));
            i = i + 1;
        }
        assert(chunk@.take(chunk.len() as int) =~= chunk@);
        true
    }

    /// Whether the body read is exactly the expected answer.
    pub fn is_expected(&self) -> (r: bool)
        ensures
            r == (self@ == expected_response()),
    {
        proof {
            lemma_expected_len();
        }
        if self.body.len() != EXPECTED_RESPONSE.len() {
            return false;
        }
        let mut i: usize = 0;
        while i < self.body.len()
            invariant
                i <= self.body.len() == EXPECTED_RESPONSE@.len(),
                EXPECTED_RESPONSE@ == expected_response(),
                forall|j: int| 0 <= j < i ==> self.body@[j] == expected_response()[j],
            decreases self.body.len() - i,
        {
            if self.body[i] != EXPECTED_RESPONSE[i] {
                return false;
            }
            i = i + 1;
        }
        assert(self.body@ =~= expected_response());
        true
    }
}

/// How a probe ended.
#[derive(Debug, Clone, Copy, PartialEq, Eq)]
pub enum ProbeVerdict {
    /// `200 OK` with exactly the expected answer.
    Online,
    /// Any status but `200 OK`: a redirect, an error, or no content.
    Status(u16),
    /// `200 OK` with anything but the expected answer: likely a portal.
    UnexpectedResponse,
}

/// The verdict on an answer with status `status` whose body, read within
/// its bound, is `body`; `complete` says whether the whole body fit.
pub fn probe_verdict(status: u16, body: &ProbeBody, complete: bool) -> (r: ProbeVerdict)
    ensures
        r == (if status != 200 {
            ProbeVerdict::Status(status)
        } else if complete && body@ == expected_response() {
            ProbeVerdict::Online
        } else {
            ProbeVerdict::UnexpectedResponse
        }),
{
    if status != 200 {
        ProbeVerdict::Status(status)
    } else if complete && body.is_expected() {
        ProbeVerdict::Online
    } else {
        ProbeVerdict::UnexpectedResponse
    }
}

} // verus!
