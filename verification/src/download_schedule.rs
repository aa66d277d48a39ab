//! The decisions of the package downloader between its network calls:
//! the order packages start in, which mirror and attempt comes next and
//! after how long a wait, what a server's answer means for a resumed
//! transfer, and how failures are reported.

use vstd::prelude::*;

use crate::download::DownloadTask;
use crate::sort::{lemma_insert_by_at, sort_by};
use crate::text::{chars_of, chars_to_string, contains_seq, contains_str, dec, decimal, extend, extend_str};

verus! {

// ───────────────────────────── start order ────────────────────────────

/// Each task's index with its declared size.
pub open spec fn sized(tasks: Seq<DownloadTask>) -> Seq<(usize, i64)> {
    Seq::new(tasks.len(), |i: int| (i as usize, tasks[i].size))
}

/// Larger packages first.
pub open spec fn larger_first() -> spec_fn((usize, i64), (usize, i64)) -> bool {
    |x: (usize, i64), y: (usize, i64)| y.1 < x.1
}

/// The order downloads start in: by declared size, largest first, and
/// tasks of equal size in the order they were given (a stable sort).
pub open spec fn start_order(tasks: Seq<DownloadTask>) -> Seq<usize> {
    sort_by(sized(tasks), larger_first()).map_values(|p: (usize, i64)| p.0)
}

/// The indices of `tasks` in the order their downloads start: large
/// packages first, so the longest transfers are under way earliest.
pub fn download_order(tasks: &[DownloadTask]) -> (r: Vec<usize>)
    ensures
        r@ == start_order(tasks@),
{
    let ghost all = sized(tasks@);
    let mut sorted: Vec<(usize, i64)> = Vec::new();
    let mut i: usize = 0;
    while i < tasks.len()
        invariant
            i <= tasks.len(),
            all == sized(tasks@),
            sorted@ == sort_by(all.take(i as int), larger_first()),
        decreases tasks.len() - i,
    {
        let x = (i, tasks[i].size);
        assert(x == all[i as int]);
        let mut j: usize = 0;
        while j < sorted.len() && !(sorted[j].1 < x.1)
            invariant
                j <= sorted.len(),
                forall|k: int| 0 <= k < j ==> !(larger_first())(x, #[trigger] sorted@[k]),
            decreases sorted.len() - j,
        {
            j = j + 1;
        }
        proof {
            lemma_insert_by_at(sorted@, x, larger_first(), j as int);
            assert(all.take(i + 1).drop_last() =~= all.take(i as int));
            assert(all.take(i + 1).last() == x);
        }
        sorted.insert(j, x);
        i = i + 1;
    }
    assert(all.take(tasks.len() as int) =~= all);
    let mut r: Vec<usize> = Vec::new();
    let mut k: usize = 0;
    while k < sorted.len()
        invariant
            k <= sorted.len(),
            r@ == sorted@.take(k as int).map_values(|p: (usize, i64)| p.0),
        decreases sorted.len() - k,
    {
        r.push(sorted[k].0);
        assert(sorted@.take(k + 1).map_values(|p: (usize, i64)| p.0) =~= sorted@.take(
            k as int,
        ).map_values(|p: (usize, i64)| p.0).push(sorted@[k as int].0));
        k = k + 1;
    }
    assert(sorted@.take(sorted.len() as int) =~= sorted@);
    r
}

// ──────────────────────────── mirrors, retries ────────────────────────

/// `base` doubled `n` times: `base · 2ⁿ`.
pub open spec fn doubled(base: nat, n: nat) -> nat
    decreases n,
{
    if n == 0 {
        base
    } else {
        2 * doubled(base, (n - 1) as nat)
    }
}

proof fn lemma_doubled_grows(base: nat, m: nat, n: nat)
    requires
        m <= n,
    ensures
        doubled(base, m) <= doubled(base, n),
    decreases n,
{
    if m < n {
        lemma_doubled_grows(base, m, (n - 1) as nat);
    }
}

/// The exponential backoff before attempt `attempt + 1` on a mirror:
/// `base` doubled for each attempt before `attempt`.
fn backoff_secs(base: u64, attempt: u32) -> (r: u64)
    requires
        attempt >= 1,
        doubled(base as nat, (attempt - 1) as nat) <= u64::MAX,
    ensures
        r == doubled(base as nat, (attempt - 1) as nat),
{
    let mut w: u64 = base;
    let mut i: u32 = 1;
    while i < attempt
        invariant
            1 <= i <= attempt,
            w == doubled(base as nat, (i - 1) as nat),
            doubled(base as nat, (attempt - 1) as nat) <= u64::MAX,
        decreases attempt - i,
    {
        proof {
            lemma_doubled_grows(base as nat, i as nat, (attempt - 1) as nat);
        }
        w = w * 2;
        i = i + 1;
    }
    w
}

/// What a package's download does next.
#[derive(Debug, Clone, Copy, PartialEq, Eq)]
pub enum NextAttempt {
    /// Wait `wait_secs`, then make attempt `attempt` (counting from one)
    /// on mirror `mirror` (an index into the task's servers).
    Try { mirror: usize, attempt: u32, wait_secs: u64 },
    /// Every mirror has had its attempts: report the last failure.
    GiveUp,
}

/// The first attempt: the first mirror's first, when the task has a mirror
/// and mirrors get attempts at all.
pub fn first_attempt(mirrors: usize, retries_per_mirror: u32) -> (r: NextAttempt)
    ensures
        r == (if mirrors > 0 && retries_per_mirror > 0 {
            NextAttempt::Try { mirror: 0, attempt: 1, wait_secs: 0 }
        } else {
            NextAttempt::GiveUp
        }),
{
    if mirrors > 0 && retries_per_mirror > 0 {
        NextAttempt::Try { mirror: 0, attempt: 1, wait_secs: 0 }
    } else {
        NextAttempt::GiveUp
    }
}

/// Whether attempt `attempt` on mirror `mirror` is one the schedule makes.
pub open spec fn in_schedule(mirror: int, attempt: int, mirrors: int, retries: int) -> bool {
    0 <= mirror < mirrors && 1 <= attempt <= retries
}

/// Whether the backoff after a failed attempt can be computed: the
/// doubling factor is a `u32` and the delay a whole number of seconds.
pub open spec fn backoff_fits(base: u64, attempt: u32, retries: u32) -> bool {
    attempt < retries ==> attempt <= 32 && doubled(base as nat, (attempt - 1) as nat) <= u64::MAX
}

/// What follows a failed attempt (not a cancelled one).
pub open spec fn next_after(
    mirror: usize,
    attempt: u32,
    mirrors: usize,
    retries: u32,
    base: u64,
) -> NextAttempt {
    if attempt < retries {
        NextAttempt::Try {
            mirror,
            attempt: (attempt + 1) as u32,
            wait_secs: doubled(base as nat, (attempt - 1) as nat) as u64,
        }
    } else if mirror + 1 < mirrors {
        NextAttempt::Try { mirror: (mirror + 1) as usize, attempt: 1, wait_secs: 0 }
    } else {
        NextAttempt::GiveUp
    }
}

/// Attempt `attempt` on mirror `mirror` failed: the same mirror is tried
/// again after an exponential backoff (`base`, then twice that, …) until
/// it has had `retries_per_mirror` attempts; then the next mirror, at
/// once; after the last mirror's last attempt the download gives up.
pub fn after_failure(
    mirror: usize,
    attempt: u32,
    mirrors: usize,
    retries_per_mirror: u32,
    backoff_base_secs: u64,
) -> (r: NextAttempt)
    requires
        in_schedule(mirror as int, attempt as int, mirrors as int, retries_per_mirror as int),
        backoff_fits(backoff_base_secs, attempt, retries_per_mirror),
    ensures
        r == next_after(mirror, attempt, mirrors, retries_per_mirror, backoff_base_secs),
{
    if attempt < retries_per_mirror {
        let wait = backoff_secs(backoff_base_secs, attempt);
        NextAttempt::Try { mirror, attempt: attempt + 1, wait_secs: wait }
    } else if mirror + 1 < mirrors {
        NextAttempt::Try { mirror: mirror + 1, attempt: 1, wait_secs: 0 }
    } else {
        NextAttempt::GiveUp
    }
}

/// The place of an attempt in the whole schedule, counting from one.
pub open spec fn attempt_number(mirror: int, attempt: int, retries: int) -> int {
    mirror * retries + attempt
}

/// Every failed attempt is followed by the very next one of the schedule,
/// and the download gives up exactly after the last: a package gets every
/// mirror's attempts, each once and in order, `mirrors · retries` in all.
pub proof fn law_attempts_run_in_order(
    mirror: usize,
    attempt: u32,
    mirrors: usize,
    retries: u32,
    base: u64,
)
    requires
        in_schedule(mirror as int, attempt as int, mirrors as int, retries as int),
    ensures
        match next_after(mirror, attempt, mirrors, retries, base) {
            NextAttempt::Try { mirror: m, attempt: a, .. } => {
                &&& in_schedule(m as int, a as int, mirrors as int, retries as int)
                &&& attempt_number(m as int, a as int, retries as int) == attempt_number(
                    mirror as int,
                    attempt as int,
                    retries as int,
                ) + 1
            },
            NextAttempt::GiveUp => attempt_number(mirror as int, attempt as int, retries as int)
                == mirrors * retries,
        },
{
    let (m, a, n, k) = (mirror as int, attempt as int, mirrors as int, retries as int);
    assert((m + 1) * k + 1 == m * k + k + 1) by (nonlinear_arith);
    if a == k && m + 1 >= n {
        assert(m == n - 1);
        assert(m * k + k == n * k) by (nonlinear_arith)
            requires
                m == n - 1,
        ;
    }
}

// ─────────────────────────── the server's answer ──────────────────────

/// The `Range` header that resumes a transfer from a part file of
/// `existing_size` bytes; none for a fresh start.
pub fn resume_range(existing_size: u64) -> (r: Option<String>)
    ensures
        match r {
            Some(h) => existing_size > 0 && h@ == "bytes="@ + dec(existing_size as nat) + "-"@,
            None => existing_size == 0,
        },
{
    if existing_size == 0 {
        return None;
    }
    let mut h = chars_of("bytes=");
    let n = decimal(existing_size);
    extend(&mut h, &n);
    extend_str(&mut h, "-");
    Some(chars_to_string(&h))
}

/// What the answer to a download request means.
#[derive(Debug, Clone, Copy, PartialEq, Eq)]
pub enum ResponseVerdict {
    /// A success other than 206: the whole file follows; write it afresh.
    Fresh,
    /// 206 Partial Content: the rest follows; append to the part file.
    Resumed,
    /// 416 to a resumed request: drop the part file; the next attempt
    /// starts from the beginning.
    ResumeRejected,
    /// Anything else: the attempt failed.
    Refused,
}

/// The meaning of HTTP status `status` for a request that asked to resume
/// at `resume_offset` (zero: it did not).
pub fn response_verdict(status: u16, resume_offset: u64) -> (r: ResponseVerdict)
    ensures
        r == (if status == 206 {
            ResponseVerdict::Resumed
        } else if 200 <= status <= 299 {
            ResponseVerdict::Fresh
        } else if status == 416 && resume_offset > 0 {
            ResponseVerdict::ResumeRejected
        } else {
            ResponseVerdict::Refused
        }),
{
    if status == 206 {
        ResponseVerdict::Resumed
    } else if 200 <= status && status <= 299 {
        ResponseVerdict::Fresh
    } else if status == 416 && resume_offset > 0 {
        ResponseVerdict::ResumeRejected
    } else {
        ResponseVerdict::Refused
    }
}

/// Whether the transfer's digest can be computed while it arrives: only a
/// fresh transfer sees the whole file; a resumed one is hashed from the
/// part file at the end.
pub fn hash_while_receiving(verdict: ResponseVerdict) -> (r: bool)
    ensures
        r <==> verdict == ResponseVerdict::Fresh,
{
    match verdict {
        ResponseVerdict::Fresh => true,
        _ => false,
    }
}

/// The failure of a rejected resume.
pub const RESUME_REJECTED: &'static str = "resume rejected, will retry from start";

/// `HTTP <status> for <url>`.
pub open spec fn http_failure(status: Seq<char>, url: Seq<char>) -> Seq<char> {
    "HTTP "@ + status + " for "@ + url
}

/// The failure of a refused request; `status` is the status as text.
pub fn http_failure_message(status: &str, url: &str) -> (r: String)
    ensures
        r@ == http_failure(status@, url@),
{
    let mut m = chars_of("HTTP ");
    extend_str(&mut m, status);
    extend_str(&mut m, " for ");
    extend_str(&mut m, url);
    chars_to_string(&m)
}

/// A whole number of seconds as `Duration`'s debug form shows it.
pub open spec fn secs_text(secs: nat) -> Seq<char> {
    if secs == 0 {
        "0ns"@
    } else {
        dec(secs) + "s"@
    }
}

/// `no data from <mirror> for <idle> (<downloaded> of <total> bytes)`.
pub open spec fn idle_failure(mirror: Seq<char>, idle_secs: nat, downloaded: nat, total: nat) -> Seq<
    char,
> {
    "no data from "@ + mirror + " for "@ + secs_text(idle_secs) + " ("@ + dec(downloaded) + " of "@
        + dec(total) + " bytes)"@
}

/// The failure of a transfer that stalled: no data for the idle timeout.
/// The part file stays, so the next attempt resumes from it.
pub fn idle_timeout_message(mirror: &str, idle_secs: u64, downloaded: u64, total: u64) -> (r:
    String)
    ensures
        r@ == idle_failure(mirror@, idle_secs as nat, downloaded as nat, total as nat),
{
    let mut m = chars_of("no data from ");
    extend_str(&mut m, mirror);
    extend_str(&mut m, " for ");
    if idle_secs == 0 {
        extend_str(&mut m, "0ns");
    } else {
        let s = decimal(idle_secs);
        extend(&mut m, &s);
        extend_str(&mut m, "s");
    }
    extend_str(&mut m, " (");
    let d = decimal(downloaded);
    extend(&mut m, &d);
    extend_str(&mut m, " of ");
    let t = decimal(total);
    extend(&mut m, &t);
    extend_str(&mut m, " bytes)");
    chars_to_string(&m)
}

/// `no mirrors available for <filename>`.
pub open spec fn no_mirrors(filename: Seq<char>) -> Seq<char> {
    "no mirrors available for "@ + filename
}

/// The failure of a package whose schedule held no attempt at all.
pub fn no_mirrors_message(filename: &str) -> (r: String)
    ensures
        r@ == no_mirrors(filename@),
{
    let mut m = chars_of("no mirrors available for ");
    extend_str(&mut m, filename);
    chars_to_string(&m)
}

/// The failure a package reports when its schedule is spent: the last
/// attempt's, or, when there was none, that no mirror was available.
pub fn final_failure(filename: &str, last_error: Option<String>) -> (r: String)
    ensures
        r@ == match last_error {
            Some(e) => e@,
            None => no_mirrors(filename@),
        },
{
    match last_error {
        Some(e) => e,
        None => no_mirrors_message(filename),
    }
}

/// The report of a batch whose downloads failed, `errors` in the order
/// they were collected: a cancellation is reported as such, anything else
/// as the number of failed downloads (the first failure is its cause).
pub open spec fn batch_failure(errors: Seq<Seq<char>>) -> Option<Seq<char>> {
    if errors.len() == 0 {
        None
    } else if contains_seq(errors[0], "cancelled"@) {
        Some("download cancelled"@)
    } else {
        Some(dec(errors.len()) + " package download(s) failed"@)
    }
}

/// The outcome of a batch: `Ok` when no download failed.
pub fn batch_outcome(errors: &Vec<String>) -> (r: Result<(), String>)
    ensures
        match batch_failure(errors@.map_values(|e: String| e@)) {
            None => r is Ok,
            Some(m) => r matches Err(e) && e@ == m,
        },
{
    let ghost ev = errors@.map_values(|e: String| e@);
    if errors.len() == 0 {
        return Ok(());
    }
    assert(ev[0] == errors@[0]@);
    if contains_str(&chars_of(errors[0].as_str()), "cancelled") {
        return Err("download cancelled".to_string());
    }
    let mut m = decimal(errors.len() as u64);
    extend_str(&mut m, " package download(s) failed");
    Err(chars_to_string(&m))
}

} // verus!
