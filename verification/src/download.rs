//! Bookkeeping of the package downloader: per-package states, the
//! aggregate progress derived from them, and transfer-rate measurement.

use vstd::prelude::*;

use crate::path::final_name;
use crate::text::{chars_of, chars_to_string, extend_str};

verus! {

/// Metadata needed to download a single package.
pub struct DownloadTask {
    pub filename: String,
    pub servers: Vec<String>,
    pub sha256: Option<String>,
    pub size: i64,
}

/// Configuration for the download manager. Durations are in seconds.
#[derive(Clone, Debug)]
pub struct DownloadConfig {
    /// Max parallel downloads (default: 5).
    pub concurrency: usize,
    /// Max retries per mirror before moving to the next (default: 3).
    pub retries_per_mirror: u32,
    /// Base delay for exponential backoff (default: 1s).
    pub backoff_base_secs: u64,
    /// Connection timeout (default: 10s).
    pub connect_timeout_secs: u64,
    /// Idle timeout — abort if no data received for this long (default: 30s).
    pub idle_timeout_secs: u64,
}

impl Default for DownloadConfig {
    fn default() -> (r: Self)
        ensures
            r.concurrency == 5,
            r.retries_per_mirror == 3,
            r.backoff_base_secs == 1,
            r.connect_timeout_secs == 10,
            r.idle_timeout_secs == 30,
    {
        DownloadConfig {
            concurrency: 5,
            retries_per_mirror: 3,
            backoff_base_secs: 1,
            connect_timeout_secs: 10,
            idle_timeout_secs: 30,
        }
    }
}

/// State of a single package download.
#[derive(Clone, Debug)]
pub enum PackageState {
    Queued,
    Downloading {
        filename: String,
        downloaded: u64,
        total: u64,
        speed_bps: u64,
        mirror: String,
        attempt: u32,
    },
    Verifying { filename: String, bytes: u64 },
    Done { filename: String, bytes: u64 },
    Failed { filename: String, error: String },
}

/// Bytes of the package that are on disk in this state.
pub open spec fn on_disk(s: PackageState) -> nat {
    match s {
        PackageState::Downloading { downloaded, .. } => downloaded as nat,
        PackageState::Verifying { bytes, .. } => bytes as nat,
        PackageState::Done { bytes, .. } => bytes as nat,
        _ => 0,
    }
}

/// The transfer rate of a package that is downloading.
pub open spec fn rate(s: PackageState) -> nat {
    match s {
        PackageState::Downloading { speed_bps, .. } => speed_bps as nat,
        _ => 0,
    }
}

/// The sum of `f` over the states.
pub open spec fn sum_of(ps: Seq<PackageState>, f: spec_fn(PackageState) -> nat) -> nat
    decreases ps.len(),
{
    if ps.len() == 0 {
        0
    } else {
        sum_of(ps.drop_last(), f) + f(ps.last())
    }
}

/// How many states satisfy `p`.
pub open spec fn count_of(ps: Seq<PackageState>, p: spec_fn(PackageState) -> bool) -> nat
    decreases ps.len(),
{
    if ps.len() == 0 {
        0
    } else {
        count_of(ps.drop_last(), p) + if p(ps.last()) {
            1nat
        } else {
            0nat
        }
    }
}

pub open spec fn is_downloading(s: PackageState) -> bool {
    s is Downloading
}

pub open spec fn is_done(s: PackageState) -> bool {
    s is Done
}

pub open spec fn is_failed(s: PackageState) -> bool {
    s is Failed
}

impl PackageState {
    /// Bytes of this package that are on disk.
    ///
    /// Taken from the package's own state rather than accumulated as chunks
    /// arrive: a download that fails partway and is retried against another
    /// mirror would otherwise have its bytes counted once per attempt.
    pub fn bytes_on_disk(&self) -> (r: u64)
        ensures
            r == on_disk(*self),
    {
        match self {
            PackageState::Downloading { downloaded, .. } => *downloaded,
            PackageState::Verifying { bytes, .. } => *bytes,
            PackageState::Done { bytes, .. } => *bytes,
            _ => 0,
        }
    }
}

/// Aggregate package progress. Covers the download phase and the install
/// phase that follows it.
#[derive(Clone, Debug)]
pub enum PackageProgress {
    Downloading {
        packages: Vec<PackageState>,
        total_bytes: u64,
        downloaded_bytes: u64,
        active_downloads: usize,
        completed: usize,
        failed: usize,
    },
    Installing { package: String, current: usize, total: usize, percent: u32 },
    Done,
}

impl Default for PackageProgress {
    fn default() -> (r: Self)
        ensures
            r matches PackageProgress::Downloading {
                packages,
                total_bytes,
                downloaded_bytes,
                active_downloads,
                completed,
                failed,
            } && packages@.len() == 0 && total_bytes == 0 && downloaded_bytes == 0
                && active_downloads == 0 && completed == 0 && failed == 0,
    {
        PackageProgress::Downloading {
            packages: Vec::new(),
            total_bytes: 0,
            downloaded_bytes: 0,
            active_downloads: 0,
            completed: 0,
            failed: 0,
        }
    }
}

/// The overall transfer rate: the sum over packages that are downloading.
pub open spec fn total_rate(p: ProgressView) -> nat {
    match p {
        ProgressView::Downloading { packages, .. } => sum_of(packages, |s: PackageState| rate(s)),
        _ => 0,
    }
}

/// The seconds left at the current rate, when anything is downloading.
pub open spec fn eta_secs(p: ProgressView) -> Option<u64> {
    match p {
        ProgressView::Downloading { total_bytes, downloaded_bytes, .. } => {
            if total_rate(p) == 0 {
                None
            } else {
                let remaining: int = if total_bytes >= downloaded_bytes {
                    total_bytes - downloaded_bytes
                } else {
                    0
                };
                Some((remaining / (total_rate(p) as int)) as u64)
            }
        },
        _ => None,
    }
}

/// A progress report as plain values.
pub ghost enum ProgressView {
    Downloading {
        packages: Seq<PackageState>,
        total_bytes: u64,
        downloaded_bytes: u64,
        active_downloads: usize,
        completed: usize,
        failed: usize,
    },
    Installing { package: Seq<char>, current: usize, total: usize, percent: u32 },
    Done,
}

impl View for PackageProgress {
    type V = ProgressView;

    open spec fn view(&self) -> ProgressView {
        match self {
            PackageProgress::Downloading {
                packages,
                total_bytes,
                downloaded_bytes,
                active_downloads,
                completed,
                failed,
            } => ProgressView::Downloading {
                packages: packages@,
                total_bytes: *total_bytes,
                downloaded_bytes: *downloaded_bytes,
                active_downloads: *active_downloads,
                completed: *completed,
                failed: *failed,
            },
            PackageProgress::Installing { package, current, total, percent } => {
                ProgressView::Installing {
                    package: package@,
                    current: *current,
                    total: *total,
                    percent: *percent,
                }
            },
            PackageProgress::Done => ProgressView::Done,
        }
    }
}

/// The progress after package `index` enters `state`: the vector records
/// it, and every counter is recomputed from the vector. Outside the
/// download phase nothing changes.
pub open spec fn recorded(p: ProgressView, index: int, state: PackageState) -> ProgressView {
    match p {
        ProgressView::Downloading { packages, total_bytes, .. } => {
            let ps = packages.update(index, state);
            ProgressView::Downloading {
                packages: ps,
                total_bytes,
                downloaded_bytes: sum_of(ps, |s: PackageState| on_disk(s)) as u64,
                active_downloads: count_of(ps, |s: PackageState| is_downloading(s)) as usize,
                completed: count_of(ps, |s: PackageState| is_done(s)) as usize,
                failed: count_of(ps, |s: PackageState| is_failed(s)) as usize,
            }
        },
        _ => p,
    }
}

/// The package states of a downloading phase.
pub open spec fn states(p: ProgressView) -> Seq<PackageState> {
    match p {
        ProgressView::Downloading { packages, .. } => packages,
        _ => seq![],
    }
}

/// The counters of a downloading phase agree with its package states.
pub open spec fn counters_consistent(p: ProgressView) -> bool {
    match p {
        ProgressView::Downloading {
            packages,
            downloaded_bytes,
            active_downloads,
            completed,
            failed,
            ..
        } => {
            &&& downloaded_bytes == sum_of(packages, |s: PackageState| on_disk(s))
            &&& active_downloads == count_of(packages, |s: PackageState| is_downloading(s))
            &&& completed == count_of(packages, |s: PackageState| is_done(s))
            &&& failed == count_of(packages, |s: PackageState| is_failed(s))
        },
        _ => true,
    }
}

proof fn lemma_count_bound(ps: Seq<PackageState>, p: spec_fn(PackageState) -> bool)
    ensures
        count_of(ps, p) <= ps.len(),
    decreases ps.len(),
{
    if ps.len() > 0 {
        lemma_count_bound(ps.drop_last(), p);
    }
}

impl PackageProgress {
    /// Overall download speed in bytes/sec (only meaningful in Downloading phase).
    pub fn total_speed_bps(&self) -> (r: u64)
        requires
            total_rate(self@) <= u64::MAX,
        ensures
            r == total_rate(self@),
    {
        match self {
            PackageProgress::Downloading { packages, .. } => {
                let mut sum: u64 = 0;
                for i in 0..packages.len()
                    invariant
                        sum == sum_of(packages@.take(i as int), |s: PackageState| rate(s)),
                        sum_of(packages@, |s: PackageState| rate(s)) <= u64::MAX,
                {
                    proof {
                        assert(packages@.take(i + 1).drop_last() == packages@.take(i as int));
                        lemma_sum_prefix(packages@, i + 1, |s: PackageState| rate(s));
                    }
                    let add = match &packages[i] {
                        PackageState::Downloading { speed_bps, .. } => *speed_bps,
                        _ => 0,
                    };
                    sum = sum + add;
                }
                assert(packages@.take(packages.len() as int) == packages@);
                sum
            },
            _ => 0,
        }
    }

    /// Estimated seconds remaining for the download phase; `None` while
    /// nothing is transferring, and outside the download phase.
    pub fn eta(&self) -> (r: Option<u64>)
        requires
            total_rate(self@) <= u64::MAX,
        ensures
            r == eta_secs(self@),
    {
        match self {
            PackageProgress::Downloading { total_bytes, downloaded_bytes, .. } => {
                let speed = self.total_speed_bps();
                if speed == 0 {
                    return None;
                }
                let remaining = total_bytes.saturating_sub(*downloaded_bytes);
                Some(remaining / speed)
            },
            _ => None,
        }
    }

    /// Record `state` for package `index` and recompute the aggregates.
    ///
    /// The counters are derived from the package vector instead of being
    /// adjusted per transition: a package counted as cached (queued
    /// straight to done), or sent from verifying back to downloading by a
    /// failed digest, keeps every counter equal to what the states say.
    /// Outside the download phase nothing changes.
    pub fn record_package(&mut self, index: usize, state: PackageState)
        requires
            old(self)@ is Downloading ==> index < states(old(self)@).len(),
            old(self)@ is Downloading ==> sum_of(
                states(old(self)@).update(index as int, state),
                |s: PackageState| on_disk(s),
            ) <= u64::MAX,
        ensures
            final(self)@ == recorded(old(self)@, index as int, state),
            counters_consistent(final(self)@),
    {
        match self {
            PackageProgress::Downloading {
                packages,
                downloaded_bytes,
                active_downloads,
                completed,
                failed,
                ..
            } => {
                packages.set(index, state);
                let mut bytes: u64 = 0;
                let mut active: usize = 0;
                let mut done: usize = 0;
                let mut bad: usize = 0;
                for i in 0..packages.len()
                    invariant
                        bytes == sum_of(packages@.take(i as int), |s: PackageState| on_disk(s)),
                        active == count_of(
                            packages@.take(i as int),
                            |s: PackageState| is_downloading(s),
                        ),
                        done == count_of(packages@.take(i as int), |s: PackageState| is_done(s)),
                        bad == count_of(packages@.take(i as int), |s: PackageState| is_failed(s)),
                        active <= i,
                        done <= i,
                        bad <= i,
                        sum_of(packages@, |s: PackageState| on_disk(s)) <= u64::MAX,
                {
                    proof {
                        assert(packages@.take(i + 1).drop_last() == packages@.take(i as int));
                        lemma_sum_prefix(packages@, i + 1, |s: PackageState| on_disk(s));
                    }
                    match &packages[i] {
                        PackageState::Downloading { downloaded, .. } => {
                            bytes = bytes + *downloaded;
                            active = active + 1;
                        },
                        PackageState::Verifying { bytes: b, .. } => {
                            bytes = bytes + *b;
                        },
                        PackageState::Done { bytes: b, .. } => {
                            bytes = bytes + *b;
                            done = done + 1;
                        },
                        PackageState::Failed { .. } => {
                            bad = bad + 1;
                        },
                        PackageState::Queued => {},
                    }
                }
                assert(packages@.take(packages.len() as int) == packages@);
                *downloaded_bytes = bytes;
                *active_downloads = active;
                *completed = done;
                *failed = bad;
            },
            _ => {},
        }
    }
}

proof fn lemma_sum_prefix(ps: Seq<PackageState>, n: int, f: spec_fn(PackageState) -> nat)
    requires
        0 <= n <= ps.len(),
    ensures
        sum_of(ps.take(n), f) <= sum_of(ps, f),
    decreases ps.len() - n,
{
    if n < ps.len() {
        assert(ps.drop_last().take(n) == ps.take(n));
        lemma_sum_prefix(ps.drop_last(), n, f);
    } else {
        assert(ps.take(n) == ps);
    }
}

/// The aggregates depend only on the latest state of each package: a
/// package recorded twice leaves the same progress as if only its second
/// state had been recorded. A retried download is never counted twice.
pub proof fn law_latest_state_counts(
    p: ProgressView,
    index: int,
    first: PackageState,
    second: PackageState,
)
    requires
        p is Downloading,
        0 <= index < states(p).len(),
    ensures
        recorded(recorded(p, index, first), index, second) == recorded(p, index, second),
{
    let ps = states(p);
    assert(ps.update(index, first).update(index, second) =~= ps.update(index, second));
}

/// Sum of the tasks' sizes, negative sizes counting as zero.
pub open spec fn task_bytes(tasks: Seq<DownloadTask>) -> nat
    decreases tasks.len(),
{
    if tasks.len() == 0 {
        0
    } else {
        task_bytes(tasks.drop_last()) + if tasks.last().size > 0 {
            tasks.last().size as nat
        } else {
            0nat
        }
    }
}

/// The bytes a set of downloads amounts to.
pub fn total_task_bytes(tasks: &[DownloadTask]) -> (r: u64)
    requires
        task_bytes(tasks@) <= u64::MAX,
    ensures
        r == task_bytes(tasks@),
{
    let mut sum: u64 = 0;
    for i in 0..tasks.len()
        invariant
            sum == task_bytes(tasks@.take(i as int)),
            task_bytes(tasks@) <= u64::MAX,
    {
        proof {
            assert(tasks@.take(i + 1).drop_last() == tasks@.take(i as int));
            lemma_task_bytes_prefix(tasks@, i + 1);
        }
        let s = tasks[i].size;
        let add: u64 = if s > 0 {
            s as u64
        } else {
            0
        };
        sum = sum + add;
    }
    assert(tasks@.take(tasks.len() as int) == tasks@);
    sum
}

proof fn lemma_task_bytes_prefix(ts: Seq<DownloadTask>, n: int)
    requires
        0 <= n <= ts.len(),
    ensures
        task_bytes(ts.take(n)) <= task_bytes(ts),
    decreases ts.len() - n,
{
    if n < ts.len() {
        assert(ts.drop_last().take(n) == ts.take(n));
        lemma_task_bytes_prefix(ts.drop_last(), n);
    } else {
        assert(ts.take(n) == ts);
    }
}

/// Bytes recorded in a rate window.
pub open spec fn window_bytes(w: Seq<(u64, u64)>) -> nat
    decreases w.len(),
{
    if w.len() == 0 {
        0
    } else {
        window_bytes(w.drop_last()) + (w.last().1 as nat)
    }
}

/// The entries of `w` recorded at or after `cutoff`, in order.
pub open spec fn since(w: Seq<(u64, u64)>, cutoff: u64) -> Seq<(u64, u64)> {
    w.filter(|e: (u64, u64)| e.0 >= cutoff)
}

/// The rate over a window: bytes per second between its first and last
/// entry, zero with fewer than two entries or no time between them.
pub open spec fn window_rate(w: Seq<(u64, u64)>) -> u64 {
    if w.len() < 2 {
        0
    } else {
        let elapsed: int = if w.last().0 >= w[0].0 {
            w.last().0 - w[0].0
        } else {
            0
        };
        if elapsed == 0 {
            0
        } else {
            let r: int = (window_bytes(w) * 1_000_000_000) as int / elapsed;
            if r > u64::MAX {
                u64::MAX
            } else {
                r as u64
            }
        }
    }
}

/// Transfer rate over the last few seconds. Times are nanoseconds on a
/// monotonic clock.
pub struct SpeedTracker {
    /// (time, bytes) of each chunk still inside the window.
    pub window: Vec<(u64, u64)>,
    pub window_ns: u64,
}

impl SpeedTracker {
    /// An empty tracker with a five-second window.
    pub fn new() -> (r: Self)
        ensures
            r.window@.len() == 0,
            r.window_ns == 5_000_000_000,
    {
        SpeedTracker { window: Vec::new(), window_ns: 5_000_000_000 }
    }

    /// Record `bytes` received at `now`, and forget what fell out of the
    /// window.
    pub fn record(&mut self, now: u64, bytes: u64)
        ensures
            final(self).window_ns == old(self).window_ns,
            final(self).window@ == since(
                old(self).window@.push((now, bytes)),
                if now >= old(self).window_ns {
                    (now - old(self).window_ns) as u64
                } else {
                    0
                },
            ),
    {
        self.window.push((now, bytes));
        let cutoff = now.saturating_sub(self.window_ns);
        let ghost all = self.window@;
        let mut kept: Vec<(u64, u64)> = Vec::new();
        for i in 0..self.window.len()
            invariant
                all == self.window@,
                kept@ == since(all.take(i as int), cutoff),
        {
            let e = self.window[i];
            proof {
                assert(all.take(i + 1).drop_last() == all.take(i as int));
                reveal_with_fuel(Seq::filter, 1);
            }
            if e.0 >= cutoff {
                kept.push(e);
            }
        }
        assert(all.take(all.len() as int) == all);
        self.window = kept;
    }

    /// Bytes per second over the window.
    pub fn speed_bps(&self) -> (r: u64)
        requires
            window_bytes(self.window@) <= u64::MAX,
        ensures
            r == window_rate(self.window@),
    {
        if self.window.len() < 2 {
            return 0;
        }
        let mut total: u64 = 0;
        for i in 0..self.window.len()
            invariant
                total == window_bytes(self.window@.take(i as int)),
                window_bytes(self.window@) <= u64::MAX,
        {
            proof {
                assert(self.window@.take(i + 1).drop_last() == self.window@.take(i as int));
                lemma_window_prefix(self.window@, i + 1);
            }
            total = total + self.window[i].1;
        }
        assert(self.window@.take(self.window.len() as int) == self.window@);
        let last = self.window[self.window.len() - 1].0;
        let first = self.window[0].0;
        let elapsed = last.saturating_sub(first);
        if elapsed == 0 {
            return 0;
        }
        let rate: u128 = (total as u128) * 1_000_000_000 / (elapsed as u128);
        if rate > u64::MAX as u128 {
            u64::MAX
        } else {
            rate as u64
        }
    }
}

proof fn lemma_window_prefix(w: Seq<(u64, u64)>, n: int)
    requires
        0 <= n <= w.len(),
    ensures
        window_bytes(w.take(n)) <= window_bytes(w),
    decreases w.len() - n,
{
    if n < w.len() {
        assert(w.drop_last().take(n) == w.take(n));
        lemma_window_prefix(w.drop_last(), n);
    } else {
        assert(w.take(n) == w);
    }
}

/// What `Path::with_file_name` gives: the path with its final name
/// replaced by `name`.
pub uninterp spec fn with_file_name_of(path: Seq<char>, name: Seq<char>) -> Seq<char>;

/// `Path::file_name`, for a path given as UTF-8 text: as its documentation
/// says, the final component of the path when that is a name, and none
/// for the root, `.`, `..` or an empty path.
#[verifier::external_body]
pub(crate) fn file_name(path: &str) -> (r: Option<String>)
    ensures
        match r {
            Some(n) => final_name(path@) == Some(n@),
            None => final_name(path@) is None,
        },
{
    std::path::Path::new(path).file_name().map(|n| n.to_string_lossy().into_owned())
}

/// `Path::with_file_name`, for UTF-8 text. The result is the named value
/// of the arguments; nothing more is claimed.
#[verifier::external_body]
fn with_file_name(path: &str, name: &str) -> (r: String)
    ensures
        r@ == with_file_name_of(path@, name@),
{
    std::path::Path::new(path).with_file_name(name).to_string_lossy().into_owned()
}

/// The partial file a download is written to before it is complete: the
/// destination's name with `.part` appended.
pub fn part_file_path(dest: &str) -> (r: String)
    ensures
        r@ == with_file_name_of(
            dest@,
            match final_name(dest@) {
                Some(n) => n,
                None => Seq::<char>::empty(),
            } + ".part"@,
        ),
{
    let mut name = match file_name(dest) {
        Some(n) => chars_of(n.as_str()),
        None => Vec::new(),
    };
    extend_str(&mut name, ".part");
    let name_s = chars_to_string(&name);
    with_file_name(dest, name_s.as_str())
}

} // verus!
