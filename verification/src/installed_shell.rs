//! A maintenance shell in the installed system: its pool is imported under
//! a temporary directory that the session owns, and the session releases
//! only what it imported and mounted itself.

use vstd::prelude::*;

use crate::boot_environment::{be_root, BootEnvironment};
use crate::cmd::{arg_seq, check_exit, exit_message, CmdOutput, CommandRunner};
use crate::run_log::{added, extends, lemma_pushed, lemma_then, ran_as, single_run, Run, RunLog};
use crate::text::{
    chars_eq, chars_of, chars_to_string, dec, decimal, extend, extend_str, lines, split_lines,
    split_whitespace, trim, trimmed, views, words,
};
use crate::zfs_cleanup::OwnedMounts;

verus! {

/// The installed system a session opens.
#[derive(Debug, Clone)]
pub struct InstalledSystem {
    pub pool_name: String,
    pub pool_guid: String,
    pub dataset_prefix: String,
    pub efi_partuuid: String,
}

/// Whether a `zpool list -H -o name,guid` listing shows the pool: a line
/// whose first field is its name or whose second is its guid.
pub open spec fn listed_as_imported(ls: Seq<Seq<char>>, name: Seq<char>, guid: Seq<char>) -> bool {
    exists|i: int|
        0 <= i < ls.len() && ({
            let f = #[trigger] words(ls[i]);
            (f.len() > 0 && f[0] == name) || (f.len() > 1 && f[1] == guid)
        })
}

/// Whether the listing shows the installed pool imported already.
pub fn pool_already_imported(listing: &str, name: &str, guid: &str) -> (r: bool)
    ensures
        r == listed_as_imported(lines(listing@), name@, guid@),
{
    let ls = split_lines(listing);
    let n = chars_of(name);
    let g = chars_of(guid);
    let mut i: usize = 0;
    while i < ls.len()
        invariant
            i <= ls.len(),
            views(ls@) == lines(listing@),
            n@ == name@,
            g@ == guid@,
            forall|j: int|
                0 <= j < i ==> !({
                    let f = #[trigger] words(views(ls@)[j]);
                    (f.len() > 0 && f[0] == name@) || (f.len() > 1 && f[1] == guid@)
                }),
        decreases ls.len() - i,
    {
        let f = split_whitespace(&ls[i]);
        assert(views(ls@)[i as int] == ls@[i as int]@);
        let first = f.len() > 0 && chars_eq(&f[0], &n);
        let second = f.len() > 1 && chars_eq(&f[1], &g);
        proof {
            if f.len() > 0 {
                assert(views(f@)[0] == f@[0]@);
            }
            if f.len() > 1 {
                assert(views(f@)[1] == f@[1]@);
            }
        }
        if first || second {
            return true;
        }
        i = i + 1;
    }
    false
}

/// Why opening the session failed.
#[derive(Debug, Clone, PartialEq, Eq)]
pub enum PrepareError {
    /// The installed pool is imported already, by someone else.
    AlreadyImported,
    /// The pool imported is not the one asked for.
    IdentityChanged,
    /// A command failed; its message.
    Command(String),
}

/// The message of a failed preparation.
pub open spec fn prepare_message(e: PrepareError) -> Seq<char> {
    match e {
        PrepareError::AlreadyImported => "The installed pool is already imported. Close its other users and export it before opening this session."@,
        PrepareError::IdentityChanged => "Imported pool identity changed"@,
        PrepareError::Command(m) => m@,
    }
}

impl PrepareError {
    pub fn message(&self) -> (r: String)
        ensures
            r@ == prepare_message(*self),
    {
        match self {
            PrepareError::AlreadyImported => "The installed pool is already imported. Close its other users and export it before opening this session.".to_string(),
            PrepareError::IdentityChanged => "Imported pool identity changed".to_string(),
            PrepareError::Command(m) => m.clone(),
        }
    }
}

/// What running a command whose output is taken comes to: the runner's
/// failure; a failure naming the program, its exit code and stderr when it
/// exits non-zero; else its standard output, trimmed.
pub open spec fn command_outcome(o: Result<CmdOutput, String>, program: Seq<char>) -> Result<
    Seq<char>,
    Seq<char>,
> {
    match o {
        Err(e) => Err(e@),
        Ok(out) => if out.exit_code == 0 {
            Ok(trim(out.stdout@))
        } else {
            Err(exit_message(out, program))
        },
    }
}

/// A command's result as plain values; only `Command` failures come of it.
pub open spec fn command_view(r: Result<String, PrepareError>) -> Result<Seq<char>, Seq<char>> {
    match r {
        Ok(s) => Ok(s@),
        Err(PrepareError::Command(m)) => Err(m@),
        Err(_) => Err(seq![]),
    }
}

/// Run a command that must succeed, and take its output trimmed.
fn command<R: CommandRunner>(runner: &mut RunLog<R>, program: &str, args: &[&str]) -> (r: Result<
    String,
    PrepareError,
>)
    ensures
        r matches Err(e) ==> e is Command,
        extends(old(runner).runs(), final(runner).runs()),
        single_run(added(old(runner).runs(), final(runner).runs()), program@, arg_seq(args@)),
        command_view(r) == command_outcome(added(old(runner).runs(), final(runner).runs())[0].3, program@),
{
    let ghost start = runner.runs();
    let run = runner.run(program, args);
    proof {
        lemma_pushed(start, runner.runs());
    }
    let ghost g = run;
    let output = match run {
        Ok(o) => o,
        Err(e) => {
            assert(command_view(Err(PrepareError::Command(e))) == command_outcome(g, program@));
            return Err(PrepareError::Command(e));
        },
    };
    match check_exit(&output, program) {
        Ok(()) => {},
        Err(e) => {
            assert(command_view(Err(PrepareError::Command(e))) == command_outcome(g, program@));
            return Err(PrepareError::Command(e));
        },
    }
    let t = trimmed(&chars_of(output.stdout.as_str()));
    let r = Ok(chars_to_string(&t));
    assert(command_view(r) == command_outcome(g, program@));
    r
}

/// `zpool list -H -o name,guid`: the imported pools.
pub open spec fn list_pools_args() -> Seq<Seq<char>> {
    seq!["list"@, "-H"@, "-o"@, "name,guid"@]
}

/// `zpool import -N -R <dir> -o cachefile=none <guid>`.
pub open spec fn import_args(dir: Seq<char>, guid: Seq<char>) -> Seq<Seq<char>> {
    seq!["import"@, "-N"@, "-R"@, dir, "-o"@, "cachefile=none"@, guid]
}

/// `zpool get -H -o value guid <name>`.
pub open spec fn guid_args(name: Seq<char>) -> Seq<Seq<char>> {
    seq!["get"@, "-H"@, "-o"@, "value"@, "guid"@, name]
}

/// `res` is the failure of a command, with message `m`.
pub open spec fn command_failed(res: Result<(), PrepareError>, m: Seq<char>) -> bool {
    res matches Err(PrepareError::Command(s)) && s@ == m
}

/// The runs of `import_pool` for a session under `dir` (`made`), what they
/// come to (`res`) and whether the session owns the pool after it. First
/// the listing of imported pools; a pool listed by name or guid is refused.
/// Otherwise the import by guid under `dir`, without mounting and without
/// a cache file; once it succeeded the pool is owned. Then the guid of the
/// pool by name, which must be the installed pool's. No other run is made.
pub open spec fn import_runs(
    dir: Seq<char>,
    t: InstalledSystem,
    made: Seq<Run>,
    res: Result<(), PrepareError>,
    owned: bool,
) -> bool {
    &&& ran_as(made, 0, "zpool"@, list_pools_args())
    &&& match command_outcome(made[0].3, "zpool"@) {
        Err(m) => made.len() == 1 && command_failed(res, m) && !owned,
        Ok(pools) => if listed_as_imported(lines(pools), t.pool_name@, t.pool_guid@) {
            made.len() == 1 && res == Err::<(), PrepareError>(PrepareError::AlreadyImported) && !owned
        } else {
            &&& ran_as(made, 1, "zpool"@, import_args(dir, t.pool_guid@))
            &&& match command_outcome(made[1].3, "zpool"@) {
                Err(m) => made.len() == 2 && command_failed(res, m) && !owned,
                Ok(_) => {
                    &&& owned
                    &&& made.len() == 3
                    &&& ran_as(made, 2, "zpool"@, guid_args(t.pool_name@))
                    &&& match command_outcome(made[2].3, "zpool"@) {
                        Err(m) => command_failed(res, m),
                        Ok(g) => if g == t.pool_guid@ {
                            res == Ok::<(), PrepareError>(())
                        } else {
                            res == Err::<(), PrepareError>(PrepareError::IdentityChanged)
                        },
                    }
                },
            }
        },
    }
}

/// A maintenance session: its directory, and whether it has imported the
/// pool and mounted its datasets.
#[derive(Debug)]
pub struct ShellSession {
    pub directory: String,
    pub imported: bool,
    pub mounted: bool,
}

impl ShellSession {
    /// A session under `directory` that owns nothing yet.
    pub fn new(directory: &str) -> (r: ShellSession)
        ensures
            r.directory@ == directory@,
            !r.imported,
            !r.mounted,
    {
        ShellSession { directory: directory.to_string(), imported: false, mounted: false }
    }

    /// Import the installed pool under the session's directory, without
    /// mounting anything and without a cache file. A pool that is imported
    /// already belongs to someone else: the session refuses it and owns
    /// nothing. Once the import has run the pool is the session's, also
    /// when its identity then turns out wrong. The runs, and that there
    /// are no others, are `import_runs`.
    pub fn import_pool<R: CommandRunner>(&mut self, runner: &mut RunLog<R>, target: &InstalledSystem) -> (r:
        Result<(), PrepareError>)
        requires
            !old(self).imported,
        ensures
            final(self).directory == old(self).directory,
            final(self).mounted == old(self).mounted,
            r is Ok ==> final(self).imported,
            r == Err::<(), PrepareError>(PrepareError::AlreadyImported) ==> !final(self).imported,
            r == Err::<(), PrepareError>(PrepareError::IdentityChanged) ==> final(self).imported,
            extends(old(runner).runs(), final(runner).runs()),
            import_runs(old(self).directory@, *target, added(old(runner).runs(), final(runner).runs()), r, final(self).imported),
    {
        let ghost start = runner.runs();
        let largs = ["list", "-H", "-o", "name,guid"];
        assert(arg_seq(largs@) =~= list_pools_args());
        let listed = command(runner, "zpool", &largs);
        let ghost m1 = runner.runs();
        let pools = match listed {
            Ok(p) => p,
            Err(e) => {
                return Err(e);
            },
        };
        if pool_already_imported(pools.as_str(), target.pool_name.as_str(), target.pool_guid.as_str()) {
            return Err(PrepareError::AlreadyImported);
        }
        let iargs = [
            "import",
            "-N",
            "-R",
            self.directory.as_str(),
            "-o",
            "cachefile=none",
            target.pool_guid.as_str(),
        ];
        assert(arg_seq(iargs@) =~= import_args(self.directory@, target.pool_guid@));
        let imported = command(runner, "zpool", &iargs);
        let ghost m2 = runner.runs();
        proof {
            lemma_then(start, m1, m2);
            assert(added(start, m2)[0] == added(start, m1)[0]);
            assert(added(start, m2)[1] == added(m1, m2)[0]);
        }
        match imported {
            Ok(_) => {},
            Err(e) => {
                return Err(e);
            },
        }
        self.imported = true;
        let gargs = ["get", "-H", "-o", "value", "guid", target.pool_name.as_str()];
        assert(arg_seq(gargs@) =~= guid_args(target.pool_name@));
        let got = command(runner, "zpool", &gargs);
        proof {
            lemma_then(start, m2, runner.runs());
            assert(added(start, runner.runs())[0] == added(start, m2)[0]);
            assert(added(start, runner.runs())[1] == added(start, m2)[1]);
            assert(added(start, runner.runs())[2] == added(m2, runner.runs())[0]);
        }
        let guid = match got {
            Ok(g) => g,
            Err(e) => {
                return Err(e);
            },
        };
        if !chars_eq(&chars_of(guid.as_str()), &chars_of(target.pool_guid.as_str())) {
            return Err(PrepareError::IdentityChanged);
        }
        Ok(())
    }

    /// What the session owns, for its cleanup: the mounts under its
    /// directory, and the pool only when the session imported it.
    pub fn owned_mounts(&self, target: &InstalledSystem) -> (r: OwnedMounts)
        ensures
            r.root@ == self.directory@,
            r.root_dataset@ == be_root(target.pool_name@, target.dataset_prefix@),
            match r.pool_to_export {
                Some(p) => self.imported && p@ == target.pool_name@,
                None => !self.imported,
            },
    {
        let be = BootEnvironment::new(target.pool_name.as_str(), target.dataset_prefix.as_str());
        OwnedMounts {
            root: self.directory.clone(),
            root_dataset: be.root_dataset(),
            pool_to_export: if self.imported {
                Some(target.pool_name.clone())
            } else {
                None
            },
        }
    }
}

/// The systemd unit that runs the shell of process `pid`.
pub open spec fn shell_unit(pid: nat) -> Seq<char> {
    "azfs-shell-"@ + dec(pid) + ".service"@
}

pub fn shell_unit_name(pid: u32) -> (r: String)
    ensures
        r@ == shell_unit(pid as nat),
{
    let mut u = chars_of("azfs-shell-");
    let d = decimal(pid as u64);
    extend(&mut u, &d);
    extend_str(&mut u, ".service");
    chars_to_string(&u)
}

/// After the shell: a unit that could not be stopped must at least be
/// gone (`LoadState` `not-found`), or the session cannot be released.
pub fn stop_verdict(unit: &str, stopped: bool, load_state: &str) -> (r: Result<(), String>)
    ensures
        r is Ok <==> (stopped || load_state@ == "not-found"@),
        r matches Err(m) ==> m@ == "Could not stop maintenance session "@ + unit@,
{
    if stopped || chars_eq(&chars_of(load_state), &chars_of("not-found")) {
        return Ok(());
    }
    let mut m = chars_of("Could not stop maintenance session ");
    extend_str(&mut m, unit);
    Err(chars_to_string(&m))
}

/// What the installer reports once the session is over and released.
pub open spec fn session_report(result: Result<(), Seq<char>>) -> Seq<char> {
    match result {
        Ok(()) => "Shell closed. Session mounts were released; the installed pool was exported."@,
        Err(e) => "Installation is complete. Maintenance session: "@ + e + ". Session cleanup completed."@,
    }
}

pub fn session_outcome(result: Result<(), String>) -> (r: String)
    ensures
        r@ == session_report(match result {
            Ok(()) => Ok(()),
            Err(e) => Err(e@),
        }),
{
    match result {
        Ok(()) => "Shell closed. Session mounts were released; the installed pool was exported.".to_string(),
        Err(e) => {
            let mut m = chars_of("Installation is complete. Maintenance session: ");
            extend_str(&mut m, e.as_str());
            extend_str(&mut m, ". Session cleanup completed.");
            chars_to_string(&m)
        },
    }
}

} // verus!
