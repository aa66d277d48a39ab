//! ZFS services of the installed system and the live medium's ZFS setup.

use vstd::prelude::*;

use crate::cmd::{arg_seq, bool_view, unit_view, CmdOutput, CommandRunner};
use crate::run_log::{added, call, extends, lemma_added, lemma_pushed, ran_as, single_run, Run, RunLog};
use crate::text::{
    chars_of, chars_to_string, contains_seq, contains_str, extend_str, lowercase, lowercase_of, trim,
    trimmed,
};

verus! {

/// Units the installed system enables.
pub const ZFS_SERVICES: [&'static str; 5] = [
    "zfs.target",
    "zfs-import.target",
    "zfs-volumes.target",
    "zfs-import-scan.service",
    "zfs-zed.service",
];

/// Units the installed system must keep disabled.
///
/// * `zfs-mount.service` runs `zfs mount -a`, which mounts every `canmount=on`
///   dataset in the pool — including the other boot environments' `/home`,
///   `/root`, … — inside the running one. Mounting is done by
///   `zfs-mount-generator` from `zfs-list.cache`, which the ZED hook restricts
///   to the booted BE.
/// * `zfs-import-cache.service` needs `/etc/zfs/zpool.cache`; pools are created
///   with `cachefile=none` and imported by `zfs-import-scan.service` instead.
/// * `zfs-share.service` exports NFS/SMB shares nobody configured.
pub const ZFS_DISABLED_SERVICES: [&'static str; 3] = [
    "zfs-mount.service",
    "zfs-share.service",
    "zfs-import-cache.service",
];

/// Where the preset policy is installed on the target. The `00-` prefix makes
/// it sort before the ZFS package's `50-zfs.preset`; presets are matched first
/// line wins across `/etc` and `/usr/lib`, so this file overrides it.
pub const ZFS_PRESET_PATH: &'static str = "etc/systemd/system-preset/00-zfs-mount-generator.preset";

/// The comment the preset file opens with.
pub open spec fn preset_header() -> Seq<char> {
    "# Written by archinstall_zfs. Mounting is handled by zfs-mount-generator from\n# /etc/zfs/zfs-list.cache; zfs-mount.service would also mount the datasets of\n# other boot environments sharing this pool. The pool has cachefile=none, so\n# it is imported by scanning. Sorts before the package's 50-zfs.preset; the\n# first matching line wins.\n"@
}

/// `verb unit\n` for each unit.
pub open spec fn directives(verb: Seq<char>, units: Seq<&'static str>) -> Seq<char>
    decreases units.len(),
{
    if units.len() == 0 {
        seq![]
    } else {
        directives(verb, units.drop_last()) + verb + seq![' '] + units.last()@ + seq!['\n']
    }
}

/// The `systemd.preset(5)` policy: the disabled units, then the enabled.
pub open spec fn preset_policy() -> Seq<char> {
    preset_header() + directives("disable"@, ZFS_DISABLED_SERVICES@) + directives(
        "enable"@,
        ZFS_SERVICES@,
    )
}

fn push_directives(out: &mut Vec<char>, verb: &str, units: &[&'static str])
    ensures
        final(out)@ == old(out)@ + directives(verb@, units@),
{
    for i in 0..units.len()
        invariant
            out@ == old(out)@ + directives(verb@, units@.take(i as int)),
    {
        extend_str(out, verb);
        out.push(' ');
        extend_str(out, units[i]);
        out.push('\n');
        assert(units@.take(i + 1).drop_last() == units@.take(i as int));
    }
    assert(units@.take(units.len() as int) == units@);
}

/// The `systemd.preset(5)` policy matching [`ZFS_SERVICES`] and
/// [`ZFS_DISABLED_SERVICES`].
///
/// `systemctl enable` at install time decides the state once; presets decide
/// it again whenever systemd is asked to — `systemctl preset-all`, a package's
/// post-install `systemctl preset`, and every "first boot". The stock
/// `50-zfs.preset` enables `zfs-mount.service` and disables
/// `zfs-import-scan.service`, so any of those events would silently undo the
/// installer's choices. Pinning the policy here keeps them in force.
pub fn zfs_preset_policy() -> (r: String)
    ensures
        r@ == preset_policy(),
{
    let mut out = chars_of(
        "# Written by archinstall_zfs. Mounting is handled by zfs-mount-generator from\n# /etc/zfs/zfs-list.cache; zfs-mount.service would also mount the datasets of\n# other boot environments sharing this pool. The pool has cachefile=none, so\n# it is imported by scanning. Sorts before the package's 50-zfs.preset; the\n# first matching line wins.\n",
    );
    let disabled = ZFS_DISABLED_SERVICES;
    let enabled = ZFS_SERVICES;
    push_directives(&mut out, "disable", disabled.as_slice());
    push_directives(&mut out, "enable", enabled.as_slice());
    chars_to_string(&out)
}

/// No unit is both enabled and disabled: presets are "first match wins",
/// so a unit in both lists would be decided silently by the order.
pub proof fn law_no_unit_enabled_and_disabled()
    ensures
        forall|i: int, j: int|
            0 <= i < ZFS_DISABLED_SERVICES@.len() && 0 <= j < ZFS_SERVICES@.len()
                ==> (#[trigger] ZFS_DISABLED_SERVICES@[i])@ != (#[trigger] ZFS_SERVICES@[j])@,
{
    reveal_strlit("zfs.target");
    reveal_strlit("zfs-import.target");
    reveal_strlit("zfs-volumes.target");
    reveal_strlit("zfs-import-scan.service");
    reveal_strlit("zfs-zed.service");
    reveal_strlit("zfs-mount.service");
    reveal_strlit("zfs-share.service");
    reveal_strlit("zfs-import-cache.service");
    let en = ZFS_SERVICES@;
    let dis = ZFS_DISABLED_SERVICES@;
    assert(en.len() == 5 && dis.len() == 3);
    assert(en[0]@ == "zfs.target"@ && en[1]@ == "zfs-import.target"@ && en[2]@
        == "zfs-volumes.target"@ && en[3]@ == "zfs-import-scan.service"@ && en[4]@
        == "zfs-zed.service"@);
    assert(dis[0]@ == "zfs-mount.service"@ && dis[1]@ == "zfs-share.service"@ && dis[2]@
        == "zfs-import-cache.service"@);
    assert("zfs-mount.service"@[4] != "zfs-import.target"@[4]);
    assert("zfs-share.service"@[4] != "zfs-import.target"@[4]);
    assert forall|i: int, j: int| 0 <= i < dis.len() && 0 <= j < en.len() implies (
    #[trigger] dis[i])@ != (#[trigger] en[j])@ by {
        if (dis[i])@ == (en[j])@ {
            assert((dis[i])@.len() == (en[j])@.len());
            if i == 0 && j == 1 {
                assert((dis[i])@[4] == (en[j])@[4]);
            } else if i == 1 && j == 1 {
                assert((dis[i])@[4] == (en[j])@[4]);
            }
        }
    }
}

/// The packages that bring ZFS to the live medium: the module built for
/// `kernel`, or the DKMS module with the kernel's headers.
pub open spec fn host_packages(kernel: Seq<char>, precompiled: bool) -> Seq<Seq<char>> {
    if precompiled {
        seq!["zfs-utils"@, "zfs-"@ + kernel]
    } else {
        seq!["zfs-dkms"@, "zfs-utils"@, kernel + "-headers"@]
    }
}

pub fn zfs_host_packages(kernel: &str, precompiled: bool) -> (r: Vec<String>)
    ensures
        r@.map_values(|s: String| s@) == host_packages(kernel@, precompiled),
{
    if precompiled {
        let mut p = chars_of("zfs-");
        extend_str(&mut p, kernel);
        let r = vec!["zfs-utils".to_string(), chars_to_string(&p)];
        assert(r@.map_values(|s: String| s@) =~= host_packages(kernel@, precompiled));
        r
    } else {
        let mut h = chars_of(kernel);
        extend_str(&mut h, "-headers");
        let r = vec!["zfs-dkms".to_string(), "zfs-utils".to_string(), chars_to_string(&h)];
        assert(r@.map_values(|s: String| s@) =~= host_packages(kernel@, precompiled));
        r
    }
}

/// Whether a `reflector.service` sub-state means it is no longer running:
/// `dead`, `failed`, `exited`, or nothing reported.
pub open spec fn reflector_settled(substate: Seq<char>) -> bool {
    substate == "dead"@ || substate == "failed"@ || substate == "exited"@ || substate.len() == 0
}

/// How many times reflector's state is polled, a second apart, before the
/// installer stops waiting for it.
pub const REFLECTOR_WAIT_POLLS: u32 = 300;

/// What follows a poll of reflector's state.
#[derive(Debug, Clone, Copy, PartialEq, Eq)]
pub enum ReflectorWait {
    /// Sleep a second, then poll again.
    Poll,
    /// Stop waiting, and stop reflector for good.
    Stop,
}

/// After `polls` polls, the last of which found reflector `finished`:
/// stop once it is finished or the polls are used up, else poll again.
pub fn reflector_wait(polls: u32, finished: bool) -> (r: ReflectorWait)
    ensures
        r == (if finished || polls >= REFLECTOR_WAIT_POLLS {
            ReflectorWait::Stop
        } else {
            ReflectorWait::Poll
        }),
{
    if finished || polls >= REFLECTOR_WAIT_POLLS {
        ReflectorWait::Stop
    } else {
        ReflectorWait::Poll
    }
}

/// Whether `systemctl show -p SubState --value reflector.service` printed
/// a state in which reflector is done: its trimmed, lowercased output is
/// one of [`reflector_settled`]'s.
pub fn reflector_finished(output: &str) -> (r: bool)
    ensures
        r == reflector_settled(lowercase_of(trim(output@))),
{
    let t = chars_to_string(&trimmed(&chars_of(output)));
    let l = lowercase(t.as_str());
    let v = chars_of(l.as_str());
    v.len() == 0 || crate::text::chars_eq(&v, &chars_of("dead")) || crate::text::chars_eq(
        &v,
        &chars_of("failed"),
    ) || crate::text::chars_eq(&v, &chars_of("exited"))
}

/// Whether `lsmod` listed the zfs module: it ran, and its output names zfs.
pub fn zfs_module_listed(out: &CmdOutput) -> (r: bool)
    ensures
        r == (out.exit_code == 0 && contains_seq(out.stdout@, "zfs"@)),
{
    out.success() && contains_str(&chars_of(out.stdout.as_str()), "zfs")
}

/// What a run comes to when only whether it succeeded matters: the
/// runner's failure, or whether the program exited with status 0.
pub open spec fn exit_ok(o: Result<CmdOutput, String>) -> Result<bool, Seq<char>> {
    match o {
        Ok(out) => Ok(out.exit_code == 0),
        Err(e) => Err(e@),
    }
}

/// Load the zfs kernel module; whether `modprobe zfs` succeeded.
pub fn load_zfs_module<R: CommandRunner>(runner: &mut RunLog<R>) -> (r: Result<bool, String>)
    ensures
        extends(old(runner).runs(), final(runner).runs()),
        single_run(added(old(runner).runs(), final(runner).runs()), "modprobe"@, seq!["zfs"@]),
        bool_view(r) == exit_ok(added(old(runner).runs(), final(runner).runs())[0].3),
{
    let ghost start = runner.runs();
    let args = ["zfs"];
    let o = runner.run("modprobe", &args);
    proof {
        lemma_pushed(start, runner.runs());
    }
    assert(arg_seq(args@) =~= seq!["zfs"@]);
    let ghost g = o;
    let output = match o {
        Ok(out) => out,
        Err(e) => {
            assert(bool_view(Err(e)) == exit_ok(g));
            return Err(e);
        },
    };
    let r = Ok(output.success());
    assert(bool_view(r) == exit_ok(g));
    r
}

/// What `lsmod` says of the zfs module (see [`zfs_module_listed`]).
pub open spec fn module_listed(o: Result<CmdOutput, String>) -> Result<bool, Seq<char>> {
    match o {
        Ok(out) => Ok(out.exit_code == 0 && contains_seq(out.stdout@, "zfs"@)),
        Err(e) => Err(e@),
    }
}

/// Whether the zfs module is loaded (see [`zfs_module_listed`]).
pub fn check_zfs_module<R: CommandRunner>(runner: &mut RunLog<R>) -> (r: Result<bool, String>)
    ensures
        extends(old(runner).runs(), final(runner).runs()),
        single_run(added(old(runner).runs(), final(runner).runs()), "lsmod"@, Seq::<Seq<char>>::empty()),
        bool_view(r) == module_listed(added(old(runner).runs(), final(runner).runs())[0].3),
{
    let ghost start = runner.runs();
    let args: [&str; 0] = [];
    let o = runner.run("lsmod", &args);
    proof {
        lemma_pushed(start, runner.runs());
    }
    assert(arg_seq(args@) =~= Seq::<Seq<char>>::empty());
    let ghost g = o;
    let output = match o {
        Ok(out) => out,
        Err(e) => {
            assert(bool_view(Err(e)) == module_listed(g));
            return Err(e);
        },
    };
    let r = Ok(zfs_module_listed(&output));
    assert(bool_view(r) == module_listed(g));
    r
}

/// Whether both `zpool` and `zfs` are on the path: the result of the two
/// lookups, the first run's failure, or the second's.
pub open spec fn utils_found(a: Result<CmdOutput, String>, b: Result<CmdOutput, String>) -> Result<
    bool,
    Seq<char>,
> {
    match a {
        Err(e) => Err(e@),
        Ok(x) => match b {
            Err(e) => Err(e@),
            Ok(y) => Ok(x.exit_code == 0 && y.exit_code == 0),
        },
    }
}

/// The lookups of `check_zfs_utils`: `command -v zpool`, then, only when
/// that could be run, `command -v zfs`; and what they come to.
pub open spec fn utils_runs(made: Seq<Run>, res: Result<bool, Seq<char>>) -> bool {
    &&& ran_as(made, 0, "bash"@, seq!["-c"@, "command -v zpool"@])
    &&& if made[0].3 is Err {
        made.len() == 1 && res == utils_found(made[0].3, made[0].3)
    } else {
        &&& made.len() == 2
        &&& ran_as(made, 1, "bash"@, seq!["-c"@, "command -v zfs"@])
        &&& res == utils_found(made[0].3, made[1].3)
    }
}

/// Whether both `zpool` and `zfs` are on the path. The second lookup runs
/// only when the first could be run.
pub fn check_zfs_utils<R: CommandRunner>(runner: &mut RunLog<R>) -> (r: Result<bool, String>)
    ensures
        extends(old(runner).runs(), final(runner).runs()),
        utils_runs(added(old(runner).runs(), final(runner).runs()), bool_view(r)),
{
    let ghost start = runner.runs();
    let first = ["-c", "command -v zpool"];
    let second = ["-c", "command -v zfs"];
    assert(arg_seq(first@) =~= seq!["-c"@, "command -v zpool"@]);
    assert(arg_seq(second@) =~= seq!["-c"@, "command -v zfs"@]);
    let a = runner.run("bash", &first);
    let ghost ga = a;
    let zpool = match a {
        Ok(out) => out,
        Err(e) => {
            proof {
                lemma_pushed(start, runner.runs());
            }
            return Err(e);
        },
    };
    let b = runner.run("bash", &second);
    let ghost gb = b;
    let ghost made = seq![call("bash"@, arg_seq(first@), ga), call("bash"@, arg_seq(second@), gb)];
    proof {
        lemma_added(start, made);
        assert(runner.runs() =~= start + made);
    }
    let zfs = match b {
        Ok(out) => out,
        Err(e) => {
            return Err(e);
        },
    };
    let r = Ok(zpool.success() && zfs.success());
    r
}

/// What a run comes to when its exit status does not matter: only the
/// runner's failure to run it.
pub open spec fn ran(o: Result<CmdOutput, String>) -> Result<(), Seq<char>> {
    match o {
        Ok(_) => Ok(()),
        Err(e) => Err(e@),
    }
}

/// Give the live medium's copy-on-write space half the memory; off a live
/// medium the remount fails, which is no error.
pub fn increase_cowspace<R: CommandRunner>(runner: &mut RunLog<R>) -> (r: Result<(), String>)
    ensures
        extends(old(runner).runs(), final(runner).runs()),
        single_run(
            added(old(runner).runs(), final(runner).runs()),
            "mount"@,
            seq!["-o"@, "remount,size=50%"@, "/run/archiso/cowspace"@],
        ),
        unit_view(r) == ran(added(old(runner).runs(), final(runner).runs())[0].3),
{
    let ghost start = runner.runs();
    let args = ["-o", "remount,size=50%", "/run/archiso/cowspace"];
    assert(arg_seq(args@) =~= seq!["-o"@, "remount,size=50%"@, "/run/archiso/cowspace"@]);
    let o = runner.run("mount", &args);
    proof {
        lemma_pushed(start, runner.runs());
    }
    let ghost g = o;
    match o {
        Ok(_) => {
            assert(unit_view(Ok(())) == ran(g));
            Ok(())
        },
        Err(e) => {
            assert(unit_view(Err(e)) == ran(g));
            Err(e)
        },
    }
}

/// Stop reflector for good, service and timer, whatever comes of it: the
/// two `systemctl stop` runs, and no other.
pub fn stop_reflector<R: CommandRunner>(runner: &mut RunLog<R>)
    ensures
        extends(old(runner).runs(), final(runner).runs()),
        added(old(runner).runs(), final(runner).runs()).len() == 2,
        ran_as(
            added(old(runner).runs(), final(runner).runs()),
            0,
            "systemctl"@,
            seq!["stop"@, "reflector.service"@],
        ),
        ran_as(
            added(old(runner).runs(), final(runner).runs()),
            1,
            "systemctl"@,
            seq!["stop"@, "reflector.timer"@],
        ),
{
    let ghost start = runner.runs();
    let service = ["stop", "reflector.service"];
    let timer = ["stop", "reflector.timer"];
    assert(arg_seq(service@) =~= seq!["stop"@, "reflector.service"@]);
    assert(arg_seq(timer@) =~= seq!["stop"@, "reflector.timer"@]);
    let a = runner.run("systemctl", &service);
    let b = runner.run("systemctl", &timer);
    proof {
        let made = seq![call("systemctl"@, arg_seq(service@), a), call("systemctl"@, arg_seq(timer@), b)];
        lemma_added(start, made);
        assert(runner.runs() =~= start + made);
    }
}

/// How old the live medium's mirror list may be, in seconds, before it is
/// refreshed: a day.
pub const MIRRORLIST_MAX_AGE_SECS: u64 = 86400;

/// A mirror list of `age_secs` is stale when older than a day, or of
/// unknown age.
pub open spec fn stale(age_secs: Option<u64>) -> bool {
    match age_secs {
        Some(a) => a > MIRRORLIST_MAX_AGE_SECS,
        None => true,
    }
}

/// Whether a mirror list of `age_secs` needs refreshing.
pub fn mirrorlist_stale(age_secs: Option<u64>) -> (r: bool)
    ensures
        r == stale(age_secs),
{
    match age_secs {
        Some(a) => a > MIRRORLIST_MAX_AGE_SECS,
        None => true,
    }
}

/// Refresh the live medium's mirror list with reflector when it is there
/// (`present`) and stale: a medium built long ago lists mirrors that make
/// downloads crawl or fail. A failed refresh is not fatal; the old mirrors
/// may still work. Returns whether reflector was run.
pub fn refresh_mirrors_if_stale<R: CommandRunner>(
    runner: &mut RunLog<R>,
    present: bool,
    age_secs: Option<u64>,
) -> (r: Result<bool, String>)
    ensures
        extends(old(runner).runs(), final(runner).runs()),
        !(present && stale(age_secs)) ==> r == Ok::<bool, String>(false) && added(
            old(runner).runs(),
            final(runner).runs(),
        ).len() == 0,
        present && stale(age_secs) ==> single_run(
            added(old(runner).runs(), final(runner).runs()),
            "reflector"@,
            reflector_args(),
        ) && bool_view(r) == refreshed(added(old(runner).runs(), final(runner).runs())[0].3),
{
    let ghost start = runner.runs();
    if !present || !mirrorlist_stale(age_secs) {
        proof {
            lemma_added(start, seq![]);
            assert(runner.runs() =~= start + seq![]);
        }
        return Ok(false);
    }
    let args = [
        "--latest",
        "20",
        "--protocol",
        "https",
        "--sort",
        "rate",
        "--save",
        "/etc/pacman.d/mirrorlist",
    ];
    assert(arg_seq(args@) =~= reflector_args());
    let o = runner.run("reflector", &args);
    proof {
        lemma_pushed(start, runner.runs());
    }
    let ghost g = o;
    match o {
        Ok(_) => {
            assert(bool_view(Ok(true)) == refreshed(g));
            Ok(true)
        },
        Err(e) => {
            assert(bool_view(Err(e)) == refreshed(g));
            Err(e)
        },
    }
}

/// reflector's arguments: the twenty most recently synced HTTPS mirrors,
/// fastest first, saved as the mirror list.
pub open spec fn reflector_args() -> Seq<Seq<char>> {
    seq![
        "--latest"@,
        "20"@,
        "--protocol"@,
        "https"@,
        "--sort"@,
        "rate"@,
        "--save"@,
        "/etc/pacman.d/mirrorlist"@,
    ]
}

/// What a reflector run comes to: refreshed once it ran, whatever it
/// exited with (a failed refresh leaves the old list, which may still
/// work); the runner's failure otherwise.
pub open spec fn refreshed(o: Result<CmdOutput, String>) -> Result<bool, Seq<char>> {
    match o {
        Ok(_) => Ok(true),
        Err(e) => Err(e@),
    }
}

} // verus!
