//! End-of-install ZFS cleanup: unmount the filesystems and export the pool
//! that this operation owns, and nothing else.

use vstd::prelude::*;

use crate::cmd::{arg_seq, bool_view, check_exit, checked, exit_message, unit_view, CmdOutput, CommandRunner};
use crate::run_log::{
    added, extends, lemma_none, lemma_pushed, lemma_then, ran_as, single_run, Run, RunLog,
};
use crate::download::file_name;
use crate::path::{components, final_name, is_proper_absolute, is_safe_target, path_components};
use crate::text::{
    chars_eq, chars_of, chars_to_string, extend, extend_str, join_with, lines, split_lines,
    split_whitespace, trim, trimmed, views, words,
};

verus! {

/// Resources owned by one operation. The root mount is checked before the
/// recursive unmount, and only an explicitly owned pool may be exported.
/// Cleanup is retryable: what failed stays owned.
#[derive(Debug)]
pub struct OwnedMounts {
    pub root: String,
    pub root_dataset: String,
    pub pool_to_export: Option<String>,
}

/// The refusal for a root that is relative or the filesystem root.
pub open spec fn unsafe_root_message() -> Seq<char> {
    "Refusing cleanup of an unsafe root"@
}

/// What the listing of the mount at the root means: `Ok(true)` when the
/// operation's own dataset is mounted there, `Ok(false)` when nothing is,
/// and an error otherwise.
pub open spec fn mount_judgement(root: Seq<char>, root_dataset: Seq<char>, out: CmdOutput) -> Result<
    bool,
    Seq<char>,
> {
    if out.exit_code == 0 {
        if trim(out.stdout@) == root_dataset {
            Ok(true)
        } else {
            Err(
                "Mount at "@ + root + " is not owned by this operation: "@ + trim(out.stdout@),
            )
        }
    } else if out.exit_code == 1 && trim(out.stdout@).len() == 0 && trim(out.stderr@).len()
        == 0 {
        Ok(false)
    } else {
        Err(exit_message(out, "inspect operation's mount"@))
    }
}

/// A `Result` with its message as characters.
pub open spec fn result_view<T>(r: Result<T, String>) -> Result<T, Seq<char>> {
    match r {
        Ok(v) => Ok(v),
        Err(m) => Err(m@),
    }
}

impl OwnedMounts {
    /// Judge the `findmnt` listing of the root (see `mount_judgement`).
    pub fn judge_mount(&self, out: &CmdOutput) -> (r: Result<bool, String>)
        ensures
            result_view(r) == mount_judgement(self.root@, self.root_dataset@, *out),
    {
        if out.exit_code == 0 {
            let listed = trimmed(&chars_of(out.stdout.as_str()));
            if chars_eq(&listed, &chars_of(self.root_dataset.as_str())) {
                return Ok(true);
            }
            let mut m: Vec<char> = Vec::new();
            extend_str(&mut m, "Mount at ");
            extend_str(&mut m, self.root.as_str());
            extend_str(&mut m, " is not owned by this operation: ");
            extend(&mut m, &listed);
            return Err(chars_to_string(&m));
        }
        if out.exit_code == 1 && trimmed(&chars_of(out.stdout.as_str())).len() == 0 && trimmed(
            &chars_of(out.stderr.as_str()),
        ).len() == 0 {
            return Ok(false);
        }
        match check_exit(out, "inspect operation's mount") {
            Ok(()) => Ok(false),
            Err(m) => Err(m),
        }
    }

    /// Unmount the operation's filesystems and export its pool. The root
    /// must be absolute and not `/`; a mount at the root that is not the
    /// operation's dataset stops the cleanup before anything is unmounted;
    /// the pool is exported only after the unmount succeeded, and is no
    /// longer owned once exported, so a second cleanup exports nothing.
    /// Removing the empty mountpoints left behind is the caller's part.
    /// The runs, and that there are no others, are `cleanup_runs`.
    pub fn cleanup<R: CommandRunner>(&mut self, runner: &mut RunLog<R>) -> (r: Result<(), String>)
        ensures
            final(self).root == old(self).root,
            final(self).root_dataset == old(self).root_dataset,
            extends(old(runner).runs(), final(runner).runs()),
            cleanup_runs(*old(self), added(old(runner).runs(), final(runner).runs()), unit_view(r), final(self).pool_to_export),
    {
        let ghost start = runner.runs();
        let ghost before = *self;
        if !is_safe_target(self.root.as_str()) {
            proof {
                lemma_none(start);
            }
            return Err("Refusing cleanup of an unsafe root".to_string());
        }
        let root = self.root.as_str();
        let fargs = ["--mountpoint", root, "--noheadings", "--raw", "--output", "SOURCE"];
        assert(arg_seq(fargs@) =~= findmnt_root_args(root@));
        let listed = runner.run("findmnt", &fargs);
        let ghost m1 = runner.runs();
        proof {
            lemma_pushed(start, m1);
        }
        let mount = match listed {
            Ok(o) => o,
            Err(e) => {
                return Err(e);
            },
        };
        let mounted = match self.judge_mount(&mount) {
            Ok(b) => b,
            Err(m) => {
                return Err(m);
            },
        };
        let ghost mut m2 = m1;
        if mounted {
            let uargs = ["--recursive", root];
            assert(arg_seq(uargs@) =~= umount_root_args(root@));
            let run = runner.run("umount", &uargs);
            proof {
                m2 = runner.runs();
                lemma_pushed(m1, m2);
                lemma_then(start, m1, m2);
            }
            let output = match run {
                Ok(o) => o,
                Err(e) => {
                    return Err(e);
                },
            };
            match check_exit(&output, "unmount operation's filesystems") {
                Ok(()) => {},
                Err(m) => {
                    return Err(m);
                },
            }
        }
        let exported = match &self.pool_to_export {
            None => {
                return Ok(());
            },
            Some(pool) => {
                let eargs = ["export", pool.as_str()];
                assert(arg_seq(eargs@) =~= export_args(pool@));
                runner.run("zpool", &eargs)
            },
        };
        proof {
            lemma_pushed(m2, runner.runs());
            lemma_then(start, m2, runner.runs());
            if mounted {
                assert(added(start, runner.runs())[1] == added(start, m2)[1]);
            }
        }
        let output = match exported {
            Ok(o) => o,
            Err(e) => {
                return Err(e);
            },
        };
        match check_exit(&output, "export operation's pool") {
            Ok(()) => {},
            Err(m) => {
                return Err(m);
            },
        }
        self.pool_to_export = None;
        Ok(())
    }
}

/// `findmnt` asked for the source mounted at `root`, and nothing else.
pub open spec fn findmnt_root_args(root: Seq<char>) -> Seq<Seq<char>> {
    seq!["--mountpoint"@, root, "--noheadings"@, "--raw"@, "--output"@, "SOURCE"@]
}

/// `umount --recursive <root>`.
pub open spec fn umount_root_args(root: Seq<char>) -> Seq<Seq<char>> {
    seq!["--recursive"@, root]
}

/// The runs of `cleanup` for the resources `m` (`made`), what they come to
/// (`res`) and which pool stays owned after it (`after`). A root that is
/// relative or `/` is refused before anything runs. Otherwise `findmnt`
/// lists the source at the root, judged by `mount_judgement`; a runner
/// failure or a refusal ends it there. Only when the operation's dataset is
/// mounted there, `umount --recursive <root>` runs, and must succeed. Then,
/// only when a pool is owned, `zpool export <that pool>` runs (never `-a`
/// or `-f`); the pool stops being owned exactly when it succeeds. Whatever
/// fails keeps the pool owned, for a retry. No other run is made.
pub open spec fn cleanup_runs(
    m: OwnedMounts,
    made: Seq<Run>,
    res: Result<(), Seq<char>>,
    after: Option<String>,
) -> bool {
    let root = m.root@;
    if !is_proper_absolute(root) {
        &&& made.len() == 0
        &&& res == Err::<(), Seq<char>>(unsafe_root_message())
        &&& after == m.pool_to_export
    } else {
        &&& ran_as(made, 0, "findmnt"@, findmnt_root_args(root))
        &&& match made[0].3 {
            Err(e) => made.len() == 1 && res == Err::<(), Seq<char>>(e@) && after == m.pool_to_export,
            Ok(out) => match mount_judgement(root, m.root_dataset@, out) {
                Err(msg) => made.len() == 1 && res == Err::<(), Seq<char>>(msg) && after
                    == m.pool_to_export,
                Ok(mounted) => {
                    let k: int = if mounted {
                        2
                    } else {
                        1
                    };
                    let unmounted = if mounted {
                        checked(made[1].3, "unmount operation's filesystems"@)
                    } else {
                        Ok(())
                    };
                    &&& mounted ==> ran_as(made, 1, "umount"@, umount_root_args(root))
                    &&& match unmounted {
                        Err(msg) => made.len() == k && res == Err::<(), Seq<char>>(msg) && after
                            == m.pool_to_export,
                        Ok(()) => match m.pool_to_export {
                            None => made.len() == k && res == Ok::<(), Seq<char>>(()) && after is None,
                            Some(p) => {
                                &&& made.len() == k + 1
                                &&& ran_as(made, k, "zpool"@, export_args(p@))
                                &&& res == checked(made[k].3, "export operation's pool"@)
                                &&& if res is Ok {
                                    after is None
                                } else {
                                    after == m.pool_to_export
                                }
                            },
                        },
                    }
                },
            },
        }
    }
}

/// The leaf vdevs of a `zpool list -H -P -v` listing: after the pool's own
/// line, the first word of each line when it is an absolute path (groups
/// such as `mirror-0` are not).
pub open spec fn device_tokens(ls: Seq<Seq<char>>) -> Seq<Seq<char>>
    decreases ls.len(),
{
    if ls.len() == 0 {
        seq![]
    } else {
        let rest = device_tokens(ls.drop_last());
        let ws = words(ls.last());
        if ws.len() > 0 && ws[0].len() > 0 && ws[0][0] == '/' {
            rest.push(ws[0])
        } else {
            rest
        }
    }
}

/// All lines but the first (none of none).
pub open spec fn after_first(ls: Seq<Seq<char>>) -> Seq<Seq<char>> {
    if ls.len() == 0 {
        ls
    } else {
        ls.skip(1)
    }
}

pub open spec fn string_views(v: Seq<String>) -> Seq<Seq<char>> {
    v.map_values(|s: String| s@)
}

/// The device paths of the vdevs in a `zpool list -H -P -v` listing, as
/// written there.
pub fn parse_pool_devices(listing: &str) -> (r: Vec<String>)
    ensures
        string_views(r@) == device_tokens(after_first(lines(listing@))),
{
    let ls = split_lines(listing);
    let mut r: Vec<String> = Vec::new();
    if ls.len() == 0 {
        assert(string_views(r@) =~= seq![]);
        return r;
    }
    let ghost body = views(ls@).skip(1);
    let mut i: usize = 1;
    while i < ls.len()
        invariant
            1 <= i <= ls.len(),
            body == views(ls@).skip(1),
            string_views(r@) == device_tokens(body.take(i - 1)),
        decreases ls.len() - i,
    {
        assert(body.take(i as int).drop_last() == body.take(i - 1));
        assert(body.take(i as int).last() == ls@[i as int]@);
        let ws = split_whitespace(&ls[i]);
        let ghost before = r@;
        if ws.len() > 0 && ws[0].len() > 0 && ws[0][0] == '/' {
            r.push(chars_to_string(&ws[0]));
            assert(string_views(r@) =~= string_views(before).push(ws@[0]@));
        }
        i = i + 1;
    }
    assert(body.take(ls.len() - 1) == body);
    r
}

/// The refusal for a pool of the configured name that lives on devices the
/// installation does not use.
pub open spec fn foreign_pool_message(pool: Seq<char>, devices: Seq<Seq<char>>) -> Seq<char> {
    "A pool named "@ + pool + " is already imported from "@ + join_with(devices, ", "@)
        + ", which this installation does not use. Choose another pool name or export that pool first."@
}

/// Whether an imported pool of the configured name is the leftover of an
/// earlier attempt: it has devices and every one of them is among the
/// installation's targets (`on_target[i]` for `devices[i]`). Such a pool may
/// be exported; any other is somebody's data and refuses the installation.
pub fn leftover_pool_verdict(pool: &str, devices: &Vec<String>, on_target: &Vec<bool>) -> (r: Result<
    (),
    String,
>)
    requires
        devices.len() == on_target.len(),
    ensures
        r is Ok <==> devices.len() > 0 && forall|i: int| 0 <= i < on_target.len() ==> on_target@[i],
        r matches Err(m) ==> m@ == foreign_pool_message(pool@, string_views(devices@)),
{
    let mut all = devices.len() > 0;
    let mut i: usize = 0;
    while i < on_target.len()
        invariant
            i <= on_target.len() == devices.len(),
            all == (devices.len() > 0 && forall|j: int| 0 <= j < i ==> on_target@[j]),
        decreases on_target.len() - i,
    {
        all = all && on_target[i];
        i = i + 1;
    }
    if all {
        return Ok(());
    }
    let mut m: Vec<char> = Vec::new();
    extend_str(&mut m, "A pool named ");
    extend_str(&mut m, pool);
    extend_str(&mut m, " is already imported from ");
    let mut k: usize = 0;
    let ghost sep = ", "@;
    while k < devices.len()
        invariant
            k <= devices.len(),
            sep == ", "@,
            m@ == "A pool named "@ + pool@ + " is already imported from "@ + join_with(
                string_views(devices@).take(k as int),
                sep,
            ),
        decreases devices.len() - k,
    {
        let ghost before = m@;
        if k > 0 {
            extend_str(&mut m, ", ");
        }
        extend_str(&mut m, devices[k].as_str());
        assert(string_views(devices@).take(k + 1).drop_last() == string_views(devices@).take(
            k as int,
        ));
        assert(m@ =~= "A pool named "@ + pool@ + " is already imported from "@ + join_with(
            string_views(devices@).take(k + 1),
            sep,
        ));
        k = k + 1;
    }
    assert(string_views(devices@).take(devices.len() as int) == string_views(devices@));
    extend_str(
        &mut m,
        ", which this installation does not use. Choose another pool name or export that pool first.",
    );
    Err(chars_to_string(&m))
}

/// Whether the kernel's entry for a block device, which `link` reaches
/// (`…/block/sda/sda6`), sits directly below the entry of the disk named
/// `disk`: the component before the last is the disk's name.
pub open spec fn entry_below(link: Seq<char>, disk: Option<Seq<char>>) -> bool {
    let c = components(link);
    c.len() >= 2 && disk == Some(c[c.len() - 2])
}

fn components_eq(a: &Vec<Vec<char>>, b: &Vec<Vec<char>>) -> (r: bool)
    ensures
        r == (views(a@) == views(b@)),
{
    if a.len() != b.len() {
        assert(views(a@).len() != views(b@).len());
        return false;
    }
    let mut i: usize = 0;
    while i < a.len()
        invariant
            a.len() == b.len(),
            i <= a.len(),
            forall|j: int| 0 <= j < i ==> #[trigger] a@[j]@ == b@[j]@,
        decreases a.len() - i,
    {
        if !chars_eq(&a[i], &b[i]) {
            assert(views(a@)[i as int] != views(b@)[i as int]);
            return false;
        }
        i = i + 1;
    }
    assert(views(a@) =~= views(b@));
    true
}

/// Whether `device` is `target` itself (as paths, component by component)
/// or a partition of it. `link` is where the kernel's block-device entry
/// for `device` points, when it could be read.
pub fn same_or_partition_of(device: &str, target: &str, link: Option<&str>) -> (r: bool)
    ensures
        r == (components(device@) == components(target@) || match link {
            Some(l) => entry_below(l@, final_name(target@)),
            None => false,
        }),
{
    let d = path_components(device);
    let t = path_components(target);
    if components_eq(&d, &t) {
        return true;
    }
    match link {
        None => false,
        Some(l) => {
            let c = path_components(l);
            if c.len() < 2 {
                return false;
            }
            match file_name(target) {
                None => false,
                Some(n) => {
                    let name = chars_of(n.as_str());
                    let r = chars_eq(&c[c.len() - 2], &name);
                    assert(views(c@)[c.len() - 2] == c@[c.len() - 2]@);
                    r
                },
            }
        },
    }
}

/// `zpool export <pool>`.
pub open spec fn export_args(pool: Seq<char>) -> Seq<Seq<char>> {
    seq!["export"@, pool]
}

/// `zpool export -f <pool>`.
pub open spec fn force_export_args(pool: Seq<char>) -> Seq<Seq<char>> {
    seq!["export"@, "-f"@, pool]
}

/// The runs of `export_leftover_pool` and what they come to: the plain
/// export; only where it exits non-zero, the forced one, which must
/// succeed. No other run is made.
pub open spec fn export_runs(pool: Seq<char>, made: Seq<Run>, res: Result<(), Seq<char>>) -> bool {
    &&& ran_as(made, 0, "zpool"@, export_args(pool))
    &&& match made[0].3 {
        Err(e) => made.len() == 1 && res == Err::<(), Seq<char>>(e@),
        Ok(out) => if out.exit_code == 0 {
            made.len() == 1 && res == Ok::<(), Seq<char>>(())
        } else {
            &&& made.len() == 2
            &&& ran_as(made, 1, "zpool"@, force_export_args(pool))
            &&& res == checked(made[1].3, "export the earlier attempt's pool"@)
        },
    }
}

/// Export the leftover pool, forcing the export when the plain one fails.
pub fn export_leftover_pool<R: CommandRunner>(runner: &mut RunLog<R>, pool: &str) -> (r: Result<
    (),
    String,
>)
    ensures
        extends(old(runner).runs(), final(runner).runs()),
        export_runs(pool@, added(old(runner).runs(), final(runner).runs()), unit_view(r)),
{
    let ghost start = runner.runs();
    let eargs = ["export", pool];
    assert(arg_seq(eargs@) =~= export_args(pool@));
    let plain = runner.run("zpool", &eargs);
    let ghost m1 = runner.runs();
    proof {
        lemma_pushed(start, m1);
    }
    let output = match plain {
        Ok(o) => o,
        Err(e) => {
            return Err(e);
        },
    };
    if output.success() {
        return Ok(());
    }
    let fargs = ["export", "-f", pool];
    assert(arg_seq(fargs@) =~= force_export_args(pool@));
    let forced = runner.run("zpool", &fargs);
    proof {
        lemma_pushed(m1, runner.runs());
        lemma_then(start, m1, runner.runs());
    }
    let fout = match forced {
        Ok(o) => o,
        Err(e) => {
            return Err(e);
        },
    };
    check_exit(&fout, "export the earlier attempt's pool")
}

/// `zpool list -H -P -v -o name <pool>`: the pool and its vdevs.
pub open spec fn pool_listing_args(pool: Seq<char>) -> Seq<Seq<char>> {
    seq!["list"@, "-H"@, "-P"@, "-v"@, "-o"@, "name"@, pool]
}

/// What the pool listing comes to: the runner's failure; no pool, where the
/// listing exits non-zero; else the devices it names.
pub open spec fn listed_devices(o: Result<CmdOutput, String>) -> Result<Option<Seq<Seq<char>>>, Seq<char>> {
    match o {
        Err(e) => Err(e@),
        Ok(out) => if out.exit_code != 0 {
            Ok(None)
        } else {
            Ok(Some(device_tokens(after_first(lines(out.stdout@)))))
        },
    }
}

/// A device list as plain values.
pub open spec fn devices_view(r: Result<Option<Vec<String>>, String>) -> Result<Option<Seq<Seq<char>>>, Seq<char>> {
    match r {
        Err(e) => Err(e@),
        Ok(None) => Ok(None),
        Ok(Some(d)) => Ok(Some(string_views(d@))),
    }
}

/// The devices of the imported pool `pool`, as `zpool list` names them;
/// `None` when no pool of that name is imported (the listing fails).
pub fn imported_pool_devices<R: CommandRunner>(runner: &mut RunLog<R>, pool: &str) -> (r: Result<
    Option<Vec<String>>,
    String,
>)
    ensures
        extends(old(runner).runs(), final(runner).runs()),
        single_run(added(old(runner).runs(), final(runner).runs()), "zpool"@, pool_listing_args(pool@)),
        devices_view(r) == listed_devices(added(old(runner).runs(), final(runner).runs())[0].3),
{
    let ghost start = runner.runs();
    let largs = ["list", "-H", "-P", "-v", "-o", "name", pool];
    assert(arg_seq(largs@) =~= pool_listing_args(pool@));
    let listed = runner.run("zpool", &largs);
    proof {
        lemma_pushed(start, runner.runs());
    }
    let ghost g = listed;
    let output = match listed {
        Ok(o) => o,
        Err(e) => {
            assert(devices_view(Err(e)) == listed_devices(g));
            return Err(e);
        },
    };
    if !output.success() {
        assert(devices_view(Ok(None)) == listed_devices(g));
        return Ok(None);
    }
    let r = Ok(Some(parse_pool_devices(output.stdout.as_str())));
    assert(devices_view(r) == listed_devices(g));
    r
}

/// A result with its value dropped.
pub open spec fn unit_of(res: Result<bool, Seq<char>>) -> Result<(), Seq<char>> {
    match res {
        Ok(_) => Ok(()),
        Err(m) => Err(m),
    }
}

/// Whether `out` is what `locate` may give for a device written `device`.
pub open spec fn located_by<F: Fn(&str) -> (String, bool)>(
    locate: F,
    device: Seq<char>,
    out: (String, bool),
) -> bool {
    exists|d: &str| d@ == device && #[trigger] call_ensures(locate, (d,), out)
}

/// What releasing `pool` comes to, given the runs made (`made`) and what
/// `locate` gave for each listed device (`located`): the pool listing,
/// whose failure ends it; nothing more where no such pool is imported;
/// where some device is not on a target (or there are none), the refusal
/// naming the located paths, with nothing more run; else the export of the
/// pool, and `true`.
pub open spec fn release_runs<F: Fn(&str) -> (String, bool)>(
    locate: F,
    pool: Seq<char>,
    made: Seq<Run>,
    located: Seq<(String, bool)>,
    res: Result<bool, Seq<char>>,
) -> bool {
    &&& ran_as(made, 0, "zpool"@, pool_listing_args(pool))
    &&& match listed_devices(made[0].3) {
        Err(e) => made.len() == 1 && res == Err::<bool, Seq<char>>(e),
        Ok(None) => made.len() == 1 && res == Ok::<bool, Seq<char>>(false),
        Ok(Some(devs)) => {
            &&& located.len() == devs.len()
            &&& forall|i: int| 0 <= i < devs.len() ==> located_by(locate, devs[i], #[trigger] located[i])
            &&& if devs.len() > 0 && forall|i: int| 0 <= i < located.len() ==> (#[trigger] located[i]).1 {
                &&& res != Ok::<bool, Seq<char>>(false)
                &&& export_runs(pool, made.skip(1), unit_of(res))
            } else {
                &&& made.len() == 1
                &&& res == Err::<bool, Seq<char>>(
                    foreign_pool_message(pool, string_views(located.map_values(|l: (String, bool)| l.0))),
                )
            }
        },
    }
}

/// Export a pool named `pool` that an earlier attempt of this installation
/// left imported on the devices it is about to use: that is the earlier
/// attempt's leftover, and creating the pool again would be refused while
/// it is imported. A same-named pool on other devices is somebody's data;
/// the installation is refused instead. An installation into an existing
/// pool keeps its pool and runs nothing. `locate` gives, for a listed
/// device, its canonical path and whether it is one of the installation's
/// targets or a partition of one; it reads the system's device tree.
///
/// Returns whether a pool was exported.
pub fn release_leftover_pool<R: CommandRunner, F: Fn(&str) -> (String, bool)>(
    runner: &mut RunLog<R>,
    pool: &str,
    existing_pool_mode: bool,
    locate: F,
) -> (r: Result<bool, String>)
    requires
        forall|d: &str| #[trigger] call_requires(locate, (d,)),
    ensures
        extends(old(runner).runs(), final(runner).runs()),
        existing_pool_mode ==> r == Ok::<bool, String>(false) && added(old(runner).runs(), final(runner).runs()).len() == 0,
        r == Ok::<bool, String>(true) ==> !existing_pool_mode,
        !existing_pool_mode ==> exists|located: Seq<(String, bool)>|
            #[trigger] release_runs(locate, pool@, added(old(runner).runs(), final(runner).runs()), located, bool_view(r)),
{
    let ghost start = runner.runs();
    if existing_pool_mode {
        proof {
            lemma_none(start);
        }
        return Ok(false);
    }
    let listed = imported_pool_devices(runner, pool);
    let ghost m1 = runner.runs();
    let devices = match listed {
        Ok(Some(d)) => d,
        Ok(None) => {
            assert(release_runs(locate, pool@, added(start, m1), seq![], bool_view(Ok(false))));
            return Ok(false);
        },
        Err(e) => {
            assert(release_runs(locate, pool@, added(start, m1), seq![], bool_view(Err(e))));
            return Err(e);
        },
    };
    let ghost devs = string_views(devices@);
    let ghost mut located: Seq<(String, bool)> = seq![];
    let mut shown: Vec<String> = Vec::new();
    let mut on_target: Vec<bool> = Vec::new();
    let mut i: usize = 0;
    while i < devices.len()
        invariant
            i <= devices.len(),
            devs == string_views(devices@),
            shown.len() == i,
            on_target.len() == i,
            located.len() == i,
            forall|j: int| 0 <= j < i ==> #[trigger] located[j] == (shown@[j], on_target@[j]),
            forall|j: int| 0 <= j < i ==> located_by(locate, devs[j], #[trigger] located[j]),
            forall|d: &str| #[trigger] call_requires(locate, (d,)),
        decreases devices.len() - i,
    {
        let d = devices[i].as_str();
        let (path, on) = locate(d);
        assert(located_by(locate, devs[i as int], (path, on)));
        proof {
            located = located.push((path, on));
        }
        shown.push(path);
        on_target.push(on);
        i = i + 1;
    }
    assert(shown@ =~= located.map_values(|l: (String, bool)| l.0));
    assert(forall|j: int| 0 <= j < on_target.len() ==> on_target@[j] == (#[trigger] located[j]).1);
    assert((forall|j: int| 0 <= j < located.len() ==> (#[trigger] located[j]).1) == (forall|j: int|
        0 <= j < on_target.len() ==> on_target@[j])) by {
        if forall|j: int| 0 <= j < on_target.len() ==> on_target@[j] {
            assert forall|j: int| 0 <= j < located.len() implies (#[trigger] located[j]).1 by {
                assert(on_target@[j]);
            }
        }
        if forall|j: int| 0 <= j < located.len() ==> (#[trigger] located[j]).1 {
            assert forall|j: int| 0 <= j < on_target.len() implies on_target@[j] by {
                assert(located[j].1);
            }
        }
    }
    match leftover_pool_verdict(pool, &shown, &on_target) {
        Ok(()) => {},
        Err(m) => {
            assert(release_runs(locate, pool@, added(start, m1), located, bool_view(Err(m))));
            return Err(m);
        },
    }
    let exported = export_leftover_pool(runner, pool);
    proof {
        lemma_then(start, m1, runner.runs());
        assert(added(start, runner.runs()).skip(1) =~= added(m1, runner.runs()));
        assert(added(start, runner.runs())[0] == added(start, m1)[0]);
    }
    match exported {
        Ok(()) => {},
        Err(e) => {
            assert(release_runs(locate, pool@, added(start, runner.runs()), located, bool_view(Err(e))));
            return Err(e);
        },
    }
    assert(release_runs(locate, pool@, added(start, runner.runs()), located, bool_view(Ok(true))));
    Ok(true)
}

} // verus!
