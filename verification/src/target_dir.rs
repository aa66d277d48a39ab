//! The directory the new system is assembled in: what an earlier run left
//! mounted under it is unmounted deepest first, and what remains in it is
//! named in the refusal.

use vstd::prelude::*;

use crate::cmd::{arg_seq, check_exit, exit_message, unit_view, CmdOutput, CommandRunner};
use crate::run_log::{added, call, extends, lemma_added, lemma_pushed, ran_as, Run, RunLog};
use crate::path::{at_or_under, is_at_or_under};
use crate::sort::{ascending, longer_first, sort_by, sort_strings, string_views, law_longest_first_sort, longest_first};
use crate::text::{
    chars_of, chars_to_string, contains_seq, contains_str, dec, decimal, extend, extend_str, join_with, lines,
    slice, split_lines, views,
};

verus! {

/// The text of a line before its first space, when it has one.
pub open spec fn before_space(s: Seq<char>) -> Option<Seq<char>>
    decreases s.len(),
{
    if s.len() == 0 {
        None
    } else if s[0] == ' ' {
        Some(seq![])
    } else {
        match before_space(s.skip(1)) {
            Some(p) => Some(seq![s[0]] + p),
            None => None,
        }
    }
}

proof fn lemma_before_space(s: Seq<char>, i: int)
    requires
        0 <= i <= s.len(),
        forall|j: int| 0 <= j < i ==> s[j] != ' ',
    ensures
        i < s.len() && s[i] == ' ' ==> before_space(s) == Some(s.take(i)),
        i == s.len() ==> before_space(s) is None,
    decreases i,
{
    if i > 0 {
        let t = s.skip(1);
        assert forall|j: int| 0 <= j < i - 1 implies t[j] != ' ' by {
            assert(t[j] == s[j + 1]);
        }
        lemma_before_space(t, i - 1);
        if i < s.len() && s[i] == ' ' {
            assert(seq![s[0]] + t.take(i - 1) =~= s.take(i));
        }
    } else if s.len() == 0 {
    } else {
        assert(s.take(0) =~= seq![]);
    }
}

/// The mount points listed by `findmnt --raw --output TARGET,SOURCE` that
/// are `target` or lie under it, in listing order.
pub open spec fn mount_paths(ls: Seq<Seq<char>>, target: Seq<char>) -> Seq<Seq<char>>
    decreases ls.len(),
{
    if ls.len() == 0 {
        seq![]
    } else {
        let rest = mount_paths(ls.drop_last(), target);
        match before_space(ls.last()) {
            Some(p) => if at_or_under(p, target) {
                rest.push(p)
            } else {
                rest
            },
            None => rest,
        }
    }
}

fn path_of_line(l: &Vec<char>) -> (r: Option<Vec<char>>)
    ensures
        match r {
            Some(p) => before_space(l@) == Some(p@),
            None => before_space(l@) is None,
        },
{
    let mut i: usize = 0;
    while i < l.len()
        invariant
            i <= l.len(),
            forall|j: int| 0 <= j < i ==> l@[j] != ' ',
        decreases l.len() - i,
    {
        if l[i] == ' ' {
            proof {
                lemma_before_space(l@, i as int);
            }
            return Some(slice(l, 0, i));
        }
        i = i + 1;
    }
    proof {
        lemma_before_space(l@, i as int);
    }
    None
}

/// Deepest first: the filesystems to unmount are every mount point at or
/// under the target, each as often as it is listed, and none comes after
/// a shorter path, so one mounted inside another is unmounted first.
pub proof fn law_unmount_deepest_first(listing: Seq<char>, target: Seq<char>)
    ensures
        longest_first(sort_by(mount_paths(lines(listing), target), longer_first())),
        sort_by(mount_paths(lines(listing), target), longer_first()).to_multiset() == mount_paths(
            lines(listing),
            target,
        ).to_multiset(),
{
    law_longest_first_sort(mount_paths(lines(listing), target));
}

/// The filesystems to unmount before `target` can be used, deepest first:
/// the mount points at or under it, longest path first, listing order among
/// paths of one length.
pub fn mounts_to_unmount(listing: &str, target: &str) -> (r: Vec<String>)
    ensures
        string_views(r@) == sort_by(mount_paths(lines(listing@), target@), longer_first()),
{
    let ls = split_lines(listing);
    let mut found: Vec<String> = Vec::new();
    let mut i: usize = 0;
    while i < ls.len()
        invariant
            i <= ls.len(),
            views(ls@) == lines(listing@),
            string_views(found@) == mount_paths(views(ls@).take(i as int), target@),
        decreases ls.len() - i,
    {
        assert(views(ls@).take(i + 1).drop_last() == views(ls@).take(i as int));
        assert(views(ls@).take(i + 1).last() == ls@[i as int]@);
        match path_of_line(&ls[i]) {
            Some(p) => {
                let ps = chars_to_string(&p);
                if is_at_or_under(ps.as_str(), target) {
                    let ghost before = found@;
                    found.push(ps);
                    assert(string_views(found@) =~= string_views(before).push(p@));
                }
            },
            None => {},
        }
        i = i + 1;
    }
    assert(views(ls@).take(ls.len() as int) == views(ls@));
    sort_strings(found, true)
}

/// `findmnt` listing every mount's target and source, one per line.
pub open spec fn findmnt_args() -> Seq<Seq<char>> {
    seq!["--noheadings"@, "--raw"@, "--output"@, "TARGET,SOURCE"@]
}

/// `umount --recursive <path>`.
pub open spec fn umount_args(path: Seq<char>) -> Seq<Seq<char>> {
    seq!["--recursive"@, path]
}

/// What one unmount comes to: the runner's own failure; nothing, where it
/// succeeded or the filesystem was not mounted any more; else a failure
/// naming the exit code and stderr.
pub open spec fn unmount_verdict(o: Result<CmdOutput, String>) -> Result<(), Seq<char>> {
    match o {
        Err(e) => Err(e@),
        Ok(out) => if out.exit_code == 0 || contains_seq(out.stderr@, "not mounted"@) {
            Ok(())
        } else {
            Err(exit_message(out, "unmount an earlier run's filesystem"@))
        },
    }
}

/// The unmount runs `um`, for `paths` in order, stopping at the first
/// failure: one run per path tried, every one but the last unmounted, and
/// the last deciding `res` (all paths tried and unmounted for `Ok`).
pub open spec fn unmount_runs(um: Seq<Run>, paths: Seq<Seq<char>>, res: Result<(), Seq<char>>) -> bool {
    &&& um.len() <= paths.len()
    &&& forall|i: int| 0 <= i < um.len() ==> ran_as(um, i, "umount"@, umount_args(#[trigger] paths[i]))
    &&& forall|i: int| 0 <= i < um.len() - 1 ==> unmount_verdict(#[trigger] um[i].3) == Ok::<(), Seq<char>>(())
    &&& match res {
        Ok(()) => um.len() == paths.len() && (um.len() == 0 || unmount_verdict(um.last().3) == Ok::<
            (),
            Seq<char>,
        >(())),
        Err(m) => um.len() >= 1 && unmount_verdict(um.last().3) == Err::<(), Seq<char>>(m),
    }
}

/// The runs of `unmount_under` and what they come to: the mount listing,
/// which must succeed, then the unmounts of what it lists at or under
/// `target`, deepest first; nothing else.
pub open spec fn unmount_under_runs(target: Seq<char>, made: Seq<Run>, res: Result<(), Seq<char>>) -> bool {
    &&& ran_as(made, 0, "findmnt"@, findmnt_args())
    &&& match made[0].3 {
        Err(e) => made.len() == 1 && res == Err::<(), Seq<char>>(e@),
        Ok(out) => if out.exit_code != 0 {
            made.len() == 1 && res == Err::<(), Seq<char>>(
                exit_message(out, "list mounted filesystems"@),
            )
        } else {
            unmount_runs(
                made.skip(1),
                sort_by(mount_paths(lines(out.stdout@), target), longer_first()),
                res,
            )
        },
    }
}

/// Unmount every filesystem mounted at or under `target`, deepest first.
/// A filesystem that is already gone ("not mounted") is no failure.
pub fn unmount_under<R: CommandRunner>(runner: &mut RunLog<R>, target: &str) -> (r: Result<(), String>)
    ensures
        extends(old(runner).runs(), final(runner).runs()),
        unmount_under_runs(target@, added(old(runner).runs(), final(runner).runs()), unit_view(r)),
{
    let ghost start = runner.runs();
    let fargs = ["--noheadings", "--raw", "--output", "TARGET,SOURCE"];
    assert(arg_seq(fargs@) =~= findmnt_args());
    let listed = runner.run("findmnt", &fargs);
    let ghost first = call("findmnt"@, findmnt_args(), listed);
    proof {
        lemma_pushed(start, runner.runs());
    }
    let out = match listed {
        Ok(o) => o,
        Err(e) => {
            return Err(e);
        },
    };
    match check_exit(&out, "list mounted filesystems") {
        Ok(()) => {},
        Err(m) => {
            return Err(m);
        },
    }
    let mounts = mounts_to_unmount(out.stdout.as_str(), target);
    let ghost mv = string_views(mounts@);
    let ghost mut um: Seq<Run> = seq![];
    let mut i: usize = 0;
    while i < mounts.len()
        invariant
            i <= mounts.len(),
            mv == string_views(mounts@),
            first == call("findmnt"@, findmnt_args(), Ok::<CmdOutput, String>(out)),
            out.exit_code == 0,
            mv == sort_by(mount_paths(lines(out.stdout@), target@), longer_first()),
            start == old(runner).runs(),
            runner.runs() == start + seq![first] + um,
            um.len() == i,
            forall|j: int| 0 <= j < i ==> ran_as(um, j, "umount"@, umount_args(#[trigger] mv[j])),
            forall|j: int| 0 <= j < i ==> unmount_verdict(#[trigger] um[j].3) == Ok::<(), Seq<char>>(()),
        decreases mounts.len() - i,
    {
        let uargs = ["--recursive", mounts[i].as_str()];
        assert(arg_seq(uargs@) =~= umount_args(mv[i as int]));
        let ghost um0 = um;
        let run = runner.run("umount", &uargs);
        proof {
            um = um.push(call("umount"@, umount_args(mv[i as int]), run));
            assert(runner.runs() =~= start + seq![first] + um);
            assert forall|j: int| 0 <= j < i + 1 implies ran_as(um, j, "umount"@, umount_args(#[trigger] mv[j])) by {
                if j < i {
                    assert(um[j] == um0[j]);
                }
            }
            lemma_added(start, seq![first] + um);
            assert(runner.runs() =~= start + (seq![first] + um));
            assert(added(start, runner.runs()).skip(1) =~= um);
        }
        let output = match run {
            Ok(o) => o,
            Err(e) => {
                assert(unmount_verdict(um.last().3) == unit_view(Err(e)));
                return Err(e);
            },
        };
        if !output.success() && !contains_str(&chars_of(output.stderr.as_str()), "not mounted") {
            match check_exit(&output, "unmount an earlier run's filesystem") {
                Ok(()) => {},
                Err(m) => {
                    assert(unmount_verdict(um.last().3) == unit_view(Err(m)));
                    return Err(m);
                },
            }
        }
        assert(unmount_verdict(um[i as int].3) == Ok::<(), Seq<char>>(()));
        proof {
            assert forall|j: int| 0 <= j < i + 1 implies unmount_verdict(#[trigger] um[j].3) == Ok::<(), Seq<char>>(()) by {
                if j < i {
                    assert(um[j] == um0[j]);
                }
            }
        }
        i = i + 1;
    }
    proof {
        lemma_added(start, seq![first] + um);
        assert(runner.runs() =~= start + (seq![first] + um));
        assert(added(start, runner.runs()).skip(1) =~= um);
    }
    Ok(())
}

/// The names left in a directory as a refusal lists them: sorted, and
/// beyond five, the first five and `and N more`.
pub open spec fn leftover_summary(names: Seq<Seq<char>>) -> Seq<Seq<char>> {
    let sorted = sort_by(names, ascending());
    if sorted.len() > 5 {
        sorted.take(5).push("and "@ + dec((sorted.len() - 5) as nat) + " more"@)
    } else {
        sorted
    }
}

/// Sort the names found in a directory and shorten the list to five and a
/// count of the rest.
pub fn summarize_entries(names: Vec<String>) -> (r: Vec<String>)
    ensures
        string_views(r@) == leftover_summary(string_views(names@)),
{
    let mut sorted = sort_strings(names, false);
    if sorted.len() > 5 {
        let more = sorted.len() - 5;
        let ghost whole = string_views(sorted@);
        sorted.truncate(5);
        let mut m: Vec<char> = Vec::new();
        extend_str(&mut m, "and ");
        let n = decimal(more as u64);
        extend(&mut m, &n);
        extend_str(&mut m, " more");
        let ghost before = sorted@;
        sorted.push(chars_to_string(&m));
        assert(string_views(before) =~= whole.take(5));
        assert(string_views(sorted@) =~= string_views(before).push(m@));
    }
    sorted
}

/// The refusal for a target that is relative or the filesystem root.
pub open spec fn unsafe_target_message(target: Seq<char>) -> Seq<char> {
    "refusing to prepare "@ + target + " as an installation target"@
}

pub fn unsafe_target(target: &str) -> (r: String)
    ensures
        r@ == unsafe_target_message(target@),
{
    let mut m: Vec<char> = Vec::new();
    extend_str(&mut m, "refusing to prepare ");
    extend_str(&mut m, target);
    extend_str(&mut m, " as an installation target");
    chars_to_string(&m)
}

/// The refusal for a target that still holds files after the cleanup.
pub open spec fn not_empty_message(target: Seq<char>, leftovers: Seq<Seq<char>>) -> Seq<char> {
    "The target directory "@ + target + " is not empty: "@ + join_with(leftovers, ", "@)
        + ". Move or delete its contents, then start the installation again."@
}

pub fn not_empty(target: &str, leftovers: &Vec<String>) -> (r: String)
    ensures
        r@ == not_empty_message(target@, string_views(leftovers@)),
{
    let mut m: Vec<char> = Vec::new();
    extend_str(&mut m, "The target directory ");
    extend_str(&mut m, target);
    extend_str(&mut m, " is not empty: ");
    let ghost head = m@;
    let ghost sep = ", "@;
    let mut k: usize = 0;
    while k < leftovers.len()
        invariant
            k <= leftovers.len(),
            sep == ", "@,
            m@ == head + join_with(string_views(leftovers@).take(k as int), sep),
        decreases leftovers.len() - k,
    {
        if k > 0 {
            extend_str(&mut m, ", ");
        }
        extend_str(&mut m, leftovers[k].as_str());
        assert(string_views(leftovers@).take(k + 1).drop_last() == string_views(leftovers@).take(
            k as int,
        ));
        assert(m@ =~= head + join_with(string_views(leftovers@).take(k + 1), sep));
        k = k + 1;
    }
    assert(string_views(leftovers@).take(leftovers.len() as int) == string_views(leftovers@));
    extend_str(&mut m, ". Move or delete its contents, then start the installation again.");
    chars_to_string(&m)
}

} // verus!
