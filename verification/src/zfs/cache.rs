//! The `zfs-list.cache` a boot environment's mounts are generated from.

use vstd::prelude::*;

use crate::cmd::{arg_seq, check_exit, checked, unit_view, CmdOutput, CommandRunner};
use crate::run_log::{added, extends, lemma_pushed, single_run, RunLog};
use crate::zfs::bootmenu::HOSTID_VALUE;
use crate::text::{
    chars_of, chars_to_string, extend, has_prefix, join, join_with, lines, slice, split_char,
    split_lines, split_on, starts_with, trim_end_char, trim_end_matches_char, views, chars_eq,
};

verus! {

/// A mountpoint with the temporary prefix taken off: the prefix itself
/// becomes `/`, `prefix/rest` becomes `/rest`, anything else is kept.
pub open spec fn remount(path: Seq<char>, prefix: Seq<char>) -> Seq<char> {
    if path == prefix {
        seq!['/']
    } else if has_prefix(path, prefix.push('/')) {
        seq!['/'] + path.skip(prefix.len() as int + 1)
    } else {
        path
    }
}

/// A cache line with its second tab-separated field remounted.
pub open spec fn rewrite_line(l: Seq<char>, prefix: Seq<char>) -> Seq<char> {
    let f = split_on(l, '\t');
    if f.len() > 1 {
        join_with(f.update(1, remount(f[1], prefix)), seq!['\t'])
    } else {
        l
    }
}

/// The cache with every mountpoint taken off `mountpoint` (less its
/// trailing `/`), lines joined by `\n` with none after the last.
pub open spec fn rewritten_cache(content: Seq<char>, mountpoint: Seq<char>) -> Seq<char> {
    let prefix = trim_end_char(mountpoint, '/');
    join_with(lines(content).map_values(|l: Seq<char>| rewrite_line(l, prefix)), seq!['\n'])
}

fn remount_field(path: &Vec<char>, prefix: &Vec<char>) -> (r: Vec<char>)
    ensures
        r@ == remount(path@, prefix@),
{
    if chars_eq(path, prefix) {
        let mut r: Vec<char> = Vec::new();
        r.push('/');
        assert(r@ =~= seq!['/']);
        return r;
    }
    let mut p = slice(prefix, 0, prefix.len());
    p.push('/');
    assert(p@ =~= prefix@.push('/'));
    if starts_with(path, &p) {
        let mut r: Vec<char> = Vec::new();
        r.push('/');
        let rest = slice(path, p.len(), path.len());
        extend(&mut r, &rest);
        assert(r@ =~= seq!['/'] + path@.skip(prefix@.len() as int + 1));
        r
    } else {
        slice(path, 0, path.len())
    }
}

/// Rewrite mountpoints in the zfs-list.cache file by stripping the
/// temporary mountpoint prefix. The cache is tab-separated; the second
/// field is the mountpoint. For example, `/mnt/home` becomes `/home`.
pub fn rewrite_cache_mountpoints(content: &str, mountpoint: &str) -> (r: String)
    ensures
        r@ == rewritten_cache(content@, mountpoint@),
{
    let prefix = trim_end_matches_char(&chars_of(mountpoint), '/');
    let ls = split_lines(content);
    let ghost lsv = views(ls@);
    let ghost want = lsv.map_values(|l: Seq<char>| rewrite_line(l, prefix@));
    let mut out_lines: Vec<Vec<char>> = Vec::new();
    for i in 0..ls.len()
        invariant
            lsv == views(ls@),
            want == lsv.map_values(|l: Seq<char>| rewrite_line(l, prefix@)),
            out_lines.len() == i,
            views(out_lines@) == want.take(i as int),
    {
        assert(lsv[i as int] == ls@[i as int]@);
        let fields = split_char(&ls[i], '\t');
        let ghost before = out_lines@;
        if fields.len() > 1 {
            let mut f = fields;
            let ghost fv = views(f@);
            let new_field = remount_field(&f[1], &prefix);
            f.set(1, new_field);
            assert(views(f@) =~= fv.update(1, remount(fv[1], prefix@)));
            let mut tab: Vec<char> = Vec::new();
            tab.push('\t');
            out_lines.push(join(&f, &tab));
        } else {
            out_lines.push(slice(&ls[i], 0, ls[i].len()));
        }
        assert(want[i as int] == rewrite_line(lsv[i as int], prefix@));
        assert(out_lines@[i as int]@ == want[i as int]);
        assert(views(out_lines@) == views(before).push(out_lines@[i as int]@));
        assert(views(out_lines@) =~= want.take(i + 1));
    }
    assert(want.take(ls.len() as int) == want);
    let mut nl: Vec<char> = Vec::new();
    nl.push('\n');
    chars_to_string(&join(&out_lines, &nl))
}

/// Write the fixed host id (`zgenhostid -f 0x00bab10c`) the boot menu and
/// the installed system agree on.
pub fn create_hostid<R: CommandRunner>(runner: &mut RunLog<R>) -> (r: Result<(), String>)
    ensures
        extends(old(runner).runs(), final(runner).runs()),
        single_run(added(old(runner).runs(), final(runner).runs()), "zgenhostid"@, seq!["-f"@, HOSTID_VALUE@]),
        unit_view(r) == checked(added(old(runner).runs(), final(runner).runs())[0].3, "zgenhostid"@),
{
    let ghost start = runner.runs();
    let args = ["-f", HOSTID_VALUE];
    assert(arg_seq(args@) =~= seq!["-f"@, HOSTID_VALUE@]);
    let o = runner.run("zgenhostid", &args);
    proof {
        lemma_pushed(start, runner.runs());
    }
    let ghost g = o;
    let output = match o {
        Ok(out) => out,
        Err(e) => {
            assert(unit_view(Err(e)) == checked(g, "zgenhostid"@));
            return Err(e);
        },
    };
    let r = check_exit(&output, "zgenhostid");
    assert(unit_view(r) == checked(g, "zgenhostid"@));
    r
}

} // verus!
