//! Command lines the installer runs and what their results mean.

use vstd::prelude::*;

use crate::run_log::{added, call, extends, lemma_added, single_run, RunLog};

use crate::text::{
    chars_of, chars_to_string, dec_int, decimal_i64, extend, extend_str, is_alnum,
    is_ascii_alphanumeric, lines, split_lines, trim, trimmed, views,
};

verus! {

#[derive(Debug, Clone)]
pub struct CmdOutput {
    pub stdout: String,
    pub stderr: String,
    pub exit_code: i32,
}

impl CmdOutput {
    pub fn success(&self) -> (r: bool)
        ensures
            r == (self.exit_code == 0),
    {
        self.exit_code == 0
    }
}

/// The arguments of a run as plain text.
pub open spec fn arg_seq(args: Seq<&str>) -> Seq<Seq<char>> {
    args.map_values(|a: &str| a@)
}

/// Something that runs programs: the real system, or a recording stand-in
/// in tests. What a run returns is the runner's business; the functions
/// here decide what to run and what a result means. They reach a runner
/// only through a [`RunLog`], and state their outcome in terms of the runs
/// it logged.
pub trait CommandRunner {
    /// Run `program` with `args`.
    fn run(&self, program: &str, args: &[&str]) -> Result<CmdOutput, String>;

    /// Run `program` with `args`, feeding it `stdin`.
    fn run_with_stdin(&self, program: &str, args: &[&str], stdin: &[u8]) -> Result<
        CmdOutput,
        String,
    >;
}

/// Run `cmd` through bash inside the target: `arch-chroot <target> bash -c <cmd>`.
pub fn chroot<R: CommandRunner>(runner: &mut RunLog<R>, target: &str, cmd: &str) -> (r: Result<
    CmdOutput,
    String,
>)
    ensures
        extends(old(runner).runs(), final(runner).runs()),
        single_run(
            added(old(runner).runs(), final(runner).runs()),
            "arch-chroot"@,
            seq![target@, "bash"@, "-c"@, cmd@],
        ),
        added(old(runner).runs(), final(runner).runs())[0].3 == r,
{
    let ghost start = runner.runs();
    let args = [target, "bash", "-c", cmd];
    let r = runner.run("arch-chroot", &args);
    assert(arg_seq(args@) =~= seq![target@, "bash"@, "-c"@, cmd@]);
    proof {
        lemma_added(start, seq![call("arch-chroot"@, arg_seq(args@), r)]);
        assert(runner.runs() =~= start + seq![call("arch-chroot"@, arg_seq(args@), r)]);
    }
    r
}

/// The arguments of `arch-chroot` that run `program` with `args` inside
/// `target`, no shell involved.
pub fn chroot_cmd_args<'a>(target: &'a str, program: &'a str, args: &[&'a str]) -> (r: Vec<&'a str>)
    ensures
        r@ == seq![target, program] + args@,
{
    let mut full: Vec<&str> = Vec::new();
    full.push(target);
    full.push(program);
    let mut i: usize = 0;
    while i < args.len()
        invariant
            i <= args.len(),
            full@ == seq![target, program] + args@.take(i as int),
        decreases args.len() - i,
    {
        full.push(args[i]);
        assert(args@.take(i + 1) == args@.take(i as int).push(args@[i as int]));
        i = i + 1;
    }
    assert(args@.take(args.len() as int) == args@);
    full
}

/// Run a program inside an arch-chroot without bash interpretation.
/// Arguments are passed directly to the program, avoiding shell injection.
pub fn chroot_cmd<R: CommandRunner>(
    runner: &mut RunLog<R>,
    target: &str,
    program: &str,
    args: &[&str],
) -> (r: Result<CmdOutput, String>)
    ensures
        extends(old(runner).runs(), final(runner).runs()),
        single_run(
            added(old(runner).runs(), final(runner).runs()),
            "arch-chroot"@,
            seq![target@, program@] + arg_seq(args@),
        ),
        added(old(runner).runs(), final(runner).runs())[0].3 == r,
{
    let ghost start = runner.runs();
    let full = chroot_cmd_args(target, program, args);
    let r = runner.run("arch-chroot", full.as_slice());
    assert(arg_seq(full@) =~= seq![target@, program@] + arg_seq(args@));
    proof {
        lemma_added(start, seq![call("arch-chroot"@, arg_seq(full@), r)]);
        assert(runner.runs() =~= start + seq![call("arch-chroot"@, arg_seq(full@), r)]);
    }
    r
}

/// Run a program inside the chroot and fail, naming `context`, when it
/// exits non-zero, or when it could not be run at all.
pub fn chroot_checked<R: CommandRunner>(
    runner: &mut RunLog<R>,
    target: &str,
    program: &str,
    args: &[&str],
    context: &str,
) -> (r: Result<(), String>)
    ensures
        extends(old(runner).runs(), final(runner).runs()),
        single_run(
            added(old(runner).runs(), final(runner).runs()),
            "arch-chroot"@,
            seq![target@, program@] + arg_seq(args@),
        ),
        unit_view(r) == checked(added(old(runner).runs(), final(runner).runs())[0].3, context@),
{
    let o = chroot_cmd(runner, target, program, args);
    let ghost g = o;
    let output = match o {
        Ok(out) => out,
        Err(e) => {
            assert(unit_view(Err(e)) == checked(g, context@));
            return Err(e);
        },
    };
    let r = check_exit(&output, context);
    assert(unit_view(r) == checked(g, context@));
    r
}

/// Characters a shell word may hold unquoted.
pub open spec fn shell_safe(c: char) -> bool {
    is_alnum(c) || c == '-' || c == '_' || c == '.' || c == '/' || c == ':' || c == '@' || c
        == '+' || c == ','
}

/// `s` with each `'` written as `'\''`.
pub open spec fn escape_quotes(s: Seq<char>) -> Seq<char>
    decreases s.len(),
{
    if s.len() == 0 {
        s
    } else {
        escape_quotes(s.drop_last()) + if s.last() == '\'' {
            seq!['\'', '\\', '\'', '\'']
        } else {
            seq![s.last()]
        }
    }
}

/// What `shell_quote` makes of `s`.
pub open spec fn quoted(s: Seq<char>) -> Seq<char> {
    if s.len() == 0 {
        seq!['\'', '\'']
    } else if forall|i: int| 0 <= i < s.len() ==> shell_safe(s[i]) {
        s
    } else {
        seq!['\''] + escape_quotes(s) + seq!['\'']
    }
}

/// Shell-quote a string for safe interpolation into bash commands: empty
/// becomes `''`, a word of safe characters stays as it is, anything else
/// is wrapped in single quotes with its own single quotes escaped.
pub fn shell_quote(s: &str) -> (r: String)
    ensures
        r@ == quoted(s@),
{
    let v = chars_of(s);
    if v.len() == 0 {
        let mut q: Vec<char> = Vec::new();
        q.push('\'');
        q.push('\'');
        assert(q@ =~= seq!['\'', '\'']);
        return chars_to_string(&q);
    }
    let mut safe = true;
    for i in 0..v.len()
        invariant
            safe == forall|j: int| 0 <= j < i ==> shell_safe(v@[j]),
    {
        let c = v[i];
        let ok = is_ascii_alphanumeric(c) || c == '-' || c == '_' || c == '.' || c == '/' || c
            == ':' || c == '@' || c == '+' || c == ',';
        if !ok {
            safe = false;
        }
    }
    if safe {
        return chars_to_string(&v);
    }
    let mut out: Vec<char> = Vec::new();
    out.push('\'');
    for i in 0..v.len()
        invariant
            out@ == seq!['\''] + escape_quotes(v@.take(i as int)),
    {
        assert(v@.take(i + 1).drop_last() == v@.take(i as int));
        if v[i] == '\'' {
            out.push('\'');
            out.push('\\');
            out.push('\'');
            out.push('\'');
        } else {
            out.push(v[i]);
        }
    }
    assert(v@.take(v.len() as int) == v@);
    out.push('\'');
    chars_to_string(&out)
}

/// `context: exit code N, stderr: <trimmed stderr>`.
pub open spec fn exit_message(o: CmdOutput, context: Seq<char>) -> Seq<char> {
    context + ": exit code "@ + dec_int(o.exit_code as int) + ", stderr: "@ + trim(o.stderr@)
}

/// Succeed when the command exited with status 0; otherwise fail naming
/// `context`, the exit code and what the command wrote to stderr.
pub fn check_exit(output: &CmdOutput, context: &str) -> (r: Result<(), String>)
    ensures
        match r {
            Ok(()) => output.exit_code == 0,
            Err(m) => output.exit_code != 0 && m@ == exit_message(*output, context@),
        },
{
    if output.success() {
        return Ok(());
    }
    let mut m = chars_of(context);
    extend_str(&mut m, ": exit code ");
    let code = decimal_i64(output.exit_code as i64);
    extend(&mut m, &code);
    extend_str(&mut m, ", stderr: ");
    let err = chars_of(output.stderr.as_str());
    let t = trimmed(&err);
    extend(&mut m, &t);
    Err(chars_to_string(&m))
}

/// Whether a run succeeded: the program ran and exited with status 0.
pub open spec fn ran_ok(o: Result<CmdOutput, String>) -> bool {
    o matches Ok(out) && out.exit_code == 0
}

/// The runner's failure of a run, if it failed to run the program.
pub open spec fn run_failure(o: Result<CmdOutput, String>) -> Option<Seq<char>> {
    match o {
        Err(e) => Some(e@),
        Ok(_) => None,
    }
}

/// The arguments as string slices, for a runner.
pub fn arg_refs(args: &Vec<String>) -> (r: Vec<&str>)
    ensures
        arg_seq(r@) == arg_views(args@),
{
    let mut r: Vec<&str> = Vec::new();
    let mut i: usize = 0;
    while i < args.len()
        invariant
            i <= args.len(),
            r@.map_values(|a: &str| a@) == arg_views(args@.take(i as int)),
        decreases args.len() - i,
    {
        let ghost before = r@;
        r.push(args[i].as_str());
        assert(r@.map_values(|a: &str| a@) =~= before.map_values(|a: &str| a@).push(args@[i as int]@));
        assert(arg_views(args@.take(i + 1)) =~= arg_views(args@.take(i as int)).push(args@[i as int]@));
        i = i + 1;
    }
    assert(args@.take(args.len() as int) == args@);
    r
}

/// A `Result<(), String>` as plain values.
pub open spec fn unit_view(r: Result<(), String>) -> Result<(), Seq<char>> {
    match r {
        Ok(()) => Ok(()),
        Err(e) => Err(e@),
    }
}

/// A `Result<bool, String>` as plain values.
pub open spec fn bool_view(r: Result<bool, String>) -> Result<bool, Seq<char>> {
    match r {
        Ok(b) => Ok(b),
        Err(e) => Err(e@),
    }
}

/// What a run checked with [`check_exit`] comes to: the runner's own
/// failure, or a failure naming `context` when the program exited
/// non-zero.
pub open spec fn checked(o: Result<CmdOutput, String>, context: Seq<char>) -> Result<(), Seq<char>> {
    match o {
        Err(e) => Err(e@),
        Ok(out) => if out.exit_code == 0 {
            Ok(())
        } else {
            Err(exit_message(out, context))
        },
    }
}

/// The argument vectors' views.
pub open spec fn arg_views(v: Seq<String>) -> Seq<Seq<char>> {
    v.map_values(|s: String| s@)
}

/// `[program] line` for each non-blank stdout line, then
/// `[program stderr] line` for each non-blank stderr line.
pub open spec fn log_text(program: Seq<char>, o: CmdOutput) -> Seq<Seq<char>> {
    tagged(lines(o.stdout@), seq!['['] + program + "] "@) + tagged(
        lines(o.stderr@),
        seq!['['] + program + " stderr] "@,
    )
}

/// `tag + line` for each line that is not blank.
pub open spec fn tagged(ls: Seq<Seq<char>>, tag: Seq<char>) -> Seq<Seq<char>>
    decreases ls.len(),
{
    if ls.len() == 0 {
        seq![]
    } else if trim(ls.last()).len() == 0 {
        tagged(ls.drop_last(), tag)
    } else {
        tagged(ls.drop_last(), tag).push(tag + ls.last())
    }
}

fn push_tagged(out: &mut Vec<String>, text: &str, tag: &Vec<char>)
    ensures
        arg_views(final(out)@) == arg_views(old(out)@) + tagged(lines(text@), tag@),
{
    let ls = split_lines(text);
    let ghost lsv = views(ls@);
    for i in 0..ls.len()
        invariant
            lsv == views(ls@),
            arg_views(out@) == arg_views(old(out)@) + tagged(lsv.take(i as int), tag@),
    {
        assert(lsv.take(i + 1).drop_last() == lsv.take(i as int));
        assert(lsv[i as int] == ls@[i as int]@);
        let t = trimmed(&ls[i]);
        if t.len() > 0 {
            let mut l: Vec<char> = Vec::new();
            extend(&mut l, tag);
            extend(&mut l, &ls[i]);
            let ghost before = out@;
            out.push(chars_to_string(&l));
            assert(arg_views(out@) == arg_views(before).push(l@));
        }
    }
    assert(lsv.take(ls.len() as int) == lsv);
}

/// The lines a finished command contributes to the trace log.
pub fn log_output(program: &str, result: &CmdOutput) -> (r: Vec<String>)
    ensures
        arg_views(r@) == log_text(program@, *result),
{
    let mut out: Vec<String> = Vec::new();
    let mut tag: Vec<char> = Vec::new();
    tag.push('[');
    extend_str(&mut tag, program);
    extend_str(&mut tag, "] ");
    assert(tag@ =~= seq!['['] + program@ + "] "@);
    push_tagged(&mut out, result.stdout.as_str(), &tag);
    let mut etag: Vec<char> = Vec::new();
    etag.push('[');
    extend_str(&mut etag, program);
    extend_str(&mut etag, " stderr] ");
    assert(etag@ =~= seq!['['] + program@ + " stderr] "@);
    push_tagged(&mut out, result.stderr.as_str(), &etag);
    assert(arg_views(out@) =~= log_text(program@, *result));
    out
}

} // verus!
