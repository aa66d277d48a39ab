//! Runs made through a [`CommandRunner`], with a log of each: which
//! program, which arguments, what it was fed and what it returned. The
//! runner itself is out of reach here, so every run a function makes goes
//! through [`RunLog::run`] and shows in the log; contracts state the runs
//! a function adds to it, and that it adds no others.

use vstd::prelude::*;

use crate::cmd::{arg_seq, CmdOutput, CommandRunner};

verus! {

/// One run: the program, its arguments, the bytes fed on its standard
/// input (if any), and what the run returned.
pub type Run = (Seq<char>, Seq<Seq<char>>, Option<Seq<u8>>, Result<CmdOutput, String>);

/// A run of `program` with `args` and nothing on its input.
pub open spec fn call(program: Seq<char>, args: Seq<Seq<char>>, result: Result<CmdOutput, String>) -> Run {
    (program, args, None, result)
}

/// Run `i` of `made` ran `program` with `args` and nothing on its input.
pub open spec fn ran_as(made: Seq<Run>, i: int, program: Seq<char>, args: Seq<Seq<char>>) -> bool {
    &&& 0 <= i < made.len()
    &&& made[i].0 == program
    &&& made[i].1 == args
    &&& made[i].2 is None
}

/// `made` is exactly one run, of `program` with `args`.
pub open spec fn single_run(made: Seq<Run>, program: Seq<char>, args: Seq<Seq<char>>) -> bool {
    made.len() == 1 && ran_as(made, 0, program, args)
}

/// `after` continues `before`: the runs logged before stay, in order.
pub open spec fn extends(before: Seq<Run>, after: Seq<Run>) -> bool {
    before.len() <= after.len() && after.take(before.len() as int) == before
}

/// The runs logged after `before`.
pub open spec fn added(before: Seq<Run>, after: Seq<Run>) -> Seq<Run> {
    after.skip(before.len() as int)
}

/// Runs added to a log are the runs that follow it.
pub proof fn lemma_added(before: Seq<Run>, made: Seq<Run>)
    ensures
        extends(before, before + made),
        added(before, before + made) == made,
{
    assert((before + made).take(before.len() as int) =~= before);
    assert((before + made).skip(before.len() as int) =~= made);
}

/// A log that continues another is it followed by what was added.
pub proof fn lemma_split(before: Seq<Run>, after: Seq<Run>)
    requires
        extends(before, after),
    ensures
        after == before + added(before, after),
{
    assert(after =~= before + added(before, after));
}

/// One run logged after `before`.
pub proof fn lemma_pushed(before: Seq<Run>, after: Seq<Run>)
    requires
        after == before.push(after.last()),
    ensures
        extends(before, after),
        added(before, after) == seq![after.last()],
{
    assert(after.take(before.len() as int) =~= before);
    assert(after.skip(before.len() as int) =~= seq![after.last()]);
}

/// Runs added in two stretches are those of the first, then those of the
/// second.
pub proof fn lemma_then(start: Seq<Run>, mid: Seq<Run>, after: Seq<Run>)
    requires
        extends(start, mid),
        extends(mid, after),
    ensures
        extends(start, after),
        added(start, after) == added(start, mid) + added(mid, after),
{
    assert(after.take(mid.len() as int).take(start.len() as int) =~= after.take(start.len() as int));
    assert(added(start, after) =~= added(start, mid) + added(mid, after)) by {
        assert forall|i: int| 0 <= i < added(start, after).len() implies #[trigger] added(start, after)[i]
            == (added(start, mid) + added(mid, after))[i] by {
            if i < mid.len() - start.len() {
                assert(after.take(mid.len() as int)[start.len() + i] == mid[start.len() + i]);
            }
        }
    }
}

/// No runs.
pub proof fn lemma_none(start: Seq<Run>)
    ensures
        extends(start, start),
        added(start, start) == Seq::<Run>::empty(),
{
    assert(start.take(start.len() as int) =~= start);
    assert(start.skip(start.len() as int) =~= Seq::<Run>::empty());
}

/// A runner and the log of the runs made through it.
pub struct RunLog<'a, R: CommandRunner> {
    runner: &'a R,
    log: Ghost<Seq<Run>>,
}

impl<'a, R: CommandRunner> RunLog<'a, R> {
    /// The runs made so far, oldest first.
    pub closed spec fn runs(&self) -> Seq<Run> {
        self.log@
    }

    /// A log of runs through `runner`, empty so far.
    pub fn new(runner: &'a R) -> (r: RunLog<'a, R>)
        ensures
            r.runs() == Seq::<Run>::empty(),
    {
        RunLog { runner, log: Ghost(Seq::empty()) }
    }

    /// Run `program` with `args`; the run and its result are logged.
    pub fn run(&mut self, program: &str, args: &[&str]) -> (r: Result<CmdOutput, String>)
        ensures
            final(self).runs() == old(self).runs().push(call(program@, arg_seq(args@), r)),
    {
        let r = self.runner.run(program, args);
        self.log = Ghost(self.log@.push(call(program@, arg_seq(args@), r)));
        r
    }

    /// Run `program` with `args`, feeding it `stdin`; the run is logged.
    pub fn run_with_stdin(&mut self, program: &str, args: &[&str], stdin: &[u8]) -> (r: Result<
        CmdOutput,
        String,
    >)
        ensures
            final(self).runs() == old(self).runs().push(
                (program@, arg_seq(args@), Some(stdin@), r),
            ),
    {
        let r = self.runner.run_with_stdin(program, args, stdin);
        self.log = Ghost(self.log@.push((program@, arg_seq(args@), Some(stdin@), r)));
        r
    }
}

} // verus!
