//! Installing a Debian target: the debootstrap and apt-get command lines,
//! what apt reports while it installs (the lines of its machine-readable
//! status stream, the size of a simulated transaction) and the messages of
//! a failed run.

use vstd::prelude::*;

use crate::cmd::{arg_refs, arg_views, check_exit, checked, unit_view, CmdOutput, CommandRunner};
use crate::run_log::{added, extends, lemma_pushed, single_run, RunLog};

use crate::text::{
    ascii_lower_seq, chars_eq, chars_of, chars_to_string, dec_int, decimal_i64, extend, join_with,
    all_digits, extend_str, find, find_char, has_prefix, is_ascii_digit, is_digit, lines, slice, split_lines, starts_with,
    to_ascii_lowercase, trim, trimmed, views,
};

verus! {

/// An optional sign, then at least one digit with at most one `.` among
/// them, optionally followed by `e` or `E`, an optional sign and digits;
/// or `inf`, `infinity` or `nan` in any case after an optional sign. This
/// is the grammar `str::parse::<f32>` documents.
pub open spec fn is_float_text(s: Seq<char>) -> bool {
    let t = if s.len() > 0 && (s[0] == '+' || s[0] == '-') {
        s.skip(1)
    } else {
        s
    };
    is_special_float(t) || is_decimal_float(t)
}

pub open spec fn is_special_float(t: Seq<char>) -> bool {
    let l = ascii_lower_seq(t);
    l == "inf"@ || l == "infinity"@ || l == "nan"@
}

/// The position of the first `e` or `E`.
pub open spec fn exp_mark(t: Seq<char>) -> Option<int>
    decreases t.len(),
{
    if t.len() == 0 {
        None
    } else if t[0] == 'e' || t[0] == 'E' {
        Some(0)
    } else {
        match exp_mark(t.skip(1)) {
            Some(k) => Some(k + 1),
            None => None,
        }
    }
}

/// How many `.` the text holds.
pub open spec fn dots(t: Seq<char>) -> nat
    decreases t.len(),
{
    if t.len() == 0 {
        0
    } else {
        dots(t.drop_last()) + if t.last() == '.' {
            1nat
        } else {
            0nat
        }
    }
}

/// Digits and at most one `.`, with at least one digit.
pub open spec fn is_mantissa(m: Seq<char>) -> bool {
    &&& forall|i: int| 0 <= i < m.len() ==> is_digit(m[i]) || m[i] == '.'
    &&& dots(m) <= 1
    &&& exists|i: int| 0 <= i < m.len() && is_digit(m[i])
}

/// An optional sign, then one or more digits.
pub open spec fn is_exponent(x: Seq<char>) -> bool {
    let d = unsigned(x);
    d.len() > 0 && all_digits(d)
}

/// The text after an optional leading sign.
pub open spec fn unsigned(x: Seq<char>) -> Seq<char> {
    if x.len() > 0 && (x[0] == '+' || x[0] == '-') {
        x.skip(1)
    } else {
        x
    }
}

pub open spec fn is_decimal_float(t: Seq<char>) -> bool {
    match exp_mark(t) {
        None => is_mantissa(t),
        Some(e) => is_mantissa(t.take(e)) && is_exponent(t.skip(e + 1)),
    }
}

proof fn lemma_exp_mark(t: Seq<char>, i: int)
    requires
        0 <= i <= t.len(),
        forall|j: int| 0 <= j < i ==> t[j] != 'e' && t[j] != 'E',
    ensures
        i < t.len() && (t[i] == 'e' || t[i] == 'E') ==> exp_mark(t) == Some(i),
        i == t.len() ==> exp_mark(t) is None,
    decreases i,
{
    if i > 0 {
        let u = t.skip(1);
        assert forall|j: int| 0 <= j < i - 1 implies u[j] != 'e' && u[j] != 'E' by {
            assert(u[j] == t[j + 1]);
        }
        lemma_exp_mark(u, i - 1);
    }
}

fn mantissa(v: &Vec<char>, from: usize, to: usize) -> (r: bool)
    requires
        from <= to <= v.len(),
    ensures
        r == is_mantissa(v@.subrange(from as int, to as int)),
{
    let ghost m = v@.subrange(from as int, to as int);
    let mut i = from;
    let mut n_dots: usize = 0;
    let mut digit_seen = false;
    while i < to
        invariant
            from <= i <= to <= v.len(),
            m == v@.subrange(from as int, to as int),
            forall|j: int| 0 <= j < i - from ==> is_digit(m[j]) || m[j] == '.',
            n_dots == dots(m.take(i - from)),
            n_dots <= 1,
            digit_seen == exists|j: int| 0 <= j < i - from && is_digit(m[j]),
        decreases to - i,
    {
        let c = v[i];
        assert(m[i - from] == c);
        assert(m.take(i - from + 1).drop_last() =~= m.take(i - from));
        if c == '.' {
            if n_dots == 1 {
                proof {
                    lemma_dots_prefix(m, i - from + 1);
                }
                return false;
            }
            n_dots = n_dots + 1;
        } else if is_ascii_digit(c) {
            digit_seen = true;
        } else {
            return false;
        }
        i = i + 1;
    }
    assert(m.take(to - from) =~= m);
    digit_seen
}

proof fn lemma_dots_prefix(m: Seq<char>, k: int)
    requires
        0 <= k <= m.len(),
    ensures
        dots(m.take(k)) <= dots(m),
    decreases m.len() - k,
{
    if k < m.len() {
        assert(m.drop_last().take(k) =~= m.take(k));
        lemma_dots_prefix(m.drop_last(), k);
    } else {
        assert(m.take(k) =~= m);
    }
}

fn exponent(v: &Vec<char>, from: usize) -> (r: bool)
    requires
        from <= v.len(),
    ensures
        r == is_exponent(v@.skip(from as int)),
{
    let ghost x = v@.skip(from as int);
    let mut i = from;
    if i < v.len() && (v[i] == '+' || v[i] == '-') {
        i = i + 1;
    }
    let ghost d = v@.skip(i as int);
    assert(d =~= unsigned(x));
    if i == v.len() {
        return false;
    }
    let start = i;
    while i < v.len()
        invariant
            start <= i <= v.len(),
            d == v@.skip(start as int),
            is_exponent(v@.skip(from as int)) == (d.len() > 0 && all_digits(d)),
            forall|j: int| 0 <= j < i - start ==> is_digit(d[j]),
        decreases v.len() - i,
    {
        if !is_ascii_digit(v[i]) {
            assert(!is_digit(d[i - start]));
            return false;
        }
        i = i + 1;
    }
    true
}

fn equals_lower(t: &Vec<char>, word: &str) -> (r: bool)
    ensures
        r == (ascii_lower_seq(t@) == word@),
{
    let l = to_ascii_lowercase(t);
    chars_eq(&l, &chars_of(word))
}

/// Whether `s` reads as a number to `str::parse::<f32>`.
pub fn is_float(s: &Vec<char>) -> (r: bool)
    ensures
        r == is_float_text(s@),
{
    let start: usize = if s.len() > 0 && (s[0] == '+' || s[0] == '-') {
        1
    } else {
        0
    };
    let t = slice(s, start, s.len());
    assert(t@ =~= if s@.len() > 0 && (s@[0] == '+' || s@[0] == '-') {
        s@.skip(1)
    } else {
        s@
    });
    if equals_lower(&t, "inf") || equals_lower(&t, "infinity") || equals_lower(&t, "nan") {
        return true;
    }
    let mut e: usize = 0;
    while e < t.len() && t[e] != 'e' && t[e] != 'E'
        invariant
            e <= t.len(),
            forall|j: int| 0 <= j < e ==> t@[j] != 'e' && t@[j] != 'E',
        decreases t.len() - e,
    {
        e = e + 1;
    }
    proof {
        lemma_exp_mark(t@, e as int);
    }
    if e == t.len() {
        assert(t@.subrange(0, t.len() as int) =~= t@);
        mantissa(&t, 0, t.len())
    } else {
        assert(t@.subrange(0, e as int) =~= t@.take(e as int));
        mantissa(&t, 0, e) && exponent(&t, e + 1)
    }
}

/// The kind of a status line.
#[derive(Debug, Clone, Copy, PartialEq, Eq, Structural)]
pub enum StatusKind {
    /// `dlstatus`: a download's progress.
    Download,
    /// `pmstatus`: a package's progress.
    Package,
    /// `pmerror`: a package failed.
    Error,
}

/// One line of apt's status stream: its kind, its subject (a package, or
/// a download's number), the percentage as written, and the message.
#[derive(Debug, PartialEq, Eq)]
pub struct Status {
    pub kind: StatusKind,
    pub subject: String,
    pub percent: String,
    pub message: String,
}

/// The fields after the kind, given the search for the percentage starts
/// at `offset`: the subject runs to the first `:` from there whose next
/// field reads as a number; that field is the percentage and what follows
/// its `:` the message. The subject and the message may hold colons.
pub open spec fn status_fields(rest: Seq<char>, offset: int) -> Option<(Seq<char>, Seq<char>, Seq<char>)>
    decreases rest.len() - offset,
    when 0 <= offset <= rest.len()
{
    match find(rest.skip(offset), ':') {
        None => None,
        Some(k) => {
            let colon = offset + k;
            let after = rest.skip(colon + 1);
            match find(after, ':') {
                None => None,
                Some(m) => if is_float_text(after.take(m)) {
                    Some((rest.take(colon), after.take(m), after.skip(m + 1)))
                } else {
                    proof {
                        lemma_find_bound(rest.skip(offset), ':');
                    }
                    status_fields(rest, colon + 1)
                },
            }
        },
    }
}

/// The kind a line's first field names, if it is a status line's.
pub open spec fn kind_named(k: Seq<char>) -> Option<StatusKind> {
    if k == "dlstatus"@ {
        Some(StatusKind::Download)
    } else if k == "pmstatus"@ {
        Some(StatusKind::Package)
    } else if k == "pmerror"@ {
        Some(StatusKind::Error)
    } else {
        None
    }
}

/// A status line read: the kind before the first `:`, then the fields.
pub open spec fn status_of(line: Seq<char>) -> Option<(StatusKind, Seq<char>, Seq<char>, Seq<char>)> {
    match find(line, ':') {
        None => None,
        Some(i) => match kind_named(line.take(i)) {
            None => None,
            Some(kind) => match status_fields(line.skip(i + 1), 0) {
                None => None,
                Some((subject, percent, message)) => Some((kind, subject, percent, message)),
            },
        },
    }
}

pub proof fn lemma_find_bound(s: Seq<char>, c: char)
    ensures
        find(s, c) matches Some(i) ==> 0 <= i < s.len() && s[i] == c,
    decreases s.len(),
{
    if s.len() > 0 && s[0] != c {
        lemma_find_bound(s.skip(1), c);
    }
}

fn kind_of(k: &Vec<char>) -> (r: Option<StatusKind>)
    ensures
        r == kind_named(k@),
{
    if chars_eq(k, &chars_of("dlstatus")) {
        Some(StatusKind::Download)
    } else if chars_eq(k, &chars_of("pmstatus")) {
        Some(StatusKind::Package)
    } else if chars_eq(k, &chars_of("pmerror")) {
        Some(StatusKind::Error)
    } else {
        None
    }
}

impl Status {
    /// Parse `kind:subject:percent:message` (see `status_of`); `None` for a
    /// line that is not a status line.
    pub fn parse(line: &str) -> (r: Option<Status>)
        ensures
            match r {
                Some(s) => status_of(line@) == Some((s.kind, s.subject@, s.percent@, s.message@)),
                None => status_of(line@) is None,
            },
    {
        let v = chars_of(line);
        let i = match find_char(&v, ':') {
            Some(i) => i,
            None => return None,
        };
        let kind = match kind_of(&slice(&v, 0, i)) {
            Some(k) => k,
            None => return None,
        };
        let rest = slice(&v, i + 1, v.len());
        assert(rest@ =~= line@.skip(i + 1));
        assert(v@.subrange(0, i as int) =~= line@.take(i as int));
        let mut offset: usize = 0;
        assert(rest@.skip(0) =~= rest@);
        loop
            invariant
                offset <= rest.len(),
                rest@ == line@.skip(i + 1),
                find(line@, ':') == Some(i as int),
                kind_named(line@.take(i as int)) == Some(kind),
                status_fields(rest@, 0) == status_fields(rest@, offset as int),
            decreases rest.len() - offset,
        {
            let tail = slice(&rest, offset, rest.len());
            assert(tail@ =~= rest@.skip(offset as int));
            let k = match find_char(&tail, ':') {
                Some(k) => k,
                None => return None,
            };
            let colon = offset + k;
            let after = slice(&rest, colon + 1, rest.len());
            assert(after@ =~= rest@.skip(colon + 1));
            let m = match find_char(&after, ':') {
                Some(m) => m,
                None => return None,
            };
            let field = slice(&after, 0, m);
            if is_float(&field) {
                let subject = slice(&rest, 0, colon);
                let message = slice(&after, m + 1, after.len());
                assert(field@ =~= after@.take(m as int));
                assert(subject@ =~= rest@.take(colon as int));
                assert(message@ =~= after@.skip(m + 1));
                return Some(
                    Status {
                        kind,
                        subject: chars_to_string(&subject),
                        percent: chars_to_string(&field),
                        message: chars_to_string(&message),
                    },
                );
            }
            assert(field@ =~= after@.take(m as int));
            offset = colon + 1;
        }
    }
}

/// How many of the lines announce an installation (`Inst …`).
pub open spec fn inst_count(ls: Seq<Seq<char>>) -> nat
    decreases ls.len(),
{
    if ls.len() == 0 {
        0
    } else {
        inst_count(ls.drop_last()) + if has_prefix(ls.last(), "Inst "@) {
            1nat
        } else {
            0nat
        }
    }
}

/// How many packages a simulated `apt-get install` would unpack: the lines
/// of its output that start with `Inst `.
pub fn count_changes(stdout: &str) -> (r: usize)
    ensures
        r == inst_count(lines(stdout@)),
{
    let ls = split_lines(stdout);
    let prefix = chars_of("Inst ");
    let mut n: usize = 0;
    let mut i: usize = 0;
    while i < ls.len()
        invariant
            i <= ls.len(),
            prefix@ == "Inst "@,
            views(ls@) == lines(stdout@),
            n == inst_count(views(ls@).take(i as int)),
            n <= i,
        decreases ls.len() - i,
    {
        assert(views(ls@).take(i + 1).drop_last() =~= views(ls@).take(i as int));
        if starts_with(&ls[i], &prefix) {
            n = n + 1;
        }
        i = i + 1;
    }
    assert(views(ls@).take(ls.len() as int) =~= views(ls@));
    n
}

/// The refusal of an argument that apt would take for an option.
pub open spec fn not_a_package_message(name: Seq<char>) -> Seq<char> {
    seq!['\''] + name + "' is not a package name"@
}

/// Refuse a package list whose first entry starting with `-` apt would
/// take for an option.
pub fn check_package_names(packages: &[&str]) -> (r: Result<(), String>)
    ensures
        r is Ok <==> forall|i: int|
            0 <= i < packages@.len() ==> !(#[trigger] packages@[i]@.len() > 0 && packages@[i]@[0] == '-'),
        r matches Err(m) ==> exists|i: int|
            0 <= i < packages@.len() && packages@[i]@.len() > 0 && packages@[i]@[0] == '-' && (
            forall|j: int| 0 <= j < i ==> !(packages@[j]@.len() > 0 && packages@[j]@[0] == '-'))
                && m@ == not_a_package_message(packages@[i]@),
{
    let mut i: usize = 0;
    while i < packages.len()
        invariant
            i <= packages.len(),
            forall|j: int| 0 <= j < i ==> !(packages@[j]@.len() > 0 && packages@[j]@[0] == '-'),
        decreases packages.len() - i,
    {
        let name = chars_of(packages[i]);
        if name.len() > 0 && name[0] == '-' {
            let mut m: Vec<char> = Vec::new();
            m.push('\'');
            extend(&mut m, &name);
            extend_str(&mut m, "' is not a package name");
            return Err(chars_to_string(&m));
        }
        i = i + 1;
    }
    Ok(())
}

/// The failure of `apt-get install`: the exit code, and the last package
/// error apt reported or else what it wrote to stderr.
pub open spec fn install_failure(exit_code: i32, last_error: Option<Seq<char>>, stderr: Seq<char>) -> Seq<
    char,
> {
    "apt-get install failed (exit "@ + dec_int(exit_code as int) + "): "@ + match last_error {
        Some(e) => e,
        None => trim(stderr),
    }
}

pub fn install_failure_message(exit_code: i32, last_error: Option<&str>, stderr: &str) -> (r: String)
    ensures
        r@ == install_failure(
            exit_code,
            match last_error {
                Some(e) => Some(e@),
                None => None,
            },
            stderr@,
        ),
{
    let mut m = chars_of("apt-get install failed (exit ");
    let code = decimal_i64(exit_code as i64);
    extend(&mut m, &code);
    extend_str(&mut m, "): ");
    match last_error {
        Some(e) => extend_str(&mut m, e),
        None => {
            let t = trimmed(&chars_of(stderr));
            extend(&mut m, &t);
        },
    }
    chars_to_string(&m)
}

// ───────────────────────────── command lines ──────────────────────────

/// Where the deb822 sources go in the target.
pub const SOURCES_PATH: &'static str = "etc/apt/sources.list.d/debian.sources";

/// debootstrap writes the release alone here; the deb822 file replaces it.
pub const LEGACY_SOURCES_PATH: &'static str = "etc/apt/sources.list";

/// The installer's pins.
pub const PREFERENCES_PATH: &'static str = "etc/apt/preferences.d/archinstall-zfs";

/// Options for every apt-get run. Configuration files a package ships are
/// kept as the installer wrote them, and nothing waits for an answer.
pub const APT_OPTIONS: [&'static str; 10] = [
    "-y",
    "-q",
    "-o",
    "APT::Status-Fd=1",
    "-o",
    "Dpkg::Use-Pty=0",
    "-o",
    "Dpkg::Options::=--force-confdef",
    "-o",
    "Dpkg::Options::=--force-confold",
];

pub open spec fn str_views(v: Seq<&str>) -> Seq<Seq<char>> {
    v.map_values(|a: &str| a@)
}

/// `arch-chroot`'s arguments for `apt-get <args>` in the target at `root`.
pub open spec fn apt_get_argv(root: Seq<char>, args: Seq<Seq<char>>) -> Seq<Seq<char>> {
    seq![root, "env"@, "DEBIAN_FRONTEND=noninteractive"@, "apt-get"@] + str_views(APT_OPTIONS@)
        + args
}

fn push_strs(out: &mut Vec<String>, items: &[&str])
    ensures
        arg_views(final(out)@) == arg_views(old(out)@) + str_views(items@),
{
    let mut i: usize = 0;
    while i < items.len()
        invariant
            i <= items.len(),
            arg_views(out@) == arg_views(old(out)@) + str_views(items@.take(i as int)),
        decreases items.len() - i,
    {
        let ghost before = out@;
        out.push(items[i].to_string());
        assert(arg_views(out@) =~= arg_views(before).push(items@[i as int]@));
        assert(str_views(items@.take(i + 1)) =~= str_views(items@.take(i as int)).push(
            items@[i as int]@,
        ));
        i = i + 1;
    }
    assert(items@.take(items.len() as int) =~= items@);
}

/// The arguments of `arch-chroot` that run `apt-get <args>` with the
/// installer's options inside `root`, non-interactively.
pub fn apt_get_args(root: &str, args: &[&str]) -> (r: Vec<String>)
    ensures
        arg_views(r@) == apt_get_argv(root@, str_views(args@)),
{
    let mut r: Vec<String> = Vec::new();
    push_strs(&mut r, &[root, "env", "DEBIAN_FRONTEND=noninteractive", "apt-get"]);
    let options = APT_OPTIONS;
    push_strs(&mut r, options.as_slice());
    push_strs(&mut r, args);
    r
}

/// debootstrap's arguments: the release `suite` with `components`, checked
/// against `keyring`, into `target`, from `mirror`.
pub open spec fn debootstrap_argv(
    components: Seq<Seq<char>>,
    keyring: Seq<char>,
    suite: Seq<char>,
    target: Seq<char>,
    mirror: Seq<char>,
) -> Seq<Seq<char>> {
    seq![
        "--arch=amd64"@,
        "--components="@ + join_with(components, seq![',']),
        "--keyring="@ + keyring,
        suite,
        target,
        mirror,
    ]
}

pub fn debootstrap_args(components: &[&str], keyring: &str, suite: &str, target: &str, mirror: &str) -> (r: Vec<String>)
    ensures
        arg_views(r@) == debootstrap_argv(str_views(components@), keyring@, suite@, target@, mirror@),
{
    let mut c = chars_of("--components=");
    let ghost sep = seq![','];
    let mut i: usize = 0;
    while i < components.len()
        invariant
            i <= components.len(),
            sep == seq![','],
            c@ == "--components="@ + join_with(str_views(components@).take(i as int), sep),
        decreases components.len() - i,
    {
        if i > 0 {
            c.push(',');
        }
        extend_str(&mut c, components[i]);
        assert(str_views(components@).take(i + 1).drop_last() =~= str_views(components@).take(i as int));
        assert(c@ =~= "--components="@ + join_with(str_views(components@).take(i + 1), sep));
        i = i + 1;
    }
    assert(str_views(components@).take(components.len() as int) =~= str_views(components@));
    let mut k = chars_of("--keyring=");
    extend_str(&mut k, keyring);
    let r = vec![
        "--arch=amd64".to_string(),
        chars_to_string(&c),
        chars_to_string(&k),
        suite.to_string(),
        target.to_string(),
        mirror.to_string(),
    ];
    assert(arg_views(r@) =~= debootstrap_argv(str_views(components@), keyring@, suite@, target@, mirror@));
    r
}

/// Install the release into `target` with debootstrap; a failure names
/// debootstrap. The sources are written only after this succeeds.
pub fn run_debootstrap<R: CommandRunner>(
    runner: &mut RunLog<R>,
    components: &[&str],
    keyring: &str,
    suite: &str,
    target: &str,
    mirror: &str,
) -> (r: Result<(), String>)
    ensures
        extends(old(runner).runs(), final(runner).runs()),
        single_run(added(old(runner).runs(), final(runner).runs()), "debootstrap"@, debootstrap_argv(str_views(components@), keyring@, suite@, target@, mirror@)),
        unit_view(r) == checked(added(old(runner).runs(), final(runner).runs())[0].3, "debootstrap"@),
{
    let ghost start = runner.runs();
    let args = debootstrap_args(components, keyring, suite, target, mirror);
    let refs = arg_refs(&args);
    let o = runner.run("debootstrap", refs.as_slice());
    proof {
        lemma_pushed(start, runner.runs());
    }
    let ghost g = o;
    let output = match o {
        Ok(out) => out,
        Err(e) => {
            assert(unit_view(Err(e)) == checked(g, "debootstrap"@));
            return Err(e);
        },
    };
    let r = check_exit(&output, "debootstrap");
    assert(unit_view(r) == checked(g, "debootstrap"@));
    r
}

/// What an apt error line contributes to a failed install's message:
/// `<package>: <message>`; nothing for other lines.
pub fn error_detail(status: &Status) -> (r: Option<String>)
    ensures
        match r {
            Some(d) => status.kind == StatusKind::Error && d@ == status.subject@ + ": "@ + status.message@,
            None => status.kind != StatusKind::Error,
        },
{
    match status.kind {
        StatusKind::Error => {
            let mut d = chars_of(status.subject.as_str());
            extend_str(&mut d, ": ");
            extend_str(&mut d, status.message.as_str());
            Some(chars_to_string(&d))
        },
        _ => None,
    }
}

} // verus!
