//! Line-based edits to shell-style and pacman configuration files.
//!
//! These files are small and regular enough that a line at a time is safer
//! than a parser: nothing outside the line being changed is reformatted, so
//! the user's comments and the package's examples survive an installation.

use vstd::prelude::*;

use crate::text::{
    chars_eq, chars_of, chars_to_string, contains, contains_seq, dec, decimal, extend, extend_str,
    has_prefix, join, join_lines, join_with, lemma_lines_of_joined, lemma_lines_unbroken, lines,
    push_lines, slice, split_lines, split_lines_chars, split_whitespace, starts_with, strip_cr,
    trim, trim_bounds, trim_start, trimmed, views, words, is_ws, line_scan, occurs_at,
    lemma_line_scan_append, digit,
};

verus! {

/// The line's trimmed text begins with `p`.
pub open spec fn opens_with(l: Seq<char>, p: Seq<char>) -> bool {
    has_prefix(trim(l), p)
}

/// `KEY=`.
pub open spec fn assign_prefix(key: Seq<char>) -> Seq<char> {
    key.push('=')
}

/// `#KEY=`.
pub open spec fn commented_prefix(key: Seq<char>) -> Seq<char> {
    seq!['#'] + assign_prefix(key)
}

/// Some line assigns the key.
pub open spec fn has_active(ls: Seq<Seq<char>>, key: Seq<char>) -> bool {
    exists|i: int| 0 <= i < ls.len() && opens_with(ls[i], assign_prefix(key))
}

/// Line `i` is the first commented example of the key.
pub open spec fn first_example(ls: Seq<Seq<char>>, key: Seq<char>, i: int) -> bool {
    &&& 0 <= i < ls.len()
    &&& opens_with(ls[i], commented_prefix(key))
    &&& forall|j: int| 0 <= j < i ==> !opens_with(ls[j], commented_prefix(key))
}

/// Line `i` is one `set_conf_line` replaces.
pub open spec fn conf_line_replaced(ls: Seq<Seq<char>>, key: Seq<char>, i: int) -> bool {
    if has_active(ls, key) {
        opens_with(ls[i], assign_prefix(key))
    } else {
        first_example(ls, key, i)
    }
}

/// Some line is replaced.
pub open spec fn conf_line_found(ls: Seq<Seq<char>>, key: Seq<char>) -> bool {
    has_active(ls, key) || exists|i: int|
        0 <= i < ls.len() && opens_with(ls[i], commented_prefix(key))
}

/// The lines with each one `set_conf_line` replaces replaced by `line`.
pub open spec fn edited_lines(ls: Seq<Seq<char>>, key: Seq<char>, line: Seq<char>) -> Seq<Seq<char>> {
    Seq::new(
        ls.len(),
        |i: int|
            if conf_line_replaced(ls, key, i) {
                line
            } else {
                ls[i]
            },
    )
}

/// What `set_conf_line` produces: every active assignment replaced by
/// `line`, or else the first commented example, or else `line` appended.
pub open spec fn conf_line_result(content: Seq<char>, key: Seq<char>, line: Seq<char>) -> Seq<char> {
    let ls = lines(content);
    let kept = edited_lines(ls, key, line);
    if conf_line_found(ls, key) {
        join_lines(kept)
    } else {
        join_lines(kept.push(line))
    }
}

/// `KEY="value"`.
pub open spec fn quoted_assignment(key: Seq<char>, value: Seq<char>) -> Seq<char> {
    assign_prefix(key) + seq!['"'] + value + seq!['"']
}

/// The trimmed text of every line, computed once.
fn trimmed_lines(ls: &Vec<Vec<char>>) -> (r: Vec<Vec<char>>)
    ensures
        r.len() == ls.len(),
        forall|i: int| 0 <= i < ls.len() ==> #[trigger] r@[i]@ == trim(ls@[i]@),
{
    let mut r: Vec<Vec<char>> = Vec::new();
    for i in 0..ls.len()
        invariant
            r.len() == i,
            forall|j: int| 0 <= j < i ==> #[trigger] r@[j]@ == trim(ls@[j]@),
    {
        r.push(trimmed(&ls[i]));
    }
    r
}

/// Replace every active `KEY=` assignment with `line`. When the key is only
/// present as a commented example (stock files list several), activate the
/// first one and leave the other examples as they are. Append when absent.
pub fn set_conf_line(content: &str, key: &str, line: &str) -> (r: String)
    ensures
        r@ == conf_line_result(content@, key@, line@),
{
    let ls = split_lines(content);
    let ghost lsv = views(ls@);
    let tl = trimmed_lines(&ls);
    let mut prefix = chars_of(key);
    prefix.push('=');
    let mut commented: Vec<char> = Vec::new();
    commented.push('#');
    extend(&mut commented, &prefix);
    let line_v = chars_of(line);

    let mut active = false;
    for i in 0..ls.len()
        invariant
            tl.len() == ls.len(),
            lsv == views(ls@),
            forall|j: int| 0 <= j < ls.len() ==> #[trigger] tl@[j]@ == trim(ls@[j]@),
            prefix@ == assign_prefix(key@),
            active == exists|j: int| 0 <= j < i && opens_with(lsv[j], assign_prefix(key@)),
    {
        if starts_with(&tl[i], &prefix) {
            active = true;
        }
        assert(lsv[i as int] == ls@[i as int]@);
    }
    assert(active == has_active(lsv, key@));

    let ghost kept = Seq::new(
        lsv.len(),
        |i: int|
            if conf_line_replaced(lsv, key@, i) {
                line@
            } else {
                lsv[i]
            },
    );
    let mut out: Vec<char> = Vec::new();
    let mut found = false;
    for i in 0..ls.len()
        invariant
            tl.len() == ls.len(),
            lsv == views(ls@),
            forall|j: int| 0 <= j < ls.len() ==> #[trigger] tl@[j]@ == trim(ls@[j]@),
            prefix@ == assign_prefix(key@),
            commented@ == commented_prefix(key@),
            line_v@ == line@,
            active == has_active(lsv, key@),
            kept.len() == lsv.len(),
            forall|j: int|
                0 <= j < lsv.len() ==> #[trigger] kept[j] == if conf_line_replaced(lsv, key@, j) {
                    line@
                } else {
                    lsv[j]
                },
            out@ == join_lines(kept.take(i as int)),
            !active ==> (found == exists|j: int|
                0 <= j < i && opens_with(lsv[j], commented_prefix(key@))),
            active ==> (found == exists|j: int|
                0 <= j < i && opens_with(lsv[j], assign_prefix(key@))),
    {
        assert(lsv[i as int] == ls@[i as int]@);
        let replace = if active {
            starts_with(&tl[i], &prefix)
        } else {
            !found && starts_with(&tl[i], &commented)
        };
        proof {
            if !active {
                if !found && opens_with(lsv[i as int], commented_prefix(key@)) {
                    assert(first_example(lsv, key@, i as int));
                }
                if found {
                    let w = choose|j: int| 0 <= j < i && opens_with(lsv[j], commented_prefix(key@));
                    assert(!first_example(lsv, key@, i as int));
                }
            }
            assert(replace == conf_line_replaced(lsv, key@, i as int));
        }
        if replace {
            found = true;
            extend(&mut out, &line_v);
        } else {
            extend(&mut out, &ls[i]);
        }
        out.push('\n');
        assert(kept.take(i + 1).drop_last() == kept.take(i as int));
    }
    assert(kept.take(ls.len() as int) == kept);
    assert(found == conf_line_found(lsv, key@));
    if !found {
        extend(&mut out, &line_v);
        out.push('\n');
        assert(kept.push(line@).drop_last() == kept);
    }
    chars_to_string(&out)
}

/// Set `KEY="value"` in a shell-style configuration file.
pub fn set_conf_value(content: &str, key: &str, value: &str) -> (r: String)
    ensures
        r@ == conf_line_result(content@, key@, quoted_assignment(key@, value@)),
{
    let mut l = chars_of(key);
    l.push('=');
    l.push('"');
    extend_str(&mut l, value);
    l.push('"');
    assert(l@ =~= quoted_assignment(key@, value@));
    let line = chars_to_string(&l);
    set_conf_line(content, key, line.as_str())
}

/// `s` without its leading `#` characters.
pub open spec fn strip_hashes(s: Seq<char>) -> Seq<char>
    decreases s.len(),
{
    if s.len() > 0 && s[0] == '#' {
        strip_hashes(s.drop_first())
    } else {
        s
    }
}

/// The line sets `key`, commented out or not: `key = …` or `key=…` after
/// leading whitespace and `#`s.
pub open spec fn sets_option(l: Seq<char>, key: Seq<char>) -> bool {
    let t = strip_hashes(trim_start(l));
    has_prefix(t, key.push(' ')) || has_prefix(t, key.push('='))
}

/// `key = value`.
pub open spec fn option_line(key: Seq<char>, value: Seq<char>) -> Seq<char> {
    key + seq![' ', '=', ' '] + value
}

/// Line `i` is the first `[options]` header.
pub open spec fn first_options(ls: Seq<Seq<char>>, i: int) -> bool {
    &&& 0 <= i < ls.len()
    &&& trim(ls[i]) == "[options]"@
    &&& forall|j: int| 0 <= j < i ==> trim(ls[j]) != "[options]"@
}

/// Where a missing option goes: straight after `[options]`, or first.
pub open spec fn options_insert_at(ls: Seq<Seq<char>>) -> int {
    if exists|i: int| first_options(ls, i) {
        (choose|i: int| first_options(ls, i)) + 1
    } else {
        0
    }
}

/// The lines with each one that sets `key` replaced by `line`.
pub open spec fn option_lines(ls: Seq<Seq<char>>, key: Seq<char>, line: Seq<char>) -> Seq<Seq<char>> {
    Seq::new(ls.len(), |i: int| if sets_option(ls[i], key) { line } else { ls[i] })
}

/// What `set_option` produces.
pub open spec fn option_result(content: Seq<char>, key: Seq<char>, value: Seq<char>) -> Seq<char> {
    let ls = lines(content);
    let line = option_line(key, value);
    if exists|i: int| 0 <= i < ls.len() && sets_option(ls[i], key) {
        join_lines(option_lines(ls, key, line))
    } else {
        join_lines(ls.insert(options_insert_at(ls), line))
    }
}

proof fn lemma_strip_hashes_skip(s: Seq<char>, i: int)
    requires
        0 <= i <= s.len(),
        forall|j: int| 0 <= j < i ==> s[j] == '#',
    ensures
        strip_hashes(s) == strip_hashes(s.skip(i)),
    decreases i,
{
    if i > 0 {
        assert(s.drop_first().skip(i - 1) == s.skip(i));
        lemma_strip_hashes_skip(s.drop_first(), i - 1);
    } else {
        assert(s.skip(0) == s);
    }
}

/// Whether the line sets `key` in the sense of [`sets_option`].
fn line_sets_option(l: &Vec<char>, key_space: &Vec<char>, key_eq: &Vec<char>) -> (r: bool)
    requires
        key_space@.len() >= 1,
        key_eq@.len() >= 1,
    ensures
        r == (has_prefix(strip_hashes(trim_start(l@)), key_space@) || has_prefix(
            strip_hashes(trim_start(l@)),
            key_eq@,
        )),
{
    let (a, _) = trim_bounds(l);
    let mut i = a;
    while i < l.len() && l[i] == '#'
        invariant
            a <= i <= l.len(),
            forall|j: int| a <= j < i ==> l@[j] == '#',
        decreases l.len() - i,
    {
        i += 1;
    }
    proof {
        let t = l@.skip(a as int);
        assert forall|j: int| 0 <= j < i - a implies t[j] == '#' by {
            assert(t[j] == l@[a + j]);
        }
        lemma_strip_hashes_skip(t, i - a);
        assert(t.skip(i - a) == l@.skip(i as int));
        let u = l@.skip(i as int);
        if u.len() > 0 {
            assert(u[0] == l@[i as int]);
        }
        assert(strip_hashes(u) == u);
    }
    let rest = slice(l, i, l.len());
    assert(rest@ == l@.skip(i as int));
    starts_with(&rest, key_space) || starts_with(&rest, key_eq)
}

/// Set a key in pacman.conf's `[options]`, adding it when absent.
///
/// Both keys this is used for appear only in that section, so a line-based
/// replacement is enough and does not need a full parser.
pub fn set_option(content: &str, key: &str, value: &str) -> (r: String)
    ensures
        r@ == option_result(content@, key@, value@),
{
    let ls = split_lines(content);
    let ghost lsv = views(ls@);
    let key_v = chars_of(key);
    let mut key_space = slice(&key_v, 0, key_v.len());
    key_space.push(' ');
    let mut key_eq = slice(&key_v, 0, key_v.len());
    key_eq.push('=');
    let mut line = slice(&key_v, 0, key_v.len());
    line.push(' ');
    line.push('=');
    line.push(' ');
    extend_str(&mut line, value);
    assert(line@ =~= option_line(key@, value@));
    let ghost mapped = option_lines(lsv, key@, option_line(key@, value@));

    let mut result: Vec<Vec<char>> = Vec::new();
    let mut replaced = false;
    for i in 0..ls.len()
        invariant
            lsv == views(ls@),
            key_space@ == key@.push(' '),
            key_eq@ == key@.push('='),
            line@ == option_line(key@, value@),
            mapped.len() == lsv.len(),
            forall|j: int|
                0 <= j < lsv.len() ==> #[trigger] mapped[j] == if sets_option(lsv[j], key@) {
                    option_line(key@, value@)
                } else {
                    lsv[j]
                },
            views(result@) == mapped.take(i as int),
            result.len() == i,
            replaced == exists|j: int| 0 <= j < i && sets_option(lsv[j], key@),
    {
        assert(lsv[i as int] == ls@[i as int]@);
        let ghost before = result@;
        let hit = line_sets_option(&ls[i], &key_space, &key_eq);
        assert(hit == sets_option(lsv[i as int], key@));
        if hit {
            replaced = true;
            result.push(slice(&line, 0, line.len()));
        } else {
            result.push(slice(&ls[i], 0, ls[i].len()));
        }
        assert(views(result@) == views(before).push(result@[i as int]@));
        assert(views(result@)[i as int] == mapped[i as int]);
        assert(views(result@) =~= mapped.take(i + 1));
    }
    assert(mapped.take(ls.len() as int) == mapped);
    if !replaced {
        assert(mapped =~= lsv);
        let header = chars_of("[options]");
        let mut at: usize = 0;
        let mut k: usize = 0;
        let mut seen = false;
        while k < result.len() && !seen
            invariant
                views(result@) == lsv,
                header@ == "[options]"@,
                k <= result.len(),
                !seen ==> at == 0,
                !seen ==> forall|j: int| 0 <= j < k ==> trim(lsv[j]) != "[options]"@,
                seen ==> at >= 1 && first_options(lsv, at - 1) && k == result.len(),
            decreases result.len() - k,
        {
            assert(lsv[k as int] == result@[k as int]@);
            let t = trimmed(&result[k]);
            if chars_eq(&t, &header) {
                assert(trim(lsv[k as int]) == "[options]"@);
                assert(k < lsv.len());
                at = k + 1;
                seen = true;
                assert(first_options(lsv, k as int));
                k = result.len();
            } else {
                k += 1;
            }
        }
        proof {
            if seen {
                let c = choose|i: int| first_options(lsv, i);
                assert(c == at - 1) by {
                    if c < at - 1 {
                        assert(!first_options(lsv, at - 1));
                    }
                    if c > at - 1 {
                        assert(!first_options(lsv, c));
                    }
                }
            } else {
                assert(!exists|i: int| first_options(lsv, i));
            }
            assert(at == options_insert_at(lsv));
        }
        result.insert(at, line);
        assert(views(result@) =~= lsv.insert(at as int, option_line(key@, value@)));
    }
    let mut out: Vec<char> = Vec::new();
    push_lines(&mut out, &result);
    assert(out@ =~= join_lines(views(result@)));
    chars_to_string(&out)
}

/// `KEY=(`.
pub open spec fn array_prefix(key: Seq<char>) -> Seq<char> {
    key + seq!['=', '(']
}

/// The line opens an assignment to the array `key`.
pub open spec fn opens_array(l: Seq<char>, key: Seq<char>) -> bool {
    has_prefix(trim(l), array_prefix(key))
}

/// The assignment closes on its own line: `)` ends it after the prefix.
pub open spec fn closes_array(l: Seq<char>, key: Seq<char>) -> bool {
    let t = trim(l);
    t.len() >= array_prefix(key).len() + 1 && t.last() == ')'
}

/// What lies between `KEY=(` and `)`.
pub open spec fn array_inner(l: Seq<char>, key: Seq<char>) -> Seq<char> {
    let t = trim(l);
    t.subrange(array_prefix(key).len() as int, t.len() - 1)
}

/// Line `i` is the first assignment to `key` that does not close.
pub open spec fn first_unclosed(ls: Seq<Seq<char>>, key: Seq<char>, i: int) -> bool {
    &&& 0 <= i < ls.len()
    &&& opens_array(ls[i], key) && !closes_array(ls[i], key)
    &&& forall|j: int| 0 <= j < i ==> !(opens_array(ls[j], key) && !closes_array(ls[j], key))
}

/// Line `i` is the last assignment to `key`, the one the shell uses.
pub open spec fn last_assignment(ls: Seq<Seq<char>>, key: Seq<char>, i: int) -> bool {
    &&& 0 <= i < ls.len()
    &&& opens_array(ls[i], key)
    &&& forall|j: int| i < j < ls.len() ==> !opens_array(ls[j], key)
}

/// Some assignment to `key` does not close on its line.
pub open spec fn array_unclosed(content: Seq<char>, key: Seq<char>) -> bool {
    exists|i: int| first_unclosed(lines(content), key, i)
}

/// The number (from 1) of the first line whose assignment does not close.
pub open spec fn unclosed_line(content: Seq<char>, key: Seq<char>) -> int {
    (choose|i: int| first_unclosed(lines(content), key, i)) + 1
}

/// The entries of the last assignment to `key`; none when it is absent.
pub open spec fn array_values(content: Seq<char>, key: Seq<char>) -> Seq<Seq<char>> {
    let ls = lines(content);
    if exists|i: int| last_assignment(ls, key, i) {
        words(array_inner(ls[choose|i: int| last_assignment(ls, key, i)], key))
    } else {
        seq![]
    }
}

/// `KEY=(a b c)`.
pub open spec fn array_line(key: Seq<char>, values: Seq<Seq<char>>) -> Seq<char> {
    array_prefix(key) + join_with(values, seq![' ']) + seq![')']
}

/// The text with the last assignment to `key` set to `values`, or that
/// assignment appended when there is none.
pub open spec fn patched_array(content: Seq<char>, key: Seq<char>, values: Seq<Seq<char>>) -> Seq<
    char,
> {
    let ls = lines(content);
    let line = array_line(key, values);
    if exists|i: int| last_assignment(ls, key, i) {
        join_lines(ls.update(choose|i: int| last_assignment(ls, key, i), line))
    } else {
        join_lines(ls.push(line))
    }
}

/// The views of a vector of strings.
pub open spec fn string_views(v: Seq<String>) -> Seq<Seq<char>> {
    v.map_values(|s: String| s@)
}

/// Why an array assignment could not be rewritten.
#[derive(Debug, PartialEq, Eq)]
pub enum ConfError {
    /// The assignment on `line` (counted from 1) does not close on it.
    UnclosedArray { key: String, line: usize },
}

impl ConfError {
    /// The message shown to the user.
    pub fn message(&self) -> (r: String)
        ensures
            r@ == conf_error_message(*self),
    {
        match self {
            ConfError::UnclosedArray { key, line } => {
                let mut m = chars_of("cannot patch ");
                extend_str(&mut m, key.as_str());
                extend_str(&mut m, " in mkinitcpio.conf: the assignment on line ");
                let n = decimal(*line as u64);
                extend(&mut m, &n);
                extend_str(
                    &mut m,
                    " does not close on the same line. Rewriting it would drop the existing entries and leave an unbootable initramfs; put ",
                );
                extend_str(&mut m, key.as_str());
                extend_str(&mut m, "=(...) on one line and retry.");
                chars_to_string(&m)
            },
        }
    }
}

pub open spec fn conf_error_message(e: ConfError) -> Seq<char> {
    match e {
        ConfError::UnclosedArray { key, line } => "cannot patch "@ + key@
            + " in mkinitcpio.conf: the assignment on line "@ + dec(line as nat)
            + " does not close on the same line. Rewriting it would drop the existing entries and leave an unbootable initramfs; put "@
            + key@ + "=(...) on one line and retry."@,
    }
}

/// No assignment to `key` fails to close.
pub open spec fn no_unclosed(ls: Seq<Seq<char>>, key: Seq<char>) -> bool {
    forall|j: int| 0 <= j < ls.len() ==> !(opens_array(ls[j], key) && !closes_array(ls[j], key))
}

/// The lines of `content` and, per line, whether it opens and closes an
/// assignment to the array.
fn scan_array(ls: &Vec<Vec<char>>, key: &Vec<char>) -> (r: Result<Option<usize>, usize>)
    ensures
        match r {
            Err(i) => first_unclosed(views(ls@), key@, i as int),
            Ok(Some(i)) => no_unclosed(views(ls@), key@) && last_assignment(
                views(ls@),
                key@,
                i as int,
            ),
            Ok(None) => no_unclosed(views(ls@), key@) && !(exists|j: int|
                last_assignment(views(ls@), key@, j)),
        },
{
    let ghost lsv = views(ls@);
    let mut prefix = slice(key, 0, key.len());
    prefix.push('=');
    prefix.push('(');
    assert(prefix@ =~= array_prefix(key@));
    let mut target: Option<usize> = None;
    for i in 0..ls.len()
        invariant
            lsv == views(ls@),
            prefix@ == array_prefix(key@),
            forall|j: int| 0 <= j < i ==> !(opens_array(lsv[j], key@) && !closes_array(lsv[j], key@)),
            match target {
                Some(t) => t < i && opens_array(lsv[t as int], key@) && forall|j: int|
                    t < j < i ==> !opens_array(lsv[j], key@),
                None => forall|j: int| 0 <= j < i ==> !opens_array(lsv[j], key@),
            },
    {
        assert(lsv[i as int] == ls@[i as int]@);
        let t = trimmed(&ls[i]);
        if starts_with(&t, &prefix) {
            let closes = t.len() > prefix.len() && t[t.len() - 1] == ')';
            if !closes {
                assert(first_unclosed(lsv, key@, i as int));
                return Err(i);
            }
            target = Some(i);
        }
    }
    proof {
        match target {
            Some(t) => {},
            None => {
                if exists|j: int| last_assignment(lsv, key@, j) {
                    let j = choose|j: int| last_assignment(lsv, key@, j);
                    assert(!opens_array(lsv[j], key@));
                }
            },
        }
    }
    Ok(target)
}

proof fn lemma_last_assignment_unique(ls: Seq<Seq<char>>, key: Seq<char>, i: int)
    requires
        last_assignment(ls, key, i),
    ensures
        (choose|j: int| last_assignment(ls, key, j)) == i,
{
    let c = choose|j: int| last_assignment(ls, key, j);
    if c < i {
        assert(!opens_array(ls[i], key));
    }
    if c > i {
        assert(!opens_array(ls[c], key));
    }
}

proof fn lemma_first_unclosed_unique(ls: Seq<Seq<char>>, key: Seq<char>, i: int)
    requires
        first_unclosed(ls, key, i),
    ensures
        (choose|j: int| first_unclosed(ls, key, j)) == i,
{
    let c = choose|j: int| first_unclosed(ls, key, j);
    if c < i {
        assert(!(opens_array(ls[c], key) && !closes_array(ls[c], key)));
    }
    if c > i {
        assert(!(opens_array(ls[i], key) && !closes_array(ls[i], key)));
    }
}

/// The entries of the array `key` as the shell would read them: those of
/// its last assignment, none when it is not assigned.
///
/// Errors when an assignment cannot be parsed rather than falling back to
/// an empty array. Silently emptying `HOOKS` produces a `HOOKS=(zfs)`
/// initramfs that cannot mount root, and the installation would report
/// success — a failure here is recoverable, an unbootable system is not.
pub fn conf_array_values(content: &str, key: &str) -> (r: Result<Vec<String>, ConfError>)
    ensures
        match r {
            Ok(v) => !array_unclosed(content@, key@) && string_views(v@) == array_values(
                content@,
                key@,
            ),
            Err(e) => array_unclosed(content@, key@) && e == (ConfError::UnclosedArray {
                key: e->key,
                line: e->line,
            }) && e->key@ == key@ && e->line == unclosed_line(content@, key@),
        },
{
    let ls = split_lines(content);
    let key_v = chars_of(key);
    match scan_array(&ls, &key_v) {
        Err(i) => {
            proof {
                lemma_first_unclosed_unique(views(ls@), key@, i as int);
            }
            assert(i < ls.len());
            Err(ConfError::UnclosedArray { key: chars_to_string(&key_v), line: i + 1 })
        },
        Ok(None) => Ok(Vec::new()),
        Ok(Some(i)) => {
            proof {
                lemma_last_assignment_unique(views(ls@), key@, i as int);
            }
            assert(views(ls@)[i as int] == ls@[i as int]@);
            assert(closes_array(views(ls@)[i as int], key@));
            let t = trimmed(&ls[i]);
            assert(t@.len() >= key_v@.len() + 3);
            assert(key_v.len() + 2 < t.len());
            let start: usize = key_v.len() + 2;
            let inner = slice(&t, start, t.len() - 1);
            assert(inner@ == array_inner(views(ls@)[i as int], key@));
            let ws = split_whitespace(&inner);
            let mut out: Vec<String> = Vec::new();
            for k in 0..ws.len()
                invariant
                    out.len() == k,
                    forall|j: int| 0 <= j < k ==> #[trigger] out@[j]@ == ws@[j]@,
            {
                out.push(chars_to_string(&ws[k]));
            }
            assert(string_views(out@) =~= views(ws@));
            Ok(out)
        },
    }
}

/// Rewrite a `KEY=(a b c)` array assignment in an mkinitcpio.conf: the
/// last one, the one the shell uses, becomes `KEY=(values)`; without one
/// the assignment is appended.
///
/// Errors, leaving nothing rewritten, when an assignment does not close on
/// its own line (see [`conf_array_values`]).
pub fn patch_conf_array(content: &str, key: &str, values: &Vec<String>) -> (r: Result<
    String,
    ConfError,
>)
    ensures
        match r {
            Ok(s) => !array_unclosed(content@, key@) && s@ == patched_array(
                content@,
                key@,
                string_views(values@),
            ),
            Err(e) => array_unclosed(content@, key@) && e == (ConfError::UnclosedArray {
                key: e->key,
                line: e->line,
            }) && e->key@ == key@ && e->line == unclosed_line(content@, key@),
        },
{
    let ls = split_lines(content);
    let key_v = chars_of(key);
    let scanned = scan_array(&ls, &key_v);
    if let Err(i) = scanned {
        proof {
            lemma_first_unclosed_unique(views(ls@), key@, i as int);
        }
        assert(i < ls.len());
        return Err(ConfError::UnclosedArray { key: chars_to_string(&key_v), line: i + 1 });
    }
    let mut line = slice(&key_v, 0, key_v.len());
    line.push('=');
    line.push('(');
    let mut parts: Vec<Vec<char>> = Vec::new();
    for k in 0..values.len()
        invariant
            parts.len() == k,
            forall|j: int| 0 <= j < k ==> #[trigger] parts@[j]@ == values@[j]@,
    {
        parts.push(chars_of(values[k].as_str()));
    }
    assert(views(parts@) =~= string_views(values@));
    let mut space: Vec<char> = Vec::new();
    space.push(' ');
    let joined = join(&parts, &space);
    extend(&mut line, &joined);
    line.push(')');
    assert(line@ =~= array_line(key@, string_views(values@)));
    let mut out_lines = ls;
    let ghost lsv = views(out_lines@);
    match scanned {
        Ok(Some(i)) => {
            proof {
                lemma_last_assignment_unique(lsv, key@, i as int);
            }
            out_lines.set(i, line);
            assert(views(out_lines@) =~= lsv.update(i as int, array_line(key@, string_views(values@))));
        },
        _ => {
            out_lines.push(line);
            assert(views(out_lines@) =~= lsv.push(array_line(key@, string_views(values@))));
        },
    }
    let mut out: Vec<char> = Vec::new();
    push_lines(&mut out, &out_lines);
    assert(out@ =~= join_lines(views(out_lines@)));
    Ok(chars_to_string(&out))
}

/// `ParallelDownloads = count`.
pub open spec fn parallel_line(count: u32) -> Seq<char> {
    "ParallelDownloads = "@ + dec(count as nat)
}

/// The line sets `ParallelDownloads`, commented out or not.
pub open spec fn sets_parallel(l: Seq<char>) -> bool {
    has_prefix(trim_start(l), "ParallelDownloads"@) || has_prefix(
        trim_start(l),
        "#ParallelDownloads"@,
    )
}

/// What `set_parallel_downloads` writes: each line setting the key
/// replaced when the key is mentioned anywhere, joined without a final
/// newline; otherwise the setting appended at the end.
pub open spec fn parallel_result(content: Seq<char>, count: u32) -> Seq<char> {
    let ls = lines(content);
    if contains_seq(content, "ParallelDownloads"@) {
        join_with(
            Seq::new(
                ls.len(),
                |i: int|
                    if sets_parallel(ls[i]) {
                        parallel_line(count)
                    } else {
                        ls[i]
                    },
            ),
            seq!['\n'],
        )
    } else {
        content + seq!['\n'] + parallel_line(count) + seq!['\n']
    }
}

/// The new content of pacman.conf with `ParallelDownloads` set to `count`.
///
/// Unlike [`set_option`], a missing key is appended at the end of the file
/// rather than placed under `[options]`.
pub fn parallel_downloads_content(content: &str, count: u32) -> (r: String)
    ensures
        r@ == parallel_result(content@, count),
{
    let cv = chars_of(content);
    let mut new_line = chars_of("ParallelDownloads = ");
    let digits = decimal(count as u64);
    extend(&mut new_line, &digits);
    let key = chars_of("ParallelDownloads");
    let hashed = chars_of("#ParallelDownloads");
    if contains(&cv, &key) {
        let ls = split_lines_chars(&cv);
        let ghost lsv = views(ls@);
        let ghost mapped = Seq::new(
            lsv.len(),
            |i: int|
                if sets_parallel(lsv[i]) {
                    parallel_line(count)
                } else {
                    lsv[i]
                },
        );
        let mut out_lines: Vec<Vec<char>> = Vec::new();
        for i in 0..ls.len()
            invariant
                lsv == views(ls@),
                new_line@ == parallel_line(count),
                key@ == "ParallelDownloads"@,
                hashed@ == "#ParallelDownloads"@,
                mapped.len() == lsv.len(),
                forall|j: int|
                    0 <= j < lsv.len() ==> #[trigger] mapped[j] == if sets_parallel(lsv[j]) {
                        parallel_line(count)
                    } else {
                        lsv[j]
                    },
                out_lines.len() == i,
                views(out_lines@) == mapped.take(i as int),
        {
            assert(lsv[i as int] == ls@[i as int]@);
            let (a, _) = trim_bounds(&ls[i]);
            let rest = slice(&ls[i], a, ls[i].len());
            let ghost before = out_lines@;
            let hit = starts_with(&rest, &key) || starts_with(&rest, &hashed);
            if hit {
                out_lines.push(slice(&new_line, 0, new_line.len()));
            } else {
                out_lines.push(slice(&ls[i], 0, ls[i].len()));
            }
            assert(views(out_lines@) == views(before).push(out_lines@[i as int]@));
            assert(views(out_lines@)[i as int] == mapped[i as int]);
            assert(views(out_lines@) =~= mapped.take(i + 1));
        }
        assert(mapped.take(ls.len() as int) == mapped);
        let mut nl: Vec<char> = Vec::new();
        nl.push('\n');
        let out = join(&out_lines, &nl);
        chars_to_string(&out)
    } else {
        let mut out = cv;
        out.push('\n');
        extend(&mut out, &new_line);
        out.push('\n');
        chars_to_string(&out)
    }
}

/// The digits of a number: at least one, none of them whitespace.
proof fn lemma_dec_digits(n: nat)
    ensures
        dec(n).len() > 0,
        forall|i: int| 0 <= i < dec(n).len() ==> 48 <= #[trigger] (dec(n)[i] as int) <= 57,
    decreases n,
{
    assert(digit(n) as int == (n % 10) + 48);
    if n >= 10 {
        lemma_dec_digits(n / 10);
        let d = dec(n / 10);
        assert forall|i: int| 0 <= i < dec(n).len() implies 48 <= #[trigger] (dec(n)[i] as int)
            <= 57 by {
            if i < d.len() {
                assert(dec(n)[i] == d[i]);
            }
        }
    }
}

/// The line written for `ParallelDownloads`: one line, starting with the
/// key, ending in a digit.
proof fn lemma_parallel_line(count: u32)
    ensures
        forall|j: int| 0 <= j < parallel_line(count).len() ==> parallel_line(count)[j] != '\n',
        strip_cr(parallel_line(count)) == parallel_line(count),
        trim_start(parallel_line(count)) == parallel_line(count),
        has_prefix(parallel_line(count), "ParallelDownloads"@),
        !has_prefix(parallel_line(count), "#ParallelDownloads"@),
{
    reveal_strlit("ParallelDownloads = ");
    reveal_strlit("ParallelDownloads");
    reveal_strlit("#ParallelDownloads");
    lemma_dec_digits(count as nat);
    let d = dec(count as nat);
    let l = parallel_line(count);
    let head = "ParallelDownloads = "@;
    assert forall|j: int| 0 <= j < l.len() implies l[j] != '\n' by {
        if j >= head.len() {
            assert(l[j] == d[j - head.len()]);
            assert(48 <= (d[j - head.len()] as int) <= 57);
        }
    }
    assert(l.last() == d.last());
    assert(48 <= (d[d.len() - 1] as int) <= 57);
    assert(l[0] == 'P');
    assert(l.take(17) =~= "ParallelDownloads"@);
    assert(l.take(18)[0] != '#');
}

/// `trim_start` leaves a tail of the text.
proof fn lemma_trim_start_tail(x: Seq<char>)
    ensures
        trim_start(x).len() <= x.len(),
        trim_start(x) == x.skip(x.len() - trim_start(x).len()),
    decreases x.len(),
{
    if x.len() > 0 && is_ws(x[0]) {
        lemma_trim_start_tail(x.drop_first());
        assert(x.drop_first().skip(x.drop_first().len() - trim_start(x).len()) =~= x.skip(
            x.len() - trim_start(x).len(),
        ));
    } else {
        assert(x.skip(0) =~= x);
    }
}

/// A line that starts, after its leading whitespace, with
/// `ParallelDownloads` or `#ParallelDownloads` mentions `ParallelDownloads`.
proof fn lemma_setting_mentions(x: Seq<char>)
    requires
        has_prefix(trim_start(x), "ParallelDownloads"@) || has_prefix(
            trim_start(x),
            "#ParallelDownloads"@,
        ),
    ensures
        contains_seq(x, "ParallelDownloads"@),
{
    reveal_strlit("ParallelDownloads");
    reveal_strlit("#ParallelDownloads");
    lemma_trim_start_tail(x);
    let t = x.len() - trim_start(x).len();
    let p = "ParallelDownloads"@;
    if has_prefix(trim_start(x), p) {
        assert(x.subrange(t, t + p.len()) =~= trim_start(x).take(p.len() as int));
        assert(occurs_at(x, p, t));
    } else {
        let hp = "#ParallelDownloads"@;
        assert(hp.skip(1) =~= p);
        assert(trim_start(x).take(hp.len() as int) == hp);
        assert(x.subrange(t + 1, t + 1 + p.len()) =~= trim_start(x).take(hp.len() as int).skip(1));
        assert(occurs_at(x, p, t + 1));
    }
}

/// Dropping the last character of a text keeps what its leading
/// whitespace is followed by, as far as it goes.
proof fn lemma_trim_start_prefix_extend(x: Seq<char>, q: Seq<char>)
    requires
        x.len() > 0,
        q.len() > 0,
        !is_ws(q[0]),
        has_prefix(trim_start(x.drop_last()), q),
    ensures
        has_prefix(trim_start(x), q),
    decreases x.len(),
{
    let y = x.drop_last();
    if y.len() == 0 {
        assert(trim_start(y) == y);
    } else if is_ws(x[0]) {
        assert(y[0] == x[0]);
        assert(y.drop_first() =~= x.drop_first().drop_last());
        lemma_trim_start_prefix_extend(x.drop_first(), q);
    } else {
        assert(y[0] == x[0]);
        assert(trim_start(y) == y);
        assert(x.take(q.len() as int) =~= y.take(q.len() as int));
    }
}

/// A line of the original that sets nothing still sets nothing once a
/// final `\r` is taken off it.
proof fn lemma_unset_stays_unset(x: Seq<char>)
    requires
        !sets_parallel(x),
    ensures
        !has_prefix(trim_start(strip_cr(x)), "ParallelDownloads"@),
        !has_prefix(trim_start(strip_cr(x)), "#ParallelDownloads"@),
{
    reveal_strlit("ParallelDownloads");
    reveal_strlit("#ParallelDownloads");
    if x.len() > 0 && x.last() == '\r' {
        if has_prefix(trim_start(strip_cr(x)), "ParallelDownloads"@) {
            lemma_trim_start_prefix_extend(x, "ParallelDownloads"@);
        }
        if has_prefix(trim_start(strip_cr(x)), "#ParallelDownloads"@) {
            lemma_trim_start_prefix_extend(x, "#ParallelDownloads"@);
        }
    }
}

/// Lines joined with line breaks between them read back as themselves: the
/// last as it is (unless empty), the others without a final `\r`.
proof fn lemma_lines_of_join_with(ls: Seq<Seq<char>>)
    requires
        ls.len() > 0,
        forall|i: int, j: int| 0 <= i < ls.len() && 0 <= j < ls[i].len() ==> ls[i][j] != '\n',
    ensures
        lines(join_with(ls, seq!['\n'])) == if ls.last().len() == 0 {
            ls.drop_last().map_values(|l: Seq<char>| strip_cr(l))
        } else {
            ls.drop_last().map_values(|l: Seq<char>| strip_cr(l)).push(ls.last())
        },
{
    lemma_join_with_newlines(ls);
    let d = ls.drop_last();
    assert forall|i: int, j: int| 0 <= i < d.len() && 0 <= j < d[i].len() implies d[i][j]
        != '\n' by {
        assert(d[i] == ls[i]);
    }
    lemma_lines_of_joined(d);
    let l = ls.last();
    assert forall|j: int| 0 <= j < l.len() implies l[j] != '\n' by {
        assert(l == ls[ls.len() - 1]);
    }
    lemma_line_scan_append(join_lines(d), l);
    assert(Seq::<char>::empty() + l =~= l);
}

proof fn lemma_join_with_newlines(ls: Seq<Seq<char>>)
    requires
        ls.len() > 0,
    ensures
        join_with(ls, seq!['\n']) == join_lines(ls.drop_last()) + ls.last(),
    decreases ls.len(),
{
    if ls.len() == 1 {
        assert(ls.drop_last() =~= Seq::<Seq<char>>::empty());
        assert(join_lines(ls.drop_last()) =~= Seq::<char>::empty());
        assert(Seq::<char>::empty() + ls.last() =~= ls[0]);
    } else {
        let p = ls.drop_last();
        lemma_join_with_newlines(p);
        assert(join_with(ls, seq!['\n']) =~= join_lines(p.drop_last()) + p.last() + seq!['\n']
            + ls.last());
    }
}

/// The lines read so far and the line being read are pieces of the text:
/// whatever they mention, the text mentions.
proof fn lemma_line_scan_within(s: Seq<char>, p: Seq<char>)
    ensures
        line_scan(s).1.len() <= s.len(),
        line_scan(s).1 == s.skip(s.len() - line_scan(s).1.len()),
        forall|i: int|
            0 <= i < line_scan(s).0.len() && contains_seq(#[trigger] line_scan(s).0[i], p)
                ==> contains_seq(s, p),
    decreases s.len(),
{
    if s.len() == 0 {
        assert(s.skip(0) =~= s);
    } else {
        let t = s.drop_last();
        lemma_line_scan_within(t, p);
        let (done, cur) = line_scan(t);
        if s.last() == '\n' {
            let sc = strip_cr(cur);
            let a = t.len() - cur.len();
            assert(t.subrange(a, a + sc.len()) =~= sc);
            assert forall|i: int|
                0 <= i < line_scan(s).0.len() && contains_seq(#[trigger] line_scan(s).0[i], p)
                    implies contains_seq(s, p) by {
                if i < done.len() {
                    assert(line_scan(s).0[i] == done[i]);
                    assert(contains_seq(t, p));
                    let j = choose|j: int| occurs_at(t, p, j);
                    assert(s.subrange(j, j + p.len()) =~= t.subrange(j, j + p.len()));
                    assert(occurs_at(s, p, j));
                } else {
                    assert(line_scan(s).0[i] == sc);
                    let j = choose|j: int| occurs_at(sc, p, j);
                    assert(s.subrange(a + j, a + j + p.len()) =~= sc.subrange(j, j + p.len()));
                    assert(occurs_at(s, p, a + j));
                }
            }
            assert(s.skip(s.len() as int) =~= Seq::<char>::empty());
        } else {
            assert(line_scan(s).1 =~= s.skip(s.len() - line_scan(s).1.len()));
            assert forall|i: int|
                0 <= i < line_scan(s).0.len() && contains_seq(#[trigger] line_scan(s).0[i], p)
                    implies contains_seq(s, p) by {
                assert(line_scan(s).0[i] == done[i]);
                assert(contains_seq(t, p));
                let j = choose|j: int| occurs_at(t, p, j);
                assert(s.subrange(j, j + p.len()) =~= t.subrange(j, j + p.len()));
                assert(occurs_at(s, p, j));
            }
        }
    }
}

/// After `parallel_downloads_content`, every line that sets
/// `ParallelDownloads` sets it to `count`, and none is left commented out
/// as `#ParallelDownloads`: no other value remains, whatever the file held.
/// The setting is there whenever the file had a line setting it (commented
/// out or not) or did not mention it at all.
pub proof fn law_parallel_downloads_set(content: Seq<char>, count: u32)
    ensures
        (!contains_seq(content, "ParallelDownloads"@) || exists|k: int|
            0 <= k < lines(content).len() && (has_prefix(
                trim_start(#[trigger] lines(content)[k]),
                "ParallelDownloads"@,
            ) || has_prefix(trim_start(lines(content)[k]), "#ParallelDownloads"@)))
            ==> lines(parallel_result(content, count)).contains(parallel_line(count)),
        forall|i: int|
            0 <= i < lines(parallel_result(content, count)).len() && has_prefix(
                trim_start(#[trigger] lines(parallel_result(content, count))[i]),
                "ParallelDownloads"@,
            ) ==> lines(parallel_result(content, count))[i] == parallel_line(count),
        forall|i: int|
            0 <= i < lines(parallel_result(content, count)).len() ==> !has_prefix(
                trim_start(#[trigger] lines(parallel_result(content, count))[i]),
                "#ParallelDownloads"@,
            ),
{
    let pl = parallel_line(count);
    lemma_parallel_line(count);
    let r = parallel_result(content, count);
    let ls = lines(content);
    lemma_lines_unbroken(content);
    if contains_seq(content, "ParallelDownloads"@) {
        let m = Seq::new(
            ls.len(),
            |i: int|
                if sets_parallel(ls[i]) {
                    pl
                } else {
                    ls[i]
                },
        );
        if ls.len() == 0 {
            assert(m =~= Seq::<Seq<char>>::empty());
            assert(r =~= Seq::<char>::empty());
            assert(lines(r) =~= Seq::<Seq<char>>::empty());
        } else {
            assert forall|i: int, j: int| 0 <= i < m.len() && 0 <= j < m[i].len() implies m[i][j]
                != '\n' by {
                if !sets_parallel(ls[i]) {
                    assert(m[i] == ls[i]);
                }
            }
            lemma_lines_of_join_with(m);
            let out = lines(r);
            if exists|k: int|
                0 <= k < ls.len() && (has_prefix(trim_start(#[trigger] ls[k]), "ParallelDownloads"@)
                    || has_prefix(trim_start(ls[k]), "#ParallelDownloads"@)) {
                let k = choose|k: int|
                    0 <= k < ls.len() && (has_prefix(
                        trim_start(#[trigger] ls[k]),
                        "ParallelDownloads"@,
                    ) || has_prefix(trim_start(ls[k]), "#ParallelDownloads"@));
                assert(m[k] == pl);
                if k < m.len() - 1 {
                    assert(out[k] == pl);
                } else {
                    assert(out[out.len() - 1] == pl);
                }
            }
            assert forall|i: int| 0 <= i < out.len() implies (has_prefix(
                trim_start(#[trigger] out[i]),
                "ParallelDownloads"@,
            ) ==> out[i] == pl) && !has_prefix(trim_start(out[i]), "#ParallelDownloads"@) by {
                let k = if i < m.len() - 1 {
                    i
                } else {
                    m.len() - 1
                };
                if sets_parallel(ls[k]) {
                    assert(m[k] == pl);
                    assert(out[i] == pl);
                } else {
                    lemma_unset_stays_unset(ls[k]);
                    if i < m.len() - 1 {
                        assert(out[i] == strip_cr(ls[k]));
                    } else {
                        assert(out[i] == ls[k]);
                        if has_prefix(trim_start(ls[k]), "ParallelDownloads"@) {
                            assert(false);
                        }
                    }
                }
            }
        }
    } else {
        let (done, cur) = line_scan(content);
        lemma_line_scan_within(content, "ParallelDownloads"@);
        let nl: Seq<char> = seq!['\n'];
        let a = content + nl;
        assert(a.drop_last() =~= content);
        assert(line_scan(a) == (done.push(strip_cr(cur)), Seq::<char>::empty()));
        lemma_line_scan_append(a, pl);
        let b = a + pl;
        assert((b + nl).drop_last() =~= b);
        assert(r =~= b + nl);
        assert(Seq::<char>::empty() + pl =~= pl);
        let out = lines(r);
        assert(out == done.push(strip_cr(cur)).push(pl));
        assert(out[out.len() - 1] == pl);
        assert forall|i: int| 0 <= i < out.len() implies (has_prefix(
            trim_start(#[trigger] out[i]),
            "ParallelDownloads"@,
        ) ==> out[i] == pl) && !has_prefix(trim_start(out[i]), "#ParallelDownloads"@) by {
            if i < out.len() - 1 {
                if has_prefix(trim_start(out[i]), "ParallelDownloads"@) || has_prefix(
                    trim_start(out[i]),
                    "#ParallelDownloads"@,
                ) {
                    lemma_setting_mentions(out[i]);
                    if i < done.len() {
                        assert(out[i] == done[i]);
                        assert(contains_seq(line_scan(content).0[i], "ParallelDownloads"@));
                    } else {
                        assert(out[i] == strip_cr(cur));
                        let j = choose|j: int| occurs_at(strip_cr(cur), "ParallelDownloads"@, j);
                        let q = "ParallelDownloads"@;
                        let st = content.len() - cur.len();
                        assert(content.subrange(st + j, st + j + q.len()) =~= strip_cr(
                            cur,
                        ).subrange(j, j + q.len()));
                        assert(occurs_at(content, q, st + j));
                    }
                }
            } else {
                assert(out[i] == pl);
            }
        }
    }
}

/// Lines that end in no carriage return: they read back from joined text
/// exactly as they are.
pub open spec fn no_trailing_cr(ls: Seq<Seq<char>>) -> bool {
    forall|i: int| 0 <= i < ls.len() ==> #[trigger] strip_cr(ls[i]) == ls[i]
}

/// A line that can be written as one line: no line break in it, and no
/// carriage return at its end.
pub open spec fn single_line(l: Seq<char>) -> bool {
    (forall|j: int| 0 <= j < l.len() ==> l[j] != '\n') && strip_cr(l) == l
}

proof fn lemma_edited_lines_read_back(ls: Seq<Seq<char>>, content: Seq<char>, line: Seq<char>)
    requires
        no_trailing_cr(lines(content)),
        single_line(line),
        forall|i: int| 0 <= i < ls.len() ==> #[trigger] ls[i] == line || lines(content).contains(ls[i]),
    ensures
        lines(join_lines(ls)) == ls,
{
    lemma_lines_unbroken(content);
    let before = lines(content);
    assert forall|i: int, j: int| 0 <= i < ls.len() && 0 <= j < ls[i].len() implies ls[i][j]
        != '\n' by {
        if ls[i] != line {
            let k = choose|k: int| 0 <= k < before.len() && before[k] == ls[i];
            assert(before[k][j] == ls[i][j]);
        }
    }
    lemma_lines_of_joined(ls);
    assert forall|i: int| 0 <= i < ls.len() implies #[trigger] strip_cr(ls[i]) == ls[i] by {
        if ls[i] != line {
            let k = choose|k: int| 0 <= k < before.len() && before[k] == ls[i];
            assert(strip_cr(before[k]) == before[k]);
        }
    }
    assert(ls.map_values(|l: Seq<char>| strip_cr(l)) =~= ls);
}

/// Setting a value touches only the lines that assign it (or the example
/// it takes over): every other line of the file reads back unchanged, in
/// its place, and at most one line is added, at the end. Lines that end in
/// a carriage return would lose it, so they are left out of the statement.
pub proof fn law_other_lines_kept(content: Seq<char>, key: Seq<char>, line: Seq<char>)
    requires
        no_trailing_cr(lines(content)),
        single_line(line),
    ensures
        ({
            let before = lines(content);
            let after = lines(conf_line_result(content, key, line));
            &&& after.len() == before.len() + if conf_line_found(before, key) { 0int } else { 1int }
            &&& forall|i: int|
                0 <= i < before.len() && !conf_line_replaced(before, key, i) ==> #[trigger] after[i]
                    == before[i]
            &&& forall|i: int|
                0 <= i < before.len() && conf_line_replaced(before, key, i) ==> #[trigger] after[i]
                    == line
        }),
{
    let ls = lines(content);
    let kept = edited_lines(ls, key, line);
    let after = lines(conf_line_result(content, key, line));
    if conf_line_found(ls, key) {
        assert(conf_line_result(content, key, line) == join_lines(kept));
        assert forall|i: int| 0 <= i < kept.len() implies #[trigger] kept[i] == line || ls.contains(kept[i]) by {
            if kept[i] != line {
                assert(ls[i] == kept[i]);
            }
        }
        lemma_edited_lines_read_back(kept, content, line);
        assert(after == kept);
    } else {
        let k2 = kept.push(line);
        assert(conf_line_result(content, key, line) == join_lines(k2));
        assert forall|i: int| 0 <= i < k2.len() implies #[trigger] k2[i] == line || ls.contains(k2[i]) by {
            if i < ls.len() {
                assert(k2[i] == kept[i]);
                if kept[i] != line {
                    assert(ls[i] == k2[i]);
                }
            }
        }
        lemma_edited_lines_read_back(k2, content, line);
        assert(after == k2);
        assert forall|i: int| 0 <= i < ls.len() implies #[trigger] after[i] == kept[i] by {
            assert(k2[i] == kept[i]);
        }
    }
}

/// The lines `set_conf_line` writes read back as they were built: the
/// edited lines, with `line` added at the end when nothing was replaced.
proof fn lemma_conf_result_lines(content: Seq<char>, key: Seq<char>, line: Seq<char>)
    requires
        no_trailing_cr(lines(content)),
        single_line(line),
    ensures
        ({
            let ls = lines(content);
            let kept = edited_lines(ls, key, line);
            let written = if conf_line_found(ls, key) {
                kept
            } else {
                kept.push(line)
            };
            &&& conf_line_result(content, key, line) == join_lines(written)
            &&& lines(conf_line_result(content, key, line)) == written
        }),
{
    let ls = lines(content);
    let kept = edited_lines(ls, key, line);
    if conf_line_found(ls, key) {
        assert forall|i: int| 0 <= i < kept.len() implies #[trigger] kept[i] == line || ls.contains(kept[i]) by {
            if kept[i] != line {
                assert(ls[i] == kept[i]);
            }
        }
        lemma_edited_lines_read_back(kept, content, line);
    } else {
        let k2 = kept.push(line);
        assert forall|i: int| 0 <= i < k2.len() implies #[trigger] k2[i] == line || ls.contains(k2[i]) by {
            if i < ls.len() {
                assert(k2[i] == kept[i]);
                if kept[i] != line {
                    assert(ls[i] == k2[i]);
                }
            }
        }
        lemma_edited_lines_read_back(k2, content, line);
    }
}

/// Setting a key to an assignment of it is idempotent: setting it again
/// gives the same file. Lines ending in two carriage returns would lose
/// one on each pass (`"x\r\r\n"`), so they are left out, as is a `line`
/// that would break into several.
pub proof fn law_set_conf_line_idempotent(content: Seq<char>, key: Seq<char>, line: Seq<char>)
    requires
        no_trailing_cr(lines(content)),
        single_line(line),
        opens_with(line, assign_prefix(key)),
    ensures
        conf_line_result(conf_line_result(content, key, line), key, line) == conf_line_result(
            content,
            key,
            line,
        ),
{
    let ls = lines(content);
    let kept = edited_lines(ls, key, line);
    let r1 = conf_line_result(content, key, line);
    lemma_conf_result_lines(content, key, line);
    let ls2 = lines(r1);
    // Some line of the result assigns the key: a replaced one, or the one added.
    if conf_line_found(ls, key) {
        if has_active(ls, key) {
            let j = choose|j: int| 0 <= j < ls.len() && opens_with(ls[j], assign_prefix(key));
            assert(conf_line_replaced(ls, key, j));
            assert(ls2[j] == line);
            assert(has_active(ls2, key));
        } else {
            let j = choose|j: int| 0 <= j < ls.len() && opens_with(ls[j], commented_prefix(key));
            lemma_first_example_exists(ls, key, j);
            let f = choose|f: int| first_example(ls, key, f);
            assert(conf_line_replaced(ls, key, f));
            assert(ls2[f] == line);
            assert(has_active(ls2, key));
        }
    } else {
        assert(ls2[ls.len() as int] == line);
        assert(has_active(ls2, key));
    }
    assert(edited_lines(ls2, key, line) =~= ls2) by {
        assert forall|i: int| 0 <= i < ls2.len() implies #[trigger] edited_lines(ls2, key, line)[i] == ls2[i] by {
            if opens_with(ls2[i], assign_prefix(key)) && ls2[i] != line {
                assert(i < ls.len());
                assert(!conf_line_replaced(ls, key, i));
                assert(ls2[i] == ls[i]);
                if has_active(ls, key) {
                } else {
                    assert(has_active(ls, key));
                }
            }
        }
    }
    assert(no_trailing_cr(ls2)) by {
        assert forall|i: int| 0 <= i < ls2.len() implies #[trigger] strip_cr(ls2[i]) == ls2[i] by {
            if i < ls.len() && ls2[i] != line {
                assert(ls2[i] == ls[i]);
            }
        }
    }
    lemma_conf_result_lines(r1, key, line);
}

/// Setting a key to an assignment of it leaves the file holding that line,
/// and every line that assigns the key is that line. Lines ending in two
/// carriage returns, and a `line` that would break into several, are left
/// out, as for the other laws of this file.
pub proof fn law_set_conf_line_assigns(content: Seq<char>, key: Seq<char>, line: Seq<char>)
    requires
        no_trailing_cr(lines(content)),
        single_line(line),
        opens_with(line, assign_prefix(key)),
    ensures
        lines(conf_line_result(content, key, line)).contains(line),
        forall|i: int|
            0 <= i < lines(conf_line_result(content, key, line)).len() && opens_with(
                #[trigger] lines(conf_line_result(content, key, line))[i],
                assign_prefix(key),
            ) ==> lines(conf_line_result(content, key, line))[i] == line,
{
    let ls = lines(content);
    lemma_conf_result_lines(content, key, line);
    let ls2 = lines(conf_line_result(content, key, line));
    if conf_line_found(ls, key) {
        if has_active(ls, key) {
            let j = choose|j: int| 0 <= j < ls.len() && opens_with(ls[j], assign_prefix(key));
            assert(conf_line_replaced(ls, key, j));
            assert(ls2[j] == line);
        } else {
            let j = choose|j: int| 0 <= j < ls.len() && opens_with(ls[j], commented_prefix(key));
            lemma_first_example_exists(ls, key, j);
            let f = choose|f: int| first_example(ls, key, f);
            assert(conf_line_replaced(ls, key, f));
            assert(ls2[f] == line);
        }
    } else {
        assert(ls2[ls.len() as int] == line);
    }
    assert forall|i: int|
        0 <= i < ls2.len() && opens_with(#[trigger] ls2[i], assign_prefix(key)) implies ls2[i] == line by {
        if ls2[i] != line {
            assert(i < ls.len());
            assert(!conf_line_replaced(ls, key, i));
            assert(ls2[i] == ls[i]);
            if !has_active(ls, key) {
                assert(has_active(ls, key));
            }
        }
    }
}

/// Where some line is a commented example of the key, a first one exists.
proof fn lemma_first_example_exists(ls: Seq<Seq<char>>, key: Seq<char>, j: int)
    requires
        0 <= j < ls.len(),
        opens_with(ls[j], commented_prefix(key)),
    ensures
        exists|f: int| first_example(ls, key, f),
    decreases j,
{
    if exists|k: int| 0 <= k < j && opens_with(ls[k], commented_prefix(key)) {
        let k = choose|k: int| 0 <= k < j && opens_with(ls[k], commented_prefix(key));
        lemma_first_example_exists(ls, key, k);
    } else {
        assert(first_example(ls, key, j));
    }
}

/// Patching an array rewrites only the assignment the shell would use (or
/// adds one at the end): every other line reads back unchanged.
pub proof fn law_patch_keeps_other_lines(content: Seq<char>, key: Seq<char>, values: Seq<Seq<char>>)
    requires
        no_trailing_cr(lines(content)),
        single_line(array_line(key, values)),
    ensures
        ({
            let before = lines(content);
            let after = lines(patched_array(content, key, values));
            &&& after.len() >= before.len()
            &&& forall|i: int|
                0 <= i < before.len() && !last_assignment(before, key, i) ==> #[trigger] after[i]
                    == before[i]
        }),
{
    let ls = lines(content);
    let line = array_line(key, values);
    if exists|i: int| last_assignment(ls, key, i) {
        let t = choose|i: int| last_assignment(ls, key, i);
        let u = ls.update(t, line);
        assert forall|i: int| 0 <= i < u.len() implies #[trigger] u[i] == line || ls.contains(u[i]) by {
            if i != t {
                assert(ls[i] == u[i]);
            }
        }
        lemma_edited_lines_read_back(u, content, line);
        assert forall|i: int| 0 <= i < ls.len() && !last_assignment(ls, key, i) implies #[trigger] lines(
            patched_array(content, key, values),
        )[i] == ls[i] by {
            assert(i != t);
        }
    } else {
        let u = ls.push(line);
        assert forall|i: int| 0 <= i < u.len() implies #[trigger] u[i] == line || ls.contains(u[i]) by {
            if i < ls.len() {
                assert(ls[i] == u[i]);
            }
        }
        lemma_edited_lines_read_back(u, content, line);
    }
}

/// Setting a pacman option rewrites only the lines that set it, commented
/// out or not; a missing option is inserted under `[options]` (or first),
/// and every other line reads back unchanged, in its order.
pub proof fn law_option_keeps_other_lines(content: Seq<char>, key: Seq<char>, value: Seq<char>)
    requires
        no_trailing_cr(lines(content)),
        single_line(option_line(key, value)),
    ensures
        ({
            let before = lines(content);
            let line = option_line(key, value);
            let after = lines(option_result(content, key, value));
            if exists|i: int| 0 <= i < before.len() && sets_option(before[i], key) {
                &&& after.len() == before.len()
                &&& forall|i: int|
                    0 <= i < before.len() ==> #[trigger] after[i] == if sets_option(before[i], key) {
                        line
                    } else {
                        before[i]
                    }
            } else {
                after == before.insert(options_insert_at(before), line)
            }
        }),
{
    let ls = lines(content);
    let line = option_line(key, value);
    if exists|i: int| 0 <= i < ls.len() && sets_option(ls[i], key) {
        let kept = option_lines(ls, key, line);
        assert forall|i: int| 0 <= i < kept.len() implies #[trigger] kept[i] == line || ls.contains(kept[i]) by {
            if kept[i] != line {
                assert(ls[i] == kept[i]);
            }
        }
        lemma_edited_lines_read_back(kept, content, line);
    } else {
        let k = options_insert_at(ls);
        assert(0 <= k <= ls.len()) by {
            if exists|i: int| first_options(ls, i) {
                let c = choose|i: int| first_options(ls, i);
                assert(first_options(ls, c));
            }
        }
        let u = ls.insert(k, line);
        assert forall|i: int| 0 <= i < u.len() implies #[trigger] u[i] == line || ls.contains(u[i]) by {
            if i < k {
                assert(ls[i] == u[i]);
            } else if i > k {
                assert(ls[i - 1] == u[i]);
            }
        }
        lemma_edited_lines_read_back(u, content, line);
    }
}

/// After `set_option`, the file holds `key = value`, and every line that
/// sets `key` (not commented out) is that line: no other value of the
/// option remains. Lines ending in a carriage return, and a key or value
/// that would break the line, are left out as for the other laws here.
pub proof fn law_option_set(content: Seq<char>, key: Seq<char>, value: Seq<char>)
    requires
        no_trailing_cr(lines(content)),
        single_line(option_line(key, value)),
        key.len() > 0,
        key[0] != '#',
    ensures
        lines(option_result(content, key, value)).contains(option_line(key, value)),
        forall|i: int|
            0 <= i < lines(option_result(content, key, value)).len() && (has_prefix(
                trim_start(#[trigger] lines(option_result(content, key, value))[i]),
                key.push(' '),
            ) || has_prefix(
                trim_start(lines(option_result(content, key, value))[i]),
                key.push('='),
            )) ==> lines(option_result(content, key, value))[i] == option_line(key, value),
{
    law_option_keeps_other_lines(content, key, value);
    let before = lines(content);
    let line = option_line(key, value);
    let after = lines(option_result(content, key, value));
    // A line that starts with the key, past its leading whitespace, sets it.
    assert forall|l: Seq<char>|
        has_prefix(trim_start(l), key.push(' ')) || has_prefix(trim_start(l), key.push('='))
            implies #[trigger] sets_option(l, key) by {
        let t = trim_start(l);
        if has_prefix(t, key.push(' ')) {
            assert(t[0] == t.take(key.len() + 1int)[0]);
            assert(key.push(' ')[0] == key[0]);
        } else {
            assert(t[0] == t.take(key.len() + 1int)[0]);
            assert(key.push('=')[0] == key[0]);
        }
        assert(strip_hashes(t) == t);
    }
    if exists|i: int| 0 <= i < before.len() && sets_option(before[i], key) {
        let i = choose|i: int| 0 <= i < before.len() && sets_option(before[i], key);
        assert(after[i] == line);
    } else {
        let k = options_insert_at(before);
        assert(0 <= k <= before.len()) by {
            if exists|i: int| first_options(before, i) {
                let c = choose|i: int| first_options(before, i);
                assert(first_options(before, c));
            }
        }
        assert(after[k] == line);
        assert forall|i: int|
            0 <= i < after.len() && (has_prefix(trim_start(#[trigger] after[i]), key.push(' '))
                || has_prefix(trim_start(after[i]), key.push('='))) implies after[i] == line by {
            if i < k {
                assert(after[i] == before[i]);
            } else if i > k {
                assert(after[i] == before[i - 1]);
            }
        }
    }
}

} // verus!
