//! Repository sections of pacman.conf.

use vstd::prelude::*;

use crate::cmd::{arg_seq, chroot_cmd, ran_ok, CmdOutput, CommandRunner};
use crate::run_log::{
    added, extends, lemma_none, lemma_pushed, lemma_then, ran_as, single_run, Run, RunLog,
};
use crate::conf::{no_trailing_cr, option_result, set_option};
use crate::text::{
    chars_eq, chars_to_string, extend, extend_str, is_ws, join_lines, lemma_join_lines_add,
    lemma_lines_of_joined, lemma_lines_unbroken, lemma_trim_first, lemma_trim_of_unpadded,
    lemma_trim_strip_cr, lines, split_lines, strip_cr, trim, trimmed, views,
};

use crate::sort::string_views;

verus! {

/// How pacman checks a repository's signatures.
#[derive(Debug, Clone, Copy, PartialEq, Eq)]
pub enum Signatures {
    /// Nothing is checked.
    Never,
    /// Signatures are checked when present; any trusted key is accepted.
    Optional,
    /// Packages must be signed; databases may be unsigned.
    Required,
}

/// A pacman repository an installation takes packages from.
#[derive(Debug, Clone, PartialEq, Eq)]
pub struct Repository {
    pub name: String,
    pub servers: Vec<String>,
    pub mirrorlist: Option<String>,
    pub key_ids: Vec<String>,
    pub signatures: Signatures,
}

/// The value of the `SigLevel` line.
pub open spec fn sig_level_text(s: Signatures) -> Seq<char> {
    match s {
        Signatures::Never => "Never"@,
        Signatures::Optional => "Optional TrustAll"@,
        Signatures::Required => "Required DatabaseOptional"@,
    }
}

/// `Server = url` lines, one per server.
pub open spec fn server_lines(servers: Seq<String>) -> Seq<char>
    decreases servers.len(),
{
    if servers.len() == 0 {
        seq![]
    } else {
        server_lines(servers.drop_last()) + "Server = "@ + servers.last()@ + seq!['\n']
    }
}

/// `[name]`.
pub open spec fn section_header(name: Seq<char>) -> Seq<char> {
    seq!['['] + name + seq![']']
}

/// The repository's section, preceded by an empty line.
pub open spec fn conf_block(r: Repository) -> Seq<char> {
    seq!['\n'] + section_header(r.name@) + seq!['\n'] + "SigLevel = "@ + sig_level_text(
        r.signatures,
    ) + seq!['\n'] + match r.mirrorlist {
        Some(m) => "Include = "@ + m@ + seq!['\n'],
        None => seq![],
    } + server_lines(r.servers@)
}

impl Signatures {
    pub fn sig_level(&self) -> (r: &'static str)
        ensures
            r@ == sig_level_text(*self),
    {
        match self {
            Signatures::Never => "Never",
            Signatures::Optional => "Optional TrustAll",
            Signatures::Required => "Required DatabaseOptional",
        }
    }
}

impl Repository {
    /// The repository's section of pacman.conf.
    pub fn pacman_conf_block(&self) -> (r: String)
        ensures
            r@ == conf_block(*self),
    {
        let mut out: Vec<char> = Vec::new();
        out.push('\n');
        out.push('[');
        extend_str(&mut out, self.name.as_str());
        out.push(']');
        out.push('\n');
        extend_str(&mut out, "SigLevel = ");
        extend_str(&mut out, self.signatures.sig_level());
        out.push('\n');
        if let Some(m) = &self.mirrorlist {
            extend_str(&mut out, "Include = ");
            extend_str(&mut out, m.as_str());
            out.push('\n');
        }
        let ghost head = out@;
        for i in 0..self.servers.len()
            invariant
                out@ == head + server_lines(self.servers@.take(i as int)),
        {
            extend_str(&mut out, "Server = ");
            extend_str(&mut out, self.servers[i].as_str());
            out.push('\n');
            assert(self.servers@.take(i + 1).drop_last() == self.servers@.take(i as int));
        }
        assert(self.servers@.take(self.servers.len() as int) == self.servers@);
        assert(out@ =~= conf_block(*self));
        chars_to_string(&out)
    }
}

/// The line opens a section: its first character is `[`.
pub open spec fn starts_section(l: Seq<char>) -> bool {
    l.len() > 0 && l[0] == '['
}

/// The line is the repository's header.
pub open spec fn is_header(l: Seq<char>, h: Seq<char>) -> bool {
    trim(l) == h
}

/// Line `i` lies inside a block opened by the header `h`: a header came
/// before it with no section opened in between.
pub open spec fn in_block(ls: Seq<Seq<char>>, h: Seq<char>, i: int) -> bool {
    exists|j: int|
        0 <= j < i && is_header(ls[j], h) && forall|k: int| j < k < i ==> !starts_section(#[trigger] ls[k])
}

/// Line `i` survives: it is neither the header nor part of its block.
pub open spec fn survives(ls: Seq<Seq<char>>, h: Seq<char>, i: int) -> bool {
    !is_header(ls[i], h) && !(in_block(ls, h, i) && !starts_section(ls[i]))
}

/// The surviving lines among the first `n`, each followed by `\n`.
pub open spec fn surviving_text(ls: Seq<Seq<char>>, h: Seq<char>, n: int) -> Seq<char>
    decreases n,
{
    if n <= 0 {
        seq![]
    } else if survives(ls, h, n - 1) {
        surviving_text(ls, h, n - 1) + ls[n - 1] + seq!['\n']
    } else {
        surviving_text(ls, h, n - 1)
    }
}

/// What `replace_repo_block` produces: the file without the repository's
/// block, and the block appended.
pub open spec fn replaced_repo(content: Seq<char>, r: Repository) -> Seq<char> {
    let ls = lines(content);
    surviving_text(ls, section_header(r.name@), ls.len() as int) + conf_block(r)
}

proof fn lemma_in_block_step(ls: Seq<Seq<char>>, h: Seq<char>, i: int)
    requires
        0 <= i < ls.len(),
    ensures
        in_block(ls, h, i + 1) == (is_header(ls[i], h) || (in_block(ls, h, i) && !starts_section(
            ls[i],
        ))),
{
    if is_header(ls[i], h) {
        assert(forall|k: int| i < k < i + 1 ==> !starts_section(#[trigger] ls[k]));
    }
    if in_block(ls, h, i) && !starts_section(ls[i]) {
        let j = choose|j: int|
            0 <= j < i && is_header(ls[j], h) && forall|k: int|
                j < k < i ==> !starts_section(#[trigger] ls[k]);
        assert forall|k: int| j < k < i + 1 implies !starts_section(#[trigger] ls[k]) by {
            if k < i {
            }
        }
    }
    if in_block(ls, h, i + 1) {
        let j = choose|j: int|
            0 <= j < i + 1 && is_header(ls[j], h) && forall|k: int|
                j < k < i + 1 ==> !starts_section(#[trigger] ls[k]);
        if j < i {
            assert(!starts_section(ls[i]));
            assert(forall|k: int| j < k < i ==> !starts_section(#[trigger] ls[k]));
        }
    }
}

/// Replace a repository's block, or append it when the file has none.
///
/// The block is appended either way: an existing one is dropped, and where
/// a repository sits only matters against ones offering the same packages.
pub fn replace_repo_block(content: &str, repo: &Repository) -> (r: String)
    ensures
        r@ == replaced_repo(content@, *repo),
{
    let ls = split_lines(content);
    let ghost lsv = views(ls@);
    let mut header: Vec<char> = Vec::new();
    header.push('[');
    extend_str(&mut header, repo.name.as_str());
    header.push(']');
    assert(header@ =~= section_header(repo.name@));
    let mut out: Vec<char> = Vec::new();
    let mut inside = false;
    for i in 0..ls.len()
        invariant
            lsv == views(ls@),
            header@ == section_header(repo.name@),
            inside == in_block(lsv, header@, i as int),
            out@ == surviving_text(lsv, header@, i as int),
    {
        assert(lsv[i as int] == ls@[i as int]@);
        proof {
            lemma_in_block_step(lsv, header@, i as int);
        }
        let t = trimmed(&ls[i]);
        let bracket = ls[i].len() > 0 && ls[i][0] == '[';
        if chars_eq(&t, &header) {
            inside = true;
        } else if inside && !bracket {
        } else {
            inside = false;
            extend(&mut out, &ls[i]);
            out.push('\n');
        }
    }
    let block = repo.pacman_conf_block();
    extend_str(&mut out, block.as_str());
    chars_to_string(&out)
}


/// How many of the lines are the header `h`.
pub open spec fn header_count(ls: Seq<Seq<char>>, h: Seq<char>) -> nat
    decreases ls.len(),
{
    if ls.len() == 0 {
        0
    } else {
        header_count(ls.drop_last(), h) + if is_header(ls.last(), h) {
            1nat
        } else {
            0nat
        }
    }
}

/// The surviving lines among the first `n`.
pub open spec fn survivor_lines(ls: Seq<Seq<char>>, h: Seq<char>, n: int) -> Seq<Seq<char>>
    decreases n,
{
    if n <= 0 {
        seq![]
    } else if survives(ls, h, n - 1) {
        survivor_lines(ls, h, n - 1).push(ls[n - 1])
    } else {
        survivor_lines(ls, h, n - 1)
    }
}

/// The lines of a repository's section, the empty line before it first.
pub open spec fn block_lines(r: Repository) -> Seq<Seq<char>> {
    seq![seq![], section_header(r.name@), "SigLevel = "@ + sig_level_text(r.signatures)] + match r.mirrorlist {
        Some(m) => seq!["Include = "@ + m@],
        None => seq![],
    } + r.servers@.map_values(|s: String| "Server = "@ + s@)
}

/// The text holds no line break.
pub open spec fn unbroken(s: Seq<char>) -> bool {
    forall|j: int| 0 <= j < s.len() ==> s[j] != '\n'
}

proof fn lemma_survivors(ls: Seq<Seq<char>>, h: Seq<char>, n: int)
    requires
        0 <= n <= ls.len(),
        forall|i: int| 0 <= i < ls.len() ==> unbroken(#[trigger] ls[i]),
    ensures
        surviving_text(ls, h, n) == join_lines(survivor_lines(ls, h, n)),
        header_count(survivor_lines(ls, h, n).map_values(|l: Seq<char>| strip_cr(l)), h) == 0,
        forall|i: int| 0 <= i < survivor_lines(ls, h, n).len() ==> unbroken(#[trigger] survivor_lines(ls, h, n)[i]),
    decreases n,
{
    if n > 0 {
        lemma_survivors(ls, h, n - 1);
        let p = survivor_lines(ls, h, n - 1);
        if survives(ls, h, n - 1) {
            let q = p.push(ls[n - 1]);
            assert(q.drop_last() =~= p);
            lemma_trim_strip_cr(ls[n - 1]);
            assert(q.map_values(|l: Seq<char>| strip_cr(l)).drop_last() =~= p.map_values(
                |l: Seq<char>| strip_cr(l),
            ));
        }
    }
}

proof fn lemma_header_count_add(a: Seq<Seq<char>>, b: Seq<Seq<char>>, h: Seq<char>)
    ensures
        header_count(a + b, h) == header_count(a, h) + header_count(b, h),
    decreases b.len(),
{
    if b.len() == 0 {
        assert(a + b =~= a);
    } else {
        lemma_header_count_add(a, b.drop_last(), h);
        assert((a + b).drop_last() =~= a + b.drop_last());
    }
}

proof fn lemma_server_lines(servers: Seq<String>)
    ensures
        server_lines(servers) == join_lines(servers.map_values(|s: String| "Server = "@ + s@)),
    decreases servers.len(),
{
    if servers.len() > 0 {
        lemma_server_lines(servers.drop_last());
        assert(servers.map_values(|s: String| "Server = "@ + s@).drop_last() =~= servers.drop_last().map_values(
            |s: String| "Server = "@ + s@,
        ));
    }
}

/// No line of the block but its header is the header.
proof fn lemma_block_headers(r: Repository)
    requires
        unbroken(r.name@),
    ensures
        header_count(block_lines(r).map_values(|l: Seq<char>| strip_cr(l)), section_header(r.name@))
            == 1,
{
    let h = section_header(r.name@);
    let b = block_lines(r);
    let m = b.map_values(|l: Seq<char>| strip_cr(l));
    reveal_strlit("SigLevel = ");
    reveal_strlit("Include = ");
    reveal_strlit("Server = ");
    assert forall|i: int| 2 <= i < b.len() implies #[trigger] b[i].len() > 0 && b[i][0] != '[' && !is_ws(b[i][0]) by {
        if i == 2 {
            assert(b[i][0] == 'S');
        } else if i == 3 && r.mirrorlist is Some {
            assert(b[i][0] == 'I');
        } else {
            assert(b[i][0] == 'S');
        }
    }
    assert forall|i: int| 0 <= i < m.len() implies #[trigger] is_header(m[i], h) == (i == 1) by {
        lemma_trim_strip_cr(b[i]);
        if i == 0 {
            assert(trim(seq![]) =~= seq![]);
        } else if i == 1 {
            lemma_trim_of_unpadded(h);
        } else {
            lemma_trim_first(b[i]);
            if trim(b[i]) == h {
                assert(h[0] == '[');
            }
        }
    }
    lemma_header_count_ones(m, h);
}

proof fn lemma_header_count_ones(m: Seq<Seq<char>>, h: Seq<char>)
    requires
        m.len() >= 2,
        forall|i: int| 0 <= i < m.len() ==> #[trigger] is_header(m[i], h) == (i == 1),
    ensures
        header_count(m, h) == 1,
    decreases m.len(),
{
    if m.len() == 2 {
        assert(m.drop_last().drop_last() =~= seq![]);
        assert(header_count(m.drop_last().drop_last(), h) == 0);
        assert(m.drop_last().last() == m[0]);
        assert(!is_header(m[0], h));
        assert(is_header(m[1], h));
        assert(m.last() == m[1]);
        assert(header_count(m.drop_last(), h) == 0);
    } else {
        assert(!is_header(m[m.len() - 1], h));
        let p = m.drop_last();
        assert forall|i: int| 0 <= i < p.len() implies #[trigger] is_header(p[i], h) == (i == 1) by {
            assert(p[i] == m[i]);
        }
        lemma_header_count_ones(p, h);
    }
}

/// What `replace_repo_block` writes is the surviving lines and the block's
/// lines, each ended by a line break, none holding a line break.
proof fn lemma_replaced_text(content: Seq<char>, r: Repository)
    requires
        unbroken(r.name@),
        r.mirrorlist matches Some(m) ==> unbroken(m@),
        forall|i: int| 0 <= i < r.servers@.len() ==> unbroken(#[trigger] r.servers@[i]@),
    ensures
        ({
            let h = section_header(r.name@);
            let ls = lines(content);
            let sl = survivor_lines(ls, h, ls.len() as int);
            let all = sl + block_lines(r);
            &&& replaced_repo(content, r) == join_lines(all)
            &&& surviving_text(ls, h, ls.len() as int) == join_lines(sl)
            &&& forall|i: int, j: int| 0 <= i < all.len() && 0 <= j < all[i].len() ==> all[i][j] != '\n'
            &&& forall|i: int| 0 <= i < sl.len() ==> unbroken(#[trigger] sl[i])
            &&& header_count(sl.map_values(|l: Seq<char>| strip_cr(l)), h) == 0
        }),
{
    let h = section_header(r.name@);
    let ls = lines(content);
    lemma_lines_unbroken(content);
    assert forall|i: int| 0 <= i < ls.len() implies unbroken(#[trigger] ls[i]) by {}
    lemma_survivors(ls, h, ls.len() as int);
    let sl = survivor_lines(ls, h, ls.len() as int);
    let bl = block_lines(r);
    reveal_strlit("SigLevel = ");
    reveal_strlit("Include = ");
    reveal_strlit("Server = ");
    reveal_strlit("Never");
    reveal_strlit("Optional TrustAll");
    reveal_strlit("Required DatabaseOptional");
    lemma_server_lines(r.servers@);
    let servers = r.servers@.map_values(|s: String| "Server = "@ + s@);
    let head = seq![seq![], h, "SigLevel = "@ + sig_level_text(r.signatures)];
    let inc = match r.mirrorlist {
        Some(m) => seq!["Include = "@ + m@],
        None => seq![],
    };
    lemma_join_lines_add(head, inc);
    lemma_join_lines_add(head + inc, servers);
    let h0: Seq<Seq<char>> = seq![seq![]];
    let h1: Seq<Seq<char>> = seq![seq![], h];
    assert(head.drop_last() =~= h1);
    assert(h1.drop_last() =~= h0);
    assert(h0.drop_last() =~= Seq::<Seq<char>>::empty());
    assert(join_lines(h0.drop_last()) =~= seq![]);
    assert(join_lines(h0) =~= seq!['\n']);
    assert(join_lines(h1) =~= seq!['\n'] + h + seq!['\n']);
    assert(join_lines(head) =~= seq!['\n'] + h + seq!['\n'] + "SigLevel = "@ + sig_level_text(
        r.signatures,
    ) + seq!['\n']);
    assert(conf_block(r) =~= join_lines(bl)) by {
        match r.mirrorlist {
            Some(m) => {
                assert(inc.drop_last() =~= Seq::<Seq<char>>::empty());
                assert(join_lines(inc.drop_last()) =~= seq![]);
                assert(join_lines(inc) =~= "Include = "@ + m@ + seq!['\n']);
            },
            None => {
                assert(join_lines(inc) =~= seq![]);
            },
        }
    }
    lemma_join_lines_add(sl, bl);
    assert forall|i: int| 0 <= i < bl.len() implies unbroken(#[trigger] bl[i]) by {
        if i >= 3 + inc.len() {
            assert(bl[i] == servers[i - 3 - inc.len()]);
        }
    }
    let all = sl + bl;
    assert forall|i: int, j: int| 0 <= i < all.len() && 0 <= j < all[i].len() implies all[i][j]
        != '\n' by {
        if i < sl.len() {
            assert(unbroken(sl[i]));
        } else {
            assert(unbroken(bl[i - sl.len()]));
        }
    }
}

/// Rewriting a repository into pacman.conf leaves its section header on
/// exactly one line, whatever the file held before: running an
/// installation again does not stack blocks.
pub proof fn law_repository_listed_once(content: Seq<char>, r: Repository)
    requires
        unbroken(r.name@),
        r.mirrorlist matches Some(m) ==> unbroken(m@),
        forall|i: int| 0 <= i < r.servers@.len() ==> unbroken(#[trigger] r.servers@[i]@),
    ensures
        header_count(lines(replaced_repo(content, r)), section_header(r.name@)) == 1,
{
    lemma_replaced_text(content, r);
    let h = section_header(r.name@);
    let ls = lines(content);
    let sl = survivor_lines(ls, h, ls.len() as int);
    let bl = block_lines(r);
    let all = sl + bl;
    lemma_lines_of_joined(all);
    assert(all.map_values(|l: Seq<char>| strip_cr(l)) =~= sl.map_values(|l: Seq<char>| strip_cr(l))
        + bl.map_values(|l: Seq<char>| strip_cr(l)));
    lemma_header_count_add(
        sl.map_values(|l: Seq<char>| strip_cr(l)),
        bl.map_values(|l: Seq<char>| strip_cr(l)),
        h,
    );
    lemma_block_headers(r);
}


proof fn lemma_header_count_zero(m: Seq<Seq<char>>, h: Seq<char>)
    requires
        header_count(m, h) == 0,
    ensures
        forall|i: int| 0 <= i < m.len() ==> !is_header(#[trigger] m[i], h),
    decreases m.len(),
{
    if m.len() > 0 {
        lemma_header_count_zero(m.drop_last(), h);
        assert forall|i: int| 0 <= i < m.len() implies !is_header(#[trigger] m[i], h) by {
            if i < m.len() - 1 {
                assert(m.drop_last()[i] == m[i]);
            }
        }
    }
}

proof fn lemma_survivors_keep_cr(ls: Seq<Seq<char>>, h: Seq<char>, n: int)
    requires
        0 <= n <= ls.len(),
        no_trailing_cr(ls),
    ensures
        no_trailing_cr(survivor_lines(ls, h, n)),
    decreases n,
{
    if n > 0 {
        lemma_survivors_keep_cr(ls, h, n - 1);
        let p = survivor_lines(ls, h, n - 1);
        if survives(ls, h, n - 1) {
            let q = p.push(ls[n - 1]);
            assert forall|i: int| 0 <= i < q.len() implies #[trigger] strip_cr(q[i]) == q[i] by {
                if i < p.len() {
                    assert(q[i] == p[i]);
                }
            }
        }
    }
}

/// With no header among the first `k` lines, all of them survive.
proof fn lemma_headerless_prefix(ls: Seq<Seq<char>>, h: Seq<char>, k: int)
    requires
        0 <= k <= ls.len(),
        forall|i: int| 0 <= i < k ==> !is_header(#[trigger] ls[i], h),
    ensures
        surviving_text(ls, h, k) == join_lines(ls.take(k)),
    decreases k,
{
    if k > 0 {
        lemma_headerless_prefix(ls, h, k - 1);
        assert(!in_block(ls, h, k - 1));
        assert(survives(ls, h, k - 1));
        assert(ls.take(k).drop_last() =~= ls.take(k - 1));
    } else {
        assert(ls.take(0) =~= Seq::<Seq<char>>::empty());
    }
}

/// Lines that do not survive add nothing.
proof fn lemma_dropped_tail(ls: Seq<Seq<char>>, h: Seq<char>, from: int, to: int)
    requires
        0 <= from <= to <= ls.len(),
        forall|i: int| from <= i < to ==> !#[trigger] survives(ls, h, i),
    ensures
        surviving_text(ls, h, to) == surviving_text(ls, h, from),
    decreases to - from,
{
    if to > from {
        lemma_dropped_tail(ls, h, from, to - 1);
        assert(!survives(ls, h, to - 1));
    }
}

/// Rewriting a repository a second time leaves pacman.conf as the first
/// rewrite did, but for one more empty line before the repository's
/// section: the section opens with an empty line, which the second
/// rewrite keeps with the lines before it. The settings and every other
/// section stay as they were. Lines ending in two carriage returns would
/// lose one more (`"x\r\r\n"`), so they are left out.
pub proof fn law_rewriting_again(content: Seq<char>, r: Repository)
    requires
        unbroken(r.name@),
        r.mirrorlist matches Some(m) ==> unbroken(m@),
        forall|i: int| 0 <= i < r.servers@.len() ==> unbroken(#[trigger] r.servers@[i]@),
        no_trailing_cr(lines(content)),
    ensures
        replaced_repo(replaced_repo(content, r), r) == surviving_text(
            lines(content),
            section_header(r.name@),
            lines(content).len() as int,
        ) + seq!['\n'] + conf_block(r),
{
    lemma_replaced_text(content, r);
    let h = section_header(r.name@);
    let ls = lines(content);
    let sl = survivor_lines(ls, h, ls.len() as int);
    let bl = block_lines(r);
    let all = sl + bl;
    lemma_lines_of_joined(all);
    lemma_survivors_keep_cr(ls, h, ls.len() as int);
    let ls2 = lines(replaced_repo(content, r));
    let bl2 = bl.map_values(|l: Seq<char>| strip_cr(l));
    assert(ls2 =~= sl + bl2) by {
        assert forall|i: int| 0 <= i < all.len() implies #[trigger] strip_cr(all[i]) == (sl + bl2)[i] by {
            if i < sl.len() {
                assert(strip_cr(sl[i]) == sl[i]);
            }
        }
    }
    assert(sl.map_values(|l: Seq<char>| strip_cr(l)) =~= sl) by {
        assert forall|i: int| 0 <= i < sl.len() implies #[trigger] strip_cr(sl[i]) == sl[i] by {}
    }
    lemma_header_count_zero(sl, h);
    let n = sl.len() as int;
    // The surviving lines survive again, with nothing before them.
    assert forall|i: int| 0 <= i < n implies !is_header(#[trigger] ls2[i], h) by {
        assert(ls2[i] == sl[i]);
    }
    // Then the empty line that opens the block.
    reveal_strlit("SigLevel = ");
    reveal_strlit("Include = ");
    reveal_strlit("Server = ");
    lemma_trim_of_unpadded(h);
    assert(ls2[n] == Seq::<char>::empty());
    assert(trim(Seq::<char>::empty()) =~= Seq::<char>::empty());
    assert forall|i: int| 0 <= i < n + 1 implies !is_header(#[trigger] ls2[i], h) by {
        if i == n {
        } else {
            assert(ls2[i] == sl[i]);
        }
    }
    lemma_headerless_prefix(ls2, h, n + 1);
    assert(ls2.take(n + 1) =~= sl.push(Seq::<char>::empty()));
    assert(sl.push(Seq::<char>::empty()).drop_last() =~= sl);
    // The header and the settings under it are dropped.
    assert(strip_cr(h) == h);
    assert(ls2[n + 1] == h);
    assert forall|i: int| 2 <= i < bl.len() implies #[trigger] bl[i].len() >= 2 && bl[i][0] != '[' by {
        if i == 2 {
            assert(bl[i][0] == 'S');
        } else if i == 3 && r.mirrorlist is Some {
            assert(bl[i][0] == 'I');
        } else {
            assert(bl[i][0] == 'S');
        }
    }
    assert forall|i: int| n + 1 <= i < ls2.len() implies !#[trigger] survives(ls2, h, i) by {
        if i > n + 1 {
            assert(ls2[i] == strip_cr(bl[i - n]));
            assert(!starts_section(ls2[i]));
            assert forall|k: int| n + 1 < k < i implies !starts_section(#[trigger] ls2[k]) by {
                assert(ls2[k] == strip_cr(bl[k - n]));
            }
            assert(in_block(ls2, h, i));
        }
    }
    lemma_dropped_tail(ls2, h, n + 1, ls2.len() as int);
}

/// Each repository's section rewritten in turn.
pub open spec fn with_repo_blocks(content: Seq<char>, repos: Seq<Repository>) -> Seq<char>
    decreases repos.len(),
{
    if repos.len() == 0 {
        content
    } else {
        replaced_repo(with_repo_blocks(content, repos.drop_last()), repos.last())
    }
}

/// Every line that is the header `h` opens a section: it starts with `[`.
pub open spec fn opens_sections(ls: Seq<Seq<char>>, h: Seq<char>) -> bool {
    forall|i: int| 0 <= i < ls.len() && is_header(#[trigger] ls[i], h) ==> starts_section(ls[i])
}

/// The text holds the header `h` on exactly one line, and that line opens
/// a section.
pub open spec fn listed_once(content: Seq<char>, h: Seq<char>) -> bool {
    header_count(lines(content), h) == 1 && opens_sections(lines(content), h)
}

/// The repository's fields hold no line break.
pub open spec fn single_lines(r: Repository) -> bool {
    &&& unbroken(r.name@)
    &&& r.mirrorlist matches Some(m) ==> unbroken(m@)
    &&& forall|i: int| 0 <= i < r.servers@.len() ==> unbroken(#[trigger] r.servers@[i]@)
}

proof fn lemma_header_count_none(m: Seq<Seq<char>>, h: Seq<char>)
    requires
        forall|i: int| 0 <= i < m.len() ==> !is_header(#[trigger] m[i], h),
    ensures
        header_count(m, h) == 0,
    decreases m.len(),
{
    if m.len() > 0 {
        assert forall|i: int| 0 <= i < m.drop_last().len() implies !is_header(
            #[trigger] m.drop_last()[i],
            h,
        ) by {
            assert(m.drop_last()[i] == m[i]);
        }
        lemma_header_count_none(m.drop_last(), h);
        assert(!is_header(m[m.len() - 1], h));
    }
}

/// Taking a `\r` off each line changes neither which lines are the header
/// nor whether they open a section.
proof fn lemma_strip_cr_headers(ls: Seq<Seq<char>>, h: Seq<char>)
    requires
        h.len() > 0,
    ensures
        header_count(ls.map_values(|l: Seq<char>| strip_cr(l)), h) == header_count(ls, h),
        opens_sections(ls, h) ==> opens_sections(ls.map_values(|l: Seq<char>| strip_cr(l)), h),
    decreases ls.len(),
{
    let m = ls.map_values(|l: Seq<char>| strip_cr(l));
    assert forall|i: int| 0 <= i < ls.len() implies is_header(#[trigger] m[i], h) == is_header(
        ls[i],
        h,
    ) by {
        lemma_trim_strip_cr(ls[i]);
    }
    if ls.len() > 0 {
        lemma_strip_cr_headers(ls.drop_last(), h);
        assert(m.drop_last() =~= ls.drop_last().map_values(|l: Seq<char>| strip_cr(l)));
        assert(is_header(m[ls.len() - 1], h) == is_header(ls.last(), h));
    }
    if opens_sections(ls, h) {
        assert forall|i: int| 0 <= i < m.len() && is_header(#[trigger] m[i], h) implies starts_section(
            m[i],
        ) by {
            assert(is_header(ls[i], h));
            assert(starts_section(ls[i]));
            if ls[i].len() == 1 {
                assert(ls[i] == seq!['[']);
                assert(trim(ls[i]) =~= ls[i]);
            }
        }
    }
}

/// The lines `replace_repo_block` leaves: the surviving lines and the
/// block's lines, each without a final `\r`.
proof fn lemma_replaced_lines(content: Seq<char>, r: Repository)
    requires
        single_lines(r),
    ensures
        lines(replaced_repo(content, r)) == survivor_lines(
            lines(content),
            section_header(r.name@),
            lines(content).len() as int,
        ).map_values(|l: Seq<char>| strip_cr(l)) + block_lines(r).map_values(
            |l: Seq<char>| strip_cr(l),
        ),
        header_count(
            survivor_lines(
                lines(content),
                section_header(r.name@),
                lines(content).len() as int,
            ).map_values(|l: Seq<char>| strip_cr(l)),
            section_header(r.name@),
        ) == 0,
{
    lemma_replaced_text(content, r);
    let h = section_header(r.name@);
    let ls = lines(content);
    let sl = survivor_lines(ls, h, ls.len() as int);
    let bl = block_lines(r);
    lemma_lines_of_joined(sl + bl);
    assert((sl + bl).map_values(|l: Seq<char>| strip_cr(l)) =~= sl.map_values(
        |l: Seq<char>| strip_cr(l),
    ) + bl.map_values(|l: Seq<char>| strip_cr(l)));
}

/// Which of a block's lines are a section header `h`: only the block's own
/// header, when `h` is it.
proof fn lemma_block_lines_headers(r: Repository, h: Seq<char>)
    requires
        unbroken(r.name@),
        h.len() > 0,
        h[0] == '[',
    ensures
        ({
            let m = block_lines(r).map_values(|l: Seq<char>| strip_cr(l));
            &&& m.len() >= 3
            &&& m[1] == section_header(r.name@)
            &&& forall|i: int|
                0 <= i < m.len() ==> #[trigger] is_header(m[i], h) == (i == 1 && h == section_header(
                    r.name@,
                ))
        }),
{
    let hs = section_header(r.name@);
    let b = block_lines(r);
    let m = b.map_values(|l: Seq<char>| strip_cr(l));
    reveal_strlit("SigLevel = ");
    reveal_strlit("Include = ");
    reveal_strlit("Server = ");
    assert forall|i: int| 2 <= i < b.len() implies #[trigger] b[i].len() > 0 && b[i][0] != '['
        && !is_ws(b[i][0]) by {
        if i == 2 {
            assert(b[i][0] == 'S');
        } else if i == 3 && r.mirrorlist is Some {
            assert(b[i][0] == 'I');
        } else {
            assert(b[i][0] == 'S');
        }
    }
    assert(strip_cr(hs) == hs);
    assert forall|i: int| 0 <= i < m.len() implies #[trigger] is_header(m[i], h) == (i == 1 && h
        == hs) by {
        lemma_trim_strip_cr(b[i]);
        if i == 0 {
            assert(trim(seq![]) =~= seq![]);
        } else if i == 1 {
            lemma_trim_of_unpadded(hs);
        } else {
            lemma_trim_first(b[i]);
            if trim(b[i]) == h {
                assert(h[0] == '[');
            }
        }
    }
}

/// Rewriting a repository's block lists its header once, opening a section.
proof fn lemma_rewritten_listed_once(content: Seq<char>, r: Repository)
    requires
        single_lines(r),
    ensures
        listed_once(replaced_repo(content, r), section_header(r.name@)),
{
    let h = section_header(r.name@);
    lemma_replaced_lines(content, r);
    let ls = lines(content);
    let sm = survivor_lines(ls, h, ls.len() as int).map_values(|l: Seq<char>| strip_cr(l));
    let bm = block_lines(r).map_values(|l: Seq<char>| strip_cr(l));
    lemma_block_lines_headers(r, h);
    lemma_header_count_add(sm, bm, h);
    law_repository_listed_once(content, r);
    lemma_header_count_zero(sm, h);
    let all = sm + bm;
    assert forall|i: int| 0 <= i < all.len() && is_header(#[trigger] all[i], h) implies starts_section(
        all[i],
    ) by {
        if i < sm.len() {
            assert(all[i] == sm[i]);
        } else {
            assert(all[i] == bm[i - sm.len()]);
        }
    }
}

/// The surviving lines keep every other header that opens a section.
proof fn lemma_survivors_other(ls: Seq<Seq<char>>, hs: Seq<char>, hr: Seq<char>, n: int)
    requires
        0 <= n <= ls.len(),
        hr != hs,
        opens_sections(ls, hr),
    ensures
        header_count(survivor_lines(ls, hs, n), hr) == header_count(ls.take(n), hr),
        opens_sections(survivor_lines(ls, hs, n), hr),
    decreases n,
{
    if n > 0 {
        lemma_survivors_other(ls, hs, hr, n - 1);
        assert(ls.take(n).drop_last() =~= ls.take(n - 1));
        assert(ls.take(n).last() == ls[n - 1]);
        let p = survivor_lines(ls, hs, n - 1);
        if is_header(ls[n - 1], hr) {
            assert(starts_section(ls[n - 1]));
            assert(survives(ls, hs, n - 1));
        }
        if survives(ls, hs, n - 1) {
            let q = p.push(ls[n - 1]);
            assert(q.drop_last() =~= p);
            assert forall|i: int| 0 <= i < q.len() && is_header(#[trigger] q[i], hr) implies starts_section(
                q[i],
            ) by {
                if i < p.len() {
                    assert(q[i] == p[i]);
                }
            }
        }
    } else {
        assert(ls.take(0) =~= Seq::<Seq<char>>::empty());
    }
}

/// Rewriting another repository's block keeps a header listed once.
proof fn lemma_other_rewrite_keeps(content: Seq<char>, s: Repository, hr: Seq<char>)
    requires
        single_lines(s),
        hr.len() > 0,
        hr[0] == '[',
        hr != section_header(s.name@),
        listed_once(content, hr),
    ensures
        listed_once(replaced_repo(content, s), hr),
{
    let hs = section_header(s.name@);
    lemma_replaced_lines(content, s);
    let ls = lines(content);
    let sl = survivor_lines(ls, hs, ls.len() as int);
    let sm = sl.map_values(|l: Seq<char>| strip_cr(l));
    let bm = block_lines(s).map_values(|l: Seq<char>| strip_cr(l));
    lemma_survivors_other(ls, hs, hr, ls.len() as int);
    assert(ls.take(ls.len() as int) =~= ls);
    lemma_strip_cr_headers(sl, hr);
    lemma_block_lines_headers(s, hr);
    lemma_header_count_none(bm, hr);
    lemma_header_count_add(sm, bm, hr);
    let all = sm + bm;
    assert forall|i: int| 0 <= i < all.len() && is_header(#[trigger] all[i], hr) implies starts_section(
        all[i],
    ) by {
        if i < sm.len() {
            assert(all[i] == sm[i]);
        } else {
            assert(all[i] == bm[i - sm.len()]);
        }
    }
}

/// Whatever pacman.conf held, rewriting a list of repositories in turn
/// leaves the section header of every one of them on exactly one line,
/// which opens its section: every repository given is written, and none
/// twice.
pub proof fn law_every_repository_listed_once(content: Seq<char>, repos: Seq<Repository>, k: int)
    requires
        0 <= k < repos.len(),
        forall|j: int| 0 <= j < repos.len() ==> single_lines(#[trigger] repos[j]),
    ensures
        header_count(lines(with_repo_blocks(content, repos)), section_header(repos[k].name@)) == 1,
        opens_sections(lines(with_repo_blocks(content, repos)), section_header(repos[k].name@)),
    decreases repos.len(),
{
    let p = repos.drop_last();
    let last = repos.last();
    assert(single_lines(repos[repos.len() - 1]));
    let hr = section_header(repos[k].name@);
    if k == repos.len() - 1 {
        lemma_rewritten_listed_once(with_repo_blocks(content, p), last);
    } else {
        assert forall|j: int| 0 <= j < p.len() implies single_lines(#[trigger] p[j]) by {
            assert(p[j] == repos[j]);
        }
        assert(p[k] == repos[k]);
        law_every_repository_listed_once(content, p, k);
        if hr == section_header(last.name@) {
            lemma_rewritten_listed_once(with_repo_blocks(content, p), last);
        } else {
            lemma_other_rewrite_keeps(with_repo_blocks(content, p), last, hr);
        }
    }
}

/// pacman.conf with a distribution's repositories: the `Architecture`
/// option set when the distribution names one, then each repository's
/// section rewritten.
pub fn with_repositories(content: &str, architectures: Option<&str>, repos: &Vec<Repository>) -> (r:
    String)
    ensures
        r@ == with_repo_blocks(
            match architectures {
                Some(a) => option_result(content@, "Architecture"@, a@),
                None => content@,
            },
            repos@,
        ),
{
    let mut out = match architectures {
        Some(a) => set_option(content, "Architecture", a),
        None => content.to_string(),
    };
    let ghost start = out@;
    let mut i: usize = 0;
    while i < repos.len()
        invariant
            i <= repos.len(),
            out@ == with_repo_blocks(start, repos@.take(i as int)),
        decreases repos.len() - i,
    {
        out = replace_repo_block(out.as_str(), &repos[i]);
        assert(repos@.take(i + 1).drop_last() =~= repos@.take(i as int));
        i = i + 1;
    }
    assert(repos@.take(repos.len() as int) =~= repos@);
    out
}

/// Keyservers tried in order until one answers with a key.
pub const KEYSERVERS: [&'static str; 3] = [
    "hkps://keyserver.ubuntu.com",
    "hkps://pgp.mit.edu",
    "hkps://keys.openpgp.org",
];

/// A program run on the medium, or inside `target` through `arch-chroot`:
/// the program and arguments the runner is given.
pub open spec fn in_target(target: Option<Seq<char>>, program: Seq<char>, args: Seq<Seq<char>>) -> (
    Seq<char>,
    Seq<Seq<char>>,
) {
    match target {
        Some(t) => ("arch-chroot"@, seq![t, program] + args),
        None => (program, args),
    }
}

pub open spec fn opt_view(t: Option<&str>) -> Option<Seq<char>> {
    match t {
        Some(s) => Some(s@),
        None => None,
    }
}

/// `pacman-key <args>` on the medium, or inside `target`.
pub fn pacman_key<R: CommandRunner>(runner: &mut RunLog<R>, target: Option<&str>, args: &[&str]) -> (r:
    Result<CmdOutput, String>)
    ensures
        extends(old(runner).runs(), final(runner).runs()),
        single_run(
            added(old(runner).runs(), final(runner).runs()),
            in_target(opt_view(target), "pacman-key"@, arg_seq(args@)).0,
            in_target(opt_view(target), "pacman-key"@, arg_seq(args@)).1,
        ),
        added(old(runner).runs(), final(runner).runs())[0].3 == r,
{
    let ghost start = runner.runs();
    match target {
        Some(t) => chroot_cmd(runner, t, "pacman-key", args),
        None => {
            let r = runner.run("pacman-key", args);
            proof {
                lemma_pushed(start, runner.runs());
            }
            r
        },
    }
}

/// What a keyring step reports: nothing when it ran and succeeded, or
/// when it could not be run at all; its error output when it failed.
pub open spec fn keyring_report(o: Result<CmdOutput, String>) -> Option<Seq<char>> {
    match o {
        Ok(out) => if out.exit_code == 0 {
            None
        } else {
            Some(out.stderr@)
        },
        Err(_) => None,
    }
}

/// The runs of `init_keyring` (`made`) and its report: `--init`, and
/// `--populate <keyring>` only after an init that succeeded; the report is
/// that of the last run. No other run is made.
pub open spec fn keyring_runs(
    target: Option<Seq<char>>,
    keyring: Seq<char>,
    made: Seq<Run>,
    report: Option<Seq<char>>,
) -> bool {
    let i = in_target(target, "pacman-key"@, seq!["--init"@]);
    let p = in_target(target, "pacman-key"@, seq!["--populate"@, keyring]);
    &&& ran_as(made, 0, i.0, i.1)
    &&& if made[0].3 matches Ok(out) && out.exit_code == 0 {
        made.len() == 2 && ran_as(made, 1, p.0, p.1) && report == keyring_report(made[1].3)
    } else {
        made.len() == 1 && report == keyring_report(made[0].3)
    }
}

/// Initialise pacman's keyring and populate it with `keyring`; the
/// populate step runs only after a successful init. Problems are only
/// reported (the second result), never fatal.
pub fn init_keyring<R: CommandRunner>(runner: &mut RunLog<R>, target: Option<&str>, keyring: &str) -> (r:
    Option<String>)
    ensures
        extends(old(runner).runs(), final(runner).runs()),
        keyring_runs(opt_view(target), keyring@, added(old(runner).runs(), final(runner).runs()), opt_view_string(r)),
{
    let ghost start = runner.runs();
    let init_args = ["--init"];
    assert(arg_seq(init_args@) =~= seq!["--init"@]);
    let initialised = pacman_key(runner, target, &init_args);
    let ghost m1 = runner.runs();
    let result = match initialised {
        Ok(output) => if output.success() {
            let pop_args = ["--populate", keyring];
            assert(arg_seq(pop_args@) =~= seq!["--populate"@, keyring@]);
            let p = pacman_key(runner, target, &pop_args);
            proof {
                lemma_then(start, m1, runner.runs());
                assert(added(start, runner.runs())[0] == added(start, m1)[0]);
                assert(added(start, runner.runs())[1] == added(m1, runner.runs())[0]);
            }
            p
        } else {
            Ok(output)
        },
        Err(e) => Err(e),
    };
    match result {
        Ok(output) => if output.success() {
            None
        } else {
            Some(output.stderr)
        },
        Err(_) => None,
    }
}

pub open spec fn opt_view_string(t: Option<String>) -> Option<Seq<char>> {
    match t {
        Some(s) => Some(s@),
        None => None,
    }
}

/// Whether `sub` lists some of `all`'s items, in `all`'s order: `picks`
/// says where each comes from.
pub open spec fn picked_in_order(sub: Seq<Seq<char>>, all: Seq<Seq<char>>, picks: Seq<int>) -> bool {
    &&& picks.len() == sub.len()
    &&& forall|i: int| 0 <= i < picks.len() ==> 0 <= #[trigger] picks[i] < all.len()
    &&& forall|i: int| 0 <= i < picks.len() ==> sub[i] == all[#[trigger] picks[i]]
    &&& forall|i: int, j: int| 0 <= i < j < picks.len() ==> #[trigger] picks[i] < #[trigger] picks[j]
}

/// The keyserver tried `s`-th, as [`KEYSERVERS`] lists it.
pub open spec fn keyserver(s: int) -> Seq<char> {
    if s == 0 {
        "hkps://keyserver.ubuntu.com"@
    } else if s == 1 {
        "hkps://pgp.mit.edu"@
    } else {
        "hkps://keys.openpgp.org"@
    }
}

fn keyserver_at(s: usize) -> (r: &'static str)
    requires
        s < 3,
    ensures
        r@ == keyserver(s as int),
{
    if s == 0 {
        KEYSERVERS[0]
    } else if s == 1 {
        KEYSERVERS[1]
    } else {
        KEYSERVERS[2]
    }
}

/// `pacman-key --keyserver <keyserver s> -r <key>`, on the medium or in
/// `target`.
pub open spec fn receive_run(target: Option<Seq<char>>, s: int, key: Seq<char>) -> (
    Seq<char>,
    Seq<Seq<char>>,
) {
    in_target(target, "pacman-key"@, seq!["--keyserver"@, keyserver(s), "-r"@, key])
}

/// `pacman-key --lsign-key <key>`, on the medium or in `target`.
pub open spec fn sign_run(target: Option<Seq<char>>, key: Seq<char>) -> (Seq<char>, Seq<Seq<char>>) {
    in_target(target, "pacman-key"@, seq!["--lsign-key"@, key])
}

/// The runs for one key (`kr`), and whether it was `received`: the
/// keyservers in order until one gives it (a run that exits 0), all three
/// when none does; then, once received, its local signature.
pub open spec fn key_runs(target: Option<Seq<char>>, key: Seq<char>, kr: Seq<Run>, received: bool) -> bool {
    let n: int = if received {
        kr.len() - 1
    } else {
        kr.len() as int
    };
    &&& 1 <= n <= 3
    &&& forall|s: int|
        0 <= s < n ==> ran_as(kr, s, receive_run(target, s, key).0, #[trigger] receive_run(target, s, key).1)
    &&& forall|s: int| 0 <= s < n - 1 ==> !ran_ok(#[trigger] kr[s].3)
    &&& received == ran_ok(kr[n - 1].3)
    &&& !received ==> n == 3
    &&& received ==> ran_as(kr, n, sign_run(target, key).0, sign_run(target, key).1)
}

/// The runs for `keys` in order (`made`), and the keys none of the
/// keyservers gave (`missing`, in the keys' order).
pub open spec fn keys_runs(
    target: Option<Seq<char>>,
    keys: Seq<Seq<char>>,
    made: Seq<Run>,
    missing: Seq<Seq<char>>,
) -> bool
    decreases keys.len(),
{
    if keys.len() == 0 {
        made.len() == 0 && missing.len() == 0
    } else {
        exists|split: int, received: bool|
            0 <= split <= made.len() && #[trigger] key_runs(
                target,
                keys.last(),
                made.skip(split),
                received,
            ) && (if received {
                keys_runs(target, keys.drop_last(), made.take(split), missing)
            } else {
                missing.len() > 0 && missing.last() == keys.last() && keys_runs(
                    target,
                    keys.drop_last(),
                    made.take(split),
                    missing.drop_last(),
                )
            })
    }
}

/// Receive each of the repository's keys from the first keyserver that has
/// it and sign it locally; the keys no keyserver gave are returned, in the
/// repository's order. Which keys a keyserver gives is up to the runner.
pub fn trust_repository_keys<R: CommandRunner>(
    runner: &mut RunLog<R>,
    target: Option<&str>,
    repo: &Repository,
) -> (r: Vec<String>)
    ensures
        extends(old(runner).runs(), final(runner).runs()),
        keys_runs(opt_view(target), string_views(repo.key_ids@), added(old(runner).runs(), final(runner).runs()), string_views(r@)),
        exists|picks: Seq<int>|
            #[trigger] picked_in_order(
                string_views(r@),
                string_views(repo.key_ids@),
                picks,
            ),
{
    let ghost start = runner.runs();
    let ghost all = string_views(repo.key_ids@);
    let ghost mut picks: Seq<int> = seq![];
    let mut missing: Vec<String> = Vec::new();
    proof {
        lemma_none(start);
        assert(all.take(0) =~= Seq::<Seq<char>>::empty());
    }
    let mut k: usize = 0;
    while k < repo.key_ids.len()
        invariant
            k <= repo.key_ids.len(),
            all == string_views(repo.key_ids@),
            start == old(runner).runs(),
            extends(start, runner.runs()),
            keys_runs(opt_view(target), all.take(k as int), added(start, runner.runs()), string_views(missing@)),
            picked_in_order(string_views(missing@), all, picks),
            forall|i: int| 0 <= i < picks.len() ==> #[trigger] picks[i] < k,
        decreases repo.key_ids.len() - k,
    {
        let key_id = repo.key_ids[k].as_str();
        assert(all[k as int] == key_id@);
        let ghost mid = runner.runs();
        proof {
            lemma_none(mid);
        }
        let mut received = false;
        let mut s: usize = 0;
        while s < 3 && !received
            invariant
                s <= 3,
                extends(mid, runner.runs()),
                added(mid, runner.runs()).len() == s,
                forall|j: int|
                    0 <= j < s ==> ran_as(
                        added(mid, runner.runs()),
                        j,
                        receive_run(opt_view(target), j, key_id@).0,
                        #[trigger] receive_run(opt_view(target), j, key_id@).1,
                    ),
                forall|j: int| 0 <= j < s - 1 ==> !ran_ok(#[trigger] added(mid, runner.runs())[j].3),
                received == (s > 0 && ran_ok(added(mid, runner.runs())[s - 1].3)),
            decreases 3 - s,
        {
            let server = keyserver_at(s);
            let args = ["--keyserver", server, "-r", key_id];
            assert(arg_seq(args@) =~= seq!["--keyserver"@, keyserver(s as int), "-r"@, key_id@]);
            let ghost before = runner.runs();
            let got = pacman_key(runner, target, &args);
            proof {
                lemma_then(mid, before, runner.runs());
                let now = added(mid, runner.runs());
                assert(now == added(mid, before) + added(before, runner.runs()));
                assert forall|j: int| 0 <= j < s implies now[j] == added(mid, before)[j] by {}
                assert(now[s as int] == added(before, runner.runs())[0]);
            }
            match got {
                Ok(output) => {
                    received = output.success();
                },
                Err(_) => {},
            }
            s = s + 1;
        }
        let ghost tried = runner.runs();
        let ghost missing_before = string_views(missing@);
        if received {
            let sargs = ["--lsign-key", key_id];
            assert(arg_seq(sargs@) =~= seq!["--lsign-key"@, key_id@]);
            let _ = pacman_key(runner, target, &sargs);
            proof {
                lemma_then(mid, tried, runner.runs());
                let now = added(mid, runner.runs());
                assert forall|j: int| 0 <= j < s implies now[j] == added(mid, tried)[j] by {}
                assert(now[s as int] == added(tried, runner.runs())[0]);
            }
        } else {
            let ghost before = missing@;
            missing.push(key_id.to_string());
            proof {
                picks = picks.push(k as int);
                assert(string_views(missing@) =~= string_views(before).push(
                    all[k as int],
                ));
            }
        }
        proof {
            let kr = added(mid, runner.runs());
            assert(key_runs(opt_view(target), key_id@, kr, received));
            lemma_then(start, mid, runner.runs());
            let made = added(start, runner.runs());
            let split = added(start, mid).len() as int;
            assert(made.take(split) =~= added(start, mid));
            assert(made.skip(split) =~= kr);
            let keys = all.take(k + 1);
            assert(keys.drop_last() =~= all.take(k as int));
            assert(keys.last() == key_id@);
            if !received {
                assert(string_views(missing@).drop_last() =~= missing_before);
                assert(string_views(missing@).last() == key_id@);
            } else {
                assert(string_views(missing@) == missing_before);
            }
            assert(keys_runs(opt_view(target), all.take(k as int), made.take(split), missing_before));
            assert(keys_runs(opt_view(target), keys, made, string_views(missing@)));
        }
        k = k + 1;
    }
    assert(all.take(repo.key_ids.len() as int) =~= all);
    assert(picked_in_order(string_views(missing@), all, picks));
    missing
}

} // verus!
