//! The free-space check made before a package transaction, what a package
//! name stands for in the sync databases, and the API filesystems a target
//! root is given while packages go into it.

use vstd::prelude::*;

use crate::sort::{contains_string, string_views};
use crate::text::{chars_of, chars_to_string, extend_str};

verus! {

/// Room asked for beyond the packages' installed size.
pub const INSTALL_SLACK: u64 = 536_870_912;

/// The bytes a transaction asks for: the packages' installed size and the
/// slack.
pub fn space_needed(installed_bytes: u64) -> (r: u64)
    requires
        installed_bytes + INSTALL_SLACK <= u64::MAX,
    ensures
        r == installed_bytes + INSTALL_SLACK,
{
    installed_bytes + INSTALL_SLACK
}

/// The bytes free to an unprivileged writer: available blocks times the
/// fragment size.
pub fn free_space(blocks_available: u64, fragment_size: u64) -> (r: u64)
    requires
        blocks_available * fragment_size <= u64::MAX,
    ensures
        r == blocks_available * fragment_size,
{
    blocks_available * fragment_size
}

/// Whether a transaction of `installed_bytes` fits in `free` bytes.
pub fn transaction_fits(free: u64, installed_bytes: u64) -> (r: bool)
    requires
        installed_bytes + INSTALL_SLACK <= u64::MAX,
    ensures
        r == (free >= installed_bytes + INSTALL_SLACK),
{
    free >= space_needed(installed_bytes)
}

/// The refusal of a transaction that does not fit in `root`; the sizes
/// are given as the GiB figures to show.
pub open spec fn no_space(root: Seq<char>, needed_gib: Seq<char>, free_gib: Seq<char>) -> Seq<char> {
    "Not enough space in "@ + root + ": the packages need about "@ + needed_gib + " GiB and "@
        + free_gib
        + " GiB is free. Choose a larger allocation, or fewer packages, and start again."@
}

pub fn no_space_message(root: &str, needed_gib: &str, free_gib: &str) -> (r: String)
    ensures
        r@ == no_space(root@, needed_gib@, free_gib@),
{
    let mut m = chars_of("Not enough space in ");
    extend_str(&mut m, root);
    extend_str(&mut m, ": the packages need about ");
    extend_str(&mut m, needed_gib);
    extend_str(&mut m, " GiB and ");
    extend_str(&mut m, free_gib);
    extend_str(
        &mut m,
        " GiB is free. Choose a larger allocation, or fewer packages, and start again.",
    );
    chars_to_string(&m)
}

// ───────────────────────── resolving package names ────────────────────

/// What the sync databases hold for one name: whether a package of that
/// name is in some repository, the members of each repository's group of
/// that name (in repository order), and the package that provides it, if
/// any does.
#[derive(Debug, Clone)]
pub struct NameLookup {
    pub name: String,
    pub has_package: bool,
    pub group_members: Vec<Vec<String>>,
    pub provider: Option<String>,
}

/// The items of `s`, each once, where it first occurs.
pub open spec fn first_occurrences(s: Seq<Seq<char>>) -> Seq<Seq<char>>
    decreases s.len(),
{
    if s.len() == 0 {
        seq![]
    } else {
        let d = first_occurrences(s.drop_last());
        if d.contains(s.last()) {
            d
        } else {
            d.push(s.last())
        }
    }
}

/// The groups' members one after another.
pub open spec fn all_members(groups: Seq<Seq<Seq<char>>>) -> Seq<Seq<char>>
    decreases groups.len(),
{
    if groups.len() == 0 {
        seq![]
    } else {
        all_members(groups.drop_last()) + groups.last()
    }
}

/// Each member of a group expansion is listed once, and every member of
/// every group is listed.
pub proof fn law_members_listed_once(s: Seq<Seq<char>>)
    ensures
        first_occurrences(s).no_duplicates(),
        forall|x: Seq<char>| #[trigger] first_occurrences(s).contains(x) <==> s.contains(x),
    decreases s.len(),
{
    if s.len() > 0 {
        law_members_listed_once(s.drop_last());
        let d = first_occurrences(s.drop_last());
        assert forall|x: Seq<char>| #[trigger] first_occurrences(s).contains(x) <==> s.contains(x) by {
            if s.contains(x) {
                let i = choose|i: int| 0 <= i < s.len() && s[i] == x;
                if i < s.len() - 1 {
                    assert(s.drop_last()[i] == x);
                }
            }
            if s.drop_last().contains(x) {
                let i = choose|i: int| 0 <= i < s.drop_last().len() && s.drop_last()[i] == x;
                assert(s[i] == x);
            }
            if !d.contains(s.last()) {
                if first_occurrences(s).contains(x) && x != s.last() {
                    let i = choose|i: int| 0 <= i < d.push(s.last()).len() && d.push(s.last())[i] == x;
                    assert(d[i] == x);
                }
                if d.contains(x) {
                    let i = choose|i: int| 0 <= i < d.len() && d[i] == x;
                    assert(d.push(s.last())[i] == x);
                }
                assert(d.push(s.last())[d.len() as int] == s.last());
            }
        }
    }
}

/// A lookup as plain values.
pub open spec fn member_views(g: Seq<Vec<String>>) -> Seq<Seq<Seq<char>>> {
    g.map_values(|m: Vec<String>| string_views(m@))
}

/// The failure for a name nothing answers to.
pub open spec fn not_found(name: Seq<char>) -> Seq<char> {
    "package '"@ + name + "' not found in any repository"@
}

/// The packages `name` stands for: the package of that name; else every
/// member of the group of that name, each once; else whatever provides
/// it; else nothing does.
pub open spec fn resolution(
    name: Seq<char>,
    has_package: bool,
    groups: Seq<Seq<Seq<char>>>,
    provider: Option<Seq<char>>,
) -> Result<Seq<Seq<char>>, Seq<char>> {
    if has_package {
        Ok(seq![name])
    } else if first_occurrences(all_members(groups)).len() > 0 {
        Ok(first_occurrences(all_members(groups)))
    } else {
        match provider {
            Some(p) => Ok(seq![p]),
            None => Err(not_found(name)),
        }
    }
}

pub open spec fn lookup_resolution(l: NameLookup) -> Result<Seq<Seq<char>>, Seq<char>> {
    resolution(
        l.name@,
        l.has_package,
        member_views(l.group_members@),
        match l.provider {
            Some(p) => Some(p@),
            None => None,
        },
    )
}

/// The packages a lookup's name stands for, as names. A group is what the
/// desktop profiles list for their application suites; a provider is what
/// a renamed package or a virtual name resolves to.
pub fn resolve_name(lookup: &NameLookup) -> (r: Result<Vec<String>, String>)
    ensures
        match r {
            Ok(v) => lookup_resolution(*lookup) == Ok::<Seq<Seq<char>>, Seq<char>>(string_views(v@)),
            Err(m) => lookup_resolution(*lookup) == Err::<Seq<Seq<char>>, Seq<char>>(m@),
        },
{
    if lookup.has_package {
        let r = vec![lookup.name.clone()];
        assert(string_views(r@) =~= seq![lookup.name@]);
        return Ok(r);
    }
    let ghost groups = member_views(lookup.group_members@);
    let mut members: Vec<String> = Vec::new();
    let mut g: usize = 0;
    while g < lookup.group_members.len()
        invariant
            g <= lookup.group_members.len(),
            groups == member_views(lookup.group_members@),
            string_views(members@) == first_occurrences(all_members(groups.take(g as int))),
        decreases lookup.group_members.len() - g,
    {
        let group = &lookup.group_members[g];
        let ghost before = all_members(groups.take(g as int));
        assert(groups.take(g + 1).drop_last() =~= groups.take(g as int));
        assert(groups.take(g + 1).last() == string_views(group@));
        let mut k: usize = 0;
        while k < group.len()
            invariant
                k <= group.len(),
                string_views(members@) == first_occurrences(before + string_views(group@).take(k as int)),
            decreases group.len() - k,
        {
            let ghost upto = before + string_views(group@).take(k as int);
            assert((before + string_views(group@).take(k + 1)).drop_last() =~= upto);
            assert((before + string_views(group@).take(k + 1)).last() == group@[k as int]@);
            if !contains_string(&members, group[k].as_str()) {
                let ghost m0 = members@;
                members.push(group[k].clone());
                assert(string_views(members@) =~= string_views(m0).push(group@[k as int]@));
            }
            k = k + 1;
        }
        assert(string_views(group@).take(group.len() as int) =~= string_views(group@));
        g = g + 1;
    }
    assert(groups.take(lookup.group_members.len() as int) =~= groups);
    if members.len() > 0 {
        return Ok(members);
    }
    match &lookup.provider {
        Some(p) => {
            let r = vec![p.clone()];
            assert(string_views(r@) =~= seq![p@]);
            Ok(r)
        },
        None => {
            let mut m = chars_of("package '");
            extend_str(&mut m, lookup.name.as_str());
            extend_str(&mut m, "' not found in any repository");
            Err(chars_to_string(&m))
        },
    }
}

/// The names of the lookups nothing answers to, in the order given.
pub open spec fn unanswered(ls: Seq<NameLookup>) -> Seq<Seq<char>>
    decreases ls.len(),
{
    if ls.len() == 0 {
        seq![]
    } else {
        unanswered(ls.drop_last()) + if lookup_resolution(ls.last()) is Err {
            seq![ls.last().name@]
        } else {
            seq![]
        }
    }
}

/// Names that neither a package, a group nor a provider answers to.
pub fn unknown_names(lookups: &Vec<NameLookup>) -> (r: Vec<String>)
    ensures
        string_views(r@) == unanswered(lookups@),
{
    let mut r: Vec<String> = Vec::new();
    let mut i: usize = 0;
    while i < lookups.len()
        invariant
            i <= lookups.len(),
            string_views(r@) == unanswered(lookups@.take(i as int)),
        decreases lookups.len() - i,
    {
        assert(lookups@.take(i + 1).drop_last() =~= lookups@.take(i as int));
        assert(lookups@.take(i + 1).last() == lookups@[i as int]);
        let unknown = resolve_name(&lookups[i]).is_err();
        if unknown {
            let ghost r0 = r@;
            r.push(lookups[i].name.clone());
            assert(string_views(r@) =~= string_views(r0) + seq![lookups@[i as int].name@]);
        } else {
            assert(string_views(r@) =~= string_views(r@) + seq![]);
        }
        i = i + 1;
    }
    assert(lookups@.take(lookups.len() as int) =~= lookups@);
    r
}

/// The API filesystems mounted in a target, in the order they were
/// mounted; they are unmounted in the reverse order.
pub struct TargetMounts {
    mounts: Vec<String>,
}

impl View for TargetMounts {
    type V = Seq<Seq<char>>;

    closed spec fn view(&self) -> Seq<Seq<char>> {
        string_views(self.mounts@)
    }
}

impl TargetMounts {
    /// The mounts made, in order.
    pub fn new(mounts: Vec<String>) -> (r: TargetMounts)
        ensures
            r@ == string_views(mounts@),
    {
        TargetMounts { mounts }
    }

    /// The order to unmount in: the last mounted first.
    pub fn unmount_order(&self) -> (r: Vec<String>)
        ensures
            string_views(r@) == self@.reverse(),
    {
        let mut r: Vec<String> = Vec::new();
        let mut i: usize = self.mounts.len();
        while i > 0
            invariant
                i <= self.mounts.len(),
                string_views(r@) == string_views(self.mounts@).skip(i as int).reverse(),
            decreases i,
        {
            i = i - 1;
            let s = self.mounts[i].as_str().to_string();
            let ghost before = r@;
            r.push(s);
            assert(string_views(r@) =~= string_views(before).push(self.mounts@[i as int]@));
            assert(string_views(self.mounts@).skip(i as int).reverse() =~= string_views(
                self.mounts@,
            ).skip(i + 1).reverse().push(self.mounts@[i as int]@));
        }
        assert(string_views(self.mounts@).skip(0) == string_views(self.mounts@));
        r
    }
}

/// Where the API filesystems go under `target`, in mounting order:
/// `proc`, `sys`, `dev`, `dev/pts`, `dev/shm`, `tmp`; `efivars` when the
/// firmware offers it; then the bind mount of `/run`.
pub open spec fn api_mount_dirs(efi: bool) -> Seq<Seq<char>> {
    seq!["proc"@, "sys"@, "dev"@, "dev/pts"@, "dev/shm"@, "tmp"@] + if efi {
        seq!["sys/firmware/efi/efivars"@]
    } else {
        seq![]
    } + seq!["run"@]
}

/// The directories, relative to the target, that receive an API
/// filesystem.
pub fn api_mount_points(efi: bool) -> (r: Vec<&'static str>)
    ensures
        r@.map_values(|s: &str| s@) == api_mount_dirs(efi),
{
    let mut r: Vec<&'static str> = vec!["proc", "sys", "dev", "dev/pts", "dev/shm", "tmp"];
    if efi {
        r.push("sys/firmware/efi/efivars");
    }
    r.push("run");
    assert(r@.map_values(|s: &str| s@) =~= api_mount_dirs(efi));
    r
}

} // verus!
