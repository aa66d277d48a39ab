//! The demo session: read-only imports of existing pools, and which pools
//! the session may export again. It owns only the pools it imported itself.

use vstd::prelude::*;

use crate::cmd::CmdOutput;
use crate::sort::string_views;
use crate::text::{chars_eq, chars_of, trim, trimmed};

verus! {

/// The arguments of `zpool` that import `pool_name` read-only, without
/// mounting anything and without touching the cache file.
pub fn readonly_import_args(pool_name: &str) -> (r: Vec<String>)
    ensures
        string_views(r@) == seq![
            "import"@,
            "-N"@,
            "-o"@,
            "readonly=on"@,
            "-o"@,
            "cachefile=none"@,
            pool_name@,
        ],
{
    let r = vec![
        "import".to_string(),
        "-N".to_string(),
        "-o".to_string(),
        "readonly=on".to_string(),
        "-o".to_string(),
        "cachefile=none".to_string(),
        pool_name.to_string(),
    ];
    assert(string_views(r@) =~= seq![
        "import"@,
        "-N"@,
        "-o"@,
        "readonly=on"@,
        "-o"@,
        "cachefile=none"@,
        pool_name@,
    ]);
    r
}

/// Whether `zpool get -H -o value readonly <pool>` confirmed the import
/// is read-only.
pub fn readonly_confirmed(out: &CmdOutput) -> (r: bool)
    ensures
        r == (out.exit_code == 0 && trim(out.stdout@) == "on"@),
{
    let on = chars_of("on");
    out.success() && chars_eq(&trimmed(&chars_of(out.stdout.as_str())), &on)
}

/// The pools a demo session imported and has not exported yet.
pub struct DemoSession {
    owned_pools: Vec<String>,
}

impl View for DemoSession {
    type V = Set<Seq<char>>;

    closed spec fn view(&self) -> Set<Seq<char>> {
        string_views(self.owned_pools@).to_set()
    }
}

/// The refusal to export a pool the session did not import.
pub open spec fn not_owned_message() -> Seq<char> {
    "refusing to export a pool not imported by this demo session"@
}

impl DemoSession {
    /// No pool is listed twice.
    pub closed spec fn well_formed(&self) -> bool {
        string_views(self.owned_pools@).no_duplicates()
    }

    /// A session that owns nothing.
    pub fn new() -> (r: DemoSession)
        ensures
            r.well_formed(),
            r@ == Set::<Seq<char>>::empty(),
    {
        let r = DemoSession { owned_pools: Vec::new() };
        assert(r@ =~= Set::<Seq<char>>::empty());
        r
    }

    fn position(&self, pool: &str) -> (r: Option<usize>)
        ensures
            match r {
                Some(i) => i < self.owned_pools.len() && self.owned_pools@[i as int]@ == pool@,
                None => !self@.contains(pool@),
            },
    {
        let p = chars_of(pool);
        let mut i: usize = 0;
        while i < self.owned_pools.len()
            invariant
                i <= self.owned_pools.len(),
                p@ == pool@,
                forall|j: int| 0 <= j < i ==> self.owned_pools@[j]@ != pool@,
            decreases self.owned_pools.len() - i,
        {
            if chars_eq(&chars_of(self.owned_pools[i].as_str()), &p) {
                return Some(i);
            }
            i = i + 1;
        }
        proof {
            if self@.contains(pool@) {
                let k = choose|k: int|
                    0 <= k < string_views(self.owned_pools@).len() && string_views(
                        self.owned_pools@,
                    )[k] == pool@;
                assert(self.owned_pools@[k]@ == pool@);
            }
        }
        None
    }

    /// Whether the session imported `pool` and still owns it.
    pub fn owns(&self, pool: &str) -> (r: bool)
        ensures
            r == self@.contains(pool@),
    {
        match self.position(pool) {
            Some(i) => {
                assert(string_views(self.owned_pools@)[i as int] == pool@);
                true
            },
            None => false,
        }
    }

    /// Record a read-only import the session made.
    pub fn imported(&mut self, pool: &str)
        requires
            old(self).well_formed(),
        ensures
            final(self).well_formed(),
            final(self)@ == old(self)@.insert(pool@),
    {
        if self.owns(pool) {
            assert(self@.insert(pool@) =~= self@);
            return;
        }
        let ghost before = string_views(self.owned_pools@);
        self.owned_pools.push(pool.to_string());
        assert(string_views(self.owned_pools@) =~= before.push(pool@));
        assert(self@ =~= before.to_set().insert(pool@)) by {
            assert forall|x: Seq<char>| #[trigger] self@.contains(x) == before.to_set().insert(
                pool@,
            ).contains(x) by {
                if self@.contains(x) {
                    let k = choose|k: int|
                        0 <= k < string_views(self.owned_pools@).len() && string_views(
                            self.owned_pools@,
                        )[k] == x;
                    if k < before.len() {
                        assert(before[k] == x);
                    }
                }
                if before.contains(x) {
                    let k = choose|k: int| 0 <= k < before.len() && before[k] == x;
                    assert(string_views(self.owned_pools@)[k] == x);
                }
                if x == pool@ {
                    assert(string_views(self.owned_pools@)[before.len() as int] == x);
                }
            }
        }
    }

    /// May the session export `pool`? Only a pool it imported itself.
    pub fn check_export(&self, pool: &str) -> (r: Result<(), String>)
        ensures
            r is Ok <==> self@.contains(pool@),
            r matches Err(m) ==> m@ == not_owned_message(),
    {
        if self.owns(pool) {
            Ok(())
        } else {
            Err("refusing to export a pool not imported by this demo session".to_string())
        }
    }

    /// Record that `pool` was exported: the session owns it no longer.
    pub fn exported(&mut self, pool: &str)
        requires
            old(self).well_formed(),
        ensures
            final(self).well_formed(),
            final(self)@ == old(self)@.remove(pool@),
    {
        match self.position(pool) {
            None => {
                assert(self@.remove(pool@) =~= self@);
            },
            Some(i) => {
                let ghost before = string_views(self.owned_pools@);
                self.owned_pools.remove(i);
                let ghost after = string_views(self.owned_pools@);
                assert(after =~= before.remove(i as int));
                assert forall|a: int, b: int|
                    0 <= a < after.len() && 0 <= b < after.len() && a != b implies after[a]
                    != after[b] by {
                    let ia = if a < i { a } else { a + 1 };
                    let ib = if b < i { b } else { b + 1 };
                    assert(after[a] == before[ia]);
                    assert(after[b] == before[ib]);
                }
                assert forall|x: Seq<char>| #[trigger] self@.contains(x) == before.to_set().remove(
                    pool@,
                ).contains(x) by {
                    if self@.contains(x) {
                        let k = choose|k: int| 0 <= k < after.len() && after[k] == x;
                        let ik = if k < i { k } else { k + 1 };
                        assert(before[ik] == x);
                        assert(ik != i);
                        assert(before[i as int] == pool@);
                    }
                    if before.contains(x) && x != pool@ {
                        let k = choose|k: int| 0 <= k < before.len() && before[k] == x;
                        assert(k != i);
                        if k < i {
                            assert(after[k] == x);
                        } else {
                            assert(after[k - 1] == x);
                        }
                    }
                }
                assert(self@ =~= before.to_set().remove(pool@));
            },
        }
    }

    /// The pools the session owns, to export when it ends.
    pub fn owned(&self) -> (r: Vec<String>)
        ensures
            string_views(r@).to_set() == self@,
            string_views(r@).no_duplicates() == self.well_formed(),
    {
        let mut r: Vec<String> = Vec::new();
        let mut i: usize = 0;
        while i < self.owned_pools.len()
            invariant
                i <= self.owned_pools.len(),
                string_views(r@) == string_views(self.owned_pools@).take(i as int),
            decreases self.owned_pools.len() - i,
        {
            let ghost before = r@;
            let s = self.owned_pools[i].as_str().to_string();
            assert(s@ == self.owned_pools@[i as int]@);
            r.push(s);
            assert(string_views(r@) =~= string_views(before).push(s@));
            assert(string_views(self.owned_pools@).take(i + 1) =~= string_views(self.owned_pools@).take(
                i as int,
            ).push(self.owned_pools@[i as int]@));
            i = i + 1;
        }
        assert(string_views(self.owned_pools@).take(i as int) == string_views(self.owned_pools@));
        r
    }
}

} // verus!
