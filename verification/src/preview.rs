//! Deterministic fixtures of the preview mode: the window size it is asked
//! for, the scenes it can show and the package search it answers.

use vstd::prelude::*;

use crate::text::{chars_of, contains, contains_seq, find, find_char, parsed_u32, parse_u32, slice};

verus! {

/// The scenes the preview can open on.
#[derive(Clone, Copy, Debug, PartialEq, Eq, Structural)]
pub enum Scene {
    Welcome,
    Offline,
    Disk,
    NewPool,
    ExistingPool,
    Zfs,
    System,
    Users,
    Desktop,
    Review,
    Install,
    Done,
    Failed,
    Cancelled,
    Inspect,
    Invalid,
}

/// A window size in pixels, width then height.
#[derive(Clone, Copy, Debug, PartialEq, Eq, Structural)]
pub struct Size(pub u32, pub u32);

/// The answer to a `WIDTHxHEIGHT` argument: the split at the first `x`,
/// each side a `u32`, and a size between 640x480 and 7680x4320.
pub open spec fn size_of(s: Seq<char>) -> Result<Size, Seq<char>> {
    match find(s, 'x') {
        None => Err("expected WIDTHxHEIGHT"@),
        Some(i) => match parsed_u32(s.take(i)) {
            None => Err("invalid width"@),
            Some(w) => match parsed_u32(s.skip(i + 1)) {
                None => Err("invalid height"@),
                Some(h) => if 640 <= w <= 7680 && 480 <= h <= 4320 {
                    Ok(Size(w, h))
                } else {
                    Err("preview size must be between 640x480 and 7680x4320"@)
                },
            },
        },
    }
}

impl Size {
    /// Read a `WIDTHxHEIGHT` argument.
    pub fn parse(value: &str) -> (r: Result<Size, String>)
        ensures
            match (r, size_of(value@)) {
                (Ok(a), Ok(b)) => a == b,
                (Err(m), Err(n)) => m@ == n,
                _ => false,
            },
    {
        let v = chars_of(value);
        let i = match find_char(&v, 'x') {
            Some(i) => i,
            None => return Err("expected WIDTHxHEIGHT".to_string()),
        };
        let w = match parse_u32(&slice(&v, 0, i)) {
            Some(w) => w,
            None => return Err("invalid width".to_string()),
        };
        let h = match parse_u32(&slice(&v, i + 1, v.len())) {
            Some(h) => h,
            None => return Err("invalid height".to_string()),
        };
        if !(640 <= w && w <= 7680 && 480 <= h && h <= 4320) {
            return Err("preview size must be between 640x480 and 7680x4320".to_string());
        }
        Ok(Size(w, h))
    }
}

/// A package the preview's search offers.
#[derive(Debug)]
pub struct PackageSearchResult {
    pub name: String,
    pub description: String,
    pub repo: String,
}

/// The packages the preview knows, with their descriptions.
pub open spec fn package_fixtures() -> Seq<(Seq<char>, Seq<char>)> {
    seq![
        ("firefox"@, "Fast, private web browser"@),
        ("git"@, "Distributed version control"@),
        ("htop"@, "Interactive process viewer"@),
        ("visual-studio-code-bin"@, "Code editor with integrated debugging"@),
    ]
}

/// The fixtures whose name holds `query`, in order.
pub open spec fn matching_packages(fs: Seq<(Seq<char>, Seq<char>)>, query: Seq<char>) -> Seq<
    (Seq<char>, Seq<char>),
>
    decreases fs.len(),
{
    if fs.len() == 0 {
        seq![]
    } else {
        let rest = matching_packages(fs.drop_last(), query);
        if contains_seq(fs.last().0, query) {
            rest.push(fs.last())
        } else {
            rest
        }
    }
}

pub open spec fn result_view(r: PackageSearchResult) -> (Seq<char>, Seq<char>, Seq<char>) {
    (r.name@, r.description@, r.repo@)
}

/// The preview's package search: the fixtures whose name contains `query`,
/// from the AUR or from `extra`.
pub fn packages(query: &str, aur: bool) -> (r: Vec<PackageSearchResult>)
    ensures
        r@.len() == matching_packages(package_fixtures(), query@).len(),
        forall|i: int|
            0 <= i < r@.len() ==> {
                let (n, d) = matching_packages(package_fixtures(), query@)[i];
                &&& #[trigger] r@[i].name@ == n
                &&& r@[i].description@ == d
                &&& r@[i].repo@ == if aur {
                    "aur"@
                } else {
                    "extra"@
                }
            },
{
    let names = ["firefox", "git", "htop", "visual-studio-code-bin"];
    let descriptions = [
        "Fast, private web browser",
        "Distributed version control",
        "Interactive process viewer",
        "Code editor with integrated debugging",
    ];
    let ghost fs = package_fixtures();
    assert(fs.len() == 4);
    let q = chars_of(query);
    let mut r: Vec<PackageSearchResult> = Vec::new();
    let mut i: usize = 0;
    while i < 4
        invariant
            i <= 4,
            q@ == query@,
            fs == package_fixtures(),
            forall|k: int| 0 <= k < 4 ==> names@[k]@ == fs[k].0 && descriptions@[k]@ == fs[k].1,
            r@.len() == matching_packages(fs.take(i as int), query@).len(),
            forall|k: int|
                0 <= k < r@.len() ==> {
                    let (n, d) = matching_packages(fs.take(i as int), query@)[k];
                    &&& #[trigger] r@[k].name@ == n
                    &&& r@[k].description@ == d
                    &&& r@[k].repo@ == if aur {
                        "aur"@
                    } else {
                        "extra"@
                    }
                },
        decreases 4 - i,
    {
        assert(fs.take(i + 1).drop_last() == fs.take(i as int));
        assert(fs.take(i + 1).last() == fs[i as int]);
        let name = chars_of(names[i]);
        if contains(&name, &q) {
            r.push(
                PackageSearchResult {
                    name: names[i].to_string(),
                    description: descriptions[i].to_string(),
                    repo: if aur {
                        "aur"
                    } else {
                        "extra"
                    }.to_string(),
                },
            );
        }
        i = i + 1;
    }
    assert(fs.take(4) == fs);
    r
}

} // verus!
