//! The extra packages chosen in the wizard: repository packages first, then
//! AUR packages, as the selected list shows them.

use vstd::prelude::*;

use crate::sort::{contains_string, string_views};

verus! {

/// The chosen packages, by name.
pub struct PackageSelection {
    /// Packages from the official repositories, in the order they were added.
    pub repo: Vec<String>,
    /// Packages from the AUR, in the order they were added.
    pub aur: Vec<String>,
}

/// A selection as two lists of names: repository packages, then AUR ones.
pub type SelectionView = (Seq<Seq<char>>, Seq<Seq<char>>);

impl View for PackageSelection {
    type V = SelectionView;

    open spec fn view(&self) -> SelectionView {
        (string_views(self.repo@), string_views(self.aur@))
    }
}

/// The selected list as shown: repository packages, then AUR packages.
pub open spec fn shown(v: SelectionView) -> Seq<Seq<char>> {
    v.0 + v.1
}

/// Whether a package of this name is chosen already, from either source.
pub open spec fn holds(v: SelectionView, name: Seq<char>) -> bool {
    v.0.contains(name) || v.1.contains(name)
}

/// Whether a search result comes from the AUR.
pub open spec fn from_aur(repo: Seq<char>) -> bool {
    repo == "aur"@
}

/// Where a new package enters the shown list: after the repository packages,
/// or at the very end for an AUR package.
pub open spec fn insert_position(v: SelectionView, aur: bool) -> int {
    if aur {
        (v.0.len() + v.1.len()) as int
    } else {
        v.0.len() as int
    }
}

/// The selection after adding `name`; unchanged when it is chosen already.
pub open spec fn with_added(v: SelectionView, name: Seq<char>, aur: bool) -> SelectionView {
    if holds(v, name) {
        v
    } else if aur {
        (v.0, v.1.push(name))
    } else {
        (v.0.push(name), v.1)
    }
}

/// The selection after removing the shown row `index`; unchanged when there
/// is no such row.
pub open spec fn without(v: SelectionView, index: int) -> SelectionView {
    if 0 <= index < v.0.len() {
        (v.0.remove(index), v.1)
    } else if v.0.len() <= index < v.0.len() + v.1.len() {
        (v.0, v.1.remove(index - v.0.len()))
    } else {
        v
    }
}

impl PackageSelection {
    /// Adds the package `name`, found in the repository `repo` ("aur" for
    /// the AUR). Returns the row of the shown list where it now stands, or
    /// none when a package of that name is chosen already.
    pub fn add(&mut self, name: String, repo: &str) -> (r: Option<usize>)
        requires
            old(self).repo.len() + old(self).aur.len() < usize::MAX,
        ensures
            final(self)@ == with_added(old(self)@, name@, from_aur(repo@)),
            r == (if holds(old(self)@, name@) {
                None
            } else {
                Some(insert_position(old(self)@, from_aur(repo@)) as usize)
            }),
            !holds(old(self)@, name@) ==> shown(final(self)@) == shown(old(self)@).insert(
                insert_position(old(self)@, from_aur(repo@)),
                name@,
            ),
    {
        if contains_string(&self.repo, name.as_str()) || contains_string(&self.aur, name.as_str()) {
            return None;
        }
        let aur = crate::text::chars_eq(&crate::text::chars_of(repo), &crate::text::chars_of("aur"));
        let ghost old_view = self@;
        let ghost n = name@;
        if aur {
            let at = self.repo.len() + self.aur.len();
            self.aur.push(name);
            proof {
                assert(string_views(self.aur@) =~= old_view.1.push(n));
                assert(shown(self@) =~= shown(old_view).insert(at as int, n));
            }
            Some(at)
        } else {
            let at = self.repo.len();
            self.repo.push(name);
            proof {
                assert(string_views(self.repo@) =~= old_view.0.push(n));
                assert(shown(self@) =~= shown(old_view).insert(at as int, n));
            }
            Some(at)
        }
    }

    /// Removes the shown row `index`. Returns whether there was such a row.
    pub fn remove(&mut self, index: usize) -> (r: bool)
        ensures
            final(self)@ == without(old(self)@, index as int),
            r == (index < shown(old(self)@).len()),
            r ==> shown(final(self)@) == shown(old(self)@).remove(index as int),
    {
        let ghost old_view = self@;
        let repo_len = self.repo.len();
        if index < repo_len {
            self.repo.remove(index);
            proof {
                assert(string_views(self.repo@) =~= old_view.0.remove(index as int));
                assert(shown(self@) =~= shown(old_view).remove(index as int));
            }
            true
        } else {
            let aur_index = index - repo_len;
            if aur_index < self.aur.len() {
                self.aur.remove(aur_index);
                proof {
                    assert(string_views(self.aur@) =~= old_view.1.remove(aur_index as int));
                    assert(shown(self@) =~= shown(old_view).remove(index as int));
                }
                true
            } else {
                false
            }
        }
    }
}

/// Removing the row where a package was just added gives back the selection
/// as it was before.
pub proof fn law_remove_undoes_add(v: SelectionView, name: Seq<char>, aur: bool)
    requires
        !holds(v, name),
    ensures
        without(with_added(v, name, aur), insert_position(v, aur)) == v,
{
    if aur {
        assert(v.1.push(name).remove(v.1.len() as int) =~= v.1);
    } else {
        assert(v.0.push(name).remove(v.0.len() as int) =~= v.0);
    }
}

/// No package name appears twice in the shown list.
pub open spec fn distinct_names(v: SelectionView) -> bool {
    forall|i: int, j: int| 0 <= i < j < shown(v).len() ==> shown(v)[i] != shown(v)[j]
}

/// Adding keeps every name distinct.
pub proof fn law_add_keeps_names_distinct(v: SelectionView, name: Seq<char>, aur: bool)
    requires
        distinct_names(v),
    ensures
        distinct_names(with_added(v, name, aur)),
{
    let w = with_added(v, name, aur);
    if !holds(v, name) {
        assert forall|i: int, j: int| 0 <= i < j < shown(w).len() implies shown(w)[i]
            != shown(w)[j] by {
            let p = insert_position(v, aur);
            assert(shown(w) =~= shown(v).insert(p, name));
            if i == p {
                assert(shown(w)[j] == shown(v)[j - 1]);
                assert(j - 1 < v.0.len() ==> v.0[j - 1] == shown(v)[j - 1]);
                assert(j - 1 >= v.0.len() ==> v.1[j - 1 - v.0.len()] == shown(v)[j - 1]);
            } else if j == p {
                assert(i < v.0.len() ==> v.0[i] == shown(v)[i]);
                assert(i >= v.0.len() ==> v.1[i - v.0.len()] == shown(v)[i]);
            }
        }
    }
}

/// Removing keeps every name distinct.
pub proof fn law_remove_keeps_names_distinct(v: SelectionView, index: int)
    requires
        distinct_names(v),
    ensures
        distinct_names(without(v, index)),
{
    let w = without(v, index);
    if 0 <= index < shown(v).len() {
        assert(shown(w) =~= shown(v).remove(index));
        assert forall|i: int, j: int| 0 <= i < j < shown(w).len() implies shown(w)[i]
            != shown(w)[j] by {
            let a = if i < index { i } else { i + 1 };
            let b = if j < index { j } else { j + 1 };
            assert(shown(w)[i] == shown(v)[a]);
            assert(shown(w)[j] == shown(v)[b]);
        }
    }
}

} // verus!
