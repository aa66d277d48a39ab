//! Which popup a row of the wizard opens, with its title, its options and
//! the option that is current. The lists the popups offer (kernels,
//! profiles, locales, keymaps, display managers, time zone regions) come
//! from the system and are handed in.

use vstd::prelude::*;

use crate::gpu::{driver_label, GfxDriver};
use crate::sort::string_views;
use crate::text::{chars_eq, chars_of, chars_to_string, dec, decimal, extend_str};

verus! {

/// The kind of popup a row opens.
#[derive(Debug, Clone, Copy, PartialEq, Eq)]
pub enum PopupKind {
    /// Pick one of `options`.
    Select,
    /// Check any of `options` (with `descriptions` and `checked`).
    MultiSelect,
    /// Enter a text, starting from `value`.
    TextInput,
    /// Edit the user accounts.
    Users,
    /// Search the package repositories.
    PackageSearch,
    /// Edit a list of strings.
    StringList,
}

/// A popup to open.
#[derive(Debug)]
pub struct PopupRequest {
    pub kind: PopupKind,
    /// The key under which the popup reports back.
    pub key: String,
    pub title: String,
    pub options: Vec<String>,
    pub descriptions: Vec<String>,
    pub checked: Vec<bool>,
    /// The highlighted option; -1 for none.
    pub current: i32,
    /// The options can be filtered by typing.
    pub filterable: bool,
    /// The text an input starts from.
    pub value: String,
    /// The input is a password.
    pub password: bool,
}

/// A profile's optional packages, for its picker.
#[derive(Debug)]
pub struct OptionalPackages {
    pub profile_name: String,
    pub packages: Vec<String>,
    pub descriptions: Vec<String>,
    pub chosen: Vec<String>,
}

/// What the popups read of the configuration and the system.
#[derive(Debug)]
pub struct PopupFacts {
    /// The kernel picker's labels, one per available kernel.
    pub kernel_options: Vec<String>,
    /// The available kernels' names, in the same order.
    pub kernel_names: Vec<String>,
    pub current_kernel: String,
    /// The profiles' names and display names, in the same order.
    pub profile_ids: Vec<String>,
    pub profile_names: Vec<String>,
    pub selected_profile: Option<String>,
    /// The selected profile's optional packages, when there is one.
    pub optional_packages: Option<OptionalPackages>,
    /// The driver suggested for the detected graphics, and the chosen one.
    pub suggested_driver: Option<GfxDriver>,
    pub gfx_driver: Option<GfxDriver>,
    /// The display managers' names; the profile's default and the chosen
    /// override, as indices into them; whether a profile is selected.
    pub display_managers: Vec<String>,
    pub dm_default: Option<usize>,
    pub dm_override: Option<usize>,
    pub profile_selected: bool,
    pub timezone_regions: Vec<String>,
    pub locales: Vec<String>,
    pub locale: Option<String>,
    pub keymaps: Vec<String>,
    pub keyboard_layout: String,
    pub pool_name: Option<String>,
    pub dataset_prefix: String,
    pub hostname: Option<String>,
    pub swap_partition_size: Option<String>,
    pub parallel_downloads: u64,
}

/// A popup as plain values: kind, key, title, options, descriptions,
/// checked marks, current option, filterable, starting text, password.
pub type PopupView = (
    PopupKind,
    Seq<char>,
    Seq<char>,
    Seq<Seq<char>>,
    Seq<Seq<char>>,
    Seq<bool>,
    int,
    bool,
    Seq<char>,
    bool,
);

pub open spec fn popup_view(p: PopupRequest) -> PopupView {
    (
        p.kind,
        p.key@,
        p.title@,
        string_views(p.options@),
        string_views(p.descriptions@),
        p.checked@,
        p.current as int,
        p.filterable,
        p.value@,
        p.password,
    )
}

/// A pick-one popup.
pub open spec fn select(key: Seq<char>, title: Seq<char>, options: Seq<Seq<char>>, current: int, filterable: bool) -> PopupView {
    (PopupKind::Select, key, title, options, seq![], seq![], current, filterable, seq![], false)
}

/// A text input.
pub open spec fn text_input(key: Seq<char>, title: Seq<char>, value: Seq<char>, password: bool) -> PopupView {
    (PopupKind::TextInput, key, title, seq![], seq![], seq![], 0, false, value, password)
}

/// A popup with nothing to fill in but its kind and title.
pub open spec fn bare(kind: PopupKind, key: Seq<char>, title: Seq<char>) -> PopupView {
    (kind, key, title, seq![], seq![], seq![], 0, false, seq![], false)
}

/// The first position of `x` in `s`.
pub open spec fn position_of(s: Seq<Seq<char>>, x: Seq<char>) -> Option<int>
    decreases s.len(),
{
    if s.len() == 0 {
        None
    } else {
        match position_of(s.drop_last(), x) {
            Some(i) => Some(i),
            None => if s.last() == x {
                Some(s.len() - 1)
            } else {
                None
            },
        }
    }
}

/// The position of `x` in `s`, or 0.
pub open spec fn position_or_first(s: Seq<Seq<char>>, x: Seq<char>) -> int {
    match position_of(s, x) {
        Some(i) => i,
        None => 0,
    }
}

/// The graphics drivers the picker offers, in order: none first.
pub open spec fn driver_choices() -> Seq<Option<GfxDriver>> {
    seq![
        None,
        Some(GfxDriver::AllOpenSource),
        Some(GfxDriver::Amd),
        Some(GfxDriver::Intel),
        Some(GfxDriver::NvidiaOpen),
        Some(GfxDriver::NvidiaNouveau),
        Some(GfxDriver::Vm),
    ]
}

/// A driver's label in the picker, marked when it is the suggested one.
pub open spec fn driver_option(d: Option<GfxDriver>, suggested: Option<GfxDriver>) -> Seq<char> {
    let base = match d {
        None => "None — skip GPU driver installation"@,
        Some(drv) => driver_label(drv)@,
    };
    if d == suggested {
        base + "  ✦ suggested"@
    } else {
        base
    }
}

/// The position of a driver among the choices.
pub open spec fn driver_index(d: Option<GfxDriver>) -> int {
    match d {
        None => 0,
        Some(GfxDriver::AllOpenSource) => 1,
        Some(GfxDriver::Amd) => 2,
        Some(GfxDriver::Intel) => 3,
        Some(GfxDriver::NvidiaOpen) => 4,
        Some(GfxDriver::NvidiaNouveau) => 5,
        Some(GfxDriver::Vm) => 6,
    }
}

/// The display managers, the profile's default marked.
pub open spec fn dm_options(names: Seq<Seq<char>>, default: Option<usize>) -> Seq<Seq<char>> {
    Seq::new(
        names.len(),
        |i: int|
            if default == Some(i as usize) {
                names[i] + "  ✦ default"@
            } else {
                names[i]
            },
    )
}

pub open spec fn opt_text(o: Option<String>) -> Seq<char> {
    match o {
        Some(s) => s@,
        None => seq![],
    }
}

/// The popup a row opens, by the row's key; `None` for a row that opens
/// none (or the optional packages without a profile).
pub open spec fn popup_spec(key: Seq<char>, f: PopupFacts) -> Option<PopupView> {
    if key == "kernel"@ {
        Some(
            select(
                "kernel_select"@,
                "Kernel"@,
                string_views(f.kernel_options@),
                position_or_first(string_views(f.kernel_names@), f.current_kernel@),
                false,
            ),
        )
    } else if key == "profile"@ {
        Some(
            select(
                "profile"@,
                "Profile"@,
                seq!["None"@] + string_views(f.profile_names@),
                match f.selected_profile {
                    Some(p) => match position_of(string_views(f.profile_ids@), p@) {
                        Some(i) => i + 1,
                        None => 0,
                    },
                    None => 0,
                },
                false,
            ),
        )
    } else if key == "optional_packages"@ {
        match f.optional_packages {
            None => None,
            Some(o) => Some(
                (
                    PopupKind::MultiSelect,
                    "optional_packages"@,
                    "Optional packages — "@ + o.profile_name@,
                    string_views(o.packages@),
                    string_views(o.descriptions@),
                    string_views(o.packages@).map_values(
                        |p: Seq<char>| string_views(o.chosen@).contains(p),
                    ),
                    0,
                    false,
                    seq![],
                    false,
                ),
            ),
        }
    } else if key == "gpu_driver"@ {
        Some(
            select(
                "gfx_driver_select"@,
                "GPU driver"@,
                driver_choices().map_values(
                    |d: Option<GfxDriver>| driver_option(d, f.suggested_driver),
                ),
                driver_index(f.gfx_driver),
                false,
            ),
        )
    } else if key == "display_manager"@ {
        Some(
            select(
                "dm_select"@,
                "Display manager"@,
                dm_options(string_views(f.display_managers@), f.dm_default),
                if !f.profile_selected {
                    -1
                } else {
                    match f.dm_override {
                        Some(i) => i as int,
                        None => match f.dm_default {
                            Some(i) => i as int,
                            None => -1,
                        },
                    }
                },
                false,
            ),
        )
    } else if key == "timezone"@ {
        Some(select("timezone_region"@, "Timezone region"@, string_views(f.timezone_regions@), 0, false))
    } else if key == "locale"@ {
        Some(
            select(
                "locale_select"@,
                "Locale (type to filter)"@,
                string_views(f.locales@),
                match f.locale {
                    Some(l) => position_or_first(string_views(f.locales@), l@),
                    None => 0,
                },
                true,
            ),
        )
    } else if key == "users"@ {
        Some(bare(PopupKind::Users, key, seq![]))
    } else if key == "keyboard"@ {
        Some(
            select(
                "keyboard_select"@,
                "Keyboard layout (type to filter)"@,
                string_views(f.keymaps@),
                position_or_first(string_views(f.keymaps@), f.keyboard_layout@),
                true,
            ),
        )
    } else if key == "packages"@ {
        Some(bare(PopupKind::PackageSearch, key, seq![]))
    } else if key == "extra_services"@ {
        Some(bare(PopupKind::StringList, key, "Extra systemd services"@))
    } else if key == "pool_name"@ {
        Some(text_input(key, "Pool name"@, opt_text(f.pool_name), false))
    } else if key == "dataset_prefix"@ {
        Some(text_input(key, "Dataset prefix"@, f.dataset_prefix@, false))
    } else if key == "hostname"@ {
        Some(text_input(key, "Hostname"@, opt_text(f.hostname), false))
    } else if key == "swap_partition_size"@ {
        Some(text_input(key, "Swap partition size"@, opt_text(f.swap_partition_size), false))
    } else if key == "parallel_downloads"@ {
        Some(text_input(key, "Parallel downloads"@, dec(f.parallel_downloads as nat), false))
    } else if key == "root_password"@ {
        Some(text_input(key, "Root password"@, seq![], true))
    } else if key == "encryption_password"@ {
        Some(text_input(key, "Encryption password"@, seq![], true))
    } else {
        None
    }
}

/// What the facts must satisfy: lists that go together are equally long,
/// the display managers' indices are in range, and the lists fit a
/// popup's `i32` positions.
pub open spec fn facts_fit(f: PopupFacts) -> bool {
    &&& f.kernel_names.len() <= i32::MAX
    &&& f.profile_ids.len() == f.profile_names.len()
    &&& f.profile_ids.len() < i32::MAX
    &&& f.display_managers.len() <= i32::MAX
    &&& (f.dm_default matches Some(i) ==> i < f.display_managers.len())
    &&& (f.dm_override matches Some(i) ==> i < f.display_managers.len())
    &&& f.locales.len() <= i32::MAX
    &&& f.keymaps.len() <= i32::MAX
    &&& (f.optional_packages matches Some(o) ==> o.packages.len() == o.descriptions.len())
}

fn copy_strings(v: &Vec<String>) -> (r: Vec<String>)
    ensures
        string_views(r@) == string_views(v@),
{
    let mut r: Vec<String> = Vec::new();
    for i in 0..v.len()
        invariant
            string_views(r@) == string_views(v@.take(i as int)),
    {
        r.push(v[i].clone());
        assert(string_views(v@.take(i + 1)) =~= string_views(v@.take(i as int)).push(v@[i as int]@));
        assert(string_views(r@) =~= string_views(r@.drop_last()).push(r@.last()@));
    }
    assert(v@.take(v.len() as int) =~= v@);
    r
}

/// The position of `x` in `v`, if it is there.
pub(crate) fn find(v: &Vec<String>, x: &str) -> (r: Option<usize>)
    ensures
        match r {
            Some(i) => i < v.len() && position_of(string_views(v@), x@) == Some(i as int),
            None => position_of(string_views(v@), x@) is None,
        },
{
    let xv = chars_of(x);
    let mut i: usize = 0;
    while i < v.len()
        invariant
            i <= v.len(),
            xv@ == x@,
            position_of(string_views(v@.take(i as int)), x@) is None,
        decreases v.len() - i,
    {
        assert(string_views(v@.take(i + 1)).drop_last() =~= string_views(v@.take(i as int)));
        assert(string_views(v@.take(i + 1)).last() == v@[i as int]@);
        if chars_eq(&chars_of(v[i].as_str()), &xv) {
            assert(position_of(string_views(v@.take(i + 1)), x@) == Some(i as int));
            proof {
                assert(string_views(v@).take(i + 1) =~= string_views(v@.take(i + 1)));
                lemma_position_prefix(string_views(v@), x@, i + 1);
            }
            return Some(i);
        }
        i = i + 1;
    }
    assert(v@.take(v.len() as int) =~= v@);
    None
}

/// A position found in a prefix is the position in the whole.
proof fn lemma_position_prefix(s: Seq<Seq<char>>, x: Seq<char>, n: int)
    requires
        0 <= n <= s.len(),
        position_of(s.take(n), x) is Some,
    ensures
        position_of(s, x) == position_of(s.take(n), x),
    decreases s.len(),
{
    if n < s.len() {
        assert(s.drop_last().take(n) =~= s.take(n));
        lemma_position_prefix(s.drop_last(), x, n);
    } else {
        assert(s.take(n) =~= s);
    }
}

fn new_popup(kind: PopupKind, key: &str, title: &str) -> (r: PopupRequest)
    ensures
        popup_view(r) == bare(kind, key@, title@),
{
    let r = PopupRequest {
        kind,
        key: key.to_string(),
        title: title.to_string(),
        options: Vec::new(),
        descriptions: Vec::new(),
        checked: Vec::new(),
        current: 0,
        filterable: false,
        value: String::new(),
        password: false,
    };
    assert(string_views(r.options@) =~= Seq::<Seq<char>>::empty());
    assert(string_views(r.descriptions@) =~= Seq::<Seq<char>>::empty());
    r
}

fn select_popup(key: &str, title: &str, options: Vec<String>, current: i32, filterable: bool) -> (r:
    PopupRequest)
    ensures
        popup_view(r) == select(key@, title@, string_views(options@), current as int, filterable),
{
    let mut r = new_popup(PopupKind::Select, key, title);
    r.options = options;
    r.current = current;
    r.filterable = filterable;
    r
}

fn text_popup(key: &str, title: &str, value: &str, password: bool) -> (r: PopupRequest)
    ensures
        popup_view(r) == text_input(key@, title@, value@, password),
{
    let mut r = new_popup(PopupKind::TextInput, key, title);
    r.value = value.to_string();
    r.password = password;
    r
}

fn is(key: &str, name: &str) -> (r: bool)
    ensures
        r == (key@ == name@),
{
    chars_eq(&chars_of(key), &chars_of(name))
}

fn opt_str(o: &Option<String>) -> (r: &str)
    ensures
        r@ == opt_text(*o),
{
    proof {
        reveal_strlit("");
    }
    match o {
        Some(s) => s.as_str(),
        None => "",
    }
}

fn driver_option_text(d: Option<GfxDriver>, suggested: Option<GfxDriver>) -> (r: String)
    ensures
        r@ == driver_option(d, suggested),
{
    let mut v = match d {
        None => chars_of("None — skip GPU driver installation"),
        Some(drv) => chars_of(drv.label()),
    };
    if driver_position(d) == driver_position(suggested) {
        assert(d == suggested) by {
            lemma_driver_index_injective(d, suggested);
        }
        extend_str(&mut v, "  ✦ suggested");
    }
    chars_to_string(&v)
}

proof fn lemma_driver_index_injective(a: Option<GfxDriver>, b: Option<GfxDriver>)
    requires
        driver_index(a) == driver_index(b),
    ensures
        a == b,
{
}

fn driver_at(i: usize) -> (r: Option<GfxDriver>)
    requires
        i < 7,
    ensures
        r == driver_choices()[i as int],
{
    if i == 0 {
        None
    } else if i == 1 {
        Some(GfxDriver::AllOpenSource)
    } else if i == 2 {
        Some(GfxDriver::Amd)
    } else if i == 3 {
        Some(GfxDriver::Intel)
    } else if i == 4 {
        Some(GfxDriver::NvidiaOpen)
    } else if i == 5 {
        Some(GfxDriver::NvidiaNouveau)
    } else {
        Some(GfxDriver::Vm)
    }
}

fn driver_position(d: Option<GfxDriver>) -> (r: i32)
    ensures
        r == driver_index(d),
{
    match d {
        None => 0,
        Some(GfxDriver::AllOpenSource) => 1,
        Some(GfxDriver::Amd) => 2,
        Some(GfxDriver::Intel) => 3,
        Some(GfxDriver::NvidiaOpen) => 4,
        Some(GfxDriver::NvidiaNouveau) => 5,
        Some(GfxDriver::Vm) => 6,
    }
}

fn position_or_zero(v: &Vec<String>, x: &str) -> (r: i32)
    requires
        v.len() <= i32::MAX,
    ensures
        r == position_or_first(string_views(v@), x@),
{
    match find(v, x) {
        Some(i) => i as i32,
        None => 0,
    }
}


fn contains_string(v: &Vec<String>, x: &str) -> (r: bool)
    ensures
        r == string_views(v@).contains(x@),
{
    match find(v, x) {
        Some(i) => {
            assert(string_views(v@)[i as int] == v@[i as int]@);
            proof {
                lemma_position_found(string_views(v@), x@);
            }
            true
        },
        None => {
            proof {
                lemma_position_found(string_views(v@), x@);
            }
            false
        },
    }
}

/// `x` has a position in `s` exactly when `s` contains it, and there it is.
proof fn lemma_position_found(s: Seq<Seq<char>>, x: Seq<char>)
    ensures
        position_of(s, x) is Some <==> s.contains(x),
        position_of(s, x) matches Some(i) ==> 0 <= i < s.len() && s[i] == x,
    decreases s.len(),
{
    if s.len() > 0 {
        lemma_position_found(s.drop_last(), x);
        if s.drop_last().contains(x) {
            let j = choose|j: int| 0 <= j < s.drop_last().len() && s.drop_last()[j] == x;
            assert(s[j] == x);
        }
        if s.contains(x) && !s.drop_last().contains(x) {
            let j = choose|j: int| 0 <= j < s.len() && s[j] == x;
            if j < s.len() - 1 {
                assert(s.drop_last()[j] == x);
            }
        }
    }
}

/// The popup the row `key` opens (see `popup_spec`).
pub fn popup_for(key: &str, f: &PopupFacts) -> (r: Option<PopupRequest>)
    requires
        facts_fit(*f),
    ensures
        match r {
            Some(p) => popup_spec(key@, *f) == Some(popup_view(p)),
            None => popup_spec(key@, *f) is None,
        },
{
    proof {
        reveal_strlit("");
    }
    if is(key, "kernel") {
        let current = position_or_zero(&f.kernel_names, f.current_kernel.as_str());
        return Some(select_popup("kernel_select", "Kernel", copy_strings(&f.kernel_options), current, false));
    }
    if is(key, "profile") {
        let mut names: Vec<String> = Vec::new();
        names.push("None".to_string());
        let rest = copy_strings(&f.profile_names);
        for i in 0..rest.len()
            invariant
                string_views(names@) == seq!["None"@] + string_views(rest@.take(i as int)),
        {
            let ghost before = names@;
            names.push(rest[i].clone());
            assert(string_views(rest@.take(i + 1)) =~= string_views(rest@.take(i as int)).push(rest@[i as int]@));
            assert(string_views(names@) =~= string_views(before).push(rest@[i as int]@));
            assert(seq!["None"@] + string_views(rest@.take(i + 1)) =~= (seq!["None"@] + string_views(
                rest@.take(i as int),
            )).push(rest@[i as int]@));
        }
        assert(rest@.take(rest.len() as int) =~= rest@);
        let current: i32 = match &f.selected_profile {
            Some(p) => match find(&f.profile_ids, p.as_str()) {
                Some(i) => (i + 1) as i32,
                None => 0,
            },
            None => 0,
        };
        return Some(select_popup("profile", "Profile", names, current, false));
    }
    if is(key, "optional_packages") {
        match &f.optional_packages {
            None => {
                return None;
            },
            Some(o) => {
                let mut p = new_popup(PopupKind::MultiSelect, "optional_packages", "");
                let mut title = chars_of("Optional packages — ");
                extend_str(&mut title, o.profile_name.as_str());
                p.title = chars_to_string(&title);
                p.options = copy_strings(&o.packages);
                p.descriptions = copy_strings(&o.descriptions);
                let mut checked: Vec<bool> = Vec::new();
                let ghost pk = string_views(o.packages@);
                for i in 0..o.packages.len()
                    invariant
                        pk == string_views(o.packages@),
                        checked@ == pk.take(i as int).map_values(
                            |q: Seq<char>| string_views(o.chosen@).contains(q),
                        ),
                {
                    let c = contains_string(&o.chosen, o.packages[i].as_str());
                    checked.push(c);
                    assert(pk.take(i + 1).map_values(|q: Seq<char>| string_views(o.chosen@).contains(q))
                        =~= pk.take(i as int).map_values(
                        |q: Seq<char>| string_views(o.chosen@).contains(q),
                    ).push(string_views(o.chosen@).contains(pk[i as int])));
                }
                assert(pk.take(o.packages.len() as int) =~= pk);
                p.checked = checked;
                return Some(p);
            },
        }
    }
    if is(key, "gpu_driver") {
        let mut labels: Vec<String> = Vec::new();
        for i in 0..7usize
            invariant
                string_views(labels@) == driver_choices().take(i as int).map_values(
                    |d: Option<GfxDriver>| driver_option(d, f.suggested_driver),
                ),
        {
            let d = driver_at(i);
            labels.push(driver_option_text(d, f.suggested_driver));
            assert(driver_choices().take(i + 1).map_values(
                |d: Option<GfxDriver>| driver_option(d, f.suggested_driver),
            ) =~= driver_choices().take(i as int).map_values(
                |d: Option<GfxDriver>| driver_option(d, f.suggested_driver),
            ).push(driver_option(driver_choices()[i as int], f.suggested_driver)));
            assert(string_views(labels@) =~= string_views(labels@.drop_last()).push(labels@.last()@));
        }
        assert(driver_choices().take(7) =~= driver_choices());
        let current = driver_position(f.gfx_driver);
        return Some(select_popup("gfx_driver_select", "GPU driver", labels, current, false));
    }
    if is(key, "display_manager") {
        let mut labels: Vec<String> = Vec::new();
        let ghost names = string_views(f.display_managers@);
        for i in 0..f.display_managers.len()
            invariant
                names == string_views(f.display_managers@),
                string_views(labels@) == dm_options(names, f.dm_default).take(i as int),
        {
            let marked = match f.dm_default {
                Some(d) => d == i,
                None => false,
            };
            if marked {
                let mut v = chars_of(f.display_managers[i].as_str());
                extend_str(&mut v, "  ✦ default");
                labels.push(chars_to_string(&v));
            } else {
                labels.push(f.display_managers[i].clone());
            }
            assert(string_views(labels@) =~= string_views(labels@.drop_last()).push(labels@.last()@));
            assert(dm_options(names, f.dm_default).take(i + 1) =~= dm_options(names, f.dm_default).take(i as int).push(
                dm_options(names, f.dm_default)[i as int],
            ));
        }
        assert(dm_options(names, f.dm_default).take(f.display_managers.len() as int) =~= dm_options(
            names,
            f.dm_default,
        ));
        let current: i32 = if !f.profile_selected {
            -1
        } else {
            match f.dm_override {
                Some(i) => i as i32,
                None => match f.dm_default {
                    Some(i) => i as i32,
                    None => -1,
                },
            }
        };
        return Some(select_popup("dm_select", "Display manager", labels, current, false));
    }
    if is(key, "timezone") {
        return Some(select_popup("timezone_region", "Timezone region", copy_strings(&f.timezone_regions), 0, false));
    }
    if is(key, "locale") {
        let current = match &f.locale {
            Some(l) => position_or_zero(&f.locales, l.as_str()),
            None => 0,
        };
        return Some(select_popup("locale_select", "Locale (type to filter)", copy_strings(&f.locales), current, true));
    }
    if is(key, "users") {
        return Some(new_popup(PopupKind::Users, key, ""));
    }
    if is(key, "keyboard") {
        let current = position_or_zero(&f.keymaps, f.keyboard_layout.as_str());
        return Some(
            select_popup(
                "keyboard_select",
                "Keyboard layout (type to filter)",
                copy_strings(&f.keymaps),
                current,
                true,
            ),
        );
    }
    if is(key, "packages") {
        return Some(new_popup(PopupKind::PackageSearch, key, ""));
    }
    if is(key, "extra_services") {
        return Some(new_popup(PopupKind::StringList, key, "Extra systemd services"));
    }
    if is(key, "pool_name") {
        return Some(text_popup(key, "Pool name", opt_str(&f.pool_name), false));
    }
    if is(key, "dataset_prefix") {
        return Some(text_popup(key, "Dataset prefix", f.dataset_prefix.as_str(), false));
    }
    if is(key, "hostname") {
        return Some(text_popup(key, "Hostname", opt_str(&f.hostname), false));
    }
    if is(key, "swap_partition_size") {
        return Some(text_popup(key, "Swap partition size", opt_str(&f.swap_partition_size), false));
    }
    if is(key, "parallel_downloads") {
        let n = chars_to_string(&decimal(f.parallel_downloads));
        return Some(text_popup(key, "Parallel downloads", n.as_str(), false));
    }
    if is(key, "root_password") {
        return Some(text_popup(key, "Root password", "", true));
    }
    if is(key, "encryption_password") {
        return Some(text_popup(key, "Encryption password", "", true));
    }
    None
}


/// A kernel's entry in the kernel picker: a check mark, its name, the
/// kernel version found (`?` when unknown) and the ZFS module mode it can
/// use; a cross and `incompatible` when no mode fits.
pub open spec fn kernel_label(name: Seq<char>, version: Option<Seq<char>>, mode: Option<Seq<char>>) -> Seq<char> {
    let ver = match version {
        Some(v) => v,
        None => "?"@,
    };
    match mode {
        Some(m) => "\u{2713} "@ + name + " ("@ + ver + ") ["@ + m + "]"@,
        None => "\u{2717} "@ + name + " ("@ + ver + ") [incompatible]"@,
    }
}

/// The kernel picker's entry for one kernel (see `kernel_label`).
pub fn kernel_option(name: &str, version: Option<&str>, mode: Option<&str>) -> (r: String)
    ensures
        r@ == kernel_label(
            name@,
            match version {
                Some(v) => Some(v@),
                None => None,
            },
            match mode {
                Some(m) => Some(m@),
                None => None,
            },
        ),
{
    let ver = match version {
        Some(v) => v,
        None => "?",
    };
    let mut out = match mode {
        Some(_) => chars_of("\u{2713} "),
        None => chars_of("\u{2717} "),
    };
    extend_str(&mut out, name);
    extend_str(&mut out, " (");
    extend_str(&mut out, ver);
    match mode {
        Some(m) => {
            extend_str(&mut out, ") [");
            extend_str(&mut out, m);
            extend_str(&mut out, "]");
        },
        None => {
            extend_str(&mut out, ") [incompatible]");
        },
    }
    chars_to_string(&out)
}

} // verus!
