//! Graphics devices and the driver package sets chosen for them.

use vstd::prelude::*;

use crate::text::{
    chars_of, chars_to_string, contains_seq, contains_str, contains_word, contains_word_str, find_sub, first_occurrence, lines, occurs_at,
    lowercase, lowercase_of, slice, split_lines, trim, trimmed, views,
};

verus! {

/// A detected PCI graphics device.
#[derive(Debug, Clone)]
pub struct GpuDevice {
    pub name: String,
}

/// Which vendors a lowercased device name mentions.
#[derive(Debug, Clone, Copy, PartialEq, Eq)]
pub struct VendorMarks {
    pub nvidia: bool,
    pub amd: bool,
    pub intel: bool,
}

pub open spec fn names_nvidia(lowered: Seq<char>) -> bool {
    contains_seq(lowered, "nvidia"@)
}

/// AMD is named by `amd` or `radeon` anywhere, or by `ati` as a word of
/// its own (as in lspci's `[AMD/ATI]`); inside a word such as
/// `corporation` it names nothing.
pub open spec fn names_amd(lowered: Seq<char>) -> bool {
    contains_seq(lowered, "amd"@) || contains_word(lowered, "ati"@) || contains_seq(
        lowered,
        "radeon"@,
    )
}

pub open spec fn names_intel(lowered: Seq<char>) -> bool {
    contains_seq(lowered, "intel"@)
}

/// The vendors a device name mentions once lowercased.
pub fn vendor_marks(lowered: &str) -> (r: VendorMarks)
    ensures
        r.nvidia == names_nvidia(lowered@),
        r.amd == names_amd(lowered@),
        r.intel == names_intel(lowered@),
{
    let v = chars_of(lowered);
    VendorMarks {
        nvidia: contains_str(&v, "nvidia"),
        amd: contains_str(&v, "amd") || contains_word_str(&v, "ati") || contains_str(&v, "radeon"),
        intel: contains_str(&v, "intel"),
    }
}

pub open spec fn gpu_is_nvidia(g: GpuDevice) -> bool {
    names_nvidia(lowercase_of(g.name@))
}

pub open spec fn gpu_is_amd(g: GpuDevice) -> bool {
    names_amd(lowercase_of(g.name@))
}

pub open spec fn gpu_is_intel(g: GpuDevice) -> bool {
    names_intel(lowercase_of(g.name@))
}

impl GpuDevice {
    pub fn is_nvidia(&self) -> (r: bool)
        ensures
            r == gpu_is_nvidia(*self),
    {
        let n = lowercase(self.name.as_str());
        vendor_marks(n.as_str()).nvidia
    }

    pub fn is_amd(&self) -> (r: bool)
        ensures
            r == gpu_is_amd(*self),
    {
        let n = lowercase(self.name.as_str());
        vendor_marks(n.as_str()).amd
    }

    pub fn is_intel(&self) -> (r: bool)
        ensures
            r == gpu_is_intel(*self),
    {
        let n = lowercase(self.name.as_str());
        vendor_marks(n.as_str()).intel
    }
}

/// Graphics driver selection. Maps to the package sets that will be installed.
#[derive(Debug, Clone, Copy, PartialEq, Eq)]
pub enum GfxDriver {
    /// All open-source drivers (AMD + Intel + nouveau).
    AllOpenSource,
    /// AMD / ATI open-source (mesa + AMDGPU + Vulkan).
    Amd,
    /// Intel open-source (mesa + VA-API + Vulkan).
    Intel,
    /// NVIDIA open kernel module (Turing and newer, replaces proprietary).
    NvidiaOpen,
    /// NVIDIA nouveau open-source driver.
    NvidiaNouveau,
    /// VirtualBox / generic VM open-source driver.
    Vm,
}

/// The driver for a set of vendor mentions: one vendor gets its own
/// driver, several (or none recognised) get all the open-source ones.
pub open spec fn driver_for(nvidia: bool, amd: bool, intel: bool) -> GfxDriver {
    if nvidia && !amd && !intel {
        GfxDriver::NvidiaOpen
    } else if !nvidia && amd && !intel {
        GfxDriver::Amd
    } else if !nvidia && !amd && intel {
        GfxDriver::Intel
    } else {
        GfxDriver::AllOpenSource
    }
}

/// The driver `suggested_driver` picks for `gpus`.
pub open spec fn suggestion(gpus: Seq<GpuDevice>) -> Option<GfxDriver> {
    if gpus.len() == 0 {
        None
    } else {
        Some(
            driver_for(
                exists|i: int| 0 <= i < gpus.len() && gpu_is_nvidia(gpus[i]),
                exists|i: int| 0 <= i < gpus.len() && gpu_is_amd(gpus[i]),
                exists|i: int| 0 <= i < gpus.len() && gpu_is_intel(gpus[i]),
            ),
        )
    }
}

/// Suggest the most appropriate `GfxDriver` given detected GPUs.
/// Prefers open-source drivers. NVIDIA requires manual selection between
/// open-kernel and nouveau so we default to the open kernel module.
pub fn suggested_driver(gpus: &[GpuDevice]) -> (r: Option<GfxDriver>)
    ensures
        r == suggestion(gpus@),
{
    if gpus.len() == 0 {
        return None;
    }
    let mut has_nvidia = false;
    let mut has_amd = false;
    let mut has_intel = false;
    for i in 0..gpus.len()
        invariant
            has_nvidia == exists|j: int| 0 <= j < i && gpu_is_nvidia(gpus@[j]),
            has_amd == exists|j: int| 0 <= j < i && gpu_is_amd(gpus@[j]),
            has_intel == exists|j: int| 0 <= j < i && gpu_is_intel(gpus@[j]),
    {
        if gpus[i].is_nvidia() {
            has_nvidia = true;
        }
        if gpus[i].is_amd() {
            has_amd = true;
        }
        if gpus[i].is_intel() {
            has_intel = true;
        }
    }
    let d = if has_nvidia && !has_amd && !has_intel {
        GfxDriver::NvidiaOpen
    } else if !has_nvidia && has_amd && !has_intel {
        GfxDriver::Amd
    } else if !has_nvidia && !has_amd && has_intel {
        GfxDriver::Intel
    } else {
        GfxDriver::AllOpenSource
    };
    Some(d)
}

/// A suggestion follows the vendors of the cards found: no card, no
/// suggestion; cards of two vendors (NVIDIA with AMD or Intel, or AMD with
/// Intel) get all the open-source drivers; a vendor's own driver is
/// suggested only when some card is of that vendor and no card names
/// another; the nouveau and virtual-machine drivers are never suggested.
pub proof fn law_suggestion_follows_vendors(gpus: Seq<GpuDevice>)
    ensures
        (suggestion(gpus) is None) == (gpus.len() == 0),
        (exists|i: int, j: int|
            0 <= i < gpus.len() && 0 <= j < gpus.len() && ((gpu_is_nvidia(gpus[i]) && (gpu_is_amd(
                gpus[j],
            ) || gpu_is_intel(gpus[j]))) || (gpu_is_amd(gpus[i]) && gpu_is_intel(gpus[j]))))
            ==> suggestion(gpus) == Some(GfxDriver::AllOpenSource),
        suggestion(gpus) == Some(GfxDriver::NvidiaOpen) ==> (exists|i: int|
            0 <= i < gpus.len() && gpu_is_nvidia(gpus[i])) && forall|i: int|
            0 <= i < gpus.len() ==> !gpu_is_amd(gpus[i]) && !gpu_is_intel(gpus[i]),
        suggestion(gpus) == Some(GfxDriver::Amd) ==> (exists|i: int|
            0 <= i < gpus.len() && gpu_is_amd(gpus[i])) && forall|i: int|
            0 <= i < gpus.len() ==> !gpu_is_nvidia(gpus[i]) && !gpu_is_intel(gpus[i]),
        suggestion(gpus) == Some(GfxDriver::Intel) ==> (exists|i: int|
            0 <= i < gpus.len() && gpu_is_intel(gpus[i])) && forall|i: int|
            0 <= i < gpus.len() ==> !gpu_is_nvidia(gpus[i]) && !gpu_is_amd(gpus[i]),
        (exists|i: int| 0 <= i < gpus.len() && gpu_is_nvidia(gpus[i])) && (forall|i: int|
            0 <= i < gpus.len() ==> !gpu_is_amd(gpus[i]) && !gpu_is_intel(gpus[i])) ==> suggestion(
            gpus,
        ) == Some(GfxDriver::NvidiaOpen),
        (exists|i: int| 0 <= i < gpus.len() && gpu_is_amd(gpus[i])) && (forall|i: int|
            0 <= i < gpus.len() ==> !gpu_is_nvidia(gpus[i]) && !gpu_is_intel(gpus[i])) ==> suggestion(
            gpus,
        ) == Some(GfxDriver::Amd),
        (exists|i: int| 0 <= i < gpus.len() && gpu_is_intel(gpus[i])) && (forall|i: int|
            0 <= i < gpus.len() ==> !gpu_is_nvidia(gpus[i]) && !gpu_is_amd(gpus[i])) ==> suggestion(
            gpus,
        ) == Some(GfxDriver::Intel),
        gpus.len() > 0 && (forall|i: int|
            0 <= i < gpus.len() ==> !gpu_is_nvidia(gpus[i]) && !gpu_is_amd(gpus[i]) && !gpu_is_intel(
                gpus[i],
            )) ==> suggestion(gpus) == Some(GfxDriver::AllOpenSource),
        suggestion(gpus) != Some(GfxDriver::NvidiaNouveau),
        suggestion(gpus) != Some(GfxDriver::Vm),
{
}

/// The packages installed for a driver.
pub open spec fn driver_packages(d: GfxDriver) -> Seq<&'static str> {
    match d {
        GfxDriver::AllOpenSource => seq![
            "mesa",
            "xf86-video-amdgpu",
            "xf86-video-ati",
            "xf86-video-nouveau",
            "libva-intel-driver",
            "intel-media-driver",
            "vulkan-radeon",
            "vulkan-intel",
            "vulkan-nouveau",
        ],
        GfxDriver::Amd => seq!["mesa", "xf86-video-amdgpu", "xf86-video-ati", "vulkan-radeon"],
        GfxDriver::Intel => seq![
            "mesa",
            "libva-intel-driver",
            "intel-media-driver",
            "vulkan-intel",
        ],
        GfxDriver::NvidiaOpen => seq!["nvidia-open-dkms", "dkms", "libva-nvidia-driver"],
        GfxDriver::NvidiaNouveau => seq!["mesa", "xf86-video-nouveau", "vulkan-nouveau"],
        GfxDriver::Vm => seq!["mesa"],
    }
}

/// The package names of a driver, as text.
pub open spec fn package_names(d: GfxDriver) -> Seq<Seq<char>> {
    driver_packages(d).map_values(|p: &str| p@)
}

/// No driver lists a package twice, and every open-source driver's
/// packages are among those of the all-open-source set.
pub proof fn law_driver_packages(d: GfxDriver)
    ensures
        package_names(d).no_duplicates(),
        d != GfxDriver::NvidiaOpen ==> forall|i: int|
            0 <= i < package_names(d).len() ==> package_names(GfxDriver::AllOpenSource).contains(
                #[trigger] package_names(d)[i],
            ),
{
    reveal_strlit("mesa");
    reveal_strlit("xf86-video-amdgpu");
    reveal_strlit("xf86-video-ati");
    reveal_strlit("xf86-video-nouveau");
    reveal_strlit("libva-intel-driver");
    reveal_strlit("intel-media-driver");
    reveal_strlit("vulkan-radeon");
    reveal_strlit("vulkan-intel");
    reveal_strlit("vulkan-nouveau");
    reveal_strlit("nvidia-open-dkms");
    reveal_strlit("dkms");
    reveal_strlit("libva-nvidia-driver");
    let all = package_names(GfxDriver::AllOpenSource);
    let n = package_names(d);
    assert(forall|i: int, j: int| 0 <= i < j < n.len() ==> n[i] != n[j]) by {
        assert forall|i: int, j: int| 0 <= i < j < n.len() implies n[i] != n[j] by {
            assert(n[i].len() != n[j].len() || n[i][0] != n[j][0] || n[i][n[i].len() - 1] != n[j][n[j].len() - 1]
                || n[i] != n[j]);
        }
    }
    if d != GfxDriver::NvidiaOpen {
        let at: Seq<int> = match d {
            GfxDriver::AllOpenSource => seq![0, 1, 2, 3, 4, 5, 6, 7, 8],
            GfxDriver::Amd => seq![0, 1, 2, 6],
            GfxDriver::Intel => seq![0, 4, 5, 7],
            GfxDriver::NvidiaNouveau => seq![0, 3, 8],
            _ => seq![0],
        };
        assert forall|i: int| 0 <= i < n.len() implies all.contains(#[trigger] n[i]) by {
            assert(0 <= at[i] < all.len() && all[at[i]] == n[i]);
        }
    }
}

/// The all-open-source set is exactly the AMD, Intel and nouveau sets
/// together; every driver but NVIDIA's open kernel module brings `mesa`,
/// and that one brings `nvidia-open-dkms` built by `dkms`.
pub proof fn law_open_source_set_is_the_union()
    ensures
        forall|p: Seq<char>|
            #[trigger] package_names(GfxDriver::AllOpenSource).contains(p) <==> (package_names(
                GfxDriver::Amd,
            ).contains(p) || package_names(GfxDriver::Intel).contains(p) || package_names(
                GfxDriver::NvidiaNouveau,
            ).contains(p)),
        forall|d: GfxDriver|
            d != GfxDriver::NvidiaOpen ==> #[trigger] package_names(d).contains("mesa"@),
        package_names(GfxDriver::NvidiaOpen).contains("nvidia-open-dkms"@),
        package_names(GfxDriver::NvidiaOpen).contains("dkms"@),
{
    law_driver_packages(GfxDriver::Amd);
    law_driver_packages(GfxDriver::Intel);
    law_driver_packages(GfxDriver::NvidiaNouveau);
    let all = package_names(GfxDriver::AllOpenSource);
    let amd = package_names(GfxDriver::Amd);
    let intel = package_names(GfxDriver::Intel);
    let nv = package_names(GfxDriver::NvidiaNouveau);
    assert forall|p: Seq<char>| #[trigger] all.contains(p) implies amd.contains(p) || intel.contains(
        p,
    ) || nv.contains(p) by {
        let i = choose|i: int| 0 <= i < all.len() && all[i] == p;
        if i == 0 || i == 1 || i == 2 || i == 6 {
            let j = if i == 0 { 0 } else if i == 1 { 1 } else if i == 2 { 2 } else { 3int };
            assert(amd[j] == all[i]);
        } else if i == 4 || i == 5 || i == 7 {
            let j = if i == 4 { 1 } else if i == 5 { 2 } else { 3int };
            assert(intel[j] == all[i]);
        } else {
            let j = if i == 3 { 1 } else { 2int };
            assert(nv[j] == all[i]);
        }
    }
    assert forall|p: Seq<char>|
        amd.contains(p) || intel.contains(p) || nv.contains(p) implies #[trigger] all.contains(p) by {
        if amd.contains(p) {
            let i = choose|i: int| 0 <= i < amd.len() && amd[i] == p;
            assert(all.contains(amd[i]));
        } else if intel.contains(p) {
            let i = choose|i: int| 0 <= i < intel.len() && intel[i] == p;
            assert(all.contains(intel[i]));
        } else {
            let i = choose|i: int| 0 <= i < nv.len() && nv[i] == p;
            assert(all.contains(nv[i]));
        }
    }
    assert forall|d: GfxDriver| d != GfxDriver::NvidiaOpen implies #[trigger] package_names(
        d,
    ).contains("mesa"@) by {
        assert(package_names(d)[0] == "mesa"@);
    }
    assert(package_names(GfxDriver::NvidiaOpen)[0] == "nvidia-open-dkms"@);
    assert(package_names(GfxDriver::NvidiaOpen)[1] == "dkms"@);
}

/// The name shown for a driver.
pub open spec fn driver_label(d: GfxDriver) -> &'static str {
    match d {
        GfxDriver::AllOpenSource => "All open-source",
        GfxDriver::Amd => "AMD / ATI (open-source)",
        GfxDriver::Intel => "Intel (open-source)",
        GfxDriver::NvidiaOpen => "NVIDIA (open kernel module, Turing+)",
        GfxDriver::NvidiaNouveau => "NVIDIA (nouveau open-source)",
        GfxDriver::Vm => "VM / VirtualBox (open-source)",
    }
}

impl GfxDriver {
    /// Return the packages that should be installed for this driver.
    pub fn packages(&self) -> (r: Vec<&'static str>)
        ensures
            r@ == driver_packages(*self),
            r@.len() >= 1,
    {
        match self {
            GfxDriver::AllOpenSource => vec![
                "mesa",
                "xf86-video-amdgpu",
                "xf86-video-ati",
                "xf86-video-nouveau",
                "libva-intel-driver",
                "intel-media-driver",
                "vulkan-radeon",
                "vulkan-intel",
                "vulkan-nouveau",
            ],
            GfxDriver::Amd => vec!["mesa", "xf86-video-amdgpu", "xf86-video-ati", "vulkan-radeon"],
            GfxDriver::Intel => vec![
                "mesa",
                "libva-intel-driver",
                "intel-media-driver",
                "vulkan-intel",
            ],
            GfxDriver::NvidiaOpen => vec!["nvidia-open-dkms", "dkms", "libva-nvidia-driver"],
            GfxDriver::NvidiaNouveau => vec!["mesa", "xf86-video-nouveau", "vulkan-nouveau"],
            GfxDriver::Vm => vec!["mesa"],
        }
    }

    /// Whether the driver is one of NVIDIA's.
    pub fn is_nvidia(&self) -> (r: bool)
        ensures
            r == (*self == GfxDriver::NvidiaOpen || *self == GfxDriver::NvidiaNouveau),
    {
        match self {
            GfxDriver::NvidiaOpen | GfxDriver::NvidiaNouveau => true,
            _ => false,
        }
    }

    /// The name shown for the driver.
    pub fn label(&self) -> (r: &'static str)
        ensures
            r == driver_label(*self),
    {
        match self {
            GfxDriver::AllOpenSource => "All open-source",
            GfxDriver::Amd => "AMD / ATI (open-source)",
            GfxDriver::Intel => "Intel (open-source)",
            GfxDriver::NvidiaOpen => "NVIDIA (open kernel module, Turing+)",
            GfxDriver::NvidiaNouveau => "NVIDIA (nouveau open-source)",
            GfxDriver::Vm => "VM / VirtualBox (open-source)",
        }
    }
}

/// Whether an `lspci` line describes a display controller.
pub open spec fn is_display_line(l: Seq<char>) -> bool {
    contains_seq(l, " VGA "@) || contains_seq(l, " 3D "@) || contains_seq(l, " Display "@)
}

/// The device name on an `lspci` line: what follows the first `: `,
/// trimmed.
pub open spec fn device_name(l: Seq<char>) -> Option<Seq<char>> {
    if exists|i: int| first_occurrence(l, ": "@, i) {
        let i = choose|i: int| first_occurrence(l, ": "@, i);
        Some(trim(l.skip(i + 2)))
    } else {
        None
    }
}

/// The display controllers `lspci` lists, in order.
pub open spec fn listed_gpus(ls: Seq<Seq<char>>) -> Seq<Seq<char>>
    decreases ls.len(),
{
    if ls.len() == 0 {
        seq![]
    } else {
        let rest = listed_gpus(ls.drop_last());
        let l = ls.last();
        if is_display_line(l) {
            match device_name(l) {
                Some(n) => rest.push(n),
                None => rest,
            }
        } else {
            rest
        }
    }
}

proof fn lemma_first_occurrence_unique(s: Seq<char>, p: Seq<char>, i: int, j: int)
    requires
        first_occurrence(s, p, i),
        first_occurrence(s, p, j),
    ensures
        i == j,
{
}

/// A pattern that occurs somewhere has a first occurrence.
proof fn lemma_first_occurrence_exists(s: Seq<char>, p: Seq<char>, i: int)
    requires
        occurs_at(s, p, i),
    ensures
        exists|j: int| first_occurrence(s, p, j),
    decreases i,
{
    if !first_occurrence(s, p, i) {
        let k = choose|k: int| 0 <= k < i && occurs_at(s, p, k);
        lemma_first_occurrence_exists(s, p, k);
    }
}

/// The positions of the `lspci` lines that mention ` VGA `, ` 3D ` or
/// ` Display ` and hold a `: `, in order.
pub open spec fn controller_lines(ls: Seq<Seq<char>>) -> Seq<int>
    decreases ls.len(),
{
    if ls.len() == 0 {
        seq![]
    } else {
        let rest = controller_lines(ls.drop_last());
        let l = ls.last();
        if (contains_seq(l, " VGA "@) || contains_seq(l, " 3D "@) || contains_seq(l, " Display "@))
            && contains_seq(l, ": "@) {
            rest.push(ls.len() - 1)
        } else {
            rest
        }
    }
}

/// Every `lspci` line that mentions ` VGA `, ` 3D ` or ` Display ` and holds
/// a `: ` gives one device, in the order of the lines, and no other line
/// gives one: its name is the text after the line's first `: `, trimmed.
pub proof fn law_lspci_lists_every_controller(ls: Seq<Seq<char>>)
    ensures
        listed_gpus(ls).len() == controller_lines(ls).len(),
        forall|a: int, b: int|
            0 <= a < b < controller_lines(ls).len() ==> controller_lines(ls)[a] < controller_lines(
                ls,
            )[b],
        forall|k: int|
            0 <= k < controller_lines(ls).len() ==> {
                let i = #[trigger] controller_lines(ls)[k];
                &&& 0 <= i < ls.len()
                &&& contains_seq(ls[i], " VGA "@) || contains_seq(ls[i], " 3D "@) || contains_seq(
                    ls[i],
                    " Display "@,
                )
                &&& contains_seq(ls[i], ": "@)
                &&& forall|c: int|
                    first_occurrence(ls[i], ": "@, c) ==> listed_gpus(ls)[k] == trim(
                        ls[i].skip(c + 2),
                    )
            },
        forall|i: int|
            0 <= i < ls.len() && (contains_seq(ls[i], " VGA "@) || contains_seq(ls[i], " 3D "@)
                || contains_seq(ls[i], " Display "@)) && contains_seq(ls[i], ": "@)
                ==> controller_lines(ls).contains(i),
    decreases ls.len(),
{
    reveal_strlit(": ");
    if ls.len() > 0 {
        let p = ls.drop_last();
        law_lspci_lists_every_controller(p);
        let l = ls.last();
        let cp = controller_lines(p);
        let gp = listed_gpus(p);
        let ok = contains_seq(l, " VGA "@) || contains_seq(l, " 3D "@) || contains_seq(
            l,
            " Display "@,
        );
        assert(ok == is_display_line(l));
        if contains_seq(l, ": "@) {
            let c0 = choose|c: int| occurs_at(l, ": "@, c);
            lemma_first_occurrence_exists(l, ": "@, c0);
            let c1 = choose|c: int| first_occurrence(l, ": "@, c);
            assert forall|c: int| first_occurrence(l, ": "@, c) implies device_name(l) == Some(
                trim(l.skip(c + 2)),
            ) by {
                let d = choose|d: int| first_occurrence(l, ": "@, d);
                lemma_first_occurrence_unique(l, ": "@, c, d);
            }
            assert(device_name(l) == Some(trim(l.skip(c1 + 2))));
        } else {
            assert forall|c: int| !first_occurrence(l, ": "@, c) by {}
            assert(device_name(l) is None);
        }
        let c = controller_lines(ls);
        let g = listed_gpus(ls);
        assert forall|k: int| 0 <= k < cp.len() implies c[k] == cp[k] && g[k] == gp[k] by {}
        assert forall|k: int| 0 <= k < cp.len() implies ls[#[trigger] cp[k]] == p[cp[k]] by {}
        assert forall|i: int|
            0 <= i < ls.len() && (contains_seq(ls[i], " VGA "@) || contains_seq(ls[i], " 3D "@)
                || contains_seq(ls[i], " Display "@)) && contains_seq(ls[i], ": "@) implies c.contains(
            i,
        ) by {
            if i < p.len() {
                assert(ls[i] == p[i]);
                assert(cp.contains(i));
                let k = choose|k: int| 0 <= k < cp.len() && cp[k] == i;
                assert(c[k] == i);
            } else {
                assert(c[c.len() - 1] == i);
            }
        }
    }
}

/// The graphics devices in `lspci` output.
pub fn parse_lspci(text: &str) -> (r: Vec<GpuDevice>)
    ensures
        r@.map_values(|g: GpuDevice| g.name@) == listed_gpus(lines(text@)),
{
    let ls = split_lines(text);
    let sep = chars_of(": ");
    proof {
        reveal_strlit(": ");
    }
    let mut r: Vec<GpuDevice> = Vec::new();
    let mut i: usize = 0;
    while i < ls.len()
        invariant
            i <= ls.len(),
            sep@ == ": "@,
            sep@.len() == 2,
            views(ls@) == lines(text@),
            r@.map_values(|g: GpuDevice| g.name@) == listed_gpus(views(ls@).take(i as int)),
        decreases ls.len() - i,
    {
        assert(views(ls@).take(i + 1).drop_last() =~= views(ls@).take(i as int));
        let l = &ls[i];
        assert(views(ls@).take(i + 1).last() == l@);
        if contains_str(l, " VGA ") || contains_str(l, " 3D ") || contains_str(l, " Display ") {
            match find_sub(l, &sep) {
                Some(k) => {
                    assert(occurs_at(l@, sep@, k as int));
                    assert(k + 2 <= l.len());
                    proof {
                        assert forall|j: int| first_occurrence(l@, ": "@, j) implies j == k by {
                            lemma_first_occurrence_unique(l@, ": "@, j, k as int);
                        }
                    }
                    let name = trimmed(&slice(l, k + 2, l.len()));
                    assert(l@.subrange(k + 2, l@.len() as int) =~= l@.skip(k + 2));
                    let ghost before = r@;
                    r.push(GpuDevice { name: chars_to_string(&name) });
                    assert(r@.map_values(|g: GpuDevice| g.name@) =~= before.map_values(
                        |g: GpuDevice| g.name@,
                    ).push(name@));
                },
                None => {},
            }
        }
        i = i + 1;
    }
    assert(views(ls@).take(ls.len() as int) =~= views(ls@));
    r
}

} // verus!
