//! Processor vendor and storage kind, decided from what the system reports.

use vstd::prelude::*;

use crate::text::{
    all_ascii_digits, all_digits, chars_of, chars_to_string, contains_seq, contains_str, extend,
    extend_str, has_prefix, is_ascii_digit, is_digit, lowercase, lowercase_of, rfind, rfind_char,
    starts_with, trim, trim_end_digits, trimmed, find, find_char, lines, slice, split_lines, views,
};

verus! {

#[derive(Debug, Clone, Copy, PartialEq, Eq)]
pub enum CpuVendor {
    Intel,
    Amd,
    Unknown,
}

impl CpuVendor {
    /// The microcode package for the vendor's processors.
    pub fn microcode_package(&self) -> (r: Option<&'static str>)
        ensures
            r == match *self {
                CpuVendor::Intel => Some("intel-ucode"),
                CpuVendor::Amd => Some("amd-ucode"),
                CpuVendor::Unknown => None::<&'static str>,
            },
    {
        match self {
            CpuVendor::Intel => Some("intel-ucode"),
            CpuVendor::Amd => Some("amd-ucode"),
            CpuVendor::Unknown => None,
        }
    }
}

/// The vendor a lowercased vendor id names.
pub open spec fn vendor_named(lowered: Seq<char>) -> CpuVendor {
    if contains_seq(lowered, "intel"@) {
        CpuVendor::Intel
    } else if contains_seq(lowered, "amd"@) || contains_seq(lowered, "authenticamd"@) {
        CpuVendor::Amd
    } else {
        CpuVendor::Unknown
    }
}

/// The vendor a lowercased vendor id (`genuineintel`, `authenticamd`) names.
pub fn vendor_from_lowered(lowered: &str) -> (r: CpuVendor)
    ensures
        r == vendor_named(lowered@),
{
    let v = chars_of(lowered);
    if contains_str(&v, "intel") {
        CpuVendor::Intel
    } else if contains_str(&v, "amd") || contains_str(&v, "authenticamd") {
        CpuVendor::Amd
    } else {
        CpuVendor::Unknown
    }
}

/// The vendor of the processor whose vendor id is `vendor_id`; an empty id
/// (no processor reported) is `Unknown`.
pub fn cpu_vendor(vendor_id: &str) -> (r: CpuVendor)
    ensures
        r == vendor_named(lowercase_of(vendor_id@)),
{
    let lowered = lowercase(vendor_id);
    vendor_from_lowered(lowered.as_str())
}

/// What follows `p` on the first of `ls` that starts with it.
pub open spec fn first_with_prefix(ls: Seq<Seq<char>>, p: Seq<char>) -> Option<Seq<char>>
    decreases ls.len(),
{
    if ls.len() == 0 {
        None
    } else if has_prefix(ls[0], p) {
        Some(ls[0].skip(p.len() as int))
    } else {
        first_with_prefix(ls.skip(1), p)
    }
}

/// The processor's vendor id in a `/proc/cpuinfo` text: on the first line
/// that starts with `vendor_id`, what follows its first `:`, trimmed.
/// Empty when no line starts so, or that line holds no `:`.
pub open spec fn cpuinfo_vendor_id(info: Seq<char>) -> Seq<char> {
    match first_with_prefix(lines(info), "vendor_id"@) {
        Some(rest) => match find(rest, ':') {
            Some(i) => trim(rest.skip(i + 1)),
            None => seq![],
        },
        None => seq![],
    }
}

/// The vendor id of the first processor a `/proc/cpuinfo` text lists.
pub fn vendor_id_from_cpuinfo(info: &str) -> (r: String)
    ensures
        r@ == cpuinfo_vendor_id(info@),
{
    let ls = split_lines(info);
    let key = chars_of("vendor_id");
    let mut i: usize = 0;
    assert(views(ls@).skip(0) =~= views(ls@));
    while i < ls.len()
        invariant
            i <= ls.len(),
            key@ == "vendor_id"@,
            views(ls@) == lines(info@),
            first_with_prefix(views(ls@).skip(i as int), key@) == first_with_prefix(views(ls@), key@),
        decreases ls.len() - i,
    {
        let ghost rest = views(ls@).skip(i as int);
        assert(rest[0] == ls@[i as int]@);
        if starts_with(&ls[i], &key) {
            let after = slice(&ls[i], key.len(), ls[i].len());
            assert(after@ == rest[0].skip(key@.len() as int));
            assert(first_with_prefix(rest, key@) == Some(after@));
            return match find_char(&after, ':') {
                Some(c) => {
                    let v = slice(&after, c + 1, after.len());
                    assert(v@ == after@.skip(c + 1));
                    chars_to_string(&trimmed(&v))
                },
                None => String::new(),
            };
        }
        assert(rest.skip(1) =~= views(ls@).skip(i + 1));
        i = i + 1;
    }
    assert(views(ls@).skip(i as int).len() == 0);
    String::new()
}

/// What kind of storage a device is, used to pick the right TRIM strategy.
///
/// NVMe gets `autotrim=on`; a SATA/SAS SSD gets the periodic
/// `zfs-trim-weekly@<pool>.timer`, since continuous TRIM blocks its bus; a
/// spinning disk gets nothing.
#[derive(Debug, Clone, Copy, PartialEq, Eq)]
pub enum StorageType {
    Nvme,
    SataSsd,
    Hdd,
}

/// A device name without its partition suffix.
pub open spec fn without_partition(name: Seq<char>) -> Seq<char> {
    if has_prefix(name, "nvme"@) {
        match rfind(name, 'p') {
            Some(p) => if p + 1 < name.len() && all_digits(name.skip(p + 1)) {
                name.take(p)
            } else {
                name
            },
            None => name,
        }
    } else {
        trim_end_digits(name)
    }
}

proof fn lemma_trim_end_digits_take(s: Seq<char>, k: int)
    requires
        0 <= k <= s.len(),
        forall|j: int| k <= j < s.len() ==> is_digit(s[j]),
    ensures
        trim_end_digits(s) == trim_end_digits(s.take(k)),
    decreases s.len() - k,
{
    if k < s.len() {
        assert(s.drop_last().take(k) == s.take(k));
        lemma_trim_end_digits_take(s.drop_last(), k);
    } else {
        assert(s.take(k) == s);
    }
}

/// Strip the partition suffix from a block device name.
///
/// - NVMe:  `nvme0n1p2` → `nvme0n1`  (partition suffix is `p<N>`)
/// - NVMe:  `nvme0n1`   → `nvme0n1`  (no partition, unchanged)
/// - SCSI:  `sda1`      → `sda`      (partition suffix is trailing digits)
pub fn strip_partition_suffix(name: &str) -> (r: &str)
    ensures
        r@ == without_partition(name@),
{
    let v = chars_of(name);
    let nvme = chars_of("nvme");
    if starts_with(&v, &nvme) {
        if let Some(pos) = rfind_char(&v, 'p') {
            if pos < v.len() - 1 && all_ascii_digits(&v, pos + 1) {
                return name.substring_char(0, pos);
            }
        }
        return name;
    }
    let mut k = v.len();
    while k > 0 && is_ascii_digit(v[k - 1])
        invariant
            k <= v.len(),
            forall|j: int| k <= j < v.len() ==> is_digit(v@[j]),
        decreases k,
    {
        k -= 1;
    }
    proof {
        lemma_trim_end_digits_take(v@, k as int);
        let t = v@.take(k as int);
        if t.len() > 0 {
            assert(t.last() == v@[k - 1]);
        }
    }
    name.substring_char(0, k)
}

/// What has to be read to classify a device.
#[derive(Debug, PartialEq, Eq)]
pub enum StorageProbe {
    /// The name alone says NVMe.
    Nvme,
    /// The kernel's rotational flag at this path decides.
    Rotational(String),
}

/// `/sys/class/block/<base>/queue/rotational`.
pub open spec fn rotational_path(base: Seq<char>) -> Seq<char> {
    "/sys/class/block/"@ + base + "/queue/rotational"@
}

/// How to classify the device named `dev_name` (the last component of its
/// canonical path): NVMe device nodes are always named `nvme<c>n<n>[p<p>]`;
/// anything else is told apart by the kernel's rotational flag of the disk.
pub fn storage_probe(dev_name: &str) -> (r: StorageProbe)
    ensures
        match r {
            StorageProbe::Nvme => has_prefix(without_partition(dev_name@), "nvme"@),
            StorageProbe::Rotational(p) => !has_prefix(without_partition(dev_name@), "nvme"@)
                && p@ == rotational_path(without_partition(dev_name@)),
        },
{
    let base = strip_partition_suffix(dev_name);
    let bv = chars_of(base);
    let nvme = chars_of("nvme");
    if starts_with(&bv, &nvme) {
        return StorageProbe::Nvme;
    }
    let mut p = chars_of("/sys/class/block/");
    extend(&mut p, &bv);
    extend_str(&mut p, "/queue/rotational");
    StorageProbe::Rotational(chars_to_string(&p))
}

/// The storage kind given the rotational flag's content: an SSD reads
/// `0`; an unreadable flag counts as a spinning disk.
pub fn storage_from_rotational(flag: Option<&str>) -> (r: StorageType)
    ensures
        r == match flag {
            Some(f) => if trim(f@) == seq!['0'] {
                StorageType::SataSsd
            } else {
                StorageType::Hdd
            },
            None => StorageType::Hdd,
        },
{
    match flag {
        Some(f) => {
            let v = chars_of(f);
            let t = trimmed(&v);
            if t.len() == 1 && t[0] == '0' {
                assert(t@ =~= seq!['0']);
                StorageType::SataSsd
            } else {
                StorageType::Hdd
            }
        },
        None => StorageType::Hdd,
    }
}

/// The TRIM strategy of a new pool.
#[derive(Debug, Clone, PartialEq, Eq)]
pub enum TrimPlan {
    /// Set the pool's `autotrim=on`: the kernel TRIMs continuously.
    Autotrim,
    /// Enable this periodic `zpool trim` timer on the installed system.
    WeeklyTimer(String),
    /// Leave TRIM alone.
    Nothing,
}

/// `zfs-trim-weekly@<pool>.timer`.
pub open spec fn weekly_timer(pool: Seq<char>) -> Seq<char> {
    "zfs-trim-weekly@"@ + pool + ".timer"@
}

/// The TRIM strategy for `pool` on a disk of kind `storage`; `None` when
/// the installation did not create the pool on a disk it knows (an
/// existing pool keeps whatever TRIM it had). `fstrim.timer` is never
/// chosen: it skips ZFS pools.
pub fn trim_plan(pool: &str, storage: Option<StorageType>) -> (r: TrimPlan)
    ensures
        match storage {
            Some(StorageType::Nvme) => r == TrimPlan::Autotrim,
            Some(StorageType::SataSsd) => r matches TrimPlan::WeeklyTimer(t) && t@ == weekly_timer(pool@),
            Some(StorageType::Hdd) | None => r == TrimPlan::Nothing,
        },
{
    match storage {
        Some(StorageType::Nvme) => TrimPlan::Autotrim,
        Some(StorageType::SataSsd) => {
            let mut t = chars_of("zfs-trim-weekly@");
            extend_str(&mut t, pool);
            extend_str(&mut t, ".timer");
            TrimPlan::WeeklyTimer(chars_to_string(&t))
        },
        _ => TrimPlan::Nothing,
    }
}

} // verus!
