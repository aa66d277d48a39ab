use archinstall_zfs::sysinfo::{
    cpu_vendor, storage_from_rotational, storage_probe, strip_partition_suffix, CpuVendor,
    StorageProbe, StorageType, vendor_id_from_cpuinfo, trim_plan, TrimPlan,
};

#[test]
fn test_cpu_vendor_microcode() {
    assert_eq!(CpuVendor::Intel.microcode_package(), Some("intel-ucode"));
    assert_eq!(CpuVendor::Amd.microcode_package(), Some("amd-ucode"));
    assert_eq!(CpuVendor::Unknown.microcode_package(), None);
}

#[test]
fn test_strip_partition_suffix() {
    assert_eq!(strip_partition_suffix("sda1"), "sda");
    assert_eq!(strip_partition_suffix("sda"), "sda");
    assert_eq!(strip_partition_suffix("sdb12"), "sdb");
    assert_eq!(strip_partition_suffix("nvme0n1p1"), "nvme0n1");
    assert_eq!(strip_partition_suffix("nvme0n1p12"), "nvme0n1");
    assert_eq!(strip_partition_suffix("nvme0n1"), "nvme0n1");
    assert_eq!(strip_partition_suffix("vda1"), "vda");
}

#[test]
fn the_vendor_id_names_the_vendor() {
    assert_eq!(cpu_vendor("GenuineIntel"), CpuVendor::Intel);
    assert_eq!(cpu_vendor("AuthenticAMD"), CpuVendor::Amd);
    assert_eq!(cpu_vendor(""), CpuVendor::Unknown);
    assert_eq!(cpu_vendor("HygonGenuine"), CpuVendor::Unknown);
}

#[test]
fn storage_is_told_by_name_then_by_rotation() {
    assert_eq!(storage_probe("nvme0n1p2"), StorageProbe::Nvme);
    assert_eq!(
        storage_probe("sda1"),
        StorageProbe::Rotational("/sys/class/block/sda/queue/rotational".to_string())
    );
    assert_eq!(storage_from_rotational(Some("1\n")), StorageType::Hdd);
    assert_eq!(storage_from_rotational(Some("0")), StorageType::SataSsd);
}

#[test]
fn the_first_processor_names_the_vendor() {
    let info = "processor\t: 0\nvendor_id\t: GenuineIntel\ncpu family\t: 6\n\nprocessor\t: 1\nvendor_id\t: AuthenticAMD\n";
    assert_eq!(vendor_id_from_cpuinfo(info), "GenuineIntel");
    assert_eq!(cpu_vendor(&vendor_id_from_cpuinfo(info)), CpuVendor::Intel);
}

#[test]
fn cpuinfo_without_a_vendor_gives_an_empty_id() {
    assert_eq!(vendor_id_from_cpuinfo(""), "");
    assert_eq!(vendor_id_from_cpuinfo("processor : 0\nmodel name : x\n"), "");
    assert_eq!(vendor_id_from_cpuinfo("vendor_id GenuineIntel\nvendor_id : AuthenticAMD\n"), "");
    assert_eq!(cpu_vendor(""), CpuVendor::Unknown);
}

#[test]
fn an_existing_pool_keeps_whatever_trim_it_already_had() {
    assert_eq!(trim_plan("zroot", None), TrimPlan::Nothing);
}

#[test]
fn an_unrecognised_device_gets_no_trim_configuration() {
    // Nothing under /sys to say it is solid state: treated as rotational.
    let kind = match storage_probe("definitely-not-a-real-device") {
        StorageProbe::Nvme => StorageType::Nvme,
        StorageProbe::Rotational(_) => storage_from_rotational(None),
    };
    assert_eq!(trim_plan("zroot", Some(kind)), TrimPlan::Nothing);
}

#[test]
fn solid_state_disks_get_their_trim() {
    assert_eq!(trim_plan("zroot", Some(StorageType::Nvme)), TrimPlan::Autotrim);
    assert_eq!(
        trim_plan("zroot", Some(StorageType::SataSsd)),
        TrimPlan::WeeklyTimer("zfs-trim-weekly@zroot.timer".to_string())
    );
    assert_eq!(trim_plan("zroot", Some(StorageType::Hdd)), TrimPlan::Nothing);
}

#[test]
fn no_disk_means_nothing_to_detect() {
    assert_eq!(trim_plan("zroot", None), TrimPlan::Nothing);
}
