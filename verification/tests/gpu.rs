use archinstall_zfs::gpu::{parse_lspci, suggested_driver, GfxDriver, GpuDevice};

#[test]
fn test_gfx_driver_packages_nonempty() {
    for driver in [
        GfxDriver::AllOpenSource,
        GfxDriver::Amd,
        GfxDriver::Intel,
        GfxDriver::NvidiaOpen,
        GfxDriver::NvidiaNouveau,
        GfxDriver::Vm,
    ] {
        assert!(!driver.packages().is_empty(), "{} has no packages", driver.label());
    }
}

#[test]
fn test_suggested_driver_nvidia() {
    let gpus = vec![GpuDevice {
        name: "NVIDIA GeForce RTX 3080".into(),
    }];
    assert_eq!(suggested_driver(&gpus), Some(GfxDriver::NvidiaOpen));
}

#[test]
fn test_suggested_driver_amd() {
    let gpus = vec![GpuDevice {
        name: "AMD Radeon RX 6800".into(),
    }];
    assert_eq!(suggested_driver(&gpus), Some(GfxDriver::Amd));
}

#[test]
fn test_suggested_driver_intel() {
    let gpus = vec![GpuDevice {
        name: "Intel UHD Graphics 620".into(),
    }];
    assert_eq!(suggested_driver(&gpus), Some(GfxDriver::Intel));
}

#[test]
fn test_suggested_driver_hybrid() {
    let gpus = vec![
        GpuDevice {
            name: "Intel UHD Graphics 620".into(),
        },
        GpuDevice {
            name: "NVIDIA GeForce GTX 1650".into(),
        },
    ];
    assert_eq!(suggested_driver(&gpus), Some(GfxDriver::AllOpenSource));
}

#[test]
fn test_suggested_driver_empty() {
    assert_eq!(suggested_driver(&[]), None);
}

#[test]
fn vendor_names_are_matched_in_any_case() {
    let gpu = GpuDevice {
        name: "ATI Technologies Inc Mobility".into(),
    };
    assert!(gpu.is_amd());
    assert!(!gpu.is_nvidia());
    assert!(!gpu.is_intel());
    let unknown = vec![GpuDevice {
        name: "Matrox G200".into(),
    }];
    assert_eq!(suggested_driver(&unknown), Some(GfxDriver::AllOpenSource));
}

#[test]
fn only_nvidia_drivers_say_so() {
    assert!(GfxDriver::NvidiaOpen.is_nvidia());
    assert!(GfxDriver::NvidiaNouveau.is_nvidia());
    assert!(!GfxDriver::Amd.is_nvidia());
}

#[test]
fn display_controllers_are_read_from_lspci() {
    let text = "00:00.0 Host bridge: Intel Corporation Device 9b61\n\
00:02.0 VGA compatible controller: Intel Corporation UHD Graphics 620 (rev 02)\n\
01:00.0 3D controller: NVIDIA Corporation GP108M [GeForce MX250] (rev a1)  \n\
02:00.0 Network controller: Intel Corporation Wi-Fi 6 AX201\n";
    let gpus = parse_lspci(text);
    let names: Vec<&str> = gpus.iter().map(|g| g.name.as_str()).collect();
    assert_eq!(
        names,
        vec![
            "Intel Corporation UHD Graphics 620 (rev 02)",
            "NVIDIA Corporation GP108M [GeForce MX250] (rev a1)"
        ]
    );
    assert_eq!(suggested_driver(&gpus), Some(GfxDriver::AllOpenSource));
}

#[test]
fn a_lone_nvidia_card_as_lspci_names_it_gets_the_open_module() {
    let gpus = vec![GpuDevice {
        name: "NVIDIA Corporation GA102 [GeForce RTX 3080] (rev a1)".into(),
    }];
    assert_eq!(suggested_driver(&gpus), Some(GfxDriver::NvidiaOpen));
    assert!(!gpus[0].is_amd());
}

#[test]
fn ati_names_amd_only_as_a_word() {
    let ati = GpuDevice {
        name: "Advanced Micro Devices, Inc. [AMD/ATI] Navi 21".into(),
    };
    assert!(ati.is_amd());
    let old = GpuDevice {
        name: "ATI Technologies Inc Rage 128".into(),
    };
    assert!(old.is_amd());
    let intel = GpuDevice {
        name: "Intel Corporation UHD Graphics 620".into(),
    };
    assert!(!intel.is_amd());
    assert_eq!(suggested_driver(&[intel]), Some(GfxDriver::Intel));
}

#[test]
fn driver_package_lists_hold_no_duplicates() {
    let all = GfxDriver::AllOpenSource.packages();
    for driver in [
        GfxDriver::AllOpenSource,
        GfxDriver::Amd,
        GfxDriver::Intel,
        GfxDriver::NvidiaOpen,
        GfxDriver::NvidiaNouveau,
        GfxDriver::Vm,
    ] {
        let p = driver.packages();
        for (i, a) in p.iter().enumerate() {
            assert!(!p[i + 1..].contains(a), "{a} twice");
            if driver != GfxDriver::NvidiaOpen {
                assert!(all.contains(a), "{a} not in the open-source set");
            }
        }
    }
}
