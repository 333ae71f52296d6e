use primer::config::{parse_priority, priority_names, Config};
use primer::gpu::{find_gpus, is_integrated, mentions_integrated, DeviceInfo, GPU};
use primer::priority::{order_by_priority, rank};
use primer::text::{contains_text, matches_folded, normalize_slot, same_text};
use primer::vendor::{classify, Vendor};
use primer::{prime_run, Error};

fn device(driver: Option<&str>, model: Option<&str>, slot: Option<&str>) -> DeviceInfo {
    DeviceInfo {
        driver: driver.map(|s| s.to_string()),
        model: model.map(|s| s.to_string()),
        slot: slot.map(|s| s.to_string()),
        properties: vec![],
    }
}

fn gpu(driver: &str, model: &str, slot: Option<&str>) -> GPU {
    GPU::build(&device(Some(driver), Some(model), slot)).unwrap()
}

fn words(ws: &[&str]) -> Vec<String> {
    ws.iter().map(|s| s.to_string()).collect()
}

fn env_of(inv: &primer::gpu::Invocation) -> Vec<(String, String)> {
    inv.env.clone()
}

fn pairs(ps: &[(&str, &str)]) -> Vec<(String, String)> {
    ps.iter().map(|(k, v)| (k.to_string(), v.to_string())).collect()
}

#[test]
fn test_glxinfo() {
    let config = Config::default();
    let devices = vec![device(Some("nvidia"), Some("GA106 [GeForce RTX 3060]"), Some("0000:01:00.0"))];
    prime_run(&config, &devices, vec!["glxinfo".to_string(), "-B".to_string()]).unwrap();
}

#[test]
fn known_drivers_classify() {
    assert_eq!(classify("nvidia"), Some(Vendor::NVIDIA));
    assert_eq!(classify("i915"), Some(Vendor::Intel));
    assert_eq!(classify("radv"), Some(Vendor::AMD));
    assert_eq!(classify("radeon"), Some(Vendor::AMD));
}

#[test]
fn unknown_drivers_do_not_classify() {
    for d in ["", "amdgpu", "NVIDIA", "nouveau", "i91", "radeon ", "xhci_hcd"] {
        assert_eq!(classify(d), None);
    }
}

#[test]
fn candidate_count_matches_classifiable_devices() {
    let devices = vec![
        device(Some("nvidia"), Some("A"), Some("0000:01:00.0")),
        device(None, Some("B"), None),
        device(Some("xhci_hcd"), Some("C"), None),
        device(Some("i915"), None, Some("0000:00:02.0")),
        device(Some("radeon"), Some("D"), None),
    ];
    let gpus = find_gpus(&devices).unwrap();
    assert_eq!(gpus.len(), 3);
    assert_eq!(gpus[0].vendor, Vendor::NVIDIA);
    assert_eq!(gpus[1].vendor, Vendor::Intel);
    assert_eq!(gpus[1].name, "");
    assert_eq!(gpus[2].vendor, Vendor::AMD);
}

#[test]
fn no_classifiable_device_is_not_found() {
    let devices = vec![device(None, Some("A"), None), device(Some("snd_hda_intel"), None, None)];
    assert!(matches!(find_gpus(&devices), Err(Error::DeviceNotFound)));
    assert!(matches!(find_gpus(&vec![]), Err(Error::DeviceNotFound)));
}

#[test]
fn integrated_heuristic_folds_case() {
    assert!(is_integrated("Intel Integrated Graphics"));
    assert!(is_integrated("HD INTEGRATED"));
    assert!(!is_integrated("GeForce RTX 3060"));
    assert!(!is_integrated(""));
    assert!(mentions_integrated("integrated"));
    assert!(!mentions_integrated("INTEGRATED"));
    let g = gpu("i915", "UHD Graphics (Integrated)", None);
    assert!(g.integrated);
}

#[test]
fn text_helpers() {
    assert!(same_text("abc", "abc"));
    assert!(!same_text("abc", "abd"));
    assert!(!same_text("abc", "ab"));
    assert!(contains_text("xxintegratedyy", "integrated"));
    assert!(contains_text("abc", ""));
    assert!(!contains_text("ab", "abc"));
    assert!(matches_folded("  NviDia\t", "nvidia"));
    assert!(!matches_folded("nvid ia", "nvidia"));
    assert_eq!(normalize_slot("0000:01:00.0"), "0000_01_00_0");
    assert_eq!(normalize_slot(""), "");
}

#[test]
fn pci_slot_is_normalized() {
    assert_eq!(gpu("nvidia", "A", Some("0000:01:00.0")).pci_slot(), Some("0000_01_00_0".to_string()));
    assert_eq!(gpu("nvidia", "A", None).pci_slot(), None);
}

#[test]
fn rank_of_absent_vendor_is_list_length() {
    let list = vec![Vendor::AMD, Vendor::NVIDIA];
    assert_eq!(rank(&list, Vendor::AMD), 0);
    assert_eq!(rank(&list, Vendor::NVIDIA), 1);
    assert_eq!(rank(&list, Vendor::Intel), 2);
    assert_eq!(rank(&vec![], Vendor::Intel), 0);
}

#[test]
fn ordering_is_stable() {
    let gpus = vec![
        gpu("radeon", "amd-1", None),
        gpu("nvidia", "nv-1", None),
        gpu("radv", "amd-2", None),
        gpu("nvidia", "nv-2", None),
    ];
    let out = order_by_priority(gpus, &vec![Vendor::NVIDIA, Vendor::AMD]);
    let names: Vec<String> = out.iter().map(|g| g.name.clone()).collect();
    assert_eq!(names, words(&["nv-1", "nv-2", "amd-1", "amd-2"]));
}

#[test]
fn absent_vendor_sorts_last() {
    let gpus = vec![
        gpu("i915", "intel-1", None),
        gpu("radeon", "amd-1", None),
        gpu("i915", "intel-2", None),
        gpu("nvidia", "nv-1", None),
    ];
    let out = order_by_priority(gpus, &vec![Vendor::AMD]);
    let names: Vec<String> = out.iter().map(|g| g.name.clone()).collect();
    assert_eq!(names, words(&["amd-1", "intel-1", "intel-2", "nv-1"]));
    let out = order_by_priority(vec![gpu("i915", "x", None), gpu("nvidia", "y", None)], &vec![]);
    assert_eq!(out[0].name, "x");
}

#[test]
fn priority_names_round_trip() {
    let list = vec![Vendor::Intel, Vendor::NVIDIA, Vendor::AMD];
    let names = priority_names(&list);
    assert_eq!(names, words(&["intel", "nvidia", "amd"]));
    assert_eq!(parse_priority(&names), list);
}

#[test]
fn unknown_priority_names_are_dropped() {
    let names = words(&["AMD", "garbage", " Intel ", "", "nvidia"]);
    assert_eq!(parse_priority(&names), vec![Vendor::AMD, Vendor::Intel, Vendor::NVIDIA]);
}

#[test]
fn vendor_names() {
    assert_eq!(Vendor::NVIDIA.to_string(), "NVIDIA");
    assert_eq!(Vendor::AMD.to_string(), "AMD");
    assert_eq!(Vendor::Intel.to_string(), "Intel");
    assert_eq!(Vendor::from_name("Intel"), Some(Vendor::Intel));
    assert_eq!(Vendor::from_name("radeon"), None);
}

#[test]
fn config_defaults() {
    let c = Config::default();
    assert!(c.first_use);
    assert!(c.kill_on_unplug);
    assert_eq!(c.gpu_priority, vec![Vendor::NVIDIA, Vendor::AMD, Vendor::Intel]);
    let e = Config::from_entries(None, None, Some(false));
    assert!(e.first_use);
    assert!(!e.kill_on_unplug);
    assert_eq!(e.gpu_priority, vec![Vendor::NVIDIA, Vendor::AMD, Vendor::Intel]);
}

#[test]
fn config_open_empty_text_gives_defaults() {
    let c = Config::open("").unwrap();
    assert!(c.first_use);
    assert_eq!(c.gpu_priority, vec![Vendor::NVIDIA, Vendor::AMD, Vendor::Intel]);
}

#[test]
fn config_open_reads_values() {
    let c = Config::open("[general]\nfirst_use = false\ngpu_priority = amd, Bogus, NVIDIA\n").unwrap();
    assert!(!c.first_use);
    assert!(c.kill_on_unplug);
    assert_eq!(c.gpu_priority, vec![Vendor::AMD, Vendor::NVIDIA]);
}

#[test]
fn config_open_rejects_malformed_text() {
    assert!(matches!(Config::open("[general\nx"), Err(Error::Ini(_))));
}

#[test]
fn config_save_then_open_round_trips() {
    let mut c = Config::default();
    c.first_use = false;
    c.gpu_priority = vec![Vendor::Intel, Vendor::AMD];
    let text = c.save();
    assert!(text.contains("gpu_priority = intel, amd"));
    let back = Config::open(&text).unwrap();
    assert!(!back.first_use);
    assert_eq!(back.gpu_priority, vec![Vendor::Intel, Vendor::AMD]);
}

#[test]
fn nvidia_environment() {
    let inv = gpu("nvidia", "A", Some("0000:01:00.0")).prepare_run(words(&["glxinfo"])).unwrap();
    assert_eq!(
        env_of(&inv),
        pairs(&[
            ("DRI_PRIME", "pci-0000_01_00_0"),
            ("__VK_LAYER_NV_optimus", "NVIDIA_only"),
            ("__GLX_VENDOR_LIBRARY_NAME", "nvidia"),
        ])
    );
}

#[test]
fn amd_environment() {
    let inv = gpu("radv", "A", Some("0000:01:00.0")).prepare_run(words(&["glxinfo"])).unwrap();
    assert_eq!(env_of(&inv), pairs(&[("DRI_PRIME", "pci-0000_01_00_0")]));
}

#[test]
fn intel_environment_is_empty() {
    let inv = gpu("i915", "A", Some("0000:00:02.0")).prepare_run(words(&["vkcube", "--x"])).unwrap();
    assert!(inv.env.is_empty());
    assert_eq!(inv.program, "vkcube");
    assert_eq!(inv.args, words(&["--x"]));
}

#[test]
fn empty_command_is_rejected() {
    assert!(matches!(gpu("nvidia", "A", Some("0000:01:00.0")).prepare_run(vec![]), Err(Error::EmptyCommand)));
    assert!(matches!(gpu("nvidia", "A", None).prepare_run(vec![]), Err(Error::EmptyCommand)));
}

#[test]
fn device_without_slot_is_invalid() {
    assert!(matches!(gpu("radv", "A", None).prepare_run(words(&["glxinfo"])), Err(Error::InvalidDevice)));
}

#[test]
fn end_to_end_selects_nvidia() {
    let config = Config::default();
    let devices = vec![
        device(Some("radv"), Some("Navi"), Some("0000:02:00.0")),
        device(Some("nvidia"), Some("GeForce"), Some("0000:01:00.0")),
    ];
    let launch = prime_run(&config, &devices, words(&["glxinfo", "-B"])).unwrap();
    assert_eq!(launch.gpu.vendor, Vendor::NVIDIA);
    assert!(!launch.gpu.integrated);
    assert_eq!(launch.invocation.program, "glxinfo");
    assert_eq!(launch.invocation.args, words(&["-B"]));
    assert!(launch
        .invocation
        .env
        .contains(&("DRI_PRIME".to_string(), "pci-0000_01_00_0".to_string())));
}

#[test]
fn end_to_end_failures() {
    let config = Config::default();
    assert!(matches!(prime_run(&config, &vec![], words(&["glxinfo"])), Err(Error::DeviceNotFound)));
    let devices = vec![device(Some("i915"), Some("Integrated"), None)];
    assert!(matches!(prime_run(&config, &devices, words(&["glxinfo"])), Err(Error::InvalidDevice)));
    assert!(matches!(prime_run(&config, &devices, vec![]), Err(Error::EmptyCommand)));
}

#[test]
fn first_use_is_completed_once() {
    let mut c = Config::default();
    assert!(c.complete_first_use());
    assert!(!c.first_use);
    assert!(!c.complete_first_use());
    assert_eq!(c.gpu_priority, vec![Vendor::NVIDIA, Vendor::AMD, Vendor::Intel]);
}

#[test]
fn fancy_name_takes_vendor_colour() {
    let n = gpu("nvidia", "GeForce", None).name_fancy();
    assert_eq!(n.input, "GeForce");
    assert_eq!(n.fgcolor, Some(colored::Color::Green));
    assert_eq!(gpu("radv", "Navi", None).name_fancy().fgcolor, Some(colored::Color::Red));
    assert_eq!(gpu("i915", "UHD", None).name_fancy().fgcolor, Some(colored::Color::Blue));
}

#[test]
fn config_save_text_is_exact() {
    let c = Config::from_entries(Some(false), Some(words(&["amd", "nvidia"])), Some(true));
    assert_eq!(c.save(), "[general]\nfirst_use = false\ngpu_priority = amd, nvidia\nkill_on_unplug = true\n");
    let empty = Config::from_entries(None, Some(vec![]), Some(false));
    assert_eq!(empty.save(), "[general]\nfirst_use = true\ngpu_priority = \nkill_on_unplug = false\n");
}

#[test]
fn config_open_reads_only_exact_flag_words() {
    let c = Config::open("[general]\nfirst_use = yes\nkill_on_unplug = false\n").unwrap();
    assert!(c.first_use);
    assert!(!c.kill_on_unplug);
    let d = Config::open("[other]\nfirst_use = false\n").unwrap();
    assert!(d.first_use);
    assert_eq!(d.gpu_priority, vec![Vendor::NVIDIA, Vendor::AMD, Vendor::Intel]);
}

#[test]
fn device_properties_are_kept() {
    let mut d = device(Some("nvidia"), Some("A"), Some("0000:01:00.0"));
    d.properties = vec![("DRIVER".to_string(), "nvidia".to_string())];
    let g = GPU::build(&d).unwrap();
    assert_eq!(g.properties, vec![("DRIVER".to_string(), "nvidia".to_string())]);
}
