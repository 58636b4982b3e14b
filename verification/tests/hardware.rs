use polyresearch::hardware::{
    budget, capacity_percent, display_gpu, format_live_line, format_machine_line,
    format_share_line, group_gpus, parse_display_gpus, parse_nvidia_smi, GpuInfo, GpuVendor, HardwareBudget,
    HardwareSnapshot, Platform,
};

struct Machine {
    snapshot: HardwareSnapshot,
    memory_gb: f64,
}

fn snapshot_for(cores: usize, mem_gb: f64, gpus: usize) -> Machine {
    Machine {
        snapshot: HardwareSnapshot {
            logical_cores: cores * 2,
            physical_cores: cores,
            total_memory_gb: format!("{mem_gb:.1}"),
            gpus: (0..gpus)
                .map(|_| GpuInfo {
                    vendor: GpuVendor::Nvidia,
                    name: "Test GPU".to_string(),
                    memory_gb: Some("48".to_string()),
                })
                .collect(),
            platform: Platform::Linux,
            load_avg_1m: "1.00".to_string(),
            available_memory_gb: format!("{:.1}", mem_gb * 0.5),
        },
        memory_gb: mem_gb,
    }
}

fn budget_of(machine: &Machine, capacity: u8) -> HardwareBudget {
    let share = f64::from(capacity_percent(capacity)) / 100.0;
    let memory = format!("{:.1}", machine.memory_gb * share);
    budget(&machine.snapshot, capacity, memory)
}

fn memory_of(b: &HardwareBudget) -> f64 {
    b.memory_gb.parse().unwrap()
}

#[test]
fn budget_scales_by_capacity_percent() {
    let snapshot = snapshot_for(18, 128.0, 2);
    let b = budget_of(&snapshot, 50);
    assert_eq!(b.cores, 9);
    assert!((memory_of(&b) - 64.0).abs() < 0.01);
    assert_eq!(b.gpus, 1);
    assert_eq!(b.capacity_pct, 50);
}

#[test]
fn budget_clamps_capacity_to_valid_range() {
    let snapshot = snapshot_for(4, 16.0, 0);
    assert_eq!(budget_of(&snapshot, 0).capacity_pct, 1);
    assert_eq!(budget_of(&snapshot, 200).capacity_pct, 100);
}

#[test]
fn budget_never_returns_zero_cores() {
    let snapshot = snapshot_for(2, 8.0, 0);
    let b = budget_of(&snapshot, 1);
    assert_eq!(b.cores, 1);
}

#[test]
fn budget_rounds_gpus_down_when_quotient_is_at_least_one() {
    let snapshot = snapshot_for(8, 64.0, 3);
    let b = budget_of(&snapshot, 50);
    assert_eq!(b.gpus, 1);
}

#[test]
fn budget_floors_gpus_at_one_when_machine_has_a_gpu() {
    // Default 75% capacity on a 1-GPU box must surface that GPU to the
    // agent, otherwise GPU evals never run on single-GPU machines.
    let snapshot = snapshot_for(8, 64.0, 1);
    let b = budget_of(&snapshot, 75);
    assert_eq!(b.gpus, 1);
    let b = budget_of(&snapshot, 1);
    assert_eq!(b.gpus, 1);
}

#[test]
fn budget_reports_zero_gpus_when_machine_has_none() {
    let snapshot = snapshot_for(8, 64.0, 0);
    let b = budget_of(&snapshot, 100);
    assert_eq!(b.gpus, 0);
}

#[test]
fn budget_covers_full_machine_at_100() {
    let snapshot = snapshot_for(8, 64.0, 2);
    let b = budget_of(&snapshot, 100);
    assert_eq!(b.cores, 8);
    assert!((memory_of(&b) - 64.0).abs() < 0.01);
    assert_eq!(b.gpus, 2);
}

#[test]
fn format_machine_line_includes_gpu_summary() {
    let snapshot = snapshot_for(18, 128.0, 2);
    let line = format_machine_line(&snapshot.snapshot);
    assert!(line.contains("18 physical cores"));
    assert!(line.contains("128.0 GB RAM"));
    assert!(line.contains("Test GPU"));
}

#[test]
fn format_machine_line_handles_no_gpus() {
    let snapshot = snapshot_for(4, 8.0, 0);
    let line = format_machine_line(&snapshot.snapshot);
    assert!(line.contains("0 GPUs"));
}

#[test]
fn format_share_line_renders_budget() {
    let snapshot = snapshot_for(18, 128.0, 2);
    let b = budget_of(&snapshot, 50);
    let line = format_share_line(&b);
    assert!(line.contains("50%"));
    assert!(line.contains("9 cores"));
    assert!(line.contains("64.0 GB"));
    assert!(line.contains("1 GPU"));
}

#[test]
fn format_live_line_reports_load_and_memory() {
    let snapshot = snapshot_for(18, 128.0, 0);
    let line = format_live_line(&snapshot.snapshot);
    assert!(line.contains("load avg"));
    assert!(line.contains("GB available"));
}

#[test]
fn shares_are_cut_to_whole_cores() {
    let machine = snapshot_for(7, 16.0, 5);
    let b = budget_of(&machine, 75);
    assert_eq!(b.cores, 5);
    assert_eq!(b.gpus, 3);
}

#[test]
fn listed_cards_keep_their_names() {
    let listed = parse_nvidia_smi("NVIDIA A100, 40960\n\nbroken line\nRTX, 8192\n");
    assert_eq!(listed.len(), 2);
    assert_eq!(listed[0].name, "NVIDIA A100");
    assert_eq!(listed[0].memory_mb, "40960");
}

#[test]
fn displays_are_told_by_their_vendor() {
    let some = |text: &str| Some(text.to_string());
    assert_eq!(
        display_gpu(&some("Apple M2"), &some("sppci_vendor_Apple")).vendor,
        GpuVendor::AppleSilicon
    );
    assert_eq!(display_gpu(&some("Radeon"), &some("AMD")).vendor, GpuVendor::Amd);
    assert_eq!(display_gpu(&None, &None).vendor, GpuVendor::Unknown);
}

#[test]
fn described_displays_are_read() {
    let gpus = parse_display_gpus(
        r#"{"SPDisplaysDataType": [
            {"sppci_model": "Apple M2 Pro", "sppci_vendor": "sppci_vendor_Apple"},
            {"sppci_model": "Radeon", "sppci_vendor": "ATI"},
            {"sppci_model": 7, "sppci_vendor": "NVIDIA"},
            "nothing"
        ]}"#,
    );
    let told: Vec<(&str, GpuVendor)> = gpus.iter().map(|g| (g.name.as_str(), g.vendor)).collect();
    assert_eq!(
        told,
        vec![
            ("Apple M2 Pro", GpuVendor::AppleSilicon),
            ("Radeon", GpuVendor::Amd),
            ("Unknown GPU", GpuVendor::Nvidia),
            ("Unknown GPU", GpuVendor::Unknown),
        ]
    );
    assert!(gpus.iter().all(|g| g.memory_gb.is_none()));
    assert!(parse_display_gpus("{}").is_empty());
    assert!(parse_display_gpus(r#"{"SPDisplaysDataType": {}}"#).is_empty());
    assert!(parse_display_gpus("no JSON").is_empty());
}

#[test]
fn equal_cards_are_shown_together() {
    let machine = snapshot_for(4, 8.0, 2);
    let groups = group_gpus(&machine.snapshot.gpus);
    assert_eq!(groups.len(), 1);
    assert_eq!(groups[0].count, 2);
}
