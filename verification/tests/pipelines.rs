//! The two sampling pipelines assembled from plain host readings, and
//! the autostart round-trip.

use resmon_core::metrics::{
    get_dynamic_data, get_static_data, DynamicHostInfo, SensorReading, StaticHostInfo, VolumeInfo,
};
use resmon_core::startup::{startup_action, StartupAction, StartupRegistry};

fn sensor(label: &str, temp_centi: i64) -> SensorReading {
    SensorReading { label: label.as_bytes().to_vec(), temp_centi }
}

fn volume(mount: &str, total_bytes: u64, available_bytes: u64) -> VolumeInfo {
    VolumeInfo { mount_point: mount.as_bytes().to_vec(), total_bytes, available_bytes }
}

fn host() -> DynamicHostInfo {
    DynamicHostInfo {
        cpu_load_centi: 1234,
        mem_used_bytes: 8_000_000_000,
        sensors: Vec::new(),
        volumes: Vec::new(),
    }
}

#[test]
fn static_snapshot_is_assembled_from_host_readings() {
    let host = StaticHostInfo {
        cpu_brand: b"Intel(R) Core(TM) i7-9700K CPU @ 3.60GHz".to_vec(),
        physical_cores: Some(8),
        mem_total_bytes: 34_359_738_368,
    };
    let snap = get_static_data(&host, None);
    assert_eq!(
        String::from_utf8(snap.cpu_model.clone()).unwrap(),
        "i7-9700K @ 3.60GHz"
    );
    assert_eq!(snap.cpu_cores, 8);
    assert_eq!(snap.mem_total_bytes, 34_359_738_368);
}

#[test]
fn unknown_or_zero_core_count_reports_one() {
    let mut host = StaticHostInfo {
        cpu_brand: Vec::new(),
        physical_cores: None,
        mem_total_bytes: 0,
    };
    assert_eq!(get_static_data(&host, None).cpu_cores, 1);
    host.physical_cores = Some(0);
    assert_eq!(get_static_data(&host, None).cpu_cores, 1);
}

#[test]
fn absent_probe_yields_empty_gpu_lists_without_error() {
    let shost = StaticHostInfo {
        cpu_brand: b"x".to_vec(),
        physical_cores: Some(1),
        mem_total_bytes: 1,
    };
    assert_eq!(get_static_data(&shost, None).gpus.len(), 0);
    assert_eq!(get_dynamic_data(&host(), None).gpus.len(), 0);
}

#[test]
fn probe_output_flows_into_the_dynamic_sample() {
    let sample = get_dynamic_data(&host(), Some(b"GPU0, 50, 65, 1024".to_vec()));
    assert_eq!(sample.gpus.len(), 1);
    assert_eq!(sample.gpus[0].memory_used_bytes, 1073741824);
    assert_eq!(sample.cpu_load_centi, 1234);
    assert_eq!(sample.mem_used_bytes, 8_000_000_000);
}

#[test]
fn cpu_temperature_is_the_hottest_cpu_adjacent_sensor() {
    let mut h = host();
    h.sensors = vec![
        sensor("Package id 0", 6500),
        sensor("Core 0", 7200),
        sensor("acpitz", 9999),
        sensor("CPU Fan", 100),
    ];
    let sample = get_dynamic_data(&h, None);
    assert_eq!(sample.cpu_temp_centi, 7200);
}

#[test]
fn no_matching_sensor_reports_the_unknown_zero() {
    let mut h = host();
    h.sensors = vec![sensor("ambient", 2500), sensor("gpu hotspot", 8000)];
    assert_eq!(get_dynamic_data(&h, None).cpu_temp_centi, 0);
    h.sensors = Vec::new();
    assert_eq!(get_dynamic_data(&h, None).cpu_temp_centi, 0);
}

#[test]
fn negative_sensor_readings_never_beat_the_zero_floor() {
    let mut h = host();
    h.sensors = vec![sensor("Core 0", -500)];
    assert_eq!(get_dynamic_data(&h, None).cpu_temp_centi, 0);
}

#[test]
fn small_volumes_are_filtered_and_usage_is_computed() {
    let mut h = host();
    h.volumes = vec![
        volume("/boot", 500_000_000, 100_000_000),
        volume("/", 2_000_000_000, 500_000_000),
    ];
    let sample = get_dynamic_data(&h, None);
    assert_eq!(sample.disks.len(), 1);
    assert_eq!(String::from_utf8(sample.disks[0].mount_point.clone()).unwrap(), "/");
    assert_eq!(sample.disks[0].total_bytes, 2_000_000_000);
    assert_eq!(sample.disks[0].used_bytes, 1_500_000_000);
    // 1.5 GB of 2 GB is exactly 75.00 percent, in basis points.
    assert_eq!(sample.disks[0].used_percent_bp, 7500);
}

#[test]
fn a_volume_of_exactly_one_gibibyte_is_excluded() {
    let mut h = host();
    h.volumes = vec![volume("/tiny", 1_073_741_824, 0)];
    assert_eq!(get_dynamic_data(&h, None).disks.len(), 0);
    h.volumes = vec![volume("/kept", 1_073_741_825, 0)];
    assert_eq!(get_dynamic_data(&h, None).disks.len(), 1);
}

#[test]
fn over_reported_available_space_counts_as_nothing_used() {
    let mut h = host();
    h.volumes = vec![volume("/odd", 2_000_000_000, 3_000_000_000)];
    let sample = get_dynamic_data(&h, None);
    assert_eq!(sample.disks[0].used_bytes, 0);
    assert_eq!(sample.disks[0].used_percent_bp, 0);
}

#[test]
fn toggle_decides_create_on_enable_and_delete_on_disable() {
    assert!(matches!(startup_action(true), StartupAction::Create));
    assert!(matches!(startup_action(false), StartupAction::Delete));
}

#[test]
fn autostart_round_trip_reads_back_the_requested_state() {
    let mut reg = StartupRegistry::new();
    assert_eq!(reg.get_startup_setting(), false);
    assert_eq!(reg.toggle_startup(true), true);
    assert_eq!(reg.get_startup_setting(), true);
    assert_eq!(reg.toggle_startup(false), false);
    assert_eq!(reg.get_startup_setting(), false);
}
