//! Vendor GPU probe parsing: list-mode lines and CSV query records.

use resmon_core::probe::{parse_gpu_csv, parse_gpu_list, GpuVendor};

fn csv(s: &str) -> Vec<resmon_core::probe::GpuReading> {
    parse_gpu_csv(&s.as_bytes().to_vec())
}

fn list(s: &str) -> Vec<resmon_core::probe::GpuIdentity> {
    parse_gpu_list(&s.as_bytes().to_vec())
}

#[test]
fn csv_record_is_parsed_with_exact_unit_conversion() {
    let gpus = csv("NVIDIA GeForce RTX 3080, 50, 65, 1024");
    assert_eq!(gpus.len(), 1);
    assert_eq!(
        String::from_utf8(gpus[0].model.clone()).unwrap(),
        "NVIDIA GeForce RTX 3080"
    );
    assert_eq!(gpus[0].utilization_centi, 5000);
    assert_eq!(gpus[0].temperature_centi, 6500);
    // 1024 MiB is exactly 1024 * 1024 * 1024 bytes.
    assert_eq!(gpus[0].memory_used_bytes, 1073741824);
}

#[test]
fn csv_non_numeric_field_defaults_to_zero_without_dropping_the_line() {
    let gpus = csv("GPU0,N/A,45,2048");
    assert_eq!(gpus.len(), 1);
    assert_eq!(gpus[0].utilization_centi, 0);
    assert_eq!(gpus[0].temperature_centi, 4500);
    assert_eq!(gpus[0].memory_used_bytes, 2048 * 1024 * 1024);
}

#[test]
fn csv_fractional_fields_are_kept_in_centi_units() {
    let gpus = csv("GPU0, 45.5, 60.25, 512");
    assert_eq!(gpus[0].utilization_centi, 4550);
    assert_eq!(gpus[0].temperature_centi, 6025);
}

#[test]
fn csv_short_line_is_skipped_but_other_lines_survive() {
    let gpus = csv("GPU0,10,40,100\nGPU1,20,50\nGPU2,30,60,300");
    assert_eq!(gpus.len(), 2);
    assert_eq!(gpus[0].memory_used_bytes, 100 * 1024 * 1024);
    assert_eq!(gpus[1].memory_used_bytes, 300 * 1024 * 1024);
}

#[test]
fn csv_extra_trailing_fields_are_ignored() {
    let gpus = csv("GPU0, 1, 2, 3, something, else");
    assert_eq!(gpus.len(), 1);
    assert_eq!(gpus[0].utilization_centi, 100);
    assert_eq!(gpus[0].memory_used_bytes, 3 * 1024 * 1024);
}

#[test]
fn csv_unparsable_memory_field_defaults_to_zero() {
    let gpus = csv("GPU0,1,2,lots");
    assert_eq!(gpus[0].memory_used_bytes, 0);
    let gpus = csv("GPU0,1,2,99999999999999999999");
    assert_eq!(gpus[0].memory_used_bytes, 0);
}

#[test]
fn csv_empty_output_has_no_records() {
    assert_eq!(csv("").len(), 0);
}

#[test]
fn csv_memory_field_accepts_a_leading_plus_but_percent_fields_do_not() {
    let gpus = csv("GPU0,+10,20,+512");
    assert_eq!(gpus[0].utilization_centi, 0);
    assert_eq!(gpus[0].temperature_centi, 2000);
    assert_eq!(gpus[0].memory_used_bytes, 512 * 1024 * 1024);
}

#[test]
fn csv_bare_fraction_does_not_parse() {
    let gpus = csv("GPU0,.5,7.,64");
    assert_eq!(gpus[0].utilization_centi, 0);
    assert_eq!(gpus[0].temperature_centi, 700);
}

#[test]
fn csv_crlf_line_endings_are_tolerated() {
    let gpus = csv("GPU0,1,2,3\r\nGPU1,4,5,6\r\n");
    assert_eq!(gpus.len(), 2);
    assert_eq!(gpus[1].utilization_centi, 400);
}

#[test]
fn list_line_yields_identity_with_normalized_name() {
    let gpus = list("GPU 0: NVIDIA GeForce RTX 3080 (UUID: GPU-8932ff9)");
    assert_eq!(gpus.len(), 1);
    assert_eq!(
        String::from_utf8(gpus[0].raw_model.clone()).unwrap(),
        "NVIDIA GeForce RTX 3080"
    );
    assert_eq!(
        String::from_utf8(gpus[0].normalized_name.clone()).unwrap(),
        "RTX 3080"
    );
    assert_eq!(gpus[0].vendor, GpuVendor::Nvidia);
    assert_eq!(gpus[0].vram_bytes, 0);
}

#[test]
fn list_parses_each_line_in_order() {
    let out = "GPU 0: NVIDIA GeForce GTX 1080 (UUID: GPU-1)\nGPU 1: NVIDIA T400 (UUID: GPU-2)\n";
    let gpus = list(out);
    assert_eq!(gpus.len(), 2);
    assert_eq!(
        String::from_utf8(gpus[0].normalized_name.clone()).unwrap(),
        "GTX 1080"
    );
    assert_eq!(
        String::from_utf8(gpus[1].raw_model.clone()).unwrap(),
        "NVIDIA T400"
    );
}

#[test]
fn list_line_without_markers_is_skipped() {
    assert_eq!(list("no gpus found").len(), 0);
    assert_eq!(list("GPU 0: broken line without uuid marker").len(), 0);
}

#[test]
fn list_line_with_markers_out_of_order_is_skipped() {
    // The model end marker sits before the model start marker: the
    // line matches no valid pattern and must be skipped, not sliced.
    assert_eq!(list(" (UUID: GPU 0: backwards").len(), 0);
}
