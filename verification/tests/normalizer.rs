//! Name normalizer behavior on concrete vendor strings.

use resmon_core::names::{clean_cpu_name, clean_gpu_name};

fn clean_cpu(s: &str) -> String {
    String::from_utf8(clean_cpu_name(&s.as_bytes().to_vec())).unwrap()
}

fn clean_gpu(s: &str) -> String {
    String::from_utf8(clean_gpu_name(&s.as_bytes().to_vec())).unwrap()
}

#[test]
fn cpu_brand_string_is_cleaned() {
    assert_eq!(
        clean_cpu("Intel(R) Core(TM) i7-9700K CPU @ 3.60GHz"),
        "i7-9700K @ 3.60GHz"
    );
}

#[test]
fn cpu_cleaning_is_idempotent_on_ordinary_brand_strings() {
    let once = clean_cpu("Intel(R) Core(TM) i7-9700K CPU @ 3.60GHz");
    let twice = clean_cpu(&once);
    assert_eq!(once, twice);
    let once = clean_cpu("AMD Ryzen 7 5800X 8-Core Processor");
    let twice = clean_cpu(&once);
    assert_eq!(once, twice);
}

#[test]
fn cpu_cleaning_collapses_every_double_space() {
    let cleaned = clean_cpu("AMD Ryzen  7  5800X 8-Core Processor");
    assert_eq!(cleaned, "Ryzen 7 5800X 8-");
    assert!(!cleaned.contains("  "));
}

#[test]
fn cpu_cleaning_of_empty_input_is_empty() {
    assert_eq!(clean_cpu(""), "");
}

#[test]
fn cpu_cleaning_is_case_sensitive() {
    // Lower-cased vendor noise is deliberately left in place.
    assert_eq!(clean_cpu("amd Ryzen 5"), "amd Ryzen 5");
}

#[test]
fn gpu_marketing_string_is_cleaned() {
    assert_eq!(clean_gpu("NVIDIA GeForce RTX 3080 Ti"), "RTX 3080 Ti");
}

#[test]
fn gpu_series_tag_prefers_rtx_over_rx() {
    let cleaned = clean_gpu("RTX RX 500");
    assert!(cleaned.starts_with("RTX "));
    assert_eq!(cleaned, "RTX RX 500");
}

#[test]
fn gpu_series_tag_gtx() {
    assert_eq!(
        clean_gpu("ZOTAC GeForce GTX 1660 SUPER"),
        "GTX ZOTAC 1660 SUPER"
    );
}

#[test]
fn gpu_series_tag_rx() {
    let cleaned = clean_gpu("AMD Radeon RX 6800 XT");
    assert_eq!(cleaned, "RX 6800 XT");
}

#[test]
fn gpu_fallback_returns_stripped_original() {
    // Every token is stripped away, so the cleaned name is too short
    // and the lightly-stripped original comes back instead.
    assert_eq!(clean_gpu("AMD Radeon Graphics"), "AMD Radeon Graphics");
}

#[test]
fn gpu_fallback_removes_marks_only() {
    assert_eq!(clean_gpu("Intel(R) Graphics"), "Intel Graphics");
}

#[test]
fn gpu_without_series_tag() {
    assert_eq!(clean_gpu("Intel(R) Arc(TM) A770"), "A770");
}

#[test]
fn token_halves_butted_together_survive_one_pass() {
    // Stripping is a single left-to-right pass, as a string replace
    // is: removing "CPU" from the middle butts the remaining "C" and
    // "PU" together, and that new occurrence is not re-scanned.
    assert_eq!(clean_cpu("CCPUPU"), "CPU");
}

#[test]
fn gpu_fallback_keeps_a_double_space() {
    // The fallback path skips the space collapse on purpose: only
    // `(R)` and `(TM)` are removed from the original.
    assert_eq!(clean_gpu("ASUS  MSI"), "ASUS  MSI");
}
