use raster_archive::grouping::{RasterFileRef, SampleGroup};
use raster_archive::validate::{band_keys, find_duplicate_band, find_repeated_key, validate_groups, ValidationError};

fn group(sample: &str, bands: &[&str]) -> SampleGroup {
    SampleGroup {
        sample_key: sample.to_string(),
        files: bands
            .iter()
            .map(|b| RasterFileRef {
                path: format!("/d/{}_{}.tif", sample, b),
                sample_key: sample.to_string(),
                band_key: b.to_string(),
            })
            .collect(),
    }
}

fn strings(v: &[&str]) -> Vec<String> {
    v.iter().map(|s| s.to_string()).collect()
}

#[test]
fn mismatched_band_sets_report_missing_and_extra() {
    let groups = vec![group("s1", &["B01", "B02"]), group("s2", &["B01", "B03"])];
    assert_eq!(
        validate_groups(&groups),
        Err(ValidationError::MismatchedBandKeys {
            sample_key: "s2".to_string(),
            missing: strings(&["B02"]),
            extra: strings(&["B03"]),
        })
    );
}

#[test]
fn duplicate_band_key_is_rejected() {
    let groups = vec![group("s1", &["B02", "B02"]), group("s2", &["B02", "B03"])];
    let expected_files = group("s1", &["B02", "B02"]).files;
    assert_eq!(
        validate_groups(&groups),
        Err(ValidationError::DuplicateBandKey { sample_key: "s1".to_string(), files: expected_files })
    );
}

#[test]
fn duplicates_are_found_before_mismatches() {
    let groups = vec![group("s1", &["B01"]), group("s2", &["B03", "B04"]), group("s3", &["B02", "B02"])];
    assert!(matches!(validate_groups(&groups), Err(ValidationError::DuplicateBandKey { .. })));
}

#[test]
fn consistent_batch_gives_schema() {
    let groups = vec![group("s1", &["B10", "B9", "B2"]), group("s2", &["B2", "B9", "B10"])];
    assert_eq!(validate_groups(&groups), Ok(strings(&["B2", "B9", "B10"])));
}

#[test]
fn empty_batch_is_valid() {
    let groups: Vec<SampleGroup> = Vec::new();
    assert_eq!(validate_groups(&groups), Ok(Vec::new()));
}

#[test]
fn duplicate_band_detection() {
    assert!(find_duplicate_band(&group("s", &["A", "B", "A"])));
    assert!(!find_duplicate_band(&group("s", &["A", "B", "C"])));
    assert_eq!(band_keys(&group("s", &["A", "B"])), strings(&["A", "B"]));
}

#[test]
fn repeated_sample_key_across_roots() {
    assert_eq!(find_repeated_key(&strings(&["a", "b", "c", "b"])), Some("b".to_string()));
    assert_eq!(find_repeated_key(&strings(&["a", "b", "c"])), None);
    assert_eq!(find_repeated_key(&Vec::new()), None);
}
