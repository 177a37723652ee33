use raster_archive::grouping::{RasterFileRef, SampleGroup};
use raster_archive::natural::{fits_natural_order, natural_cmp};
use raster_archive::ordering::{order_groups, sort_files, sort_samples, OrderError};
use raster_archive::profile::{BandOrderError, DatasetProfile};
use std::cmp::Ordering;

fn file(path: &str, sample: &str, band: &str) -> RasterFileRef {
    RasterFileRef { path: path.to_string(), sample_key: sample.to_string(), band_key: band.to_string() }
}

fn group(sample: &str, bands: &[&str]) -> SampleGroup {
    SampleGroup {
        sample_key: sample.to_string(),
        files: bands.iter().map(|b| file(&format!("/d/{}_{}.tif", sample, b), sample, b)).collect(),
    }
}

#[test]
fn s2_band_order_follows_table() {
    let p = DatasetProfile::BigEarthNetS2;
    assert_eq!(p.compare_band_keys("B02", "B03"), Ok(Ordering::Less));
    assert_eq!(p.compare_band_keys("B08", "B05"), Ok(Ordering::Less));
    assert_eq!(p.compare_band_keys("B01", "B12"), Ok(Ordering::Greater));
    assert_eq!(p.compare_band_keys("B8A", "B8A"), Ok(Ordering::Equal));
    assert_eq!(p.band_rank("B09"), Some(12));
}

#[test]
fn s1_band_order_follows_table() {
    let p = DatasetProfile::BigEarthNetS1;
    assert_eq!(p.compare_band_keys("VH", "VV"), Ok(Ordering::Less));
    assert_eq!(p.compare_band_keys("VV", "VH"), Ok(Ordering::Greater));
}

#[test]
fn unknown_band_key_is_an_error() {
    let p = DatasetProfile::BigEarthNetS2;
    assert_eq!(p.compare_band_keys("B13", "B02"), Err(BandOrderError::UnknownBandKey("B13".to_string())));
    assert_eq!(p.compare_band_keys("B02", "VV"), Err(BandOrderError::UnknownBandKey("VV".to_string())));
    assert!(!p.knows_band_key("B13"));
}

#[test]
fn hyspecnet_bands_compare_lexicographically() {
    let p = DatasetProfile::HySpecNet;
    assert_eq!(p.compare_band_keys("B10", "B9"), Ok(Ordering::Less));
    assert_eq!(p.compare_band_keys("SPECTRAL_IMAGE", "SPECTRAL_IMAGE"), Ok(Ordering::Equal));
    assert_eq!(p.band_rank("B10"), None);
}

#[test]
fn band_order_is_antisymmetric_and_transitive_on_table() {
    let p = DatasetProfile::BigEarthNetS2;
    let keys = ["B02", "B03", "B04", "B08", "B05", "B06", "B07", "B8A", "B10", "B11", "B12", "B01", "B09"];
    for a in keys.iter() {
        for b in keys.iter() {
            let ab = p.compare_band_keys(a, b).unwrap();
            let ba = p.compare_band_keys(b, a).unwrap();
            assert_eq!(ab, ba.reverse());
            assert_eq!(ab == Ordering::Equal, a == b);
            for c in keys.iter() {
                if ab == Ordering::Less && p.compare_band_keys(b, c).unwrap() == Ordering::Less {
                    assert_eq!(p.compare_band_keys(a, c).unwrap(), Ordering::Less);
                }
            }
        }
    }
}

#[test]
fn files_sorted_by_band_order() {
    let g = group("p", &["B01", "B03", "B02", "B8A"]);
    let sorted = sort_files(DatasetProfile::BigEarthNetS2, g.files).unwrap();
    let bands: Vec<&str> = sorted.iter().map(|f| f.band_key.as_str()).collect();
    assert_eq!(bands, vec!["B02", "B03", "B8A", "B01"]);
}

#[test]
fn sorting_files_with_unknown_band_fails() {
    let g = group("p", &["B02", "X"]);
    assert_eq!(
        sort_files(DatasetProfile::BigEarthNetS2, g.files).unwrap_err(),
        BandOrderError::UnknownBandKey("X".to_string())
    );
}

#[test]
fn natural_sample_order_reads_digits_as_numbers() {
    let groups = vec![group("a10", &["VH"]), group("a9", &["VH"]), group("a2", &["VH"])];
    let sorted = sort_samples(groups);
    let keys: Vec<&str> = sorted.iter().map(|g| g.sample_key.as_str()).collect();
    assert_eq!(keys, vec!["a2", "a9", "a10"]);
}

#[test]
fn natural_sample_order_on_many_keys() {
    let mut groups = Vec::new();
    for i in (0..40).rev() {
        groups.push(group(&format!("patch{}_x", i), &["VH"]));
    }
    let sorted = sort_samples(groups);
    let keys: Vec<String> = sorted.iter().map(|g| g.sample_key.clone()).collect();
    let expected: Vec<String> = (0..40).map(|i| format!("patch{}_x", i)).collect();
    assert_eq!(keys, expected);
}

#[test]
fn long_digit_runs_still_sort_naturally() {
    assert!(fits_natural_order("S2A_20170613T101031_26_57"));
    assert!(fits_natural_order("1234567890123456789"));
    assert!(!fits_natural_order("a12345678901234567890"));
    let groups = vec![
        group("a100000000000000000000", &["VH"]),
        group("a99999999999999999999", &["VH"]),
        group("a2", &["VH"]),
        group("a100000000000000000001", &["VH"]),
    ];
    let out = order_groups(DatasetProfile::BigEarthNetS1, groups).unwrap();
    let keys: Vec<&str> = out.iter().map(|g| g.sample_key.as_str()).collect();
    assert_eq!(keys, vec!["a2", "a99999999999999999999", "a100000000000000000000", "a100000000000000000001"]);
}

#[test]
fn natural_compare_matches_lexical_sort_on_short_runs() {
    let pairs = [("a9", "a10"), ("a2", "a10"), ("B9", "B02"), ("x1y", "x1z"), ("abc", "ab"), ("p_7", "p_7")];
    for (a, b) in pairs.iter() {
        assert_eq!(natural_cmp(a, b), lexical_sort::natural_cmp(a, b));
    }
    assert_eq!(natural_cmp("a9", "a10"), Ordering::Less);
    assert_eq!(natural_cmp("a2", "a10"), Ordering::Less);
}

#[test]
fn order_groups_sorts_samples_and_bands() {
    let groups = vec![group("t10", &["VV", "VH"]), group("t2", &["VV", "VH"])];
    let out = order_groups(DatasetProfile::BigEarthNetS1, groups).unwrap();
    assert_eq!(out[0].sample_key, "t2");
    assert_eq!(out[1].sample_key, "t10");
    for g in out.iter() {
        let bands: Vec<&str> = g.files.iter().map(|f| f.band_key.as_str()).collect();
        assert_eq!(bands, vec!["VH", "VV"]);
    }
}

#[test]
fn order_groups_reports_unknown_band() {
    let groups = vec![group("t1", &["VV", "HH"])];
    assert_eq!(
        order_groups(DatasetProfile::BigEarthNetS1, groups).unwrap_err(),
        OrderError::UnknownBandKey("HH".to_string())
    );
}
