use raster_archive::archive::encode_sample;
use raster_archive::grouping::group_files;
use raster_archive::names::is_raster_file;
use raster_archive::pipeline::{prepare_root, PrepareError};
use raster_archive::profile::DatasetProfile;
use raster_archive::tensor::{plan_bands, TensorBuffer};
use raster_archive::validate::ValidationError;
use raster_archive::writer::{chunk_ranges, CHUNK_SIZE};
use safetensors::SafeTensors;

fn strings(v: &[&str]) -> Vec<String> {
    v.iter().map(|s| s.to_string()).collect()
}

#[test]
fn raster_extensions_ignore_case() {
    assert!(is_raster_file("/data/a/patch_B02.tif"));
    assert!(is_raster_file("/data/a/patch_B02.TIFF"));
    assert!(is_raster_file("x.Tif"));
    assert!(!is_raster_file("/data/a/patch_B02.tifx"));
    assert!(!is_raster_file("/data/a/README"));
    assert!(!is_raster_file("/data/a/meta.json"));
}

#[test]
fn grouping_reads_sample_and_band_from_stem() {
    let paths = strings(&["/r/x/S2A_26_57_B02.tif", "/r/x/S2A_26_57_B8A.tif", "/r/y/other.tif", "/r/x/S2A_26_58_B02.tif"]);
    let g = group_files(DatasetProfile::BigEarthNetS2, &paths);
    assert_eq!(g.groups.len(), 2);
    assert_eq!(g.groups[0].sample_key, "S2A_26_57");
    let bands: Vec<&str> = g.groups[0].files.iter().map(|f| f.band_key.as_str()).collect();
    assert_eq!(bands, vec!["B02", "B8A"]);
    assert_eq!(g.groups[0].files[1].path, "/r/x/S2A_26_57_B8A.tif");
    assert_eq!(g.groups[1].sample_key, "S2A_26_58");
    assert_eq!(g.unmatched, strings(&["/r/y/other.tif"]));
}

#[test]
fn hyspecnet_skips_mismatches_silently() {
    let paths = strings(&["/h/ENMAP01-X-SPECTRAL_IMAGE.TIF", "/h/ENMAP01-X-QL_PIXELMASK.TIF"]);
    let g = group_files(DatasetProfile::HySpecNet, &paths);
    assert_eq!(g.groups.len(), 1);
    assert_eq!(g.groups[0].sample_key, "ENMAP01-X");
    assert_eq!(g.groups[0].files[0].band_key, "SPECTRAL_IMAGE");
    assert!(g.unmatched.is_empty());
}

#[test]
fn two_patches_give_two_records_in_band_order() {
    let paths = strings(&["/root/patch2_B03.tif", "/root/patch1_B03.tif", "/root/patch2_B02.tif", "/root/patch1_B02.tif"]);
    let prepared = prepare_root(DatasetProfile::BigEarthNetS2, &paths).unwrap();
    assert_eq!(prepared.groups.len(), 2);
    assert_eq!(prepared.groups[0].sample_key, "patch1");
    assert_eq!(prepared.groups[1].sample_key, "patch2");
    assert_eq!(prepared.schema, strings(&["B02", "B03"]));
    for g in prepared.groups.iter() {
        let plan = plan_bands(DatasetProfile::BigEarthNetS2, g);
        let names: Vec<String> = plan.iter().map(|r| r.name.clone()).collect();
        assert_eq!(names, strings(&["B02", "B03"]));
        assert!(plan.iter().all(|r| r.band_index == 1));
        assert_eq!(plan[0].path, format!("/root/{}_B02.tif", g.sample_key));
        let tensors: Vec<TensorBuffer> = plan.iter().enumerate().map(|(i, _)| TensorBuffer::from_u16(1, 1, &vec![i as u16]).unwrap()).collect();
        let blob = encode_sample(&names, &tensors).unwrap();
        let parsed = SafeTensors::deserialize(&blob).unwrap();
        let offsets = SafeTensors::read_metadata(&blob).unwrap().1;
        let b02 = offsets.info("B02").unwrap().data_offsets;
        let b03 = offsets.info("B03").unwrap().data_offsets;
        assert!(b02.1 <= b03.0);
        let first = parsed.tensor("B02").unwrap();
        let second = parsed.tensor("B03").unwrap();
        assert_eq!(first.data(), &[0, 0]);
        assert_eq!(second.data(), &[1, 0]);
    }
}

#[test]
fn grouping_keeps_repeated_band_keys() {
    let paths = strings(&["/a/p_B02.tif", "/b/p_B02.tif"]);
    let g = group_files(DatasetProfile::BigEarthNetS2, &paths);
    assert_eq!(g.groups.len(), 1);
    assert_eq!(g.groups[0].files.len(), 2);
    assert_eq!(g.groups[0].files[1].path, "/b/p_B02.tif");
}

#[test]
fn s1_grouping_skips_other_polarisations_with_warning() {
    let paths = strings(&["/r/s1p_VV.tif", "/r/s1p_VH.tif", "/r/s1p_HH.tif"]);
    let g = group_files(DatasetProfile::BigEarthNetS1, &paths);
    assert_eq!(g.groups.len(), 1);
    let bands: Vec<&str> = g.groups[0].files.iter().map(|f| f.band_key.as_str()).collect();
    assert_eq!(bands, vec!["VV", "VH"]);
    assert_eq!(g.unmatched, strings(&["/r/s1p_HH.tif"]));
}

#[test]
fn preparation_ignores_discovery_order() {
    let a = strings(&["/r/t10_VV.tif", "/r/t2_VH.tif", "/r/t10_VH.tif", "/r/t2_VV.tif"]);
    let b = strings(&["/r/t2_VV.tif", "/r/t10_VH.tif", "/r/t2_VH.tif", "/r/t10_VV.tif"]);
    let pa = prepare_root(DatasetProfile::BigEarthNetS1, &a).unwrap();
    let pb = prepare_root(DatasetProfile::BigEarthNetS1, &b).unwrap();
    let view = |p: &raster_archive::pipeline::PreparedRoot| -> Vec<(String, Vec<String>)> {
        p.groups.iter().map(|g| (g.sample_key.clone(), g.files.iter().map(|f| f.path.clone()).collect())).collect()
    };
    assert_eq!(view(&pa), view(&pb));
    assert_eq!(view(&pa)[0].0, "t2");
}

#[test]
fn empty_root_is_not_an_error() {
    let prepared = prepare_root(DatasetProfile::BigEarthNetS2, &Vec::new()).unwrap();
    assert!(prepared.groups.is_empty());
    assert!(prepared.schema.is_empty());
}

#[test]
fn root_with_inconsistent_samples_fails() {
    let paths = strings(&["/r/p1_B02.tif", "/r/p1_B03.tif", "/r/p2_B02.tif"]);
    assert!(matches!(
        prepare_root(DatasetProfile::BigEarthNetS2, &paths),
        Err(PrepareError::Validation(ValidationError::MismatchedBandKeys { .. }))
    ));
}

#[test]
fn root_with_duplicate_band_fails() {
    let paths = strings(&["/r/a/p1_B02.tif", "/r/b/p1_B02.tif"]);
    assert!(matches!(
        prepare_root(DatasetProfile::BigEarthNetS2, &paths),
        Err(PrepareError::Validation(ValidationError::DuplicateBandKey { .. }))
    ));
}

#[test]
fn hyspecnet_file_expands_into_all_bands() {
    let paths = strings(&["/h/T1-SPECTRAL_IMAGE.TIF"]);
    let prepared = prepare_root(DatasetProfile::HySpecNet, &paths).unwrap();
    let plan = plan_bands(DatasetProfile::HySpecNet, &prepared.groups[0]);
    assert_eq!(plan.len(), 224);
    assert_eq!(plan[0].band_index, 1);
    assert_eq!(plan[0].name, "B1");
    assert_eq!(plan[223].band_index, 224);
    assert_eq!(plan[223].name, "B224");
    assert_eq!(plan[100].path, "/h/T1-SPECTRAL_IMAGE.TIF");
}

#[test]
fn chunks_cover_keys_in_order() {
    assert_eq!(chunk_ranges(1030, CHUNK_SIZE), vec![(0, 512), (512, 1024), (1024, 1030)]);
    assert_eq!(chunk_ranges(1024, 512), vec![(0, 512), (512, 1024)]);
    assert_eq!(chunk_ranges(3, 5), vec![(0, 3)]);
    assert!(chunk_ranges(0, 512).is_empty());
}
