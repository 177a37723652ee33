use vstd::prelude::*;
use crate::profile::DatasetProfile;
use crate::grouping::{SampleGroup, FileModel, group_files, groups_exactly, matched_files, unmatched_paths, texts, files_of_sample, files_view, match_path};
use crate::ordering::{order_groups, ordered_from, has_unknown_band, orders_some, ordered_version, bands_known, bands_distinct, lemma_band_order_canonical, OrderError};
use crate::validate::{validate_groups, has_duplicate_band, same_bands, band_keys_of, ValidationError};

verus! {

/// The samples of one dataset root, ready to be encoded and written.
#[derive(Clone, Debug)]
pub struct PreparedRoot {
    /// The samples in natural order of their keys, each with its files in
    /// band order.
    pub groups: Vec<SampleGroup>,
    /// The raster files whose names the profile rejected and wants reported.
    pub unmatched: Vec<String>,
    /// The band keys that every sample holds, in the order of the first sample.
    pub schema: Vec<String>,
}

/// Why a dataset root cannot be written.
#[derive(Clone, Debug, PartialEq, Eq)]
pub enum PrepareError {
    /// The samples could not be put in order.
    Order(OrderError),
    /// The samples are inconsistent.
    Validation(ValidationError),
}

/// `out` is the grouping of the files among `paths` that the profile accepts,
/// put in canonical order.
pub open spec fn grouped_in_order(p: DatasetProfile, paths: Seq<Seq<char>>, out: Seq<SampleGroup>) -> bool {
    exists|gs: Seq<SampleGroup>| groups_exactly(gs, matched_files(p, paths)) && #[trigger] ordered_from(p, gs, out)
}

/// Groups, orders and checks the raster files found under one dataset root.
/// A root where no file matches gives no samples, which is no error.
pub fn prepare_root(profile: DatasetProfile, paths: &Vec<String>) -> (r: Result<PreparedRoot, PrepareError>)
    ensures
        matched_files(profile, texts(paths@)).len() == 0 ==> (r matches Ok(pr) && pr.groups@.len() == 0),
        match r {
            Ok(pr) => {
                &&& grouped_in_order(profile, texts(paths@), pr.groups@)
                &&& forall|i: int| 0 <= i < pr.groups@.len() ==> !has_duplicate_band(#[trigger] pr.groups@[i])
                &&& forall|i: int| 0 <= i < pr.groups@.len() ==> same_bands(#[trigger] pr.groups@[i], pr.groups@[0])
                &&& pr.groups@.len() == 0 ==> pr.schema@.len() == 0
                &&& pr.groups@.len() > 0 ==> texts(pr.schema@).to_multiset() == band_keys_of(pr.groups@[0]).to_multiset()
                &&& texts(pr.unmatched@) == if profile.warns_on_mismatch_spec() {
                    unmatched_paths(profile, texts(paths@))
                } else {
                    Seq::empty()
                }
            },
            Err(PrepareError::Validation(ValidationError::DuplicateBandKey { .. })) => exists|out: Seq<SampleGroup>|
                #[trigger] grouped_in_order(profile, texts(paths@), out) && exists|i: int|
                    0 <= i < out.len() && has_duplicate_band(#[trigger] out[i]),
            Err(PrepareError::Validation(ValidationError::MismatchedBandKeys { .. })) => exists|out: Seq<SampleGroup>|
                #[trigger] grouped_in_order(profile, texts(paths@), out) && exists|i: int|
                    0 <= i < out.len() && !same_bands(#[trigger] out[i], out[0]),
            Err(PrepareError::Order(OrderError::UnknownBandKey(k))) => exists|gs: Seq<SampleGroup>|
                #[trigger] groups_exactly(gs, matched_files(profile, texts(paths@))) && exists|j: int|
                    0 <= j < gs.len() && has_unknown_band(profile, #[trigger] gs[j], k@),
        },
{
    let grouping = group_files(profile, paths);
    let ghost gs = grouping.groups@;
    proof {
        if matched_files(profile, texts(paths@)).len() == 0 && gs.len() > 0 {
            assert(files_view(gs[0].files@) == files_of_sample(matched_files(profile, texts(paths@)), gs[0].sample_key@));
            assert(files_view(gs[0].files@).len() == gs[0].files@.len());
        }
    }
    let unmatched = grouping.unmatched;
    let groups = match order_groups(profile, grouping.groups) {
        Ok(s) => s,
        Err(e) => {
            assert(groups_exactly(gs, matched_files(profile, texts(paths@))));
            return Err(PrepareError::Order(e));
        },
    };
    assert(grouped_in_order(profile, texts(paths@), groups@));
    match validate_groups(&groups) {
        Ok(schema) => Ok(PreparedRoot { groups, unmatched, schema }),
        Err(e) => {
            proof {
                match e {
                    ValidationError::DuplicateBandKey { .. } => {
                        let i = choose|i: int| #[trigger] crate::validate::first_duplicate(groups@, i);
                        assert(has_duplicate_band(groups@[i]));
                    },
                    ValidationError::MismatchedBandKeys { .. } => {
                        let i = choose|i: int| #[trigger] crate::validate::first_mismatch(groups@, i);
                        assert(!same_bands(groups@[i], groups@[0]));
                    },
                }
            }
            Err(PrepareError::Validation(e))
        },
    }
}

/// How often the file `f` stands among the files that the profile accepts
/// from `paths`: as often as its path stands in `paths`, if the profile reads
/// exactly its keys from that path, else never.
proof fn lemma_matched_count(p: DatasetProfile, paths: Seq<Seq<char>>, f: FileModel)
    ensures
        matched_files(p, paths).to_multiset().count(f) == if match_path(p, f.path) == Some((f.sample_key, f.band_key)) {
            paths.to_multiset().count(f.path)
        } else {
            0
        },
    decreases paths.len(),
{
    broadcast use vstd::seq_lib::group_to_multiset_ensures;

    if paths.len() == 0 {
        assert(matched_files(p, paths) =~= Seq::<FileModel>::empty());
        assert(matched_files(p, paths).to_multiset() =~= vstd::multiset::Multiset::empty());
        assert(paths.to_multiset() =~= vstd::multiset::Multiset::empty());
    } else {
        let before = paths.drop_last();
        lemma_matched_count(p, before, f);
        assert(paths =~= before.push(paths.last()));
    }
}

/// How often the file `f` stands among the files of sample `k` in `fs`.
proof fn lemma_sample_count(fs: Seq<FileModel>, k: Seq<char>, f: FileModel)
    ensures
        files_of_sample(fs, k).to_multiset().count(f) == if f.sample_key == k {
            fs.to_multiset().count(f)
        } else {
            0
        },
    decreases fs.len(),
{
    broadcast use vstd::seq_lib::group_to_multiset_ensures;

    if fs.len() == 0 {
        assert(files_of_sample(fs, k).to_multiset() =~= vstd::multiset::Multiset::empty());
        assert(fs.to_multiset() =~= vstd::multiset::Multiset::empty());
    } else {
        lemma_sample_count(fs.drop_last(), k, f);
        assert(fs =~= fs.drop_last().push(fs.last()));
    }
}

/// The files of sample `k` among the accepted files of `paths` depend only on
/// which paths there are, not on their order.
proof fn lemma_sample_files_by_multiset(p: DatasetProfile, a: Seq<Seq<char>>, b: Seq<Seq<char>>, k: Seq<char>)
    requires
        a.to_multiset() == b.to_multiset(),
    ensures
        files_of_sample(matched_files(p, a), k).to_multiset() == files_of_sample(matched_files(p, b), k).to_multiset(),
{
    assert forall|f: FileModel| #[trigger] files_of_sample(matched_files(p, a), k).to_multiset().count(f)
        == files_of_sample(matched_files(p, b), k).to_multiset().count(f) by {
        lemma_sample_count(matched_files(p, a), k, f);
        lemma_sample_count(matched_files(p, b), k, f);
        lemma_matched_count(p, a, f);
        lemma_matched_count(p, b, f);
    }
    assert(files_of_sample(matched_files(p, a), k).to_multiset() =~= files_of_sample(matched_files(p, b), k).to_multiset());
}

/// The files of a sample in canonical order, and the multiset of them in the
/// grouping they came from.
proof fn lemma_ordered_sample_files(p: DatasetProfile, paths: Seq<Seq<char>>, out: Seq<SampleGroup>, i: int)
    requires
        grouped_in_order(p, paths, out),
        0 <= i < out.len(),
    ensures
        files_view(out[i].files@).to_multiset() == files_of_sample(matched_files(p, paths), out[i].sample_key@).to_multiset(),
        bands_known(p, files_view(out[i].files@)),
        crate::ordering::bands_sorted(p, files_view(out[i].files@)),
{
    let gs = choose|gs: Seq<SampleGroup>| groups_exactly(gs, matched_files(p, paths)) && #[trigger] ordered_from(p, gs, out);
    assert(orders_some(p, gs, out[i]));
    let j = choose|j: int| 0 <= j < gs.len() && #[trigger] ordered_version(p, gs[j], out[i]);
    let fv = files_view(out[i].files@);
    let gv = files_view(gs[j].files@);
    assert forall|q: int| 0 <= q < fv.len() implies p.knows_band(#[trigger] fv[q].band_key) by {
        vstd::seq_lib::to_multiset_contains(fv, fv[q]);
        vstd::seq_lib::to_multiset_contains(gv, fv[q]);
        assert(fv.contains(fv[q]));
        let r = choose|r: int| 0 <= r < gv.len() && gv[r] == fv[q];
    }
}

/// Running the preparation twice over the same raster files, found in any
/// order, gives every sample that both runs produce the same files in the same
/// order; the bands to read and so the archive of the sample are the same.
pub proof fn lemma_samples_independent_of_discovery_order(
    p: DatasetProfile,
    paths_a: Seq<Seq<char>>,
    paths_b: Seq<Seq<char>>,
    out_a: Seq<SampleGroup>,
    out_b: Seq<SampleGroup>,
    i: int,
    j: int,
)
    requires
        paths_a.to_multiset() == paths_b.to_multiset(),
        grouped_in_order(p, paths_a, out_a),
        grouped_in_order(p, paths_b, out_b),
        forall|q: int| 0 <= q < out_a.len() ==> !has_duplicate_band(#[trigger] out_a[q]),
        0 <= i < out_a.len(),
        0 <= j < out_b.len(),
        out_a[i].sample_key@ == out_b[j].sample_key@,
    ensures
        files_view(out_a[i].files@) == files_view(out_b[j].files@),
{
    let k = out_a[i].sample_key@;
    lemma_ordered_sample_files(p, paths_a, out_a, i);
    lemma_ordered_sample_files(p, paths_b, out_b, j);
    lemma_sample_files_by_multiset(p, paths_a, paths_b, k);
    let fa = files_view(out_a[i].files@);
    assert(!has_duplicate_band(out_a[i]));
    assert forall|u: int, v: int| 0 <= u < v < fa.len() implies #[trigger] fa[u].band_key != #[trigger] fa[v].band_key by {
        assert(fa[u].band_key == out_a[i].files@[u].band_key@);
        assert(fa[v].band_key == out_a[i].files@[v].band_key@);
    }
    assert(bands_distinct(fa));
    lemma_band_order_canonical(p, fa, files_view(out_b[j].files@));
}

} // verus!
