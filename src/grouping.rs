use vstd::prelude::*;
use vstd::hash_map::StringHashMap;
use crate::profile::DatasetProfile;
use crate::names::{file_stem, file_stem_of, pattern_captures, StemPattern};

verus! {

broadcast use vstd::hash_map::group_hash_map_axioms;

/// One raster file with the sample key and band key read from its name.
#[derive(Clone, Debug, PartialEq, Eq)]
pub struct RasterFileRef {
    pub path: String,
    pub sample_key: String,
    pub band_key: String,
}

/// What a `RasterFileRef` holds, as text.
pub struct FileModel {
    pub path: Seq<char>,
    pub sample_key: Seq<char>,
    pub band_key: Seq<char>,
}

impl View for RasterFileRef {
    type V = FileModel;

    open spec fn view(&self) -> FileModel {
        FileModel { path: self.path@, sample_key: self.sample_key@, band_key: self.band_key@ }
    }
}

/// The files of one sample, under its key.
#[derive(Clone, Debug)]
pub struct SampleGroup {
    pub sample_key: String,
    pub files: Vec<RasterFileRef>,
}

/// The outcome of grouping: the samples, each with its files in the order in
/// which they were found, and the paths whose names the profile rejected and
/// wants reported.
#[derive(Clone, Debug)]
pub struct Grouping {
    pub groups: Vec<SampleGroup>,
    pub unmatched: Vec<String>,
}

/// The texts of a sequence of strings.
pub open spec fn texts(v: Seq<String>) -> Seq<Seq<char>> {
    v.map_values(|s: String| s@)
}

/// What a sequence of file references holds, as text.
pub open spec fn files_view(fs: Seq<RasterFileRef>) -> Seq<FileModel> {
    fs.map_values(|f: RasterFileRef| f@)
}

/// The sample key and band key that the profile reads from a path's name.
pub open spec fn match_path(p: DatasetProfile, path: Seq<char>) -> Option<(Seq<char>, Seq<char>)> {
    match file_stem_of(path) {
        Some(stem) => pattern_captures(p.stem_pattern_spec(), stem),
        None => None,
    }
}

/// The files among `paths` whose names the profile accepts, in order.
pub open spec fn matched_files(p: DatasetProfile, paths: Seq<Seq<char>>) -> Seq<FileModel>
    decreases paths.len(),
{
    if paths.len() == 0 {
        Seq::empty()
    } else {
        let before = matched_files(p, paths.drop_last());
        match match_path(p, paths.last()) {
            Some((s, b)) => before.push(FileModel { path: paths.last(), sample_key: s, band_key: b }),
            None => before,
        }
    }
}

/// The paths whose names the profile rejects, in order.
pub open spec fn unmatched_paths(p: DatasetProfile, paths: Seq<Seq<char>>) -> Seq<Seq<char>>
    decreases paths.len(),
{
    if paths.len() == 0 {
        Seq::empty()
    } else {
        let before = unmatched_paths(p, paths.drop_last());
        match match_path(p, paths.last()) {
            Some(_) => before,
            None => before.push(paths.last()),
        }
    }
}

/// The files of `fs` that belong to sample `k`, in order.
pub open spec fn files_of_sample(fs: Seq<FileModel>, k: Seq<char>) -> Seq<FileModel>
    decreases fs.len(),
{
    if fs.len() == 0 {
        Seq::empty()
    } else {
        let before = files_of_sample(fs.drop_last(), k);
        if fs.last().sample_key == k {
            before.push(fs.last())
        } else {
            before
        }
    }
}

/// No two groups share a sample key.
pub open spec fn keys_distinct(gs: Seq<SampleGroup>) -> bool {
    forall|i: int, j: int|
        0 <= i < gs.len() && 0 <= j < gs.len() && i != j ==> gs[i].sample_key@ != gs[j].sample_key@
}

/// `gs` groups exactly the files `fs` by sample: one group per sample key
/// that occurs, holding that sample's files in their order in `fs`.
pub open spec fn groups_exactly(gs: Seq<SampleGroup>, fs: Seq<FileModel>) -> bool {
    &&& keys_distinct(gs)
    &&& forall|i: int|
        0 <= i < gs.len() ==> files_view(#[trigger] gs[i].files@) == files_of_sample(
            fs,
            gs[i].sample_key@,
        ) && gs[i].files@.len() > 0
    &&& forall|m: int| 0 <= m < fs.len() ==> has_group(gs, (#[trigger] fs[m]).sample_key)
}

/// Some group of `gs` has sample key `k`.
pub open spec fn has_group(gs: Seq<SampleGroup>, k: Seq<char>) -> bool {
    exists|i: int| 0 <= i < gs.len() && #[trigger] gs[i].sample_key@ == k
}

proof fn lemma_files_of_sample_push(fs: Seq<FileModel>, f: FileModel, k: Seq<char>)
    ensures
        files_of_sample(fs.push(f), k) == if f.sample_key == k {
            files_of_sample(fs, k).push(f)
        } else {
            files_of_sample(fs, k)
        },
{
    assert(fs.push(f).drop_last() =~= fs);
}

proof fn lemma_files_of_sample_absent(fs: Seq<FileModel>, k: Seq<char>)
    requires
        forall|m: int| 0 <= m < fs.len() ==> (#[trigger] fs[m]).sample_key != k,
    ensures
        files_of_sample(fs, k) == Seq::<FileModel>::empty(),
    decreases fs.len(),
{
    if fs.len() > 0 {
        lemma_files_of_sample_absent(fs.drop_last(), k);
    }
}

/// A copy of a list of file references.
pub fn copy_files(fs: &Vec<RasterFileRef>) -> (r: Vec<RasterFileRef>)
    ensures
        files_view(r@) == files_view(fs@),
{
    let mut r: Vec<RasterFileRef> = Vec::new();
    let mut i: usize = 0;
    while i < fs.len()
        invariant
            i <= fs@.len(),
            r@.len() == i,
            forall|q: int| 0 <= q < i ==> (#[trigger] r@[q])@ == fs@[q]@,
        decreases fs.len() - i,
    {
        let f = &fs[i];
        r.push(RasterFileRef { path: f.path.clone(), sample_key: f.sample_key.clone(), band_key: f.band_key.clone() });
        i = i + 1;
    }
    assert(files_view(r@) =~= files_view(fs@));
    r
}

/// Reads the sample key and band key of each path's file name by the profile's
/// pattern and groups the accepted files by sample. A repeated band key within
/// a sample is kept here; `validate_groups` rejects it later.
pub fn group_files(profile: DatasetProfile, paths: &Vec<String>) -> (g: Grouping)
    ensures
        groups_exactly(g.groups@, matched_files(profile, texts(paths@))),
        texts(g.unmatched@) == if profile.warns_on_mismatch_spec() {
            unmatched_paths(profile, texts(paths@))
        } else {
            Seq::empty()
        },
{
    let pattern = match StemPattern::compile(profile.stem_pattern()) {
        Some(p) => p,
        None => {
            return Grouping { groups: Vec::new(), unmatched: Vec::new() };
        },
    };
    let warns = profile.warns_on_mismatch();
    let ghost pv = texts(paths@);
    let mut groups: Vec<SampleGroup> = Vec::new();
    let mut unmatched: Vec<String> = Vec::new();
    let mut index: StringHashMap<usize> = StringHashMap::new();
    let mut i: usize = 0;
    while i < paths.len()
        invariant
            pv == texts(paths@),
            pattern@ == profile.stem_pattern_spec(),
            warns == profile.warns_on_mismatch_spec(),
            i <= paths.len(),
            forall|k: Seq<char>|
                #[trigger] index@.contains_key(k) ==> index@[k] < groups@.len() && groups@[index@[k] as int].sample_key@ == k,
            forall|j: int|
                0 <= j < groups@.len() ==> index@.contains_key((#[trigger] groups@[j]).sample_key@)
                    && index@[groups@[j].sample_key@] == j,
            forall|j: int|
                0 <= j < groups@.len() ==> files_view(#[trigger] groups@[j].files@) == files_of_sample(
                    matched_files(profile, pv.take(i as int)),
                    groups@[j].sample_key@,
                ) && groups@[j].files@.len() > 0,
            forall|m: int|
                0 <= m < matched_files(profile, pv.take(i as int)).len() ==> index@.contains_key(
                    (#[trigger] matched_files(profile, pv.take(i as int))[m]).sample_key,
                ),
            texts(unmatched@) == if warns {
                unmatched_paths(profile, pv.take(i as int))
            } else {
                Seq::empty()
            },
        decreases paths.len() - i,
    {
        let ghost before = matched_files(profile, pv.take(i as int));
        proof {
            assert(pv.take(i + 1).drop_last() =~= pv.take(i as int));
            assert(pv.take(i + 1).last() == paths@[i as int]@);
        }
        let path = &paths[i];
        let found = match file_stem(path.as_str()) {
            Some(stem) => pattern.split(stem.as_str()),
            None => None,
        };
        match found {
            Some((sample, band)) => {
                let f = RasterFileRef { path: path.clone(), sample_key: sample.clone(), band_key: band };
                let ghost after = before.push(f@);
                assert(matched_files(profile, pv.take(i + 1)) == after);
                match index.get(sample.as_str()) {
                    Some(j) => {
                        let j = *j;
                        let ghost old_groups = groups@;
                        groups[j].files.push(f);
                        assert(groups@[j as int].sample_key == old_groups[j as int].sample_key);
                        proof {
                            assert forall|q: int| 0 <= q < groups@.len() implies files_view(#[trigger] groups@[q].files@)
                                == files_of_sample(after, groups@[q].sample_key@) && groups@[q].files@.len() > 0 by {
                                lemma_files_of_sample_push(before, f@, groups@[q].sample_key@);
                                if q == j {
                                    assert(files_view(groups@[q].files@) =~= files_view(old_groups[q].files@).push(f@));
                                } else {
                                    assert(groups@[q] == old_groups[q]);
                                }
                            }
                            assert forall|m: int| 0 <= m < after.len() implies index@.contains_key(
                                (#[trigger] after[m]).sample_key) by {
                                if m < before.len() {
                                    assert(after[m] == before[m]);
                                }
                            }
                            assert forall|q: int| 0 <= q < groups@.len() implies index@.contains_key((#[trigger] groups@[q]).sample_key@)
                                && index@[groups@[q].sample_key@] == q by {
                                assert(groups@[q].sample_key == old_groups[q].sample_key);
                            }
                            assert forall|k: Seq<char>| #[trigger] index@.contains_key(k) implies index@[k] < groups@.len()
                                && groups@[index@[k] as int].sample_key@ == k by {
                                assert(groups@[index@[k] as int].sample_key == old_groups[index@[k] as int].sample_key);
                            }
                        }
                    },
                    None => {
                        let ghost old_groups = groups@;
                        let ghost old_index = index@;
                        index.insert(sample.clone(), groups.len());
                        let mut files: Vec<RasterFileRef> = Vec::new();
                        files.push(f);
                        groups.push(SampleGroup { sample_key: sample, files });
                        proof {
                            assert forall|m: int| 0 <= m < before.len() implies (#[trigger] before[m]).sample_key
                                != f@.sample_key by {
                                assert(old_index.contains_key(before[m].sample_key));
                            }
                            lemma_files_of_sample_absent(before, f@.sample_key);
                            assert forall|q: int| 0 <= q < groups@.len() implies files_view(#[trigger] groups@[q].files@)
                                == files_of_sample(after, groups@[q].sample_key@) && groups@[q].files@.len() > 0 by {
                                lemma_files_of_sample_push(before, f@, groups@[q].sample_key@);
                                if q == old_groups.len() {
                                    assert(files_view(groups@[q].files@) =~= seq![f@]);
                                    assert(Seq::<FileModel>::empty().push(f@) =~= seq![f@]);
                                } else {
                                    assert(groups@[q] == old_groups[q]);
                                }
                            }
                            assert forall|m: int| 0 <= m < after.len() implies index@.contains_key(
                                (#[trigger] after[m]).sample_key) by {
                                if m < before.len() {
                                    assert(after[m] == before[m]);
                                }
                            }
                            assert forall|j: int| 0 <= j < groups@.len() implies index@.contains_key((#[trigger] groups@[j]).sample_key@)
                                && index@[groups@[j].sample_key@] == j by {
                                if j < old_groups.len() {
                                    assert(groups@[j] == old_groups[j]);
                                }
                            }
                        }
                    },
                }
            },
            None => {
                assert(matched_files(profile, pv.take(i + 1)) == before);
                if warns {
                    unmatched.push(path.clone());
                    proof {
                        assert(texts(unmatched@) =~= unmatched_paths(profile, pv.take(i as int)).push(path@));
                    }
                }
            },
        }
        i = i + 1;
    }
    proof {
        assert(pv.take(paths@.len() as int) =~= pv);
        assert forall|m: int|
            0 <= m < matched_files(profile, pv).len() implies has_group(groups@, (#[trigger] matched_files(profile, pv)[m]).sample_key) by {
            let k = matched_files(profile, pv)[m].sample_key;
            assert(index@.contains_key(k));
            let q = index@[k] as int;
            assert(0 <= q < groups@.len());
            assert(groups@[q].sample_key@ == k);
        }
        assert forall|a: int, b: int|
            0 <= a < groups@.len() && 0 <= b < groups@.len() && a != b implies groups@[a].sample_key@
                != groups@[b].sample_key@ by {
            assert(index@.contains_key(groups@[a].sample_key@));
            assert(index@.contains_key(groups@[b].sample_key@));
        }
    }
    Grouping { groups, unmatched }
}

} // verus!
