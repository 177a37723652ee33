use vstd::prelude::*;
use crate::grouping::{SampleGroup, RasterFileRef, texts, files_view, copy_files};
use crate::ordering::{sort_names, texts_naturally_sorted};
use crate::text::same_text;
use vstd::hash_map::StringHashMap;

verus! {

/// Why a batch of samples is inconsistent.
#[derive(Clone, Debug, PartialEq, Eq)]
pub enum ValidationError {
    /// One sample holds two files with the same band key. The sample's files
    /// are given in full.
    DuplicateBandKey { sample_key: String, files: Vec<RasterFileRef> },
    /// A sample's band keys differ from those of the first sample: `missing`
    /// are the first sample's keys that it lacks, `extra` the keys that only
    /// it has.
    MismatchedBandKeys { sample_key: String, missing: Vec<String>, extra: Vec<String> },
}

/// The band keys of a group's files, in order.
pub open spec fn band_keys_of(g: SampleGroup) -> Seq<Seq<char>> {
    g.files@.map_values(|f: RasterFileRef| f.band_key@)
}

/// Some file of `g` has band key `k`.
pub open spec fn has_band(g: SampleGroup, k: Seq<char>) -> bool {
    exists|f: int| 0 <= f < g.files@.len() && #[trigger] g.files@[f].band_key@ == k
}

/// Two files of `g` share a band key.
pub open spec fn has_duplicate_band(g: SampleGroup) -> bool {
    exists|a: int, b: int|
        0 <= a < b < g.files@.len() && #[trigger] g.files@[a].band_key@ == #[trigger] g.files@[b].band_key@
}

/// `g` and `h` have the same set of band keys.
pub open spec fn same_bands(g: SampleGroup, h: SampleGroup) -> bool {
    forall|k: Seq<char>| #[trigger] has_band(g, k) <==> #[trigger] has_band(h, k)
}

/// `r` lists exactly the band keys that `g` has and `h` lacks.
pub open spec fn lists_difference(r: Seq<Seq<char>>, g: SampleGroup, h: SampleGroup) -> bool {
    forall|k: Seq<char>| #[trigger] r.contains(k) <==> (has_band(g, k) && !has_band(h, k))
}

/// The first group of `gs` that holds a repeated band key.
pub open spec fn first_duplicate(gs: Seq<SampleGroup>, i: int) -> bool {
    &&& 0 <= i < gs.len()
    &&& has_duplicate_band(gs[i])
    &&& forall|j: int| 0 <= j < i ==> !has_duplicate_band(#[trigger] gs[j])
}

/// The first group of `gs` whose band keys differ from those of the first group.
pub open spec fn first_mismatch(gs: Seq<SampleGroup>, i: int) -> bool {
    &&& 0 < i < gs.len()
    &&& !same_bands(gs[i], gs[0])
    &&& forall|j: int| 0 <= j < i ==> same_bands(#[trigger] gs[j], gs[0])
}

/// Whether some file of `files` has band key `key`.
fn contains_band(g: &SampleGroup, key: &str) -> (r: bool)
    ensures
        r == has_band(*g, key@),
{
    let mut i: usize = 0;
    while i < g.files.len()
        invariant
            i <= g.files@.len(),
            forall|f: int| 0 <= f < i ==> g.files@[f].band_key@ != key@,
        decreases g.files.len() - i,
    {
        if same_text(g.files[i].band_key.as_str(), key) {
            return true;
        }
        i = i + 1;
    }
    false
}

/// The band keys of a group's files, in order.
pub fn band_keys(g: &SampleGroup) -> (r: Vec<String>)
    ensures
        texts(r@) == band_keys_of(*g),
{
    let mut r: Vec<String> = Vec::new();
    let mut i: usize = 0;
    while i < g.files.len()
        invariant
            i <= g.files@.len(),
            texts(r@) == band_keys_of(*g).take(i as int),
        decreases g.files.len() - i,
    {
        let ghost old_r = r@;
        r.push(g.files[i].band_key.clone());
        assert(texts(r@) =~= texts(old_r).push(g.files@[i as int].band_key@));
        assert(texts(r@) =~= band_keys_of(*g).take(i + 1));
        i = i + 1;
    }
    assert(band_keys_of(*g).take(i as int) =~= band_keys_of(*g));
    r
}

/// Whether two files of the group share a band key.
pub fn find_duplicate_band(g: &SampleGroup) -> (r: bool)
    ensures
        r == has_duplicate_band(*g),
{
    let n = g.files.len();
    let mut b: usize = 0;
    while b < n
        invariant
            n == g.files@.len(),
            b <= n,
            forall|x: int, y: int| 0 <= x < y < b ==> #[trigger] g.files@[x].band_key@ != #[trigger] g.files@[y].band_key@,
        decreases n - b,
    {
        let mut a: usize = 0;
        while a < b
            invariant
                n == g.files@.len(),
                a <= b < n,
                forall|x: int| 0 <= x < a ==> #[trigger] g.files@[x].band_key@ != g.files@[b as int].band_key@,
            decreases b - a,
        {
            if same_text(g.files[a].band_key.as_str(), g.files[b].band_key.as_str()) {
                return true;
            }
            a = a + 1;
        }
        b = b + 1;
    }
    false
}

/// The band keys that `g` has and `h` lacks, in the order of `g`'s files.
fn band_difference(g: &SampleGroup, h: &SampleGroup) -> (r: Vec<String>)
    ensures
        lists_difference(texts(r@), *g, *h),
{
    let mut r: Vec<String> = Vec::new();
    let mut i: usize = 0;
    while i < g.files.len()
        invariant
            i <= g.files@.len(),
            forall|k: Seq<char>| #[trigger] texts(r@).contains(k) <==> ((exists|f: int| 0 <= f < i && #[trigger] g.files@[f].band_key@ == k) && !has_band(*h, k)),
        decreases g.files.len() - i,
    {
        let key = &g.files[i].band_key;
        let ghost old_r = texts(r@);
        if !contains_band(h, key.as_str()) {
            r.push(key.clone());
            assert(texts(r@) == old_r.push(key@)) by {
                assert(texts(r@) =~= old_r.push(key@));
            }
            assert forall|k: Seq<char>| #[trigger] texts(r@).contains(k) <==> ((exists|f: int| 0 <= f < i + 1 && #[trigger] g.files@[f].band_key@ == k) && !has_band(*h, k)) by {
                if texts(r@).contains(k) {
                    let q = choose|q: int| 0 <= q < texts(r@).len() && texts(r@)[q] == k;
                    if q < old_r.len() {
                        assert(old_r[q] == k);
                        assert(old_r.contains(k));
                    } else {
                        assert(g.files@[i as int].band_key@ == k);
                    }
                }
                if (exists|f: int| 0 <= f < i + 1 && #[trigger] g.files@[f].band_key@ == k) && !has_band(*h, k) {
                    let f = choose|f: int| 0 <= f < i + 1 && #[trigger] g.files@[f].band_key@ == k;
                    if f == i {
                        assert(texts(r@)[old_r.len() as int] == k);
                    } else {
                        assert(old_r.contains(k));
                        let q = choose|q: int| 0 <= q < old_r.len() && old_r[q] == k;
                        assert(texts(r@)[q] == k);
                    }
                }
            }
        } else {
            assert forall|k: Seq<char>| #[trigger] texts(r@).contains(k) <==> ((exists|f: int| 0 <= f < i + 1 && #[trigger] g.files@[f].band_key@ == k) && !has_band(*h, k)) by {
                if (exists|f: int| 0 <= f < i + 1 && #[trigger] g.files@[f].band_key@ == k) && !has_band(*h, k) {
                    let f = choose|f: int| 0 <= f < i + 1 && #[trigger] g.files@[f].band_key@ == k;
                    if f == i {
                        assert(has_band(*h, key@));
                    }
                }
            }
        }
        i = i + 1;
    }
    r
}

/// Checks that a batch of samples is consistent: no sample holds a band key
/// twice, and every sample has the same set of band keys as the first. On
/// success gives the band keys of the first sample, which every archive of
/// the batch will hold (none for an empty batch). The repeated-key check runs
/// over the whole batch before the comparison of key sets.
pub fn validate_groups(groups: &Vec<SampleGroup>) -> (r: Result<Vec<String>, ValidationError>)
    ensures
        match r {
            Ok(schema) => {
                &&& forall|i: int| 0 <= i < groups@.len() ==> !has_duplicate_band(#[trigger] groups@[i])
                &&& forall|i: int| 0 <= i < groups@.len() ==> same_bands(#[trigger] groups@[i], groups@[0])
                &&& groups@.len() == 0 ==> schema@.len() == 0
                &&& groups@.len() > 0 ==> texts(schema@).to_multiset() == band_keys_of(groups@[0]).to_multiset()
                &&& texts_naturally_sorted(texts(schema@))
            },
            Err(ValidationError::DuplicateBandKey { sample_key, files }) => exists|i: int|
                #[trigger] first_duplicate(groups@, i) && sample_key@ == groups@[i].sample_key@
                    && files_view(files@) == files_view(groups@[i].files@),
            Err(ValidationError::MismatchedBandKeys { sample_key, missing, extra }) => {
                &&& forall|i: int| 0 <= i < groups@.len() ==> !has_duplicate_band(#[trigger] groups@[i])
                &&& exists|i: int|
                    #[trigger] first_mismatch(groups@, i) && sample_key@ == groups@[i].sample_key@
                        && lists_difference(texts(missing@), groups@[0], groups@[i])
                        && lists_difference(texts(extra@), groups@[i], groups@[0])
            },
        },
{
    let mut i: usize = 0;
    while i < groups.len()
        invariant
            i <= groups@.len(),
            forall|j: int| 0 <= j < i ==> !has_duplicate_band(#[trigger] groups@[j]),
        decreases groups.len() - i,
    {
        if find_duplicate_band(&groups[i]) {
            let files = copy_files(&groups[i].files);
            assert(first_duplicate(groups@, i as int));
            return Err(ValidationError::DuplicateBandKey { sample_key: groups[i].sample_key.clone(), files });
        }
        i = i + 1;
    }
    if groups.len() == 0 {
        return Ok(Vec::new());
    }
    let first = &groups[0];
    let mut i: usize = 1;
    while i < groups.len()
        invariant
            1 <= i <= groups@.len(),
            *first == groups@[0],
            forall|j: int| 0 <= j < groups@.len() ==> !has_duplicate_band(#[trigger] groups@[j]),
            forall|j: int| 0 <= j < i ==> same_bands(#[trigger] groups@[j], groups@[0]),
        decreases groups.len() - i,
    {
        let missing = band_difference(first, &groups[i]);
        let extra = band_difference(&groups[i], first);
        if missing.len() > 0 || extra.len() > 0 {
            proof {
                let k = if missing.len() > 0 { texts(missing@)[0] } else { texts(extra@)[0] };
                if missing.len() > 0 {
                    assert(texts(missing@).contains(k));
                } else {
                    assert(texts(extra@).contains(k));
                }
                assert(!(has_band(groups@[i as int], k) <==> has_band(groups@[0], k)));
                assert(first_mismatch(groups@, i as int));
            }
            return Err(ValidationError::MismatchedBandKeys { sample_key: groups[i].sample_key.clone(), missing, extra });
        }
        proof {
            assert forall|k: Seq<char>| #[trigger] has_band(groups@[i as int], k) <==> #[trigger] has_band(groups@[0], k) by {
                if has_band(groups@[i as int], k) && !has_band(groups@[0], k) {
                    assert(texts(extra@).contains(k));
                }
                if has_band(groups@[0], k) && !has_band(groups@[i as int], k) {
                    assert(texts(missing@).contains(k));
                }
            }
        }
        i = i + 1;
    }
    Ok(schema_of(first))
}

/// The band keys of a sample, in natural order.
fn schema_of(g: &SampleGroup) -> (r: Vec<String>)
    ensures
        texts(r@).to_multiset() == band_keys_of(*g).to_multiset(),
        texts_naturally_sorted(texts(r@)),
{
    sort_names(band_keys(g))
}

/// Finds a sample key that occurs twice among the sample keys of several
/// dataset roots bound for one store; `None` when all are distinct.
pub fn find_repeated_key(keys: &Vec<String>) -> (r: Option<String>)
    ensures
        match r {
            None => forall|i: int, j: int|
                0 <= i < j < keys@.len() ==> #[trigger] keys@[i]@ != #[trigger] keys@[j]@,
            Some(k) => exists|i: int, j: int|
                0 <= i < j < keys@.len() && #[trigger] keys@[i]@ == k@ && #[trigger] keys@[j]@ == k@,
        },
{
    broadcast use vstd::hash_map::group_hash_map_axioms;

    let mut seen: StringHashMap<usize> = StringHashMap::new();
    let mut i: usize = 0;
    while i < keys.len()
        invariant
            i <= keys@.len(),
            forall|k: Seq<char>| #[trigger] seen@.contains_key(k) ==> seen@[k] < i && keys@[seen@[k] as int]@ == k,
            forall|j: int| 0 <= j < i ==> #[trigger] seen@.contains_key(keys@[j]@),
            forall|a: int, b: int| 0 <= a < b < i ==> #[trigger] keys@[a]@ != #[trigger] keys@[b]@,
        decreases keys.len() - i,
    {
        match seen.get(keys[i].as_str()) {
            Some(j) => {
                let ghost q = *j as int;
                assert(keys@[q]@ == keys@[i as int]@);
                return Some(keys[i].clone());
            },
            None => {
                proof {
                    assert forall|a: int| 0 <= a < i implies #[trigger] keys@[a]@ != keys@[i as int]@ by {
                        assert(seen@.contains_key(keys@[a]@));
                    }
                }
                seen.insert(keys[i].clone(), i);
            },
        }
        i = i + 1;
    }
    None
}

} // verus!
