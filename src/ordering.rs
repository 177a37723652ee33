use vstd::prelude::*;
use vstd::multiset::Multiset;
use std::cmp::Ordering;
use crate::profile::{DatasetProfile, BandOrderError, lemma_band_order_strict_total};
use crate::grouping::{RasterFileRef, FileModel, SampleGroup, files_view, texts};
use crate::natural::{natural_cmp, natural_order, lemma_natural_order_total};

verus! {

/// `a` goes before `b`, or they are equal, in the profile's band order.
pub open spec fn band_le(p: DatasetProfile, a: Seq<char>, b: Seq<char>) -> bool {
    p.band_order(a, b) matches Some(o) && o != Ordering::Greater
}

/// Every file's band key is one that the profile knows.
pub open spec fn bands_known(p: DatasetProfile, fs: Seq<FileModel>) -> bool {
    forall|i: int| 0 <= i < fs.len() ==> p.knows_band(#[trigger] fs[i].band_key)
}

/// The files stand in the profile's band order.
pub open spec fn bands_sorted(p: DatasetProfile, fs: Seq<FileModel>) -> bool {
    forall|i: int, j: int|
        0 <= i < j < fs.len() ==> band_le(p, #[trigger] fs[i].band_key, #[trigger] fs[j].band_key)
}

proof fn lemma_band_le_trans(p: DatasetProfile, a: Seq<char>, b: Seq<char>, c: Seq<char>)
    requires
        band_le(p, a, b),
        band_le(p, b, c),
    ensures
        band_le(p, a, c),
{
    lemma_band_order_strict_total(p, a, b, c);
    lemma_band_order_strict_total(p, a, c, b);
    lemma_band_order_strict_total(p, b, c, a);
    if !p.knows_band(a) {
        lemma_band_order_strict_total(p, a, b, c);
    }
}

proof fn lemma_band_not_less(p: DatasetProfile, a: Seq<char>, b: Seq<char>)
    requires
        p.knows_band(a),
        p.knows_band(b),
        p.band_order(a, b) != Some(Ordering::Less),
    ensures
        band_le(p, b, a),
{
    lemma_band_order_strict_total(p, a, b, a);
}

proof fn lemma_empty_multiset<A>(s: Seq<A>)
    requires
        s.len() == 0,
    ensures
        s.to_multiset() == Multiset::<A>::empty(),
{
    broadcast use vstd::seq_lib::group_to_multiset_ensures;

    assert(s.to_multiset() =~= Multiset::<A>::empty());
}

proof fn lemma_files_view_push(s: Seq<RasterFileRef>, x: RasterFileRef)
    ensures
        files_view(s.push(x)) == files_view(s).push(x@),
{
    assert(files_view(s.push(x)) =~= files_view(s).push(x@));
}

proof fn lemma_files_view_insert(s: Seq<RasterFileRef>, i: int, x: RasterFileRef)
    requires
        0 <= i <= s.len(),
    ensures
        files_view(s.insert(i, x)) == files_view(s).insert(i, x@),
{
    assert(files_view(s.insert(i, x)) =~= files_view(s).insert(i, x@));
}

/// Puts the files of one sample in the profile's band order. Every band key
/// must be one that the profile knows; the first that is not is the error.
pub fn sort_files(p: DatasetProfile, files: Vec<RasterFileRef>) -> (r: Result<Vec<RasterFileRef>, BandOrderError>)
    ensures
        match r {
            Ok(s) => {
                &&& bands_known(p, files_view(files@))
                &&& files_view(s@).to_multiset() == files_view(files@).to_multiset()
                &&& bands_sorted(p, files_view(s@))
            },
            Err(BandOrderError::UnknownBandKey(k)) => exists|i: int|
                0 <= i < files@.len() && !p.knows_band(#[trigger] files@[i].band_key@) && k@
                    == files@[i].band_key@,
        },
{
    let mut i: usize = 0;
    while i < files.len()
        invariant
            i <= files.len(),
            forall|j: int| 0 <= j < i ==> p.knows_band(#[trigger] files@[j].band_key@),
        decreases files.len() - i,
    {
        if !p.knows_band_key(files[i].band_key.as_str()) {
            return Err(BandOrderError::UnknownBandKey(files[i].band_key.clone()));
        }
        i = i + 1;
    }
    let ghost all = files_view(files@);
    assert(bands_known(p, all));
    let mut rest = files;
    let mut out: Vec<RasterFileRef> = Vec::new();
    proof {
        lemma_empty_multiset(files_view(out@));
        assert(files_view(out@).to_multiset().add(files_view(rest@).to_multiset()) =~= all.to_multiset());
    }
    while rest.len() > 0
        invariant
            bands_known(p, files_view(rest@)),
            bands_known(p, files_view(out@)),
            bands_sorted(p, files_view(out@)),
            files_view(out@).to_multiset().add(files_view(rest@).to_multiset()) == all.to_multiset(),
        decreases rest.len(),
    {
        let ghost old_rest = rest@;
        let x = rest.pop().unwrap();
        proof {
            assert(old_rest =~= rest@.push(x));
            lemma_files_view_push(rest@, x);
            assert(files_view(old_rest)[old_rest.len() - 1] == x@);
            assert forall|j: int| 0 <= j < rest@.len() implies p.knows_band(#[trigger] files_view(rest@)[j].band_key) by {
                assert(files_view(rest@)[j] == files_view(old_rest)[j]);
            }
        }
        let mut pos: usize = 0;
        while pos < out.len()
            invariant
                pos <= out.len(),
                p.knows_band(x@.band_key),
                bands_known(p, files_view(out@)),
                forall|k: int| 0 <= k < pos ==> p.band_order(#[trigger] files_view(out@)[k].band_key, x@.band_key)
                    == Some(Ordering::Less),
            ensures
                pos <= out.len(),
                forall|k: int| 0 <= k < pos ==> p.band_order(#[trigger] files_view(out@)[k].band_key, x@.band_key)
                    == Some(Ordering::Less),
                pos < out.len() ==> p.band_order(files_view(out@)[pos as int].band_key, x@.band_key) != Some(
                    Ordering::Less,
                ),
            decreases out.len() - pos,
        {
            match p.compare_band_keys(out[pos].band_key.as_str(), x.band_key.as_str()) {
                Ok(Ordering::Less) => {
                    assert(files_view(out@)[pos as int] == out@[pos as int]@);
                    pos = pos + 1;
                },
                _ => {
                    assert(files_view(out@)[pos as int] == out@[pos as int]@);
                    break;
                },
            }
        }
        let ghost before = files_view(out@);
        let ghost out_before = out@;
        proof {
            if pos < out.len() {
                assert(before[pos as int] == out@[pos as int]@);
                assert(p.knows_band(before[pos as int].band_key));
                lemma_band_not_less(p, before[pos as int].band_key, x@.band_key);
            }
        }
        out.insert(pos, x);
        proof {
            assert(out@ == out_before.insert(pos as int, x));
            lemma_files_view_insert(out_before, pos as int, x);
            let after = files_view(out@);
            assert(after == before.insert(pos as int, x@));
            assert forall|a: int, b: int| 0 <= a < b < after.len() implies band_le(
                p,
                #[trigger] after[a].band_key,
                #[trigger] after[b].band_key,
            ) by {
                if b < pos {
                    assert(after[a] == before[a] && after[b] == before[b]);
                } else if b == pos {
                    assert(after[a] == before[a] && after[b] == x@);
                } else if a < pos {
                    assert(after[a] == before[a] && after[b] == before[b - 1]);
                } else if a == pos {
                    assert(after[a] == x@ && after[b] == before[b - 1]);
                    if b - 1 > pos {
                        assert(band_le(p, before[pos as int].band_key, before[b - 1].band_key));
                        lemma_band_le_trans(p, x@.band_key, before[pos as int].band_key, before[b - 1].band_key);
                    }
                } else {
                    assert(after[a] == before[a - 1] && after[b] == before[b - 1]);
                }
            }
            assert forall|j: int| 0 <= j < after.len() implies p.knows_band(#[trigger] after[j].band_key) by {
                if j < pos {
                    assert(after[j] == before[j]);
                } else if j > pos {
                    assert(after[j] == before[j - 1]);
                }
            }
            vstd::seq_lib::to_multiset_insert(before, pos as int, x@);
            vstd::seq_lib::to_multiset_build(files_view(rest@), x@);
            assert(after.to_multiset() == before.to_multiset().insert(x@));
            assert(files_view(old_rest).to_multiset() == files_view(rest@).to_multiset().insert(x@));
            assert(after.to_multiset().add(files_view(rest@).to_multiset()) =~= before.to_multiset().add(
                files_view(old_rest).to_multiset(),
            ));
        }
    }
    proof {
        lemma_empty_multiset(files_view(rest@));
    }
    assert(files_view(out@).to_multiset().add(Multiset::empty()) =~= files_view(out@).to_multiset());
    Ok(out)
}

/// The strings stand in natural order, each next to the following.
pub open spec fn texts_naturally_sorted(s: Seq<Seq<char>>) -> bool {
    forall|i: int| 0 <= i < s.len() - 1 ==> #[trigger] natural_order(s[i], s[i + 1]) != Ordering::Greater
}

proof fn lemma_texts_push(s: Seq<String>, x: String)
    ensures
        texts(s.push(x)) == texts(s).push(x@),
{
    assert(texts(s.push(x)) =~= texts(s).push(x@));
}

proof fn lemma_texts_insert(s: Seq<String>, i: int, x: String)
    requires
        0 <= i <= s.len(),
    ensures
        texts(s.insert(i, x)) == texts(s).insert(i, x@),
{
    assert(texts(s.insert(i, x)) =~= texts(s).insert(i, x@));
}

/// Puts strings in natural order, digit runs compared as numbers.
pub fn sort_names(v: Vec<String>) -> (r: Vec<String>)
    ensures
        texts(r@).to_multiset() == texts(v@).to_multiset(),
        texts_naturally_sorted(texts(r@)),
        forall|i: int, j: int| 0 <= i < j < r@.len() ==> #[trigger] natural_order(r@[i]@, r@[j]@) != Ordering::Greater,
{
    let ghost all = texts(v@);
    let mut rest = v;
    let mut out: Vec<String> = Vec::new();
    proof {
        lemma_empty_multiset(texts(out@));
        assert(texts(out@).to_multiset().add(texts(rest@).to_multiset()) =~= all.to_multiset());
    }
    while rest.len() > 0
        invariant
            texts_naturally_sorted(texts(out@)),
            texts(out@).to_multiset().add(texts(rest@).to_multiset()) == all.to_multiset(),
        decreases rest.len(),
    {
        let ghost old_rest = rest@;
        let x = rest.pop().unwrap();
        proof {
            assert(old_rest =~= rest@.push(x));
            lemma_texts_push(rest@, x);
            vstd::seq_lib::to_multiset_build(texts(rest@), x@);
            assert(old_rest[old_rest.len() - 1] == x);
        }
        let mut j: usize = out.len();
        while j > 0
            invariant
                j <= out@.len(),
                forall|k: int| j <= k < out@.len() ==> #[trigger] natural_order(x@, out@[k]@) == Ordering::Less,
            ensures
                j <= out@.len(),
                forall|k: int| j <= k < out@.len() ==> #[trigger] natural_order(x@, out@[k]@) == Ordering::Less,
                j > 0 ==> natural_order(out@[j - 1]@, x@) != Ordering::Greater,
            decreases j,
        {
            match natural_cmp(out[j - 1].as_str(), x.as_str()) {
                Ordering::Greater => {
                    j = j - 1;
                },
                _ => {
                    break;
                },
            }
        }
        let ghost before = texts(out@);
        let ghost out_before = out@;
        proof {
            if j < out.len() {
                assert(natural_order(x@, out@[j as int]@) == Ordering::Less);
            }
        }
        out.insert(j, x);
        proof {
            lemma_texts_insert(out_before, j as int, x);
            vstd::seq_lib::to_multiset_insert(before, j as int, x@);
            let after = texts(out@);
            assert(after == before.insert(j as int, x@));
            assert forall|i: int| 0 <= i < after.len() - 1 implies #[trigger] natural_order(after[i], after[i + 1])
                != Ordering::Greater by {
                if i + 1 < j {
                    assert(after[i] == before[i] && after[i + 1] == before[i + 1]);
                    assert(natural_order(before[i], before[i + 1]) != Ordering::Greater);
                } else if i + 1 == j {
                    assert(after[i] == out_before[i]@ && after[i + 1] == x@);
                    assert(natural_order(out_before[j - 1]@, x@) != Ordering::Greater);
                } else if i == j {
                    assert(after[i] == x@ && after[i + 1] == out_before[i]@);
                    assert(natural_order(x@, out_before[i]@) == Ordering::Less);
                } else {
                    assert(after[i] == before[i - 1] && after[i + 1] == before[i]);
                    assert(natural_order(before[i - 1], before[(i - 1) + 1]) != Ordering::Greater);
                }
            }
            assert(after.to_multiset().add(texts(rest@).to_multiset()) =~= before.to_multiset().add(
                texts(old_rest).to_multiset(),
            ));
        }
    }
    proof {
        lemma_empty_multiset(texts(rest@));
        assert(texts(out@).to_multiset().add(vstd::multiset::Multiset::empty()) =~= texts(out@).to_multiset());
        lemma_texts_in_order(texts(out@));
        assert forall|i: int, j: int| 0 <= i < j < out@.len() implies #[trigger] natural_order(out@[i]@, out@[j]@)
            != Ordering::Greater by {
            assert(natural_order(texts(out@)[i], texts(out@)[j]) != Ordering::Greater);
        }
    }
    out
}

/// The groups stand in the natural order of their sample keys.
pub open spec fn naturally_sorted(gs: Seq<SampleGroup>) -> bool {
    forall|i: int|
        0 <= i < gs.len() - 1 ==> #[trigger] natural_order(gs[i].sample_key@, gs[i + 1].sample_key@)
            != Ordering::Greater
}

/// Every sample key stands before every later one in the natural order, or
/// equals it.
pub open spec fn samples_in_order(gs: Seq<SampleGroup>) -> bool {
    forall|i: int, j: int|
        0 <= i < j < gs.len() ==> #[trigger] natural_order(gs[i].sample_key@, gs[j].sample_key@)
            != Ordering::Greater
}

proof fn lemma_in_order_upto(s: Seq<Seq<char>>, i: int, j: int)
    requires
        texts_naturally_sorted(s),
        0 <= i < j < s.len(),
    ensures
        natural_order(s[i], s[j]) != Ordering::Greater,
    decreases j - i,
{
    assert(natural_order(s[j - 1], s[(j - 1) + 1]) != Ordering::Greater);
    if j > i + 1 {
        lemma_in_order_upto(s, i, j - 1);
        lemma_natural_order_total(s[i], s[j - 1], s[j]);
        lemma_natural_order_total(s[j - 1], s[j], s[i]);
        lemma_natural_order_total(s[i], s[j], s[j - 1]);
    }
}

/// Natural order between neighbours is natural order between every pair,
/// since the natural order is transitive.
pub proof fn lemma_texts_in_order(s: Seq<Seq<char>>)
    requires
        texts_naturally_sorted(s),
    ensures
        forall|i: int, j: int| 0 <= i < j < s.len() ==> #[trigger] natural_order(s[i], s[j]) != Ordering::Greater,
{
    assert forall|i: int, j: int| 0 <= i < j < s.len() implies #[trigger] natural_order(s[i], s[j])
        != Ordering::Greater by {
        lemma_in_order_upto(s, i, j);
    }
}

/// The same for the sample keys of groups.
pub proof fn lemma_samples_in_order(gs: Seq<SampleGroup>)
    requires
        naturally_sorted(gs),
    ensures
        samples_in_order(gs),
{
    let keys = gs.map_values(|g: SampleGroup| g.sample_key@);
    assert forall|i: int| 0 <= i < keys.len() - 1 implies #[trigger] natural_order(keys[i], keys[i + 1])
        != Ordering::Greater by {
        assert(natural_order(gs[i].sample_key@, gs[i + 1].sample_key@) != Ordering::Greater);
    }
    lemma_texts_in_order(keys);
    assert forall|i: int, j: int| 0 <= i < j < gs.len() implies #[trigger] natural_order(
        gs[i].sample_key@,
        gs[j].sample_key@,
    ) != Ordering::Greater by {
        assert(natural_order(keys[i], keys[j]) != Ordering::Greater);
    }
}

/// The groups stand in the reverse of the natural order of their sample keys.
spec fn naturally_descending(gs: Seq<SampleGroup>) -> bool {
    forall|i: int|
        0 <= i < gs.len() - 1 ==> #[trigger] natural_order(gs[i + 1].sample_key@, gs[i].sample_key@)
            != Ordering::Greater
}

fn reversed<T>(v: Vec<T>) -> (r: Vec<T>)
    ensures
        r@ == v@.reverse(),
{
    let ghost orig = v@;
    let mut v = v;
    let mut r: Vec<T> = Vec::new();
    while v.len() > 0
        invariant
            v@ == orig.take(v@.len() as int),
            v@.len() <= orig.len(),
            r@.len() == orig.len() - v@.len(),
            forall|k: int| 0 <= k < r@.len() ==> #[trigger] r@[k] == orig[orig.len() - 1 - k],
        decreases v.len(),
    {
        let x = v.pop().unwrap();
        r.push(x);
        assert(v@ =~= orig.take(v@.len() as int));
    }
    assert(r@ =~= orig.reverse());
    r
}

proof fn lemma_pop_sorted(before: Seq<SampleGroup>, after: Seq<SampleGroup>, x: SampleGroup)
    requires
        before == after.push(x),
        naturally_sorted(before),
    ensures
        naturally_sorted(after),
        after.len() > 0 ==> natural_order(after.last().sample_key@, x.sample_key@) != Ordering::Greater,
        before.to_multiset() == after.to_multiset().insert(x),
{
    vstd::seq_lib::to_multiset_build(after, x);
    assert(before[before.len() - 1] == x);
    assert forall|i: int| 0 <= i < after.len() - 1 implies #[trigger] natural_order(after[i].sample_key@, after[i + 1].sample_key@)
        != Ordering::Greater by {
        assert(after[i] == before[i] && after[i + 1] == before[i + 1]);
    }
    if after.len() > 0 {
        let k = before.len() - 2;
        assert(after.last() == before[k]);
        assert(natural_order(before[k].sample_key@, before[k + 1].sample_key@) != Ordering::Greater);
    }
}

proof fn lemma_push_descending(before: Seq<SampleGroup>, x: SampleGroup)
    requires
        naturally_descending(before),
        before.len() > 0 ==> natural_order(x.sample_key@, before.last().sample_key@) != Ordering::Greater,
    ensures
        naturally_descending(before.push(x)),
        before.push(x).last() == x,
        before.push(x).to_multiset() == before.to_multiset().insert(x),
{
    vstd::seq_lib::to_multiset_build(before, x);
    let after = before.push(x);
    assert forall|i: int| 0 <= i < after.len() - 1 implies #[trigger] natural_order(after[i + 1].sample_key@, after[i].sample_key@)
        != Ordering::Greater by {
        if i + 1 < before.len() {
            assert(after[i] == before[i] && after[i + 1] == before[i + 1]);
        } else {
            assert(after[i] == before.last());
        }
    }
}

fn merge_groups(l: Vec<SampleGroup>, r: Vec<SampleGroup>) -> (out: Vec<SampleGroup>)
    requires
        naturally_sorted(l@),
        naturally_sorted(r@),
    ensures
        out@.to_multiset() == l@.to_multiset().add(r@.to_multiset()),
        naturally_sorted(out@),
{
    let ghost total = l@.to_multiset().add(r@.to_multiset());
    let mut l = l;
    let mut r = r;
    let mut desc: Vec<SampleGroup> = Vec::new();
    proof {
        lemma_empty_multiset(desc@);
    }
    assert(desc@.to_multiset().add(l@.to_multiset()).add(r@.to_multiset()) =~= total);
    while l.len() > 0 || r.len() > 0
        invariant
            naturally_sorted(l@),
            naturally_sorted(r@),
            naturally_descending(desc@),
            desc@.len() > 0 && l@.len() > 0 ==> natural_order(l@.last().sample_key@, desc@.last().sample_key@)
                != Ordering::Greater,
            desc@.len() > 0 && r@.len() > 0 ==> natural_order(r@.last().sample_key@, desc@.last().sample_key@)
                != Ordering::Greater,
            desc@.to_multiset().add(l@.to_multiset()).add(r@.to_multiset()) == total,
        decreases l.len() + r.len(),
    {
        let take_left = if l.len() == 0 {
            false
        } else if r.len() == 0 {
            true
        } else {
            match natural_cmp(l[l.len() - 1].sample_key.as_str(), r[r.len() - 1].sample_key.as_str()) {
                Ordering::Greater => true,
                _ => false,
            }
        };
        let ghost old_l = l@;
        let ghost old_r = r@;
        let ghost old_desc = desc@;
        if take_left {
            let x = l.pop().unwrap();
            proof {
                assert(old_l =~= l@.push(x));
                lemma_pop_sorted(old_l, l@, x);
                lemma_push_descending(old_desc, x);
                if r@.len() > 0 {
                    assert(natural_order(r@.last().sample_key@, x.sample_key@) == Ordering::Less);
                }
            }
            desc.push(x);
        } else {
            let x = r.pop().unwrap();
            proof {
                assert(old_r =~= r@.push(x));
                lemma_pop_sorted(old_r, r@, x);
                lemma_push_descending(old_desc, x);
            }
            desc.push(x);
        }
        proof {
            assert(desc@.to_multiset().add(l@.to_multiset()).add(r@.to_multiset()) =~= total);
        }
    }
    proof {
        lemma_empty_multiset(l@);
        lemma_empty_multiset(r@);
        assert(desc@.to_multiset() =~= total);
        desc@.lemma_reverse_to_multiset();
    }
    let out = reversed(desc);
    proof {
        let n = desc@.len();
        assert forall|i: int| 0 <= i < out@.len() - 1 implies #[trigger] natural_order(out@[i].sample_key@, out@[i + 1].sample_key@)
            != Ordering::Greater by {
            assert(out@[i] == desc@[n - 1 - i]);
            assert(out@[i + 1] == desc@[n - 2 - i]);
            assert(desc@[n - 1 - i] == desc@[(n - 2 - i) + 1]);
        }
    }
    out
}

/// Puts the groups in the natural order of their sample keys, digit runs
/// compared as numbers.
pub fn sort_samples(v: Vec<SampleGroup>) -> (r: Vec<SampleGroup>)
    ensures
        r@.to_multiset() == v@.to_multiset(),
        naturally_sorted(r@),
    decreases v@.len(),
{
    if v.len() <= 1 {
        return v;
    }
    let ghost orig = v@;
    let mut left = v;
    let mid = left.len() / 2;
    let right = left.split_off(mid);
    proof {
        assert(orig =~= left@ + right@);
        vstd::seq_lib::lemma_multiset_commutative(left@, right@);
    }
    let a = sort_samples(left);
    let b = sort_samples(right);
    merge_groups(a, b)
}

/// Why a batch of groups could not be put in order.
#[derive(Clone, Debug, PartialEq, Eq)]
pub enum OrderError {
    /// A file's band key is not in the profile's band order.
    UnknownBandKey(String),
}

/// `h` is `g` with its files put in the profile's band order.
pub open spec fn ordered_version(p: DatasetProfile, g: SampleGroup, h: SampleGroup) -> bool {
    &&& h.sample_key@ == g.sample_key@
    &&& files_view(h.files@).to_multiset() == files_view(g.files@).to_multiset()
    &&& bands_known(p, files_view(g.files@))
    &&& bands_sorted(p, files_view(h.files@))
}

/// Some group of `gs`, with its files put in band order, is `h`.
pub open spec fn orders_some(p: DatasetProfile, gs: Seq<SampleGroup>, h: SampleGroup) -> bool {
    exists|j: int| 0 <= j < gs.len() && #[trigger] ordered_version(p, gs[j], h)
}

/// Some group of `hs` is `g` with its files put in band order.
pub open spec fn ordered_in(p: DatasetProfile, g: SampleGroup, hs: Seq<SampleGroup>) -> bool {
    exists|i: int| 0 <= i < hs.len() && #[trigger] ordered_version(p, g, hs[i])
}

/// Some file of `g` has band key `k`, which the profile does not know.
pub open spec fn has_unknown_band(p: DatasetProfile, g: SampleGroup, k: Seq<char>) -> bool {
    exists|f: int| 0 <= f < g.files@.len() && #[trigger] g.files@[f].band_key@ == k && !p.knows_band(k)
}

/// No two of the files share a band key.
pub open spec fn bands_distinct(fs: Seq<FileModel>) -> bool {
    forall|i: int, j: int|
        0 <= i < j < fs.len() ==> #[trigger] fs[i].band_key != #[trigger] fs[j].band_key
}

/// The band order leaves nothing to chance: two band-ordered arrangements of
/// the same files, whose band keys are distinct, are the same sequence. So
/// the files of a sample, and with them its archive, come out the same
/// whatever order the files were found in.
pub proof fn lemma_band_order_canonical(p: DatasetProfile, a: Seq<FileModel>, b: Seq<FileModel>)
    requires
        bands_known(p, a),
        bands_distinct(a),
        bands_sorted(p, a),
        bands_sorted(p, b),
        a.to_multiset() == b.to_multiset(),
    ensures
        a == b,
    decreases a.len(),
{
    vstd::seq_lib::to_multiset_len(a);
    vstd::seq_lib::to_multiset_len(b);
    if a.len() == 0 {
        assert(a =~= b);
    } else {
        vstd::seq_lib::to_multiset_contains(a, b[0]);
        vstd::seq_lib::to_multiset_contains(b, b[0]);
        vstd::seq_lib::to_multiset_contains(a, a[0]);
        vstd::seq_lib::to_multiset_contains(b, a[0]);
        assert(b.contains(b[0]));
        assert(a.contains(a[0]));
        let i = choose|i: int| 0 <= i < a.len() && a[i] == b[0];
        let j = choose|j: int| 0 <= j < b.len() && b[j] == a[0];
        let x = a[0].band_key;
        let y = b[0].band_key;
        assert(p.knows_band(x));
        assert(p.knows_band(a[i].band_key));
        assert(band_le(p, x, y)) by {
            if i > 0 {
                assert(band_le(p, a[0].band_key, a[i].band_key));
            } else {
                lemma_band_order_strict_total(p, x, x, x);
            }
        }
        assert(band_le(p, y, x)) by {
            if j > 0 {
                assert(band_le(p, b[0].band_key, b[j].band_key));
            } else {
                lemma_band_order_strict_total(p, x, x, x);
            }
        }
        lemma_band_order_strict_total(p, x, y, x);
        assert(x == y);
        assert(i == 0) by {
            if i > 0 {
                assert(a[0].band_key != a[i].band_key);
            }
        }
        assert(a[0] == b[0]);
        vstd::seq_lib::to_multiset_remove(a, 0);
        vstd::seq_lib::to_multiset_remove(b, 0);
        assert(a.remove(0) =~= a.drop_first());
        assert(b.remove(0) =~= b.drop_first());
        let a1 = a.drop_first();
        let b1 = b.drop_first();
        assert forall|k: int| 0 <= k < a1.len() implies p.knows_band(#[trigger] a1[k].band_key) by {
            assert(a1[k] == a[k + 1]);
        }
        assert forall|u: int, v: int| 0 <= u < v < a1.len() implies #[trigger] a1[u].band_key != #[trigger] a1[v].band_key by {
            assert(a1[u] == a[u + 1] && a1[v] == a[v + 1]);
        }
        assert forall|u: int, v: int| 0 <= u < v < a1.len() implies band_le(p, #[trigger] a1[u].band_key, #[trigger] a1[v].band_key) by {
            assert(a1[u] == a[u + 1] && a1[v] == a[v + 1]);
        }
        assert forall|u: int, v: int| 0 <= u < v < b1.len() implies band_le(p, #[trigger] b1[u].band_key, #[trigger] b1[v].band_key) by {
            assert(b1[u] == b[u + 1] && b1[v] == b[v + 1]);
        }
        lemma_band_order_canonical(p, a1, b1);
        assert(a =~= b) by {
            assert forall|k: int| 0 <= k < a.len() implies a[k] == b[k] by {
                if k > 0 {
                    assert(a[k] == a1[k - 1] && b[k] == b1[k - 1]);
                }
            }
        }
    }
}

/// `out` is `gs` in canonical order: the same samples, each with its files in
/// band order, the samples in natural order.
pub open spec fn ordered_from(p: DatasetProfile, gs: Seq<SampleGroup>, out: Seq<SampleGroup>) -> bool {
    &&& out.len() == gs.len()
    &&& samples_in_order(out)
    &&& forall|i: int| 0 <= i < out.len() ==> orders_some(p, gs, #[trigger] out[i])
    &&& forall|j: int| 0 <= j < gs.len() ==> ordered_in(p, #[trigger] gs[j], out)
}

/// Puts a batch of groups in canonical order: the files of each sample in the
/// profile's band order, and the samples in the natural order of their keys.
pub fn order_groups(p: DatasetProfile, groups: Vec<SampleGroup>) -> (r: Result<Vec<SampleGroup>, OrderError>)
    ensures
        match r {
            Ok(s) => ordered_from(p, groups@, s@),
            Err(OrderError::UnknownBandKey(k)) => exists|j: int|
                0 <= j < groups@.len() && has_unknown_band(p, #[trigger] groups@[j], k@),
        },
{
    let ghost orig = groups@;
    let sorted = sort_samples(groups);
    let ghost s0 = sorted@;
    let mut s = sorted;
    let mut j: usize = 0;
    while j < s.len()
        invariant
            s@.len() == s0.len(),
            j <= s@.len(),
            s0.to_multiset() == orig.to_multiset(),
            orig == groups@,
            forall|k: int| 0 <= k < j ==> ordered_version(p, s0[k], #[trigger] s@[k]),
            forall|k: int| j <= k < s@.len() ==> #[trigger] s@[k] == s0[k],
        decreases s.len() - j,
    {
        let ghost before = s@;
        let mut files: Vec<RasterFileRef> = Vec::new();
        std::mem::swap(&mut s[j].files, &mut files);
        assert(files@ == s0[j as int].files@);
        match sort_files(p, files) {
            Ok(sorted_files) => {
                s[j].files = sorted_files;
                proof {
                    assert forall|k: int| 0 <= k < s@.len() && k != j implies #[trigger] s@[k] == before[k] by {}
                }
            },
            Err(BandOrderError::UnknownBandKey(k)) => {
                proof {
                    vstd::seq_lib::to_multiset_contains(orig, s0[j as int]);
                    vstd::seq_lib::to_multiset_contains(s0, s0[j as int]);
                    assert(s0.contains(s0[j as int]));
                    let q = choose|q: int| 0 <= q < orig.len() && orig[q] == s0[j as int];
                    let f = choose|f: int| 0 <= f < s0[j as int].files@.len() && !p.knows_band(
                        #[trigger] s0[j as int].files@[f].band_key@) && k@ == s0[j as int].files@[f].band_key@;
                    assert(orig[q].files@[f] == s0[j as int].files@[f]);
                    assert(has_unknown_band(p, orig[q], k@));
                    assert(!p.knows_band(orig[q].files@[f].band_key@) && k@ == orig[q].files@[f].band_key@);
                    assert(0 <= f < orig[q].files@.len());
                    assert(exists|jj: int, ff: int|
                        0 <= jj < orig.len() && 0 <= ff < orig[jj].files@.len() && !p.knows_band(
                            #[trigger] orig[jj].files@[ff].band_key@,
                        ) && k@ == orig[jj].files@[ff].band_key@);
                }
                return Err(OrderError::UnknownBandKey(k));
            },
        }
        j = j + 1;
    }
    proof {
        assert forall|i: int| 0 <= i < s@.len() implies orders_some(p, orig, #[trigger] s@[i]) by {
            vstd::seq_lib::to_multiset_contains(s0, s0[i]);
            vstd::seq_lib::to_multiset_contains(orig, s0[i]);
            assert(s0.contains(s0[i]));
            let q = choose|q: int| 0 <= q < orig.len() && orig[q] == s0[i];
            assert(ordered_version(p, orig[q], s@[i]));
        }
        assert forall|q: int| 0 <= q < orig.len() implies ordered_in(p, #[trigger] orig[q], s@) by {
            vstd::seq_lib::to_multiset_contains(s0, orig[q]);
            vstd::seq_lib::to_multiset_contains(orig, orig[q]);
            assert(orig.contains(orig[q]));
            let i = choose|i: int| 0 <= i < s0.len() && s0[i] == orig[q];
            assert(ordered_version(p, orig[q], s@[i]));
        }
        vstd::seq_lib::to_multiset_len(s0);
        vstd::seq_lib::to_multiset_len(orig);
        assert forall|i: int| 0 <= i < s@.len() - 1 implies #[trigger] natural_order(s@[i].sample_key@, s@[i + 1].sample_key@)
            != Ordering::Greater by {
            assert(natural_order(s0[i].sample_key@, s0[i + 1].sample_key@) != Ordering::Greater);
        }
        lemma_samples_in_order(s@);
    }
    Ok(s)
}

} // verus!
