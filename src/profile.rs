use vstd::prelude::*;
use std::cmp::Ordering;
use crate::text::{lex_cmp, lex_order, flip, same_text, lemma_lex_order_total};

verus! {

/// The supported imagery families. Each fixes how a file name splits into a
/// sample key and a band key, and in which order the bands of a sample go.
#[derive(Clone, Copy, Debug, PartialEq, Eq, Structural)]
pub enum DatasetProfile {
    /// Radar patches: one file per polarisation, `<sample>_VH` and `<sample>_VV`.
    BigEarthNetS1,
    /// Multispectral patches: one file per band, `<sample>_B02` and so on.
    BigEarthNetS2,
    /// Hyperspectral tiles: one file per sample, `<sample>-SPECTRAL_IMAGE`,
    /// holding all its bands.
    HySpecNet,
}

/// Number of bands in one hyperspectral file.
pub const HYSPECNET_BANDS: u32 = 224;

/// Why two band keys could not be compared.
#[derive(Clone, Debug, PartialEq, Eq)]
pub enum BandOrderError {
    /// The profile lists its bands and this key is not among them.
    UnknownBandKey(String),
}

/// Position of the first entry of `t` from index `i` on that equals `k`.
pub open spec fn position_from(t: Seq<Seq<char>>, k: Seq<char>, i: int) -> Option<int>
    decreases t.len() - i,
{
    if i < 0 || i >= t.len() {
        None
    } else if t[i] == k {
        Some(i)
    } else {
        position_from(t, k, i + 1)
    }
}

/// Position of the first entry of `t` that equals `k`.
pub open spec fn position_of(t: Seq<Seq<char>>, k: Seq<char>) -> Option<int> {
    position_from(t, k, 0)
}

/// Order of two positions.
pub open spec fn int_order(x: int, y: int) -> Ordering {
    if x < y {
        Ordering::Less
    } else if x == y {
        Ordering::Equal
    } else {
        Ordering::Greater
    }
}

proof fn lemma_position_from(t: Seq<Seq<char>>, k: Seq<char>, i: int)
    requires
        0 <= i,
    ensures
        match position_from(t, k, i) {
            Some(j) => i <= j < t.len() && t[j] == k,
            None => forall|j: int| i <= j < t.len() ==> t[j] != k,
        },
    decreases t.len() - i,
{
    if i < t.len() && t[i] != k {
        lemma_position_from(t, k, i + 1);
    }
}

/// Where `k` stands in `t`: `Some` exactly when `t` holds it, at an index
/// that holds it.
pub proof fn lemma_position_of(t: Seq<Seq<char>>, k: Seq<char>)
    ensures
        position_of(t, k) is Some <==> t.contains(k),
        position_of(t, k) matches Some(j) ==> 0 <= j < t.len() && t[j] == k,
{
    lemma_position_from(t, k, 0);
}

impl DatasetProfile {
    /// The explicit band order of the profile, if it has one.
    pub open spec fn band_table(self) -> Option<Seq<Seq<char>>> {
        match self {
            DatasetProfile::BigEarthNetS1 => Some(seq!["VH"@, "VV"@]),
            DatasetProfile::BigEarthNetS2 => Some(
                seq![
                    "B02"@, "B03"@, "B04"@, "B08"@, "B05"@, "B06"@, "B07"@, "B8A"@, "B10"@,
                    "B11"@, "B12"@, "B01"@, "B09"@,
                ],
            ),
            DatasetProfile::HySpecNet => None,
        }
    }

    /// Whether the profile's band order accepts `k` at all.
    pub open spec fn knows_band(self, k: Seq<char>) -> bool {
        match self.band_table() {
            Some(t) => t.contains(k),
            None => true,
        }
    }

    /// The band order of the profile: by position in its table where it has
    /// one (`None` for a key that the table lacks), else lexicographic.
    pub open spec fn band_order(self, a: Seq<char>, b: Seq<char>) -> Option<Ordering> {
        match self.band_table() {
            Some(t) => match (position_of(t, a), position_of(t, b)) {
                (Some(x), Some(y)) => Some(int_order(x, y)),
                _ => None,
            },
            None => Some(lex_order(a, b)),
        }
    }

    /// The regular expression that splits a file stem into the named groups
    /// `sample` and `band`.
    pub open spec fn stem_pattern_spec(self) -> Seq<char> {
        match self {
            DatasetProfile::BigEarthNetS1 => r"(?<sample>.*)_(?<band>V[VH])$"@,
            DatasetProfile::BigEarthNetS2 => r"(?<sample>.*)_(?<band>B[0-9A]+)$"@,
            DatasetProfile::HySpecNet => r"(?<sample>.*)-(?<band>SPECTRAL_IMAGE)$"@,
        }
    }

    /// Whether a file name that the pattern rejects is worth a warning. The
    /// hyperspectral tiles share their directories with other rasters, so
    /// there a mismatch is expected and passes silently.
    pub open spec fn warns_on_mismatch_spec(self) -> bool {
        !(self is HySpecNet)
    }

    /// How many bands one file of the profile holds.
    pub open spec fn bands_per_file_spec(self) -> nat {
        match self {
            DatasetProfile::HySpecNet => HYSPECNET_BANDS as nat,
            _ => 1,
        }
    }

    pub fn stem_pattern(&self) -> (r: &'static str)
        ensures
            r@ == self.stem_pattern_spec(),
    {
        match self {
            DatasetProfile::BigEarthNetS1 => r"(?<sample>.*)_(?<band>V[VH])$",
            DatasetProfile::BigEarthNetS2 => r"(?<sample>.*)_(?<band>B[0-9A]+)$",
            DatasetProfile::HySpecNet => r"(?<sample>.*)-(?<band>SPECTRAL_IMAGE)$",
        }
    }

    pub fn warns_on_mismatch(&self) -> (r: bool)
        ensures
            r == self.warns_on_mismatch_spec(),
    {
        match self {
            DatasetProfile::HySpecNet => false,
            _ => true,
        }
    }

    pub fn bands_per_file(&self) -> (r: u32)
        ensures
            r == self.bands_per_file_spec(),
            r >= 1,
    {
        match self {
            DatasetProfile::HySpecNet => HYSPECNET_BANDS,
            _ => 1,
        }
    }

    /// Whether each file of the profile holds exactly one band.
    pub fn single_band_files(&self) -> (r: bool)
        ensures
            r == (self.bands_per_file_spec() == 1),
    {
        self.bands_per_file() == 1
    }

    /// The explicit band order, as string literals.
    pub fn band_names(&self) -> (r: Option<Vec<&'static str>>)
        ensures
            match (r, self.band_table()) {
                (Some(v), Some(t)) => v@.len() == t.len() && forall|i: int|
                    0 <= i < t.len() ==> (#[trigger] v@[i])@ == t[i],
                (None, None) => true,
                _ => false,
            },
    {
        match self {
            DatasetProfile::BigEarthNetS1 => {
                let mut v: Vec<&'static str> = Vec::new();
                v.push("VH");
                v.push("VV");
                Some(v)
            },
            DatasetProfile::BigEarthNetS2 => {
                let mut v: Vec<&'static str> = Vec::new();
                v.push("B02");
                v.push("B03");
                v.push("B04");
                v.push("B08");
                v.push("B05");
                v.push("B06");
                v.push("B07");
                v.push("B8A");
                v.push("B10");
                v.push("B11");
                v.push("B12");
                v.push("B01");
                v.push("B09");
                Some(v)
            },
            DatasetProfile::HySpecNet => None,
        }
    }

    /// Position of `key` in the profile's band order (`None` where the
    /// profile has no explicit order or the key is not in it).
    pub fn band_rank(&self, key: &str) -> (r: Option<usize>)
        ensures
            match self.band_table() {
                Some(t) => match (r, position_of(t, key@)) {
                    (Some(x), Some(y)) => x as int == y,
                    (None, None) => true,
                    _ => false,
                },
                None => r is None,
            },
    {
        let names = match self.band_names() {
            Some(v) => v,
            None => {
                return None;
            },
        };
        assert(self.band_table() is Some);
        let ghost t = self.band_table()->0;
        let mut i: usize = 0;
        while i < names.len()
            invariant
                self.band_table() == Some(t),
                names@.len() == t.len(),
                forall|j: int| 0 <= j < t.len() ==> (#[trigger] names@[j])@ == t[j],
                i <= names.len(),
                position_from(t, key@, i as int) == position_from(t, key@, 0),
            decreases names.len() - i,
        {
            if same_text(names[i], key) {
                assert(position_from(t, key@, i as int) == Some(i as int));
                return Some(i);
            }
            i = i + 1;
        }
        None
    }

    /// Whether the profile's band order accepts `key`.
    pub fn knows_band_key(&self, key: &str) -> (r: bool)
        ensures
            r == self.knows_band(key@),
    {
        if self.band_names().is_none() {
            return true;
        }
        proof {
            lemma_position_of(self.band_table().unwrap(), key@);
        }
        self.band_rank(key).is_some()
    }

    /// Compares two band keys by the profile's band order. A key that an
    /// explicit order does not list is an error, never sorted somewhere.
    pub fn compare_band_keys(&self, a: &str, b: &str) -> (r: Result<Ordering, BandOrderError>)
        ensures
            match r {
                Ok(o) => self.band_order(a@, b@) == Some(o),
                Err(BandOrderError::UnknownBandKey(k)) => self.band_order(a@, b@) is None && k@
                    == (if !self.knows_band(a@) { a@ } else { b@ }),
            },
    {
        if self.band_names().is_none() {
            return Ok(lex_cmp(a, b));
        }
        let ra = self.band_rank(a);
        let rb = self.band_rank(b);
        proof {
            lemma_position_of(self.band_table().unwrap(), a@);
            lemma_position_of(self.band_table().unwrap(), b@);
        }
        match (ra, rb) {
            (Some(x), Some(y)) => {
                if x < y {
                    Ok(Ordering::Less)
                } else if x == y {
                    Ok(Ordering::Equal)
                } else {
                    Ok(Ordering::Greater)
                }
            },
            (None, _) => Err(BandOrderError::UnknownBandKey(a.to_string())),
            (_, None) => Err(BandOrderError::UnknownBandKey(b.to_string())),
        }
    }
}

/// For every profile the band order is a strict total order on the keys that
/// the profile knows: it compares any two of them, it is `Equal` only on equal
/// keys, swapping the keys reverses it, and `Less` is transitive. A key that the
/// profile does not know compares with nothing.
pub proof fn lemma_band_order_strict_total(
    p: DatasetProfile,
    a: Seq<char>,
    b: Seq<char>,
    c: Seq<char>,
)
    ensures
        p.knows_band(a) && p.knows_band(b) ==> p.band_order(a, b) is Some,
        p.knows_band(a) && p.knows_band(b) ==> ((p.band_order(a, b) == Some(Ordering::Equal))
            <==> a == b),
        p.knows_band(a) && p.knows_band(b) ==> p.band_order(b, a) == Some(
            flip(p.band_order(a, b).unwrap()),
        ),
        p.band_order(a, b) == Some(Ordering::Less) && p.band_order(b, c) == Some(Ordering::Less)
            ==> p.band_order(a, c) == Some(Ordering::Less),
        !p.knows_band(a) ==> p.band_order(a, b) is None && p.band_order(b, a) is None,
{
    match p.band_table() {
        Some(t) => {
            lemma_position_of(t, a);
            lemma_position_of(t, b);
            lemma_position_of(t, c);
        },
        None => {
            lemma_lex_order_total(a, b, c);
        },
    }
}

} // verus!
