use vstd::prelude::*;
use crate::text::{eq_fold, eq_ignore_ascii_case};
use crate::profile::DatasetProfile;

verus! {

#[verifier::external_type_specification]
#[verifier::external_body]
pub struct ExRegex(regex::Regex);

/// What `std::path::Path::file_stem` gives for `path`: the file name without
/// its last extension.
pub uninterp spec fn file_stem_of(path: Seq<char>) -> Option<Seq<char>>;

/// What `std::path::Path::extension` gives for `path`.
pub uninterp spec fn extension_of(path: Seq<char>) -> Option<Seq<char>>;

/// The sample and band text that the regular expression `pattern` captures
/// from `stem` in its groups `sample` and `band`, if it matches.
pub uninterp spec fn pattern_captures(pattern: Seq<char>, stem: Seq<char>) -> Option<(Seq<char>, Seq<char>)>;

/// Relies on `std::path::Path::file_stem`, whose result depends on the path
/// text alone; a stem of a UTF-8 path is UTF-8.
#[verifier::external_body]
pub(crate) fn file_stem(path: &str) -> (r: Option<String>)
    ensures
        match r {
            Some(s) => file_stem_of(path@) == Some(s@),
            None => file_stem_of(path@) is None,
        },
{
    std::path::Path::new(path).file_stem().and_then(|s| s.to_str()).map(|s| s.to_string())
}

/// Relies on `std::path::Path::extension`, whose result depends on the path
/// text alone.
#[verifier::external_body]
fn file_extension(path: &str) -> (r: Option<String>)
    ensures
        match r {
            Some(s) => extension_of(path@) == Some(s@),
            None => extension_of(path@) is None,
        },
{
    std::path::Path::new(path).extension().and_then(|s| s.to_str()).map(|s| s.to_string())
}

/// Whether a path names a raster file: its extension is `tif` or `tiff`, in
/// any case.
pub open spec fn is_raster_path(path: Seq<char>) -> bool {
    match extension_of(path) {
        Some(e) => eq_fold(e, "tif"@) || eq_fold(e, "tiff"@),
        None => false,
    }
}

/// Whether the file at `path` is a raster file, by its extension.
pub fn is_raster_file(path: &str) -> (r: bool)
    ensures
        r == is_raster_path(path@),
{
    match file_extension(path) {
        Some(e) => eq_ignore_ascii_case(e.as_str(), "tif") || eq_ignore_ascii_case(e.as_str(), "tiff"),
        None => false,
    }
}

/// A compiled regular expression that splits a file stem into a sample key and
/// a band key.
pub struct StemPattern {
    source: String,
    regex: regex::Regex,
}

impl View for StemPattern {
    type V = Seq<char>;

    /// The text of the regular expression.
    closed spec fn view(&self) -> Seq<char> {
        self.source@
    }
}

impl StemPattern {
    /// Relies on `regex::Regex::new`, which compiles `source` or fails on an
    /// invalid expression. The three profile patterns are valid: each is a
    /// named group `(?<name>...)` of `.*`, a literal separator, a named group of
    /// literals or a character class, and `$`.
    #[verifier::external_body]
    pub(crate) fn compile(source: &str) -> (r: Option<StemPattern>)
        ensures
            r matches Some(p) ==> p@ == source@,
            source@ == DatasetProfile::BigEarthNetS1.stem_pattern_spec() || source@
                == DatasetProfile::BigEarthNetS2.stem_pattern_spec() || source@
                == DatasetProfile::HySpecNet.stem_pattern_spec() ==> r is Some,
    {
        match regex::Regex::new(source) {
            Ok(regex) => Some(StemPattern { source: source.to_string(), regex }),
            Err(_) => None,
        }
    }

    /// Relies on `regex::Regex::captures`, whose result depends on the
    /// expression and the text alone.
    #[verifier::external_body]
    pub(crate) fn split(&self, stem: &str) -> (r: Option<(String, String)>)
        ensures
            match r {
                Some((s, b)) => pattern_captures(self@, stem@) == Some((s@, b@)),
                None => pattern_captures(self@, stem@) is None,
            },
    {
        let caps = self.regex.captures(stem)?;
        let sample = caps.name("sample")?.as_str().to_string();
        let band = caps.name("band")?.as_str().to_string();
        Some((sample, band))
    }
}

} // verus!
