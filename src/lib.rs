//! Turns directories of single- or multi-band raster files into one archive of
//! named tensors per sample, ready to be stored in a key-value store.
//!
//! The library holds the logic: which files belong to which sample, the order of
//! the bands, the consistency checks across samples, the byte layout of the
//! tensors and the chunking of the writes. Reading rasters and writing the store
//! are left to the caller.

pub mod text;
pub mod profile;
pub mod natural;
pub mod names;
pub mod grouping;
pub mod ordering;
pub mod validate;
pub mod tensor;
pub mod archive;
pub mod writer;
pub mod pipeline;
