//! Random-access decoding of a binary-encoded table of lexical entries.
//!
//! A dictionary buffer holds a fixed-stride table of 32-bit little-endian
//! offsets, one per entry identifier, each pointing at a variable-length
//! record. A record carries a surface form, reading, normalized and
//! dictionary forms (UTF-16 encoded, length-prefixed), a part-of-speech
//! reference, and three arrays of entry identifiers describing segmentation.
//! [`word_infos::WordInfos`] resolves an identifier to a decoded
//! [`word_infos::WordInfo`], following a one-level dictionary-form
//! cross-reference to another entry's surface form.

pub mod encoding;
pub mod layout;
pub mod utf16;
pub mod word_infos;

pub use word_infos::LookupError;
pub use word_infos::WordInfo;
pub use word_infos::WordInfos;
