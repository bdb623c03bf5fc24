//! Verified core of a chunked-upload / ranged-download file service.
//!
//! The library holds the transfer logic: the upload streaming state machine,
//! the byte-range header parser and validator, the partial-content framing,
//! and the object-identifier convention. Actual HTTP and filesystem I/O live
//! outside; they hand this crate plain values and take plain values back.

pub mod digits;
pub mod errors;
pub mod object_id;
pub mod partial;
pub mod range;
pub mod upload;
