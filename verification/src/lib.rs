//! Greedy binary diffing: an edit script of typed chunks between two byte
//! sequences, a fusion pass over it, and an analyzer that attributes a byte
//! of the patched output to the chunk that produced it.

pub mod binary_diff;
pub mod binary_diff_analyzer;
pub mod byte_reader;
pub mod highlight;
pub mod viewer;

pub use crate::binary_diff::binary_diff_chunk::BinaryDiffChunk;
pub use crate::binary_diff::binary_diff_chunk::ChunkView;
pub use crate::binary_diff::error::BinaryDiffError;
pub use crate::binary_diff::BinaryDiff;
pub use crate::binary_diff_analyzer::derives_from::DerivesFrom;
pub use crate::binary_diff_analyzer::error::BinaryDiffAnalyzerError;
pub use crate::binary_diff_analyzer::BinaryDiffAnalyzer;
pub use crate::byte_reader::ByteReader;
pub use crate::byte_reader::IoErrorKind;
