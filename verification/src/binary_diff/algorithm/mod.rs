pub mod get_delete_chunk;
pub mod get_insert_chunk;
pub mod get_same_chunk;
pub mod introduce_replace_chunk;
pub mod longest_common_substring;
pub mod sort_chunks;

pub use get_delete_chunk::get_delete_chunk;
pub use get_insert_chunk::get_insert_chunk;
pub use get_same_chunk::get_same_chunk;
pub use introduce_replace_chunk::introduce_replace_chunk;
pub use sort_chunks::sort_chunks;
