pub mod find;
pub mod get_buffer_length;
pub mod read_bytes;
pub mod read_one_byte;
pub mod seek_to_byte;

pub use find::find;
pub use find::find_byte;
pub use get_buffer_length::get_buffer_length;
pub use read_bytes::read_bytes;
pub use read_one_byte::read_one_byte;
pub use seek_to_byte::seek_to_byte;
