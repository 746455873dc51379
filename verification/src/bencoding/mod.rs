//! The bencoded value format: integers, byte strings, lists and dictionaries.
pub mod bencode;
pub mod decoder;
pub mod encoder;
pub mod info_hash;
pub mod info_slice;
pub mod laws;

pub use bencode::Bencode;
pub use bencode::Value;
pub use decoder::decode;
pub use decoder::DecodeError;
pub use info_hash::info_hash;
pub use info_slice::find_info_slice;
pub use info_slice::locate;
pub use info_slice::LocateError;
