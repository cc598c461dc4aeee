//! Reading, verifying and writing of versioned pak archives: a flat set of
//! files packed into one blob, followed by an index and a fixed footer.
//!
//! The library works on bytes in memory and does no input or output of its
//! own. A package can be handled whole (`Pak::open`, `Pak::check_integrity`,
//! `extract`, `pack`) or piece by piece, by a caller that reads and writes the
//! payloads one at a time (`read_footer`, `Pak::from_index`, `check_payload`,
//! `restore`, `pack_entry`, `close_package`).

pub mod error;
pub mod codec;
pub mod text;
pub mod digest;
pub mod zlib;
pub mod record;
pub mod index;
pub mod pak;
pub mod blocks;
pub mod check;
pub mod unpack;
pub mod paths;
pub mod pack;
pub mod args;
pub mod laws;

pub use args::{parse_compression_level, parse_compression_method};
pub use check::CheckOptions;
pub use error::Error;
pub use pack::{pack, PackOptions, PackPath};
pub use pak::{Options, Pak};
pub use record::Record;
pub use text::{write_path, Encoding};
pub use unpack::extract;
