//! Builder and reader for immutable, paged, on-disk associative maps
//! ("NCD files") from byte-string keys to byte-string values.
//!
//! A file is built once from a value source and then queried many times;
//! each point lookup hashes the key, reads a single page, and probes that
//! page's open-addressed table.

pub mod bitbash;
pub mod builder;
pub mod flat;
pub mod hashmap;
pub mod header;
pub mod read;
pub mod util;
pub mod write;

pub use bitbash::{
    all_set, bounds_check, compute_hash, lesqlite2_read, lesqlite2_write, read_bytes, read_u16,
    read_u32, read_u64, read_uvar, write_bytes, write_u16, write_u32, write_u64, write_uvar,
    MAX_LESQLITE2_BYTES,
};
pub use builder::{Fraction, NCDBuild, NCDBuildConfig, NCDStats};
pub use flat::{NCDFlatConfig, NCDFlatSource};
pub use hashmap::{NCDHashMapValueSource, NCDHashMapValueSourceIterator};
pub use header::{NCDHeader, HEADER_SIZE, MAGIC_NUMBER};
pub use read::{
    NCDFileReader, NCDLookupEntry, NCDLookupResult, NCDPage, NCDReadAccessor, VecNCDReadAccessor,
};
pub use util::{
    all_whitespace, extract_pattern, extract_whitespace, u64_to_string, wrap_io_error, NCDError,
};
pub use write::{NCDPageWriter, NCDValueSource, NCDWriteAttempt};
