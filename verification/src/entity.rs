//! The container's object graph: values, entries, records, collections, the
//! header and the container itself.
pub mod collection;
pub mod entries;
pub mod header;
pub mod record;
pub mod swd;
pub mod value;

pub use self::entries::Entries;
pub use self::header::{Header, REQUIRED_HEADER_FIELDS, VERSION_BYTES_LENGTH};
pub use self::swd::Swd;
