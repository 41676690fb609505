//! Resolving program names against the directories of a search path.
//!
//! The library holds the rules: how the search-path variable is cut into
//! directories, how directory listings are merged into a cache so that the
//! first directory to list a name wins, and how a query is answered from the
//! cache. Reading the environment and the directories is left to the caller,
//! who hands over what was read as plain text.

pub mod cache;
pub mod listing;
pub mod locate;
pub mod reading;
pub mod search_path;

pub use cache::BinaryCache;
pub use listing::{DirEntry, DirListing};
pub use locate::{find_program, Lookup};
pub use reading::{listing_of, listings_of, DirReading, EntryReading};
pub use search_path::{search_directories, POSIX_SEPARATOR, WINDOWS_SEPARATOR};
