//! A generational slot allocator: a container that hands out stable keys for
//! values kept in a dense array, with a two-phase protocol that reserves a
//! key before its value is known, and a secondary map that attaches further
//! data to those keys.

pub mod error;
pub mod generation;
pub mod handle;
pub mod key;
pub mod map;
pub mod secondary;
pub mod slot;
pub mod state;
pub mod utils;
pub mod version;

pub use error::DeferredMapError;
pub use error::SnapshotError;
pub use generation::Generation;
pub use handle::Handle;
pub use key::DefaultKey;
pub use key::Key;
pub use map::DeferredMap;
pub use secondary::SecondaryMap;
pub use utils::decode_key;
pub use utils::encode_key;
pub use version::Version;
