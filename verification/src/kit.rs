//! Kit content: asset classification and keyed resource stores.

pub mod asset;
pub mod resources;

pub use asset::{Asset, Kind};
pub use resources::{Key, ParseError as ParseKeyError, Resources};
