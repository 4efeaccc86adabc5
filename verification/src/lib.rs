//! A verified image-map store and selection engine: a sorted key/filename
//! mapping parsed from flat JSON text, a content fingerprint for cheap
//! change detection, a lexicographic lower-bound filter, two random
//! selectors, and a store that swaps in changed content atomically.

pub mod duration;
pub mod filter;
pub mod fingerprint;
pub mod imagemap;
pub mod order;
pub mod samples;
pub mod select;
pub mod store;

pub use crate::duration::parse_duration;
pub use crate::filter::filter_after;
pub use crate::fingerprint::hash_content;
pub use crate::imagemap::{ImageMap, ParseError};
pub use crate::samples::test_keys;
pub use crate::select::{select_biased, select_uniform};
pub use crate::store::{poll_step, FetchError, ImageMapStore, PollOutcome};
