//! A verified metadata-backed image store.
//!
//! The library models a local gallery: a directory of image files plus a
//! single JSON index that records, for every stored image, its identifier,
//! filename, origin, timestamp, optional analysis result and user comments.
//! Every operation on the store is specified by a mathematical transition
//! function and proved to implement it.

pub mod clock;
pub mod dir;
pub mod errors;
pub mod json;
pub mod laws;
pub mod model;
pub mod store;
pub mod paths;
pub mod text;

pub use errors::StoreError;
pub use model::Comment;
pub use model::ImageRecord;
pub use model::IndexFile;
pub use store::FileEntry;
pub use store::ImageStore;
