//! A terminal paginated-text reader core: it reflows an extracted text blob
//! into fixed-size pages, tracks the page the reader is on, and lays out the
//! frame that a terminal front end draws.
pub mod text;
pub mod page;
pub mod wrap;
pub mod paginate;
pub mod viewer;
pub mod render;
