//! Columnar in-memory buffers: a typed, immutable-after-construction memory
//! region with bounds-checked access (`buffer`), and an offset-indexed
//! encoding of variable-length elements on top of it (`list`).

pub mod buffer;
pub mod bytebuf;
pub mod list;
