//! Access to the entries of a VPK archive: the fixed-size entry header of the
//! directory index, and the reading of an entry's bytes, which are split
//! between preloaded bytes held in the index and a window of an archive blob.

pub mod entry;
pub mod header;
pub mod reader;
