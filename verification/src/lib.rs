//! Aggregate statistics over per-page-frame metadata.
//!
//! The library decodes three parallel fixed-width binary streams (one
//! little-endian `u64` entry per physical page frame: mapping count,
//! owning-cgroup inode, and a page-state flag bitmask), validates each
//! flag word against a fixed vocabulary of known bits, groups frames by
//! their exact flag combination, and ranks the groups by size.  The
//! callers read the streams and render the report; everything with
//! semantic content is verified here.

pub mod aggregate;
pub mod decode;
pub mod flags;
pub mod text;
