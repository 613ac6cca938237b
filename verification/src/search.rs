//! Reading and searching captured source.
pub mod archive;
pub mod expression;
pub mod extent_navigation;
pub mod extent_query;
pub mod extents;
pub mod file_search;
pub mod lens;
pub mod member_scan;
pub mod paged_snapshot;
pub mod reader;
pub mod reading_window;
pub mod selection;
pub mod snapshot;
pub mod snapshot_comparison;
pub mod snapshot_index;
pub mod source;
pub mod streaming;
pub mod symbols;
pub mod trail;
pub mod workspace;
