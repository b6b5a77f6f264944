//! Verified core of a C-callable device-management layer: the filesystem-tree model
//! and its boundary form, the connectivity watcher and its event queue, progress of
//! chunked transfers, the two-channel boundary result, device-info decisions and property-list reading.

pub mod file_tree;
pub mod boundary;
pub mod watcher;
pub mod transfer;
pub mod result;
pub mod device;
pub mod property_list;
