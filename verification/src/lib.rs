//! Access to an Android phone over MTP: device paths and names, a metadata
//! cache, the operations of a device session, a writable NFS volume on top of
//! it, and the helpers of the command line.

pub mod bench;
pub mod bundle;
pub mod bundle_laws;
pub mod cache;
pub mod command_laws;
pub mod commands;
pub mod dirlist;
pub mod doctor;
pub mod error;
pub mod figure_laws;
pub mod format;
pub mod ids;
pub mod model;
pub mod mount;
pub mod mount_laws;
pub mod names;
pub mod nfs;
pub mod ops;
pub mod ops_laws;
pub mod pack;
pub mod path;
pub mod posix;
pub mod probe;
pub mod session;
pub mod session_laws;
pub mod session_runs;
pub mod status;
pub mod step;
pub mod text;
pub mod transfer;
pub mod volume;
pub mod volume_contents;
pub mod volume_laws;
pub mod volume_lists;
pub mod volume_names;
pub mod volume_step;
pub mod watch;
