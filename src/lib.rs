//! Keeps file modification times across fresh checkouts of a source tree: a
//! snapshot records each file's fingerprint, size and time, and a later run
//! sets unchanged files back to their recorded time.
use vstd::prelude::*;

pub mod paths;
pub mod timestamp;
pub mod snapshot;
pub mod reconcile;
pub mod store;
pub mod display;
pub mod dirinfo;
pub mod orchestrate;

pub use crate::dirinfo::{directory_breakdown, DirectoryBreakdown, DirectoryInfo};
pub use crate::display::{bad_cache_disclaimer, format_timestamp, format_timestamp_diff, highlight_changes};
pub use crate::reconcile::{classify, plan_sync, Change, Restoration, SyncPlan};
pub use crate::snapshot::{Cache, HashedFile, RelativePath, Workspace, TIMELORD_CACHE_VERSION};
pub use crate::store::{cache_file_path, check_loaded, decode_frame, encode_frame, read_or_create_cache, CacheError};
pub use crate::orchestrate::{SyncAction, SyncEvent, SyncPhase};
pub use crate::timestamp::Timestamp;

verus! {

} // verus!
