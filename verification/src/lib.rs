//! Planning and bookkeeping for merging a directory of zip archives into one.

pub mod error;
pub mod format;
pub mod inventory;
pub mod job;
pub mod merge;
pub mod names;
pub mod precheck;
pub mod progress;
pub mod size;
pub mod split;
pub mod text;
pub mod totals;
pub mod uniqueness;

pub use error::MergeError;
pub use format::{hms, human};
pub use inventory::{list_zip_files, select_archives};
pub use job::MergeJob;
pub use merge::{plan_archive, PlannedEntry};
pub use names::{map_target, should_skip, DedupTable};
pub use precheck::{disk_precheck, required_space, space_message, CompressionMode, FreeSpace};
pub use progress::{archive_label, eta_seconds, percent, ProgressState};
pub use size::{parse_normalized_size, parse_size};
pub use split::{chunk_len, join_command, part_name, raw_split, Part, SplitPlan};
pub use totals::{archive_totals, EntryRecord, SizeTotals};
