//! Stale project scanning and month-bucketed archive planning.
//!
//! The filesystem is read and changed by the caller; this library holds the
//! decisions: which directories are stale, where each one goes, which name
//! avoids a collision, and how a run of moves ends.
pub mod apply;
pub mod bucket;
pub mod naming;
pub mod organize;
pub mod paths;
pub mod plan;
pub mod scan;

pub use apply::{next_apply_step, ApplyStep, ExecError, StepFailure};
pub use bucket::{month_bucket, zero_padded};
pub use naming::{avoid_collision, collision_candidate, decimal_string};
pub use organize::{category_for, file_category, organize_target, OrganizeStep};
pub use paths::join_path;
pub use plan::{ArchiveMove, ArchivePlan, PlanStep};
pub use scan::{
    newest_mtime_in_tree, scan_projects, ChildEntry, ProjectItem, ScanError, ScanReport,
    NANOS_PER_DAY, TREE_DEPTH,
};
