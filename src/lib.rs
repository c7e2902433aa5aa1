//! Nozzle scheduling for a two-head pick-and-place machine with a
//! three-slot nozzle rack.

pub mod change;
pub mod config;
pub mod dispatch;
pub mod machine;
pub mod order;
pub mod package;
pub mod planner;
pub mod spans;
pub mod step;

pub use config::{NozzleConfig, PlanError};
pub use dispatch::{resolve_nozzle, step_for};
pub use change::{header_lines, NozzleChange};
pub use machine::{Head, Nozzle, NozzleStation};
pub use order::{processing_order, SortKey};
pub use package::{PackageConverter, PackageMap, PackageRule};
pub use planner::{Planner, PlannerAction};
pub use spans::SpanTable;
pub use step::{assign_nozzles, schedule_step, Schedule, StepPlan};
