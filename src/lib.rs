//! Scheduling and interaction engine of a Gantt chart editor: tasks and
//! links with summary rollup and grouped order, the viewport transform, the
//! drag gesture state machine, link routing and hit-testing, and snapshot
//! undo history.

use vstd::prelude::*;

pub mod columns;
pub mod drag;
pub mod grouping;
pub mod history;
pub mod import;
pub mod project;
pub mod rollup;
pub mod routing;
pub mod session;
pub mod task;
pub mod theme;
pub mod timeline;

verus! {

} // verus!
