//! Project Euler solutions and the harness that runs them.
//!
//! The harness assembles solution tasks into a registry (`registry`), resolves
//! an optional selector to the tasks a run executes (`dispatch`), and turns the
//! timed results into a report sorted by duration with aggregate statistics
//! (`report`). Running the tasks in parallel and measuring them is left to the
//! caller, which hands the results back as plain records.
//!
//! Each solution is a function without arguments that returns the text of its
//! answer, `"<name> = <answer>"`, with a contract saying what the answer is.
//! There are two series: the `euNNN` functions in the modules `euNNN_MMM`, and
//! the `pNNN` functions in the modules `euler_pNNN_MMM`. `solver::Solver` names
//! each one, so that a registry can hold them.

pub mod decimal;
pub mod registry;
pub mod dispatch;
pub mod report;
pub mod solver;
pub mod eu001_010;
pub mod eu011_020;
pub mod eu021_030;
pub mod eu071_080;
pub mod eu091_100;
pub mod eu111_120;
pub mod eu121_130;
pub mod euler_p021_030;
pub mod euler_p031_040;
pub mod euler_p041_050;
pub mod euler_p051_060;
pub mod euler_p071_080;
pub mod euler_p101_110;
pub mod euler_p111_120;
pub mod euler_p121_130;
