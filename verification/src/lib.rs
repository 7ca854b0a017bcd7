//! Git hooks: what is put aside while they run, what they run on, and how
//! their steps are carried out.
//!
//! Nothing here runs a program or touches a file. An operation is a value that
//! says what it wants done next, and goes on when it is handed the reply. So
//! every decision is a function of what came back, and each is proved to take
//! the step that its contract gives for every reply.
//!
//! * [`git`], [`repo`], [`status`], [`stash`], [`unstash`], [`capture`],
//!   [`branch`], [`files`], [`patches`]: the repository.
//! * [`options`]: what a hook is asked to do.
//! * [`step`], [`runner`], [`progress`]: a step of a hook and its jobs.
//! * [`work`]: actions and replies.
//! * [`text`], [`paths`], [`roots`], [`index`]: texts, paths and index entries.
pub mod branch;
pub mod capture;
pub mod files;
pub mod git;
pub mod index;
pub mod options;
pub mod patches;
pub mod paths;
pub mod progress;
pub mod repo;
pub mod roots;
pub mod runner;
pub mod stash;
pub mod status;
pub mod step;
pub mod text;
pub mod unstash;
pub mod work;
