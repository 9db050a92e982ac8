//! Bookkeeping and decisions of iterative reputation refinement on a
//! bipartite rating graph.
//!
//! Users rate objects. A refinement run alternately re-estimates every
//! object's quality, as the reliability-weighted average of its ratings, and
//! every user's reliability, from how far that user's ratings lie from the
//! estimates, until the object estimates settle.
//!
//! This crate holds what such a run decides exactly:
//!
//! - [`rating`]: whether a rating set fits the buffers it indexes;
//! - [`links`]: how many ratings each user authored, and which users have
//!   none;
//! - [`binary64`]: how two scores compare, from their encodings;
//! - [`convergence`]: after each iteration, whether the run goes on.
//!
//! Scores travel through it as binary64 encodings. The arithmetic on them is
//! the caller's.

pub mod binary64;
pub mod convergence;
pub mod links;
pub mod rating;
