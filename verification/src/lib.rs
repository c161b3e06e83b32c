//! Pick one e-mail address from a list, with a verified selector state
//! machine and a verified extraction of the candidate addresses from
//! configuration text.

pub mod candidates;
pub mod invocation;
pub mod lines;
pub mod selector;
pub mod sorted;
pub mod strings;
