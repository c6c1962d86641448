//! Local PIN authentication: hashing and verifying PIN records, the
//! per-user failure-state record with its lockout rules, and the input
//! and username policies of the verifying and provisioning programs.

pub mod number;
pub mod hash;
mod scrub;
pub mod record;
pub mod limiter;
pub mod input;
pub mod store;
pub mod attempt;
