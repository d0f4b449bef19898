//! What holds of the parts of the library, said of what goes in and what comes out.
pub mod accepting;
pub mod auditing;
pub mod baselines;
pub mod calling;
pub mod collecting;
pub mod covering;
pub mod expressing;
pub mod importing;
pub mod locating;
pub mod numbers;
pub mod projects;
pub mod reading;
pub mod recording;
pub mod reporting;
pub mod resolving;
pub mod scoring;
pub mod smelling;
pub mod texts;
pub mod trees;
pub mod verifying;
