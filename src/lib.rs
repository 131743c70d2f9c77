//! Execution engine for scripted HTTP API test cases: variable capture and substitution,
//! judge scoring and the step-by-step run state machine.
pub mod text;
pub mod json;
pub mod model;
pub mod variables;
pub mod scoring;
pub mod runner;
