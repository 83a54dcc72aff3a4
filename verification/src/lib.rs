//! Verified core of an exercise-grading runner.
//!
//! A configuration declares exercises; each exercise names a solution file
//! and carries tests made of input strings and expected output strings.
//! Every input of a test is submitted to a remote execution service, and the
//! service's output is compared, after trimming leading and trailing
//! whitespace, against every expected output of that test, yielding one
//! verdict per (input, expected output) pair.
//!
//! This crate holds the decision logic of that runner: selecting the runtime,
//! matching exercises to solution files, planning the submission sequence,
//! and turning execution outputs into verdicts. Reading the configuration and
//! the solution directory, and talking to the remote service, are left to the
//! surrounding program, which hands this crate plain values.

pub mod model;
pub mod run;
pub mod select;
pub mod text;
