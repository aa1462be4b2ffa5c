//! Conformance-test runner library: the value model of decision results, the
//! fixture parser, the wire form of values, their comparison, and the
//! aggregation of verdicts over a run.

pub mod text;
pub mod xml;
pub mod model;
pub mod fixture;
pub mod dto;
pub mod identity;
pub mod context;
pub mod params;
pub mod config;
pub mod evaluation;
