//! An in-memory, query-ready navigation graph built from the X-Plane
//! navigation-database distribution: line-oriented ASCII files holding the
//! world's aeronautical fixes, radio navaids, airways and holding patterns
//! for one AIRAC cycle, plus the per-airport coded instrument flight
//! procedures.
//!
//! Everything that decides or computes lives here and is verified; reading
//! the files from disk is left to the surrounding program, which hands the
//! file contents in as plain strings.

pub mod navdata;
