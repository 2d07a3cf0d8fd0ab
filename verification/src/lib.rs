//! Catalog of episodic programs with a weekly rollover schedule.

pub mod clock;
pub mod ident;
pub mod laws;
pub mod model;
pub mod paths;
pub mod registry;
pub mod rollover;
pub mod scan;
pub mod text;
