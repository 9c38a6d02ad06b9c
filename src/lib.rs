pub mod calendar;
pub mod engine;
pub mod laws;
pub mod model;
pub mod pricing;
