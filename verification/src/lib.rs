//! Pathfinder: a degree-requirement catalog and schedule planner.
//!
//! The library keeps the catalog (universities, degrees, components, classes and
//! the associations between them) in an in-memory relational store, builds the
//! requirement graph of a degree from it and analyses that graph to choose the
//! classes that satisfy the degree.
pub mod db;
pub mod models;
pub mod types;
pub mod req_holder;
pub mod queue_planner;
pub mod requirements_graph;
pub mod analysis_common;
pub mod planner;
pub mod prerequisites;
pub mod catalog;
pub mod catalog_data;
pub mod catalog_maker;
pub mod catalog_maker_data;
pub mod dev;
pub mod graph;
pub mod properties;
pub mod analysis_properties;
pub mod queue_properties;
