//! The rows of the catalog and the queries on them.
pub mod associations;
pub mod class;
pub mod component;
pub mod degree;
pub mod subdivision;
pub mod university;
