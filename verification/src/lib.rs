//! Production planning model: catalog, scenario inputs, validation and
//! rendering helpers, with machine-checked contracts.

pub mod strings;
pub mod text;
pub mod excerpt;
pub mod aic;
pub mod catalog;
pub mod schema;
pub mod load_error;
pub mod loader;
pub mod plan;
pub mod logistics;
pub mod report;
pub mod convert;
pub mod sorting;
pub mod web;
pub mod brand_lab;
pub mod two_scenario_lab;
