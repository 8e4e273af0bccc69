//! Decision logic of a project-scoped memory engine.

pub mod text;
pub mod order;
pub mod file_paths;
pub mod graph;
pub mod records;
pub mod aggregate;
pub mod memory_graph;
pub mod code_graph;
pub mod bridge;
pub mod overview;
pub mod ranking;
pub mod filter;
pub mod filter_laws;
pub mod search_laws;
pub mod drilldown;
pub mod paths;
pub mod path_laws;
pub mod model_laws;
pub mod group_laws;
pub mod map_laws;
pub mod metadata_laws;
pub mod code_laws;
pub mod bridge_laws;
pub mod quality;
pub mod viewer;
pub mod viewer_refresh;
pub mod viewer_events;
pub mod layout_plan;
pub mod config;
pub mod launchd_maintenance;
pub mod json;
pub mod digest;
pub mod uris;
pub mod lsif_graph;
pub mod lsif_index;
pub mod import_laws;
pub mod text_laws;
pub mod area_laws;
pub mod upkeep_laws;
pub mod display_laws;
pub mod listing_laws;
pub mod view_laws;
pub mod order_laws;
pub mod memory_writes;
pub mod maintenance;
pub mod maintenance_steps;
pub mod review;
pub mod eval;
pub mod eval_report;
pub mod readiness;
pub mod doctor;
pub mod commands;
pub mod listings;
pub mod record_listings;
pub mod report_listings;
pub mod overview_laws;
