pub mod render;
pub mod engine;
pub mod launch;
pub mod query_planner;
pub mod realtime;
pub mod repl;
pub mod bulk_ingest;
pub mod db_routing;
