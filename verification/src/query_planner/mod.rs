pub mod adapters;
pub mod context;
pub mod debug_capture;
pub mod explain;
pub mod expression_registry;
pub mod function;
pub mod index;
pub mod ir;
pub mod lowering;
pub mod operators;
pub mod parser;
pub mod physical_expr;
pub mod plan;
pub mod plan_json;
pub mod plan_or_compute;
pub mod planner;
pub mod traits;
pub mod value_text;
