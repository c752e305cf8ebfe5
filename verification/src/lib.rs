//! Verified core of the block-controller runtime: identifiers, the action
//! log, controller lifecycles, flow graphs, scheduling, the mesh artifact
//! store and the related registries.

pub mod text;
pub mod ids;
pub mod idmap;
pub mod topo;
pub mod graph;
pub mod json;
pub mod params;
pub mod action_log;
pub mod controller;
pub mod job_scheduler;
pub mod mesh;
pub mod pipeline;
pub mod model_runtime;
pub mod connectors;
pub mod flow_control;
pub mod node;
pub mod node_instance;
pub mod graph_query;
pub mod orchestrator;
pub mod registry;
