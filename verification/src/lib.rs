//! Task coordination for humans and AI agents: a dependency graph of tasks,
//! its health checks and analyses, and the agency of roles and motivations.
pub mod graph;
pub mod text;
pub mod check;
pub mod config;
pub mod order;
pub mod time;
pub mod aging;
pub mod ops;
pub mod fmt;
pub mod parse;
pub mod analyze;
pub mod deps;
pub mod bottlenecks;
pub mod agency;
pub mod agent;
pub mod assign;
pub mod dead_agents;
pub mod agents;
pub mod coordinate;
pub mod coordinator;
pub mod lists;
pub mod edit;
pub mod add;
pub mod merge;
pub mod messages;
pub mod archive;
pub mod critical_path;
pub mod lineage;
pub mod trust;
pub mod context;
pub mod links;
pub mod stats;
pub mod upstream;
pub mod agent_crud;
pub mod report;
