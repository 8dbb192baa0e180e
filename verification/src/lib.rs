//! Correct, fast incremental builds.

pub mod action_key;
pub mod bazel;
pub mod bench;
pub mod builder;
pub mod bytes;
pub mod cas;
pub mod closest;
pub mod commands;
pub mod completion;
pub mod configure;
pub mod daemon;
pub mod depfile;
pub mod digest;
pub mod doctor;
pub mod editor;
pub mod execution;
pub mod fastcdc;
pub mod graph;
pub mod graph_laws;
pub mod graph_store;
pub mod hashcache;
pub mod jar;
pub mod journal;
pub mod json;
pub mod launch;
pub mod literal;
pub mod lower;
pub mod manifest;
pub mod manifest_laws;
pub mod ninja;
pub mod npm;
pub mod order;
pub mod path_set;
pub mod paths;
pub mod progress;
pub mod query;
pub mod raw;
pub mod reach;
pub mod report;
pub mod request;
pub mod rules;
pub mod scaffold;
pub mod shared_set;
pub mod sorted_map;
pub mod template;
pub mod text;
pub mod toposort;
pub mod watch;
pub mod wheel;
pub mod workspace;

pub use action_key::ActionKey;
