//! Composes a container build file for a development container: a base
//! image plus features ordered by their dependencies, each built in a stage
//! of its own, rendered to the text a container build engine reads.
pub mod compose;
pub mod config;
pub mod containerfile;
pub mod feature;
pub mod instr;
pub mod mount;
pub mod patch;
pub mod run;
pub mod text;
pub mod topo;
pub mod topo_laws;
