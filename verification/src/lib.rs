//! Decision core of the in-process daemon: convoy addressing and admission,
//! placement, standing convoys, crews, attach targets, fleet views, projects
//! and tracked repositories, stated over plain values.
use vstd::prelude::*;

pub mod address;
pub mod address_laws;
pub mod admission;
pub mod admission_laws;
pub mod admission_workflow;
pub mod attach;
pub mod attach_laws;
pub mod attach_route;
pub mod change_requests;
pub mod checkouts;
pub mod command_laws;
pub mod commands;
pub mod creation;
pub mod creation_laws;
pub mod crew;
pub mod crew_laws;
pub mod crew_work;
pub mod digest;
pub mod ensure;
pub mod ensure_laws;
pub mod ensure_start;
pub mod environment;
pub mod evidence;
pub mod explain;
pub mod explain_laws;
pub mod fleet;
pub mod fleet_laws;
pub mod handoff;
pub mod health;
pub mod listing;
pub mod listing_laws;
pub mod materialize;
pub mod messages;
pub mod model;
pub mod naming;
pub mod naming_laws;
pub mod operation_laws;
pub mod operations;
pub mod ordered;
pub mod placement;
pub mod placement_laws;
pub mod placing;
pub mod preparation;
pub mod project_laws;
pub mod projects;
pub mod recording;
pub mod refresh;
pub mod replica_laws;
pub mod replicas;
pub mod repo_laws;
pub mod repos;
pub mod repository_project;
pub mod request_laws;
pub mod resource_laws;
pub mod resources;
pub mod sorting;
pub mod steps;
pub mod targets;
pub mod terminals;
pub mod text;
pub mod text_laws;
pub mod time;
pub mod whole_repository;
pub mod workflow;

verus! {

} // verus!
