//! Decision logic of a web switch that starts (one replica) and stops (zero
//! replicas) labelled Kubernetes workloads: configuration, request paths,
//! retry decisions, discovery of targets, the persisted desired state and the
//! answers of the HTTP API. Everything that talks to the network, the file
//! system or the environment lives in the application crate around it.

pub mod text;
pub mod config;
pub mod kube;
pub mod models;
pub mod discovery;
pub mod state;
pub mod api;
pub mod web;
