//! The Kubernetes plugin's logic: what it watches, how a component id
//! names an object, who may see what, and what the apiserver's objects
//! become on screen.

pub mod cache;
pub mod watch;
pub mod objevents;
pub mod projects;
pub mod authz;
pub mod scope;
pub mod apply;
pub mod components;
pub mod cilium;
pub mod network;
pub mod pages;
