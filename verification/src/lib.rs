//! Registration pipeline for exposing containerized desktop applications
//! to a host launcher: rewriting container-native application descriptors
//! into host-launchable ones, resolving the best icon asset for each
//! descriptor, and planning the registration of the results against a
//! daemon under the container's ownership key, so that re-synchronizing a
//! container never leaves stale entries behind.

pub mod container_type;
pub mod descriptor;
pub mod icon;
pub mod registrar;
pub mod registry;
pub mod rewrite;
pub mod text;
