//! The data model: service specifications and runtime status.
pub mod backend_overrides;
pub mod health_check;
pub mod logging;
pub mod resource_limits;
pub mod service_group;
pub mod service_spec;
pub mod service_status;
pub mod socket_spec;
