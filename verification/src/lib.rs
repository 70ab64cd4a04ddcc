//! A resource-homeostasis substrate: workloads and hosts are held inside a
//! utilization band by carving their limits and reservations, behind a typed
//! authorization gate.

pub mod canonical_laws;
pub mod dimension;
pub mod forma;
pub mod gate;
pub mod host;
pub mod host_cluster;
pub mod host_laws;
pub mod jmx;
pub mod json;
pub mod kube;
pub mod kube_laws;
pub mod layout;
pub mod managed_fields;
pub mod manifest;
pub mod marked_line;
pub mod mock;
pub mod nodewaste;
pub mod operator;
pub mod pod_cgroup;
pub mod provider;
pub mod provision;
pub mod request;
pub mod sim;
pub mod text;
pub mod text_map;
