//! The decisions around the cluster's API and the archive's database.
pub mod k8s_client;
pub mod k8s_tekton;
pub mod pg;
