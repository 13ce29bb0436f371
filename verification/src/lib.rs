//! Deterministic integer core of the QRES swarm-compression engine:
//! probability models, content-defined deduplication, packet fragmentation,
//! fixed-point predictors and the decision logic of the swarm protocol.
pub mod probability;
pub mod dedup;
pub mod fragmentation;
pub mod resource_management;
pub mod semantic;
pub mod zk_proofs;
pub mod predictors;
pub mod transformer;
pub mod adaptive;
pub mod twt;
pub mod multimodal;
pub mod config;
pub mod spectral;
pub mod heuristic;
pub mod aggregation;
pub mod privacy;
pub mod multivariate;
pub mod cortex;
pub mod archive;
pub mod mixer;
pub mod fixed_point;
pub mod tensor;
pub mod secure_agg;
pub mod bitpack;
pub mod audit;
