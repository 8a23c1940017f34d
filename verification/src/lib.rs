//! Verified core of the factory simulator backend.

// Text and collections.
pub mod text;
pub mod split;
pub mod strmap;
pub mod lookup;
pub mod naming;

// The plant model and its resolution.
pub mod data;
pub mod schema;
pub mod resolved;
pub mod resolve;
pub mod plant;
pub mod handle;

// Simulation.
pub mod tick;
pub mod physics;
pub mod server;
pub mod port_guard;

// Connectors and wiring.
pub mod endpoints;
pub mod connector;
pub mod scada;
pub mod wiring;

// Persistence, deployment, API and configuration.
pub mod loader;
pub mod k8s;
pub mod compose;
pub mod api;
pub mod config;
pub mod models;
pub mod twin;
