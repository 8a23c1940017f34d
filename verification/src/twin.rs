//! The standalone simulator's configuration and connector records.
use vstd::prelude::*;
use crate::data::views;

verus! {

/// Runtime settings of the standalone simulator: where its API listens and
/// how often it ticks.
#[derive(Clone, Debug)]
pub struct AppConfig {
    pub ws_host: String,
    pub ws_port: u16,
    pub tick_ms: u64,
}

/// The name under which the simulator's start-up is grouped. It holds no
/// state; the work itself is elsewhere: the tick order and each device's
/// tick step in `tick`, the server's nodes in `server`, and compiling and
/// running the physics scripts and serving OPC-UA in the program around
/// this library.
pub struct SimulatorModule;

/// An open database connection of a `PostgresConnector`.
pub struct PgConnection {}

/// A connector that reads live device values from a database table; it
/// answers for the given devices only, so that two connectors never write
/// the same devices.
pub struct PostgresConnector {
    pub connection_string: String,
    pub device_ids: Vec<String>,
}

impl PostgresConnector {
    /// A connector for the database at `connection_string`, responsible for
    /// `device_ids`.
    pub fn new(connection_string: String, device_ids: Vec<String>) -> (r: PostgresConnector)
        ensures
            r.connection_string@ == connection_string@,
            views(r.device_ids@) == views(device_ids@),
    {
        PostgresConnector { connection_string, device_ids }
    }
}

} // verus!
