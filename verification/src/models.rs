//! Records of the plant database and of the device model: PLC kinds, the
//! request that creates a PLC, device categories and ports, and the
//! configured execution order.
use vstd::prelude::*;
use crate::data::views;
use crate::text::same_text;

verus! {

/// Whether a PLC is simulated by this system or is a real device.
#[derive(Clone, Copy, Debug, PartialEq, Eq, Structural)]
pub enum PlcKind {
    Simulated,
    Real,
}

impl PlcKind {
    /// The kind's name as the database and the API spell it.
    pub open spec fn spec_label(self) -> Seq<char> {
        match self {
            PlcKind::Simulated => "simulated"@,
            PlcKind::Real => "real"@,
        }
    }

    /// The kind's name as the database and the API spell it: `simulated` or
    /// `real`.
    pub fn label(&self) -> (r: &'static str)
        ensures
            r@ == self.spec_label(),
    {
        match self {
            PlcKind::Simulated => "simulated",
            PlcKind::Real => "real",
        }
    }

    /// The kind a name spells, if any.
    pub fn from_label(s: &str) -> (r: Option<PlcKind>)
        ensures
            match r {
                Some(k) => k.spec_label() == s@,
                None => s@ != "simulated"@ && s@ != "real"@,
            },
    {
        if same_text(s, "simulated") {
            Some(PlcKind::Simulated)
        } else if same_text(s, "real") {
            Some(PlcKind::Real)
        } else {
            None
        }
    }
}

/// A request to create a PLC.
#[derive(Clone, Debug)]
pub struct CreatePlc {
    /// Human slug (e.g. "plc-003"); derived from the name when absent.
    pub plc_id: Option<String>,
    pub name: String,
    pub kind: PlcKind,
    pub deploy_node: Option<String>,
    pub endpoint_uri: Option<String>,
    pub port: Option<i32>,
    pub protocol: Option<String>,
    pub endpoint: Option<String>,
}

/// Device categories, after stream processing: sources have no inputs,
/// transforms have inputs and outputs, sinks have no outputs.
#[derive(Clone, Copy, Debug, PartialEq, Eq, Structural)]
pub enum DeviceCategory {
    Source,
    Transform,
    Sink,
}

/// Where an input port takes its data from.
#[derive(Clone, Debug)]
pub struct InputPort {
    pub name: String,
    pub source_device_id: String,
    pub source_field: String,
}

/// What an output port produces.
#[derive(Clone, Debug)]
pub struct OutputPort {
    pub name: String,
    pub target_field: String,
}

/// The configured execution order of the devices.
#[derive(Clone, Debug)]
pub struct Topology {
    pub execution_order: Vec<String>,
}

impl Topology {
    /// The execution order: the configured order, as it is.
    pub fn compute_execution_order(&self) -> (r: Result<Vec<String>, String>)
        ensures
            r matches Ok(order) && views(order@) == views(self.execution_order@),
    {
        Ok(crate::data::copy_vec(&self.execution_order))
    }
}

} // verus!
