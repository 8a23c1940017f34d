//! Resolved devices: instance configuration merged with its type definition.
use vstd::prelude::*;
use crate::data::DeepCopy;
use crate::schema::{DeviceConfig, DeviceConfigView, DeviceTypeDefinition, DeviceTypeDefinitionView};

verus! {

/// A device instance together with the definition of its type.
#[derive(Clone, Debug)]
pub struct ResolvedDevice {
    pub config: DeviceConfig,
    pub type_def: DeviceTypeDefinition,
}

pub struct ResolvedDeviceView {
    pub config: DeviceConfigView,
    pub type_def: DeviceTypeDefinitionView,
}

impl View for ResolvedDevice {
    type V = ResolvedDeviceView;

    open spec fn view(&self) -> ResolvedDeviceView {
        ResolvedDeviceView { config: self.config@, type_def: self.type_def@ }
    }
}

impl DeepCopy for ResolvedDevice {
    fn deep_copy(&self) -> (r: ResolvedDevice) {
        ResolvedDevice { config: self.config.deep_copy(), type_def: self.type_def.deep_copy() }
    }
}

impl ResolvedDevice {
    /// The device's own tick interval, or `default` when it has none.
    pub fn effective_tick_ms(&self, default: u64) -> (r: u64)
        ensures
            r == match self.config.tick_ms {
                Some(t) => t,
                None => default,
            },
    {
        match self.config.tick_ms {
            Some(t) => t,
            None => default,
        }
    }
}

} // verus!
