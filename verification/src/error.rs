use vstd::prelude::*;

verus! {

/// Why a plugin could not be added to the host.
#[derive(Debug, Clone, Copy, PartialEq, Eq, Structural)]
pub enum AddPluginError {
    /// Every slot is taken and no released slot can be reused.
    CapacityReached,
    /// The plugin has more than two audio inputs or outputs (inputs, outputs).
    MoreThanTwoInOrOutAudioPorts(usize, usize),
    /// The plugin has more than one atom input port (their number).
    MoreThanOneAtomPort(usize),
    /// The plugin world could not be created.
    WorldIsNull,
    /// No plugin with the requested URI was found.
    PluginIsNull,
    /// A required port is neither an input nor an output port.
    PortNeitherInputOrOutput,
    /// A required port is not a control, audio or atom input port.
    PortNeitherControlOrAudioOrOptional,
}

} // verus!
