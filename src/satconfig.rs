use vstd::prelude::*;

verus! {

/// Which destination flags route telemetry to a channel.
#[derive(Debug, Clone, Copy, PartialEq, Eq, Structural)]
pub struct TelemetryChannel {
    pub destination_flag_mask: u8,
}

/// How commands of a component under a prefix are sent.
#[derive(Debug, Clone, Copy, PartialEq, Eq, Structural)]
pub struct CommandSubsystem {
    pub has_time_indicator: bool,
    pub destination_type: u8,
    pub execution_type: u8,
}

/// The satellite configuration: spacecraft IDs, APID assignments, telemetry
/// channels and command prefixes.
#[derive(Debug, Clone)]
pub struct Satconfig {
    pub aos_scid: u8,
    pub tc_scid: u16,
    pub tlm_apid_map: Vec<(u16, String)>,
    pub cmd_apid_map: Vec<(String, u16)>,
    pub tlm_channel_map: Vec<(String, TelemetryChannel)>,
    pub cmd_prefix_map: Vec<(String, Vec<(String, CommandSubsystem)>)>,
}

} // verus!
