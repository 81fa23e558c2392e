//! Ground-segment telemetry and telecommand for a CCSDS AOS/TC space link:
//! bit-exact frame and packet codecs, M_PDU reassembly, the FOP-1 sender,
//! schema-driven command packing and telemetry decoding, and the schema
//! registries behind them.

pub mod aos;
pub mod bits;
pub mod c2a;
pub mod clcw;
pub mod cmd;
pub mod command;
pub mod downlink;
pub mod field;
pub mod fop;
pub mod handler;
pub mod layout;
pub mod m_pdu;
pub mod modular;
pub mod names;
pub mod registry;
pub mod satconfig;
pub mod sort;
pub mod space_packet;
pub mod tc;
pub mod tco;
pub mod telemetry;
pub mod tlm;
pub mod tmiv;
pub mod uplink;
