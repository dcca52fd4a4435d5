//! FM multiplex RDS/RDS2 bitstream toolkit.
//!
//! The crate covers the bit-level side of an FM MPX pipeline: RDS group
//! framing with its CRC checkwords, the sequencer that interleaves program
//! service, radiotext and logo emissions, the integer front end of the BPSK
//! subcarrier modulator, logo bitmap framing, and the bookkeeping decisions
//! of the real-time streaming engine.  The floating-point signal synthesis
//! around these parts lives with the caller.

pub mod rds;
pub mod engine;
pub mod logo;
pub mod modulator;
pub mod sequencer;
