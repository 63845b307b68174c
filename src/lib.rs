//! Acquisition core for a serial-attached ECG sensor: line framing, reading
//! parsing, clock reconciliation, session file naming and the connection
//! state machine that drives them.
pub mod numeric;
pub mod parser;
pub mod framer;
pub mod naming;
pub mod clock;
pub mod recorder;
pub mod monitor;
