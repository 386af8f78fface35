//! Bring-up diagnostics for an I2C touch controller: a bus scan and a
//! single-register read, written as plans and console reports whose
//! contents are proved; the hardware calls are made by the caller.
pub mod text;
pub mod scan;
pub mod reader;
pub mod sequence;
