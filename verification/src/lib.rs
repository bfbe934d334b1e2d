//! Arithmetic gadgets that emulate a small prime field inside a circuit
//! over a large native field.
//!
//! * [`host`] is the circuit under construction: native cells, the gates
//!   and gadgets of the proof system, and the mock prover.
//! * [`fields`] is the field-emulation interface and the base-field chip,
//!   which does every operation as a multiply-add: compute quotient and
//!   remainder in plain integers, witness them, assert the bridging
//!   equation in the native field, and range-check both.
//! * [`util`] counts the native cells that each named scope allocated.
pub mod fields;
pub mod host;
pub mod util;
