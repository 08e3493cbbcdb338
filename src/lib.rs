//! A growable byte buffer with sticky errors, a registry of buffers behind
//! integer handles, and the fixed-layout legacy buffer record.
//!
//! - `buf`: the buffer itself, with its model and the model of each operation.
//! - `registry`: the table of live buffers and the operations by handle.
//! - `legacy`: the legacy record, its operations and quoted-string escaping.
//! - `laws`: properties that hold across the operations.
pub mod buf;
pub mod registry;
pub mod legacy;
pub mod laws;
