//! Runtime inspection over the engine's debugger channel: the transport model,
//! the inspected-value model, request validation and the state-transition receipts.

pub mod edit;
pub mod value;
pub mod wire;
pub mod service;
pub mod summary;
pub mod states;
pub mod render;
pub mod inspect;
pub mod decode;
