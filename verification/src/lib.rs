//! Session protocol engine of a debug server for a hardware simulator:
//! NUL-delimited framing, the message vocabulary and its JSON text, the scope
//! and item model, and the greeting-first command dispatcher.

pub mod text;
pub mod codec;
pub mod json;
pub mod message;
pub mod design;
pub mod session;
pub mod wire;
