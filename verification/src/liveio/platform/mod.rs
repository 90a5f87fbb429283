//! What the systems tell of their processes, and what is made of it.

pub mod bytes;
pub mod laws;
pub mod mac;
pub mod stub;
pub mod win;
