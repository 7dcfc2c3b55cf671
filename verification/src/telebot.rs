//! The plain data of the messaging service that the engine reads.

pub mod error;
pub mod functions;
pub mod objects;
