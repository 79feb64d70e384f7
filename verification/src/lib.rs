//! A distributed document search database: the logic of its index, network
//! and node layers.

pub mod clock;
pub mod index;
pub mod json;
pub mod model;
pub mod network;
pub mod node;
pub mod table;
pub mod text;
