//! Host side of the serial protocol of the A010 depth camera.

pub mod args;
pub mod at;
pub mod buffer;
pub mod channel;
pub mod codec;
pub mod commands;
pub mod decimal;
pub mod frame;
pub mod machine;
pub mod mesh;
pub mod port;
pub mod session;
pub mod text;
pub mod stream_laws;
pub mod command_laws;
pub mod config_laws;
pub mod wire_laws;
pub mod answer_laws;
pub mod conduct_laws;
pub mod grid_laws;
