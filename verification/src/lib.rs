//! Decision logic of a Windows tool launcher: configuration normalisation,
//! argument splitting and quoting, pre-launch checks and command-line assembly.

pub mod text;
pub mod model;
pub mod args;
pub mod argv;
pub mod paths;
pub mod launcher;
pub mod probe;
pub mod normalize;
pub mod tray;
pub mod icon;
pub mod clock;
pub mod commands;
pub mod load;
pub mod laws;
pub mod arg_laws;
pub mod launch_laws;
