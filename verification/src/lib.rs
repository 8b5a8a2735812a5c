//! Core logic of CX-Manager: settings normalisation, PowerShell profile
//! generation and inspection, shell detection, command invocations and the
//! status reports shown to the user.

pub mod text;
pub mod settings;
pub mod paths;
pub mod shell;
pub mod pattern;
pub mod decode;
pub mod profile;
pub mod profile_write;
pub mod profile_shape;
pub mod version;
pub mod commands;
pub mod status;
