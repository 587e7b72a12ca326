//! nxmproxy: decides which mod manager handles an `nxm://` link.

pub mod config_file;
pub mod config_laws;
pub mod download;
pub mod entries;
pub mod file_laws;
pub mod install;
pub mod logger;
pub mod options;
pub mod pipe;
pub mod text;
pub mod text_laws;
pub mod url;
pub mod win32;
