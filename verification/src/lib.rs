//! Keeps the settings files of programs in one place and links them back
//! to where each program expects them: the logic of the `once` tool.
pub mod env;
pub mod expand;
pub mod link;
pub mod local;
pub mod path_laws;
pub mod paths;
pub mod store;
pub mod table;
pub mod text;
