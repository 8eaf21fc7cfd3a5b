//! Cross-compilation adapter core: target resolution, linker argument
//! rewriting, wrapper-script materialization and a Mach-O load-command editor.
//!
//! - `target`: a target triple (with an optional `.N.M` ABI suffix) resolved
//!   into the external toolchain's target and baseline CPU.
//! - `linker`, `invocation`, `response_file`: the rewrite of linker and
//!   compiler arguments, on the command line and in response files.
//! - `wrapper`, `cmake`, `envvars`, `flags`, `bindgen`: what is written to the
//!   cache directory and handed to the build tool.
//! - `macho`: the load-command editor for single and fat Mach-O images.
//! - `text`, `version`: the string and version helpers the others rest on.

pub mod text;
pub mod version;
pub mod linker;
pub mod invocation;
pub mod response_file;
pub mod target;
pub mod wrapper;
pub mod macho;
pub mod flags;
pub mod cmake;
pub mod envvars;
pub mod bindgen;
