//! Conversion of a Cargo build into Soong build files.
//!
//! The transcript of a verbose Cargo build is read into compiler invocations (`scan`), each
//! invocation is decoded into the crate it builds (`decode`, `crates`), each crate becomes the
//! modules of its package's build file (`synth`, `bp`), and each package's modules are written
//! out with the package's kept license preamble (`package`).
use vstd::prelude::*;

pub mod bp;
pub mod config;
pub mod crates;
pub mod decode;
pub mod package;
pub mod repo_path;
pub mod scan;
pub mod synth;
pub mod text;

verus! {

} // verus!
