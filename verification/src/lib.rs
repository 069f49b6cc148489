//! Bundle, sign and launch binaries for Apple targets: the decisions behind
//! the runner, stated and proved.

pub mod binary;
pub mod bundle;
pub mod cargo;
pub mod platform;
pub mod process;
pub mod runner;
pub mod sign;
pub mod simctl;
pub mod text;
pub mod util;
pub mod version;

pub use binary::Binary;
pub use cargo::CargoEnv;
pub use platform::{Arch, BuildVersion, Platform};
pub use version::{OSVersion, VersionParseError};
