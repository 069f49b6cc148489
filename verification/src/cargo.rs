//! The package information that Cargo passes to the runner.
use vstd::prelude::*;

verus! {

/// The `CARGO_PKG_*` values of the package whose binary is run.
#[derive(Debug)]
pub struct CargoEnv {
    pub pkg_name: String,
    pub pkg_description: String,
    pub pkg_version: String,
}

impl CargoEnv {
    /// The package information from the values of `CARGO_PKG_NAME`,
    /// `CARGO_PKG_DESCRIPTION` and `CARGO_PKG_VERSION`, `None` where a
    /// variable could not be read. Unreadable values default to `"unknown"`,
    /// `""` and `"1.0"`.
    pub fn from_values(
        name: Option<String>,
        description: Option<String>,
        version: Option<String>,
    ) -> (env: CargoEnv)
        ensures
            env.pkg_name@ == (match name {
                Some(s) => s@,
                None => "unknown"@,
            }),
            env.pkg_description@ == (match description {
                Some(s) => s@,
                None => ""@,
            }),
            env.pkg_version@ == (match version {
                Some(s) => s@,
                None => "1.0"@,
            }),
    {
        let pkg_name = match name {
            Some(s) => s,
            None => String::from_str("unknown"),
        };
        let pkg_description = match description {
            Some(s) => s,
            None => String::from_str(""),
        };
        let pkg_version = match version {
            Some(s) => s,
            None => String::from_str("1.0"),
        };
        CargoEnv { pkg_name, pkg_description, pkg_version }
    }
}

} // verus!
