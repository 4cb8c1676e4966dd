//! Whether the packet adapter's library is there and can be used.

use vstd::prelude::*;

use crate::text;

verus! {

pub const NOT_FOUND: &'static str = "wintun.dll was not found";

pub const READY: &'static str = "Signed Wintun library is ready";

pub const NOT_LOADED: &'static str = "Wintun could not be loaded: ";

pub const WINDOWS_ONLY: &'static str = "Wintun is supported only on Windows";

/// What the packet adapter's library can do.
#[derive(Debug, Clone)]
pub struct AdapterCapability {
    pub library_available: bool,
    pub library_loaded: bool,
    pub driver_version: Option<String>,
    pub message: String,
}

/// What became of loading the library.
pub enum Load {
    /// The file is not there.
    Missing,
    /// It was loaded, and this is the driver's version where it runs.
    Loaded(Option<String>),
    /// It could not be loaded.
    Failed(String),
    /// The system is one that has no such library.
    Unsupported { file: bool },
}

/// What the library can do, given what became of loading it.
pub fn inspect_library(load: Load) -> (r: AdapterCapability)
    ensures
        match load {
            Load::Missing => !r.library_available && !r.library_loaded && r.driver_version is None
                && r.message@ == NOT_FOUND@,
            Load::Loaded(version) => r.library_available && r.library_loaded && r.driver_version
                == version && r.message@ == READY@,
            Load::Failed(error) => r.library_available && !r.library_loaded
                && r.driver_version is None && r.message@ == NOT_LOADED@ + error@,
            Load::Unsupported { file } => r.library_available == file && !r.library_loaded
                && r.driver_version is None && r.message@ == WINDOWS_ONLY@,
        },
{
    match load {
        Load::Missing => AdapterCapability {
            library_available: false,
            library_loaded: false,
            driver_version: None,
            message: NOT_FOUND.to_owned(),
        },
        Load::Loaded(driver_version) => AdapterCapability {
            library_available: true,
            library_loaded: true,
            driver_version,
            message: READY.to_owned(),
        },
        Load::Failed(error) => AdapterCapability {
            library_available: true,
            library_loaded: false,
            driver_version: None,
            message: text::concat2(NOT_LOADED, error.as_str()),
        },
        Load::Unsupported { file } => AdapterCapability {
            library_available: file,
            library_loaded: false,
            driver_version: None,
            message: WINDOWS_ONLY.to_owned(),
        },
    }
}

} // verus!
