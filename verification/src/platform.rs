//! The platform tools that some transformations need.
use vstd::prelude::*;

verus! {

/// Which of the macOS tools that transformations call are installed.
#[derive(Debug, Clone, Copy, PartialEq, Eq, Structural)]
pub struct PlatformCapabilities {
    /// `iconutil`, which builds icon sets.
    pub has_iconutil: bool,
    /// `actool`, which compiles asset catalogs.
    pub has_actool: bool,
    /// `sips`, which edits image properties.
    pub has_sips: bool,
    /// `hdiutil`, which builds disk images.
    pub has_hdiutil: bool,
}

} // verus!
