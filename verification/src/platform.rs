//! Explicit desktop targets. Architecture alone never selects a Windows
//! executable on another operating system.
use vstd::prelude::*;

pub mod path;

verus! {

/// How a target's file system spells paths.
#[derive(Debug, Clone, Copy, PartialEq, Eq, Structural)]
pub enum PathStyle {
    Posix,
    Windows,
}

/// A supported desktop runtime target.
#[derive(Debug, Clone, Copy, PartialEq, Eq, Structural)]
pub enum DesktopTarget {
    WindowsX64,
    WindowsArm64,
    MacOsArm64,
}

/// The target that an operating system and architecture name jointly select.
pub open spec fn spec_for_system(os: Seq<char>, architecture: Seq<char>) -> Option<DesktopTarget> {
    if os == "windows"@ && architecture == "x86_64"@ {
        Some(DesktopTarget::WindowsX64)
    } else if os == "windows"@ && architecture == "aarch64"@ {
        Some(DesktopTarget::WindowsArm64)
    } else if os == "macos"@ && architecture == "aarch64"@ {
        Some(DesktopTarget::MacOsArm64)
    } else {
        None
    }
}

impl DesktopTarget {
    /// Selects the target for an OS and architecture; both must match.
    pub fn for_system(os: &str, architecture: &str) -> (r: Option<Self>)
        ensures
            r == spec_for_system(os@, architecture@),
    {
        let windows = crate::text::str_equal(os, "windows");
        let macos = crate::text::str_equal(os, "macos");
        let x64 = crate::text::str_equal(architecture, "x86_64");
        let arm64 = crate::text::str_equal(architecture, "aarch64");
        if windows && x64 {
            Some(DesktopTarget::WindowsX64)
        } else if windows && arm64 {
            Some(DesktopTarget::WindowsArm64)
        } else if macos && arm64 {
            Some(DesktopTarget::MacOsArm64)
        } else {
            None
        }
    }

    pub open spec fn spec_node_platform(self) -> Seq<char> {
        match self {
            DesktopTarget::WindowsX64 => "win-x64"@,
            DesktopTarget::WindowsArm64 => "win-arm64"@,
            DesktopTarget::MacOsArm64 => "darwin-arm64"@,
        }
    }

    /// The Node.js distribution platform name.
    pub fn node_platform(self) -> (s: &'static str)
        ensures
            s@ == self.spec_node_platform(),
    {
        match self {
            DesktopTarget::WindowsX64 => "win-x64",
            DesktopTarget::WindowsArm64 => "win-arm64",
            DesktopTarget::MacOsArm64 => "darwin-arm64",
        }
    }

    pub open spec fn spec_node_executable(self) -> Seq<char> {
        match self {
            DesktopTarget::WindowsX64 | DesktopTarget::WindowsArm64 => "node.exe"@,
            DesktopTarget::MacOsArm64 => "bin/node"@,
        }
    }

    /// The Node.js executable inside its distribution.
    pub fn node_executable(self) -> (s: &'static str)
        ensures
            s@ == self.spec_node_executable(),
    {
        match self {
            DesktopTarget::WindowsX64 | DesktopTarget::WindowsArm64 => "node.exe",
            DesktopTarget::MacOsArm64 => "bin/node",
        }
    }

    /// The path spelling of the target's operating system.
    pub fn path_style(self) -> (s: PathStyle)
        ensures
            s == (if self == DesktopTarget::MacOsArm64 { PathStyle::Posix } else { PathStyle::Windows }),
    {
        match self {
            DesktopTarget::MacOsArm64 => PathStyle::Posix,
            _ => PathStyle::Windows,
        }
    }
}

} // verus!
