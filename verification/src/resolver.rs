//! The path resolver: maps a logical executable name to its location under
//! a platform-specific directory of the application's bundled resources,
//! with a fallback correction for a known development-layout discrepancy
//! (binaries staged beside, rather than inside, the resources directory).
//!
//! The resolver is pure: it composes and rewrites path text. Whether a
//! candidate actually exists on disk is probed outside the library and
//! handed in as a boolean.

use vstd::prelude::*;

use crate::text::replace_all;
use crate::text::replace_all_in;

verus! {

/// The operating-system family a resolution is made for.
#[derive(Debug, Clone, Copy, PartialEq, Eq, Structural)]
pub enum Platform {
    Windows,
    MacOs,
    Linux,
    Other,
}

/// The outcome of a resolution: the best candidate path, and whether a
/// binary is present there. The path is reported even when nothing exists
/// at it, so a caller can tell "path computed" from "binary present".
#[derive(Debug, Clone, PartialEq, Eq)]
pub struct ResolvedExecutable {
    pub absolute_path: String,
    pub exists: bool,
}

/// The bundled-binaries directory name for each platform family.
pub open spec fn platform_dir_name(p: Platform) -> Seq<char> {
    match p {
        Platform::Windows => "windows"@,
        Platform::MacOs => "macos"@,
        Platform::Linux => "linux"@,
        Platform::Other => "unknown"@,
    }
}

/// The bundled-binaries directory name for each platform family,
/// executably.
pub fn platform_dir(p: Platform) -> (d: &'static str)
    ensures
        d@ == platform_dir_name(p),
{
    match p {
        Platform::Windows => "windows",
        Platform::MacOs => "macos",
        Platform::Linux => "linux",
        Platform::Other => "unknown",
    }
}

/// Where a logical executable name lives relative to the resource root:
/// under `bin/`, in the platform's directory.
pub open spec fn executable_rel_path(p: Platform, name: Seq<char>) -> Seq<char> {
    "bin/"@ + platform_dir_name(p) + "/"@ + name
}

/// Compose the resource-relative path of a logical executable name.
pub fn executable_relative_path(p: Platform, exe_name: &str) -> (r: String)
    ensures
        r@ == executable_rel_path(p, exe_name@),
{
    let mut r = String::new();
    r.append("bin/");
    r.append(platform_dir(p));
    r.append("/");
    r.append(exe_name);
    proof {
        assert(r@ =~= executable_rel_path(p, exe_name@));
    }
    r
}

/// A path under the development build directory, rewritten to point into
/// the staged resources directory instead, in both separator styles.
pub open spec fn corrected_dev_path(path: Seq<char>) -> Seq<char> {
    replace_all(
        replace_all(path, "target\\debug\\bin"@, "target\\debug\\resources\\bin"@),
        "target/debug/bin"@,
        "target/debug/resources/bin"@,
    )
}

/// Try the development-layout correction on a resolved path: rewrite the
/// build-directory binary location to the staged resources directory.
/// `Some` exactly when the rewrite changed anything.
pub fn try_dev_mode_path_correction(path: &str) -> (r: Option<String>)
    ensures
        match r {
            Some(c) => c@ == corrected_dev_path(path@) && corrected_dev_path(path@) != path@,
            None => corrected_dev_path(path@) == path@,
        },
{
    let first = replace_all_in(path, "target\\debug\\bin", "target\\debug\\resources\\bin");
    let second = replace_all_in(
        first.as_str(),
        "target/debug/bin",
        "target/debug/resources/bin",
    );
    let original = path.to_owned();
    if second == original {
        None
    } else {
        Some(second)
    }
}

/// Choose the candidate that a resolution reports: the primary path when a
/// binary is present there; otherwise the development-layout correction
/// when it applies and a binary is present at the corrected path; otherwise
/// the primary path, marked absent.
pub fn select_resolved(primary: String, primary_exists: bool, corrected_exists: bool) -> (r:
    ResolvedExecutable)
    ensures
        primary_exists ==> r == (ResolvedExecutable { absolute_path: primary, exists: true }),
        !primary_exists && corrected_dev_path(primary@) != primary@ && corrected_exists
            ==> r.absolute_path@ == corrected_dev_path(primary@) && r.exists,
        !primary_exists && (corrected_dev_path(primary@) == primary@ || !corrected_exists) ==> r
            == (ResolvedExecutable { absolute_path: primary, exists: false }),
{
    if primary_exists {
        return ResolvedExecutable { absolute_path: primary, exists: true };
    }
    match try_dev_mode_path_correction(primary.as_str()) {
        Some(corrected) => {
            if corrected_exists {
                ResolvedExecutable { absolute_path: corrected, exists: true }
            } else {
                ResolvedExecutable { absolute_path: primary, exists: false }
            }
        },
        None => ResolvedExecutable { absolute_path: primary, exists: false },
    }
}

} // verus!
