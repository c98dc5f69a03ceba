//! Version metadata.

use vstd::prelude::*;

verus! {

/// Public version payload.
#[derive(Debug, Clone, PartialEq, Eq)]
pub struct Info {
    /// Release tag or `"dev"`.
    pub version: String,
    /// Build git commit.
    pub commit: String,
    /// Build time.
    pub build_time: String,
}

/// The version info of a build whose environment recorded `commit` and
/// `build_time` (each absent when not recorded): a development build, the
/// commit or `unknown`, the build time or nothing.
pub fn info_from(commit: Option<&str>, build_time: Option<&str>) -> (r: Info)
    ensures
        r.version@ == "dev"@,
        r.commit@ == match commit {
            Some(c) => c@,
            None => "unknown"@,
        },
        r.build_time@ == match build_time {
            Some(t) => t@,
            None => Seq::<char>::empty(),
        },
{
    Info {
        version: String::from_str("dev"),
        commit: match commit {
            Some(c) => String::from_str(c),
            None => String::from_str("unknown"),
        },
        build_time: match build_time {
            Some(t) => String::from_str(t),
            None => String::new(),
        },
    }
}

/// Version info with no commit or build time recorded.
pub fn info() -> (r: Info)
    ensures
        r.version@ == "dev"@,
        r.commit@ == "unknown"@,
        r.build_time@ == Seq::<char>::empty(),
{
    Info { version: String::from_str("dev"), commit: String::from_str("unknown"), build_time: String::new() }
}

} // verus!
