//! Which edition of the application runs, and under which license.
use vstd::prelude::*;

verus! {

/// The edition of the application.
#[derive(Debug, Clone, Copy, PartialEq, Eq, Structural)]
pub enum Edition {
    Community,
    Store,
}

/// The edition's display name.
pub open spec fn edition_name(e: Edition) -> Seq<char> {
    match e {
        Edition::Community => "Community"@,
        Edition::Store => "Store"@,
    }
}

/// The edition's license, as an SPDX identifier.
pub open spec fn edition_license(e: Edition) -> Seq<char> {
    match e {
        Edition::Community => "GPL-3.0-or-later"@,
        Edition::Store => "LicenseRef-ProcessFox-Store"@,
    }
}

impl Edition {
    /// The edition of this build: the store edition when built as one.
    pub fn current(store_build: bool) -> (e: Edition)
        ensures
            e == (if store_build {
                Edition::Store
            } else {
                Edition::Community
            }),
    {
        if store_build {
            Edition::Store
        } else {
            Edition::Community
        }
    }

    /// The display name.
    pub fn name(&self) -> (s: &'static str)
        ensures
            s@ == edition_name(*self),
    {
        match self {
            Edition::Community => "Community",
            Edition::Store => "Store",
        }
    }

    /// The license as an SPDX identifier.
    pub fn license_spdx(&self) -> (s: &'static str)
        ensures
            s@ == edition_license(*self),
    {
        match self {
            Edition::Community => "GPL-3.0-or-later",
            Edition::Store => "LicenseRef-ProcessFox-Store",
        }
    }
}

/// What the application reports about itself.
pub struct AppInfo {
    pub version: &'static str,
    pub edition: Edition,
    pub edition_name: &'static str,
    pub license_spdx: &'static str,
}

/// The application's report for a build of `version`.
pub fn app_info(version: &'static str, store_build: bool) -> (i: AppInfo)
    ensures
        i.version == version,
        i.edition == Edition::current_spec(store_build),
        i.edition_name@ == edition_name(i.edition),
        i.license_spdx@ == edition_license(i.edition),
{
    let edition = Edition::current(store_build);
    AppInfo {
        version,
        edition,
        edition_name: edition.name(),
        license_spdx: edition.license_spdx(),
    }
}

impl Edition {
    /// The edition of a build.
    pub open spec fn current_spec(store_build: bool) -> Edition {
        if store_build {
            Edition::Store
        } else {
            Edition::Community
        }
    }
}

} // verus!
