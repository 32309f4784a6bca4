//! Decisions of the package installer: which packages are built in, when an
//! installed package is out of date, where its files are fetched from, and
//! what to do with each dependency.
use vstd::prelude::*;
use crate::text::{concat, same_text};

verus! {

/// Where package manifests and files are fetched from.
pub const BASE_URL: &'static str = "https://raw.githubusercontent.com/lillycat332/pscm-mods/main/";

/// Where the list of a package's files is fetched from.
pub const BASE_API_URL: &'static str = "https://api.github.com/repos/lillycat332/pscm-mods/contents/";

/// A package manifest.
#[derive(Clone, Debug, PartialEq, Eq)]
pub struct Package {
    pub name: String,
    pub version: String,
    pub description: String,
    pub requires: Vec<String>,
}

/// An error of the package installer.
#[derive(Debug, Clone, PartialEq, Eq)]
pub enum PackageError {
    Reason(String),
}

/// The result of a step of the package installer.
pub type PackageResult<T> = Result<T, PackageError>;

/// Whether `pkg` ships with the interpreter's base libraries.
pub fn is_built_in_pkg(pkg: &str) -> (r: bool)
    ensures
        r == (pkg@ == "base"@),
{
    same_text(pkg, "base")
}

/// Whether `package`, as installed, is older than the manifest fetched for it:
/// the versions differ. An error in fetching the manifest is handed on.
pub fn check_for_update(package: Package, new_manifest: PackageResult<Package>) -> (r: PackageResult<bool>)
    ensures
        match new_manifest {
            Ok(m) => r matches Ok(b) && b == (m.version@ != package.version@),
            Err(e) => r matches Err(e2) && e2 == e,
        },
{
    match new_manifest {
        Ok(m) => {
            if !same_text(m.version.as_str(), package.version.as_str()) {
                Ok(true)
            } else {
                Ok(false)
            }
        },
        Err(e) => Err(e),
    }
}

/// Where the manifest of `package` is fetched from.
pub fn manifest_url(package: &str) -> (r: String)
    ensures
        r@ == BASE_URL@ + package@ + "/"@ + package@ + ".pscmpkg"@,
{
    let a = concat(BASE_URL, package);
    let b = concat(a.as_str(), "/");
    let c = concat(b.as_str(), package);
    concat(c.as_str(), ".pscmpkg")
}

/// Where the list of the files of `package` is fetched from.
pub fn contents_url(package: &str) -> (r: String)
    ensures
        r@ == BASE_API_URL@ + package@,
{
    concat(BASE_API_URL, package)
}

/// Where the package file at `path` is fetched from.
pub fn file_url(path: &str) -> (r: String)
    ensures
        r@ == BASE_URL@ + path@,
{
    concat(BASE_URL, path)
}

/// The directory that the files of version `version` of `name` are downloaded to.
pub fn download_dir_name(name: &str, version: &str) -> (r: String)
    ensures
        r@ == name@ + "-"@ + version@,
{
    let a = concat(name, "-");
    concat(a.as_str(), version)
}

/// What the installer has just learnt about a dependency.
#[derive(Clone, Copy, Debug, PartialEq, Eq)]
pub enum DepEvent {
    /// The dependency is next in the manifest's list.
    Listed,
    /// Its manifest was fetched: whether the server answered with success.
    ManifestFetched(bool),
    /// Whether it, or the package its manifest names, is installed already.
    InstalledChecked(bool),
    /// Whether the installed copy is out of date.
    UpdateChecked(bool),
}

/// What the installer does next with a dependency.
#[derive(Clone, Copy, Debug, PartialEq, Eq)]
pub enum DepAction {
    /// Skip it: the base libraries hold it.
    SkipBuiltIn,
    /// Fetch its manifest.
    FetchManifest,
    /// Stop with an error: its manifest could not be fetched.
    FailFetch,
    /// Find out whether it is installed.
    CheckInstalled,
    /// Find out whether the installed copy is out of date.
    CheckUpdate,
    /// Install it from its manifest.
    Install,
    /// Leave it: the installed copy is up to date.
    UpToDate,
}

/// The installer's next step for the dependency `dep`, after `event`.
pub fn next_dep_action(dep: &str, event: DepEvent) -> (r: DepAction)
    ensures
        r == match event {
            DepEvent::Listed => if dep@ == "base"@ {
                DepAction::SkipBuiltIn
            } else {
                DepAction::FetchManifest
            },
            DepEvent::ManifestFetched(ok) => if ok {
                DepAction::CheckInstalled
            } else {
                DepAction::FailFetch
            },
            DepEvent::InstalledChecked(installed) => if installed {
                DepAction::CheckUpdate
            } else {
                DepAction::Install
            },
            DepEvent::UpdateChecked(outdated) => if outdated {
                DepAction::Install
            } else {
                DepAction::UpToDate
            },
        },
{
    match event {
        DepEvent::Listed => {
            if is_built_in_pkg(dep) {
                DepAction::SkipBuiltIn
            } else {
                DepAction::FetchManifest
            }
        },
        DepEvent::ManifestFetched(ok) => {
            if ok {
                DepAction::CheckInstalled
            } else {
                DepAction::FailFetch
            }
        },
        DepEvent::InstalledChecked(installed) => {
            if installed {
                DepAction::CheckUpdate
            } else {
                DepAction::Install
            }
        },
        DepEvent::UpdateChecked(outdated) => {
            if outdated {
                DepAction::Install
            } else {
                DepAction::UpToDate
            }
        },
    }
}

} // verus!
