//! The closed error set of the bootstrapper core.

use vstd::prelude::*;

verus! {

/// Everything that can go wrong between resolving a release and applying it.
/// Resolution errors leave the disk untouched; integrity errors leave only
/// the temporary download behind; installation errors may have triggered a
/// rollback (see the update engine).
#[derive(Debug, Clone)]
pub enum BootstrapError {
    RecipeBakeFailure(String),
    RecipeStageFailure(String),
    HttpFailed(String),
    LocalVersionMissing,
    InstallPathMissing,
    ReleaseLookupFailed(String),
    VersionCheckFailed(String, String),
    TomlParseFailure(String, String),
    SignatureMismatch,
    RemoteFileMissing(String),
    RemoteFileEmpty(String),
    InstallationFailed(String),
    UninstallEntryMissing,
    ArchitectureUnsupported,
    WindowsVersionUnsupported,
    NeedWindowsMediaPack(String),
    NeedDotNetFramework,
    OsVersionNotFound,
    RegistryKeyNotFound(String),
    UnableToSetRegKey(String),
    BootstrapperExist,
}

/// The user-facing text of each error.
pub open spec fn spec_message(e: BootstrapError) -> Seq<char> {
    match e {
        BootstrapError::RecipeBakeFailure(s) => "Unable to complete release build due to baking issue: "@ + s@,
        BootstrapError::RecipeStageFailure(s) => "Unable to complete release build due to staging issue: "@ + s@,
        BootstrapError::HttpFailed(s) => s@,
        BootstrapError::LocalVersionMissing => "Unable to locate the version of the currently installed branch."@,
        BootstrapError::InstallPathMissing => "Unable to locate the installation path of the currently installed branch."@,
        BootstrapError::ReleaseLookupFailed(s) => "We were unable to determine the latest release. Please exit and try again. "@ + s@,
        BootstrapError::VersionCheckFailed(r, l) => "Unable to compare remote version ("@ + r@ + ") to installed version ("@ + l@ + ")."@,
        BootstrapError::TomlParseFailure(u, d) => "An exception was encountered parsing a remote file located at "@ + u@ + " due to "@ + d@,
        BootstrapError::SignatureMismatch => "We were unable to validate the updates integrity. Please exit and try again."@,
        BootstrapError::RemoteFileMissing(s) => "The remote file requested ("@ + s@ + ") is not present at the address provided."@,
        BootstrapError::RemoteFileEmpty(s) => "The remote file requested ("@ + s@ + ") has a zero byte length."@,
        BootstrapError::InstallationFailed(s) => "An error occured installing the latest update: "@ + s@,
        BootstrapError::UninstallEntryMissing => "No uninstall key entry was present."@,
        BootstrapError::ArchitectureUnsupported => "This application is currently only supported by x64 operating systems."@,
        BootstrapError::WindowsVersionUnsupported => "This application is currently only supported on Windows 10 and Windows Server 2016+."@,
        BootstrapError::NeedWindowsMediaPack(s) => "A required video codec is missing from your system. Please install the Windows Media Pack for "@ + s@ + "."@,
        BootstrapError::NeedDotNetFramework => ".NET Framework 4.7.2 or newer is missing from your computer and is required to install this application."@,
        BootstrapError::OsVersionNotFound => "Unable to determine a specified operating system version attribute."@,
        BootstrapError::RegistryKeyNotFound(s) => "An error occured accessing Windows Registry key: "@ + s@ + "."@,
        BootstrapError::UnableToSetRegKey(s) => "Unable to set regkey "@ + s@,
        BootstrapError::BootstrapperExist => "Another instance of the Bootstrapper is already running."@,
    }
}

impl BootstrapError {
    /// The text shown to the user for this error.
    pub fn message(&self) -> (r: String)
        ensures
            r@ == spec_message(*self),
    {
        match self {
            BootstrapError::RecipeBakeFailure(s) => concat2(
                "Unable to complete release build due to baking issue: ",
                s.as_str(),
            ),
            BootstrapError::RecipeStageFailure(s) => concat2(
                "Unable to complete release build due to staging issue: ",
                s.as_str(),
            ),
            BootstrapError::HttpFailed(s) => s.clone(),
            BootstrapError::LocalVersionMissing => (
                "Unable to locate the version of the currently installed branch."
            ).to_owned(),
            BootstrapError::InstallPathMissing => (
                "Unable to locate the installation path of the currently installed branch."
            ).to_owned(),
            BootstrapError::ReleaseLookupFailed(s) => concat2(
                "We were unable to determine the latest release. Please exit and try again. ",
                s.as_str(),
            ),
            BootstrapError::VersionCheckFailed(r, l) => {
                let mut m = ("Unable to compare remote version (").to_owned();
                m.append(r.as_str());
                m.append(") to installed version (");
                m.append(l.as_str());
                m.append(").");
                m
            },
            BootstrapError::TomlParseFailure(u, d) => {
                let mut m = ("An exception was encountered parsing a remote file located at ").to_owned();
                m.append(u.as_str());
                m.append(" due to ");
                m.append(d.as_str());
                m
            },
            BootstrapError::SignatureMismatch => (
                "We were unable to validate the updates integrity. Please exit and try again."
            ).to_owned(),
            BootstrapError::RemoteFileMissing(s) => {
                let mut m = ("The remote file requested (").to_owned();
                m.append(s.as_str());
                m.append(") is not present at the address provided.");
                m
            },
            BootstrapError::RemoteFileEmpty(s) => {
                let mut m = ("The remote file requested (").to_owned();
                m.append(s.as_str());
                m.append(") has a zero byte length.");
                m
            },
            BootstrapError::InstallationFailed(s) => concat2(
                "An error occured installing the latest update: ",
                s.as_str(),
            ),
            BootstrapError::UninstallEntryMissing => ("No uninstall key entry was present.").to_owned(),
            BootstrapError::ArchitectureUnsupported => (
                "This application is currently only supported by x64 operating systems."
            ).to_owned(),
            BootstrapError::WindowsVersionUnsupported => (
                "This application is currently only supported on Windows 10 and Windows Server 2016+."
            ).to_owned(),
            BootstrapError::NeedWindowsMediaPack(s) => {
                let mut m = (
                    "A required video codec is missing from your system. Please install the Windows Media Pack for "
                ).to_owned();
                m.append(s.as_str());
                m.append(".");
                m
            },
            BootstrapError::NeedDotNetFramework => (
                ".NET Framework 4.7.2 or newer is missing from your computer and is required to install this application."
            ).to_owned(),
            BootstrapError::OsVersionNotFound => (
                "Unable to determine a specified operating system version attribute."
            ).to_owned(),
            BootstrapError::RegistryKeyNotFound(s) => {
                let mut m = ("An error occured accessing Windows Registry key: ").to_owned();
                m.append(s.as_str());
                m.append(".");
                m
            },
            BootstrapError::UnableToSetRegKey(s) => concat2("Unable to set regkey ", s.as_str()),
            BootstrapError::BootstrapperExist => (
                "Another instance of the Bootstrapper is already running."
            ).to_owned(),
        }
    }
}

/// Two string pieces, joined.
fn concat2(a: &str, b: &str) -> (r: String)
    ensures
        r@ == a@ + b@,
{
    let mut m = a.to_owned();
    m.append(b);
    m
}

} // verus!
