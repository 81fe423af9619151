//! The decision half of the release tooling: given the hashes and the file
//! list that the packaging steps produced, assemble the manifest and the
//! branch record of a release.  Hashing, archiving and writing happen
//! outside the library.

use vstd::prelude::*;

use crate::errors::BootstrapError;
use crate::updater::{Branch, Installer, Manifest, Package, ReleaseBranch};

verus! {

/// A recipe crafts a release from a given build: the version it publishes,
/// where its installer and package sources stand, and the branch it lands
/// on.
#[derive(Debug, Clone)]
pub struct Recipe {
    /// The version of the release.
    pub version: String,
    /// The full path to the installer for the parent application.
    pub installer_path: String,
    /// The directory holding the files that make up the release.
    pub package_source: String,
    /// The destination branch of the release.
    pub branch: ReleaseBranch,
    /// The directory baked files are written to.
    pub output_dir: String,
}

/// A baked release: the manifest that becomes the release's manifest file,
/// and the branch record that the release index will carry.
#[derive(Debug, Clone)]
pub struct Dinner {
    pub manifest: Manifest,
    pub branch: Branch,
}

/// The display name of a branch.
pub open spec fn spec_branch_name(b: ReleaseBranch) -> Seq<char> {
    match b {
        ReleaseBranch::Stable => "Stable"@,
        ReleaseBranch::Beta => "Beta"@,
        ReleaseBranch::Nightly => "Nightly"@,
    }
}

/// The display name of a branch.
pub fn branch_name(b: ReleaseBranch) -> (r: String)
    ensures
        r@ == spec_branch_name(b),
{
    match b {
        ReleaseBranch::Stable => ("Stable").to_owned(),
        ReleaseBranch::Beta => ("Beta").to_owned(),
        ReleaseBranch::Nightly => ("Nightly").to_owned(),
    }
}

/// The URL a release's artifacts live under: the host, the branch name and
/// the version, slash-separated.
pub fn branch_release_url(base: &String, branch: ReleaseBranch, version: &String) -> (r: String)
    ensures
        r@ == base@ + seq!['/'] + spec_branch_name(branch) + seq!['/'] + version@,
{
    proof {
        vstd::prelude::reveal_strlit("/");
        assert("/"@ =~= seq!['/']);
    }
    let mut url = base.clone();
    url.append("/");
    let name = branch_name(branch);
    url.append(name.as_str());
    url.append("/");
    url.append(version.as_str());
    proof {
        assert(url@ =~= base@ + seq!['/'] + spec_branch_name(branch) + seq!['/'] + version@);
    }
    url
}

/// Assembles the baked release.  The packaging steps hand in the two
/// content hashes and the package's file list; an empty installer hash, an
/// empty package hash or an empty file list means packaging failed and the
/// bake is refused.  On success every URL of the release hangs under the
/// branch URL, and the manifest carries exactly the given hashes and files.
pub fn bake_release(
    version: &String,
    branch_url: &String,
    installer_hash: String,
    package_hash: String,
    files: Vec<String>,
) -> (r: Result<Dinner, BootstrapError>)
    ensures
        installer_hash@.len() == 0 ==> (r matches Err(e) && e matches
            BootstrapError::RecipeBakeFailure(_)),
        installer_hash@.len() > 0 && package_hash@.len() == 0 ==> (r matches Err(e) && e matches
            BootstrapError::RecipeBakeFailure(_)),
        installer_hash@.len() > 0 && package_hash@.len() > 0 && files@.len() == 0 ==> (r matches
            Err(e) && e matches BootstrapError::RecipeBakeFailure(_)),
        installer_hash@.len() > 0 && package_hash@.len() > 0 && files@.len() > 0 ==> (r matches Ok(
            d,
        ) && {
            &&& d.manifest.version@ == version@
            &&& d.manifest.package.url@ == branch_url@ + "/package.zip"@
            &&& d.manifest.package.hash == package_hash
            &&& d.manifest.package.files == files
            &&& d.manifest.installer.url@ == branch_url@ + "/installer.exe"@
            &&& d.manifest.installer.hash == installer_hash
            &&& d.branch.version@ == version@
            &&& d.branch.manifest_url@ == branch_url@ + "/manifest.toml"@
        }),
{
    if installer_hash.as_str().unicode_len() == 0 {
        return Err(
            BootstrapError::RecipeBakeFailure(("The installer hash is empty.").to_owned()),
        );
    }
    if package_hash.as_str().unicode_len() == 0 {
        return Err(BootstrapError::RecipeBakeFailure(("The package hash is empty.").to_owned()));
    }
    if files.len() == 0 {
        return Err(
            BootstrapError::RecipeBakeFailure(
                ("The package source contains zero files.").to_owned(),
            ),
        );
    }
    let mut installer_url = branch_url.clone();
    installer_url.append("/installer.exe");
    let mut package_url = branch_url.clone();
    package_url.append("/package.zip");
    let mut manifest_url = branch_url.clone();
    manifest_url.append("/manifest.toml");
    Ok(
        Dinner {
            manifest: Manifest {
                version: version.clone(),
                package: Package { url: package_url, hash: package_hash, files },
                installer: Installer { url: installer_url, hash: installer_hash },
            },
            branch: Branch { manifest_url, version: version.clone() },
        },
    )
}

} // verus!
