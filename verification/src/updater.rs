//! The update engine: the data model of a release, the decision between a
//! full install and a patch, the out-of-date check, integrity verification,
//! and the backup/stage/apply/rollback state machine.

use vstd::prelude::*;

use crate::disk::spec_contains_all;
use crate::errors::BootstrapError;
use crate::hash::{hex_upper, sha256_of, sha_256};
use crate::text::eq_ignore_case;
use crate::version::spec_versions_equal;

verus! {

/// A full install runs the packaged installer because the application is not
/// installed; a patch applies new files over an existing installation.
#[derive(Debug, PartialEq, Eq, Structural, Copy, Clone)]
pub enum UpdateType {
    Install,
    Patch,
}

/// The named release channels.
#[derive(Debug, PartialEq, Eq, Structural, Copy, Clone)]
pub enum ReleaseBranch {
    Stable,
    Beta,
    Nightly,
}

/// The branch a stored channel name denotes: `stable`, `beta` and
/// `nightly`, ignoring case and surrounding whitespace; anything else
/// falls back to the stable branch.
pub open spec fn spec_branch_of(s: Seq<char>) -> ReleaseBranch {
    if crate::text::eq_ignore_case(crate::text::spec_trim(s), "stable"@) {
        ReleaseBranch::Stable
    } else if crate::text::eq_ignore_case(crate::text::spec_trim(s), "nightly"@) {
        ReleaseBranch::Nightly
    } else if crate::text::eq_ignore_case(crate::text::spec_trim(s), "beta"@) {
        ReleaseBranch::Beta
    } else {
        ReleaseBranch::Stable
    }
}

impl ReleaseBranch {
    /// Reads a branch from its stored channel name.
    pub fn from_name(name: &String) -> (r: ReleaseBranch)
        ensures
            r == spec_branch_of(name@),
    {
        let trimmed = crate::text::trim_str(name);
        if crate::text::eq_str_ignore_case(trimmed.as_str(), "stable") {
            ReleaseBranch::Stable
        } else if crate::text::eq_str_ignore_case(trimmed.as_str(), "nightly") {
            ReleaseBranch::Nightly
        } else if crate::text::eq_str_ignore_case(trimmed.as_str(), "beta") {
            ReleaseBranch::Beta
        } else {
            ReleaseBranch::Stable
        }
    }
}

/// The explicit progress marker coordinating the worker thread with the
/// polling foreground thread.
#[derive(Debug, PartialEq, Eq, Structural, Copy, Clone)]
pub enum UpdateState {
    /// The update or installation has not started.
    Idle,
    /// The update failed, usually because of the download.
    Failed,
    /// The update failed to apply and its files are being restored.
    RollingBack,
    /// The update package or installer is downloading.
    Downloading,
    /// The download is being hashed against the manifest.
    Validating,
    /// The update is being written to disk.
    Applying,
    /// The update was applied successfully.
    Done,
}

/// Where an install-state record lives.
#[derive(Debug, PartialEq, Eq, Structural, Copy, Clone)]
pub enum RegistryHandle {
    CurrentUser,
    LocalMachine,
}

/// Facts about an existing installation, as the install-state collaborator
/// reports them; read-only for the rest of the run.
#[derive(Debug, Clone)]
pub struct InstallInfo {
    pub name: String,
    pub version: String,
    pub path: String,
    pub branch: ReleaseBranch,
    pub registry_key: String,
    pub registry_handle: RegistryHandle,
    pub id: String,
}

/// The latest release of one branch.
#[derive(Debug, Clone)]
pub struct Branch {
    /// The version of the branch's latest release.
    pub version: String,
    /// Where the manifest of that release lives.
    pub manifest_url: String,
}

/// The fixed set of branches, fetched once per run from the release index.
#[derive(Debug, Clone)]
pub struct Releases {
    pub stable: Branch,
    pub beta: Branch,
    pub nightly: Branch,
}

/// The full installer of a release.
#[derive(Debug, Clone)]
pub struct Installer {
    pub url: String,
    pub hash: String,
}

/// The update package of a release: its archive and the files expected on
/// disk after extraction.
#[derive(Debug, Clone)]
pub struct Package {
    pub url: String,
    pub hash: String,
    pub files: Vec<String>,
}

/// One release, immutable once fetched.
#[derive(Debug, Clone)]
pub struct Manifest {
    pub version: String,
    pub package: Package,
    pub installer: Installer,
}

/// Release information pulled from a remote index, enough to form a
/// download URL and to check the installer afterwards.
#[derive(Debug, Clone)]
pub struct ReleaseInfo {
    /// The prefix on the installer's name.
    pub name: String,
    /// The current release version.
    pub version: String,
    /// The SHA-256 hash of the installer, to validate the download.
    pub hash: String,
}

/// The working state of one run: what is being downloaded and applied, and
/// from where.
#[derive(Debug, Clone)]
pub struct ActiveUpdate {
    pub update_type: UpdateType,
    pub manifest: Manifest,
    /// The content-addressed name of the downloaded artifact: its hash plus
    /// the extension of the artifact kind.
    pub temp_name: String,
    /// Absent exactly when no installation exists and a full install runs.
    pub install_info: Option<InstallInfo>,
}

/// `Install` exactly when no existing installation was found.
pub fn decide_update_type(install_info: &Option<InstallInfo>) -> (r: UpdateType)
    ensures
        (r == UpdateType::Install) == (install_info is None),
        (r == UpdateType::Patch) == (install_info is Some),
{
    match install_info {
        Option::None => UpdateType::Install,
        Option::Some(_) => UpdateType::Patch,
    }
}

impl ActiveUpdate {
    /// The well-formedness the engine maintains: the update type mirrors
    /// whether an installation exists.
    pub open spec fn wf(self) -> bool {
        (self.update_type == UpdateType::Install) == (self.install_info is None)
    }

    /// The expected content hash of the active artifact: the installer's for
    /// a full install, the package's for a patch.
    pub open spec fn spec_hash(self) -> Seq<char> {
        match self.update_type {
            UpdateType::Install => self.manifest.installer.hash@,
            UpdateType::Patch => self.manifest.package.hash@,
        }
    }

    /// The URL the active artifact is fetched from.
    pub open spec fn spec_url(self) -> Seq<char> {
        match self.update_type {
            UpdateType::Install => self.manifest.installer.url@,
            UpdateType::Patch => self.manifest.package.url@,
        }
    }

    /// The file extension of the active artifact.
    pub open spec fn spec_ext(self) -> Seq<char> {
        match self.update_type {
            UpdateType::Install => ".exe"@,
            UpdateType::Patch => ".zip"@,
        }
    }

    /// The files the package promises, the authoritative definition of
    /// "installation complete".
    pub fn get_package_files(&self) -> (r: Vec<String>)
        ensures
            r@ == self.manifest.package.files@,
    {
        let r = self.manifest.package.files.clone();
        proof {
            let fs = self.manifest.package.files;
            assert forall|i: int| 0 <= i < fs@.len() implies r@[i] == fs@[i] by {
                assert(cloned::<String>(fs@[i], r@[i]));
            }
            assert(r@ =~= fs@);
        }
        r
    }

    /// The name of the downloaded artifact in the temp directory.
    pub fn get_temp_name(&self) -> (r: String)
        ensures
            r == self.temp_name,
    {
        self.temp_name.clone()
    }

    /// The version of the resolved release.
    pub fn get_version(&self) -> (r: String)
        ensures
            r == self.manifest.version,
    {
        self.manifest.version.clone()
    }

    /// The extension of the active artifact.
    pub fn get_ext(&self) -> (r: String)
        ensures
            r@ == self.spec_ext(),
    {
        match self.update_type {
            UpdateType::Install => (".exe").to_owned(),
            UpdateType::Patch => (".zip").to_owned(),
        }
    }

    /// The URL of the active artifact.
    pub fn get_url(&self) -> (r: String)
        ensures
            r@ == self.spec_url(),
    {
        match self.update_type {
            UpdateType::Install => self.manifest.installer.url.clone(),
            UpdateType::Patch => self.manifest.package.url.clone(),
        }
    }

    /// The expected content hash of the active artifact.
    pub fn get_hash(&self) -> (r: String)
        ensures
            r@ == self.spec_hash(),
    {
        match self.update_type {
            UpdateType::Install => self.manifest.installer.hash.clone(),
            UpdateType::Patch => self.manifest.package.hash.clone(),
        }
    }

    /// Names the downloaded artifact after its own content hash, so attempts
    /// and versions never collide on disk.
    pub fn set_temp_file(&mut self)
        ensures
            final(self).temp_name@ == old(self).spec_hash() + old(self).spec_ext(),
            final(self).update_type == old(self).update_type,
            final(self).manifest == old(self).manifest,
            final(self).install_info == old(self).install_info,
    {
        let mut name = self.get_hash();
        let ext = self.get_ext();
        name.append(ext.as_str());
        self.temp_name = name;
    }

    /// Stores the manifest resolved for the chosen branch.
    pub fn set_manifest(&mut self, manifest: Manifest)
        ensures
            final(self).manifest == manifest,
            final(self).update_type == old(self).update_type,
            final(self).temp_name == old(self).temp_name,
            final(self).install_info == old(self).install_info,
    {
        self.manifest = manifest;
    }

    /// Whether the installation on disk is current: all files the manifest
    /// promises are present, and the installed version equals the manifest
    /// version.  The file check comes first and alone can demand an update,
    /// so a corrupted install is repaired whatever its version string says.
    pub fn validate(&self, dir_files: &Vec<String>) -> (r: bool)
        requires
            self.install_info is Some,
        ensures
            r == (spec_contains_all(
                dir_files.deep_view(),
                self.manifest.package.files.deep_view(),
            ) && spec_versions_equal(
                self.install_info->Some_0.version@,
                self.manifest.version@,
            )),
    {
        !self.needs_update(dir_files)
    }

    /// Whether an update must run: a required file is missing, or the
    /// installed version differs (semantically) from the manifest version.
    pub fn needs_update(&self, dir_files: &Vec<String>) -> (r: bool)
        requires
            self.install_info is Some,
        ensures
            r == !(spec_contains_all(
                dir_files.deep_view(),
                self.manifest.package.files.deep_view(),
            ) && spec_versions_equal(
                self.install_info->Some_0.version@,
                self.manifest.version@,
            )),
    {
        if !crate::disk::dir_contains_all_files(dir_files, &self.manifest.package.files) {
            return true;
        }
        match &self.install_info {
            Option::Some(info) => !crate::version::versions_equal(
                &info.version,
                &self.manifest.version,
            ),
            Option::None => true,
        }
    }
}

/// Checks that all the files in a list exist in a directory listing.
pub fn validate_files(dir_files: &Vec<String>, target_files: &Vec<String>) -> (r: bool)
    ensures
        r == spec_contains_all(dir_files.deep_view(), target_files.deep_view()),
{
    crate::disk::dir_contains_all_files(dir_files, target_files)
}

/// The manifest URL of the named branch, or `ReleaseLookupFailed` when the
/// index carries none for it.
pub fn select_manifest_url(releases: &Releases, branch: ReleaseBranch) -> (r: Result<
    String,
    BootstrapError,
>)
    ensures
        ({
            let url = match branch {
                ReleaseBranch::Stable => releases.stable.manifest_url,
                ReleaseBranch::Beta => releases.beta.manifest_url,
                ReleaseBranch::Nightly => releases.nightly.manifest_url,
            };
            if url@.len() == 0 {
                r matches Err(e) && e matches BootstrapError::ReleaseLookupFailed(m) && m@
                    == "Manifest URL missing for the requested branch."@
            } else {
                r == Ok::<String, BootstrapError>(url)
            }
        }),
{
    let url = match branch {
        ReleaseBranch::Stable => &releases.stable.manifest_url,
        ReleaseBranch::Beta => &releases.beta.manifest_url,
        ReleaseBranch::Nightly => &releases.nightly.manifest_url,
    };
    if url.as_str().unicode_len() == 0 {
        Err(BootstrapError::ReleaseLookupFailed(
            ("Manifest URL missing for the requested branch.").to_owned(),
        ))
    } else {
        Ok(url.clone())
    }
}

/// Compares the hash of the downloaded artifact (computed by the caller over
/// the temp file's bytes) with the hash the manifest expects: equality is
/// byte-for-byte, case-insensitive hex comparison, and a mismatch is
/// terminal for the attempt.
pub fn verify(update: &ActiveUpdate, local_hash: &String) -> (r: Result<String, String>)
    ensures
        eq_ignore_case(local_hash@, update.spec_hash()) ==> (r matches Ok(s) && s@ == Seq::<
            char,
        >::empty()),
        !eq_ignore_case(local_hash@, update.spec_hash()) ==> (r matches Err(e) && e@
            == crate::errors::spec_message(BootstrapError::SignatureMismatch)),
{
    let expected = update.get_hash();
    if crate::hash::hashes_match(local_hash, &expected) {
        Ok(String::new())
    } else {
        Err(BootstrapError::SignatureMismatch.message())
    }
}

/// Release-host configuration, constructed once at startup and passed by
/// reference into the resolver and transport client.
#[derive(Debug, Clone)]
pub struct Config {
    /// The host all release artifacts live under.
    pub base_release_url: String,
    /// The path of the release index below the host.
    pub release_path: String,
}

/// The base URL all release artifacts live under.
pub fn get_base_release_url(config: &Config) -> (r: String)
    ensures
        r == config.base_release_url,
{
    config.base_release_url.clone()
}

/// The URL of the release index: an explicit override (for staging and
/// testing) wins; otherwise the configured host and path are joined.
pub fn get_release_url(config: &Config, release_override: &Option<String>) -> (r: String)
    ensures
        release_override matches Some(u) ==> r == u,
        release_override is None ==> r@ == config.base_release_url@ + config.release_path@,
{
    match release_override {
        Option::Some(u) => u.clone(),
        Option::None => {
            let mut url = config.base_release_url.clone();
            url.append(config.release_path.as_str());
            url
        },
    }
}

/// As `verify`, for callers that hold the downloaded bytes themselves: the
/// buffer is hashed here and compared to the manifest hash.
pub fn verify_bytes(update: &ActiveUpdate, data: &Vec<u8>) -> (r: Result<String, String>)
    ensures
        eq_ignore_case(hex_upper(sha256_of(data@)), update.spec_hash()) ==> (r matches Ok(s) && s@
            == Seq::<char>::empty()),
        !eq_ignore_case(hex_upper(sha256_of(data@)), update.spec_hash()) ==> (r matches Err(e) && e@
            == crate::errors::spec_message(BootstrapError::SignatureMismatch)),
{
    let local = sha_256(data);
    verify(update, &local)
}

/// The phases of one apply attempt, in the order they run.  The only
/// irreversible step, clearing the install path, comes after both the
/// rollback source (the backup) and the replacement source (the staging
/// directory) are known-good on disk, so rollback is always a pure
/// directory move.
#[derive(Debug, PartialEq, Eq, Structural, Copy, Clone)]
pub enum ApplyPhase {
    /// Delete a stale staging directory left by an aborted attempt.
    ClearStage,
    /// Delete a stale backup directory left by an aborted attempt.
    ClearBackup,
    /// Copy the install path into the backup directory.
    Backup,
    /// Extract the downloaded package into the staging directory.
    Stage,
    /// Delete the install path's contents, sparing the exclusion list.
    Clear,
    /// Move the staged files into the install path.
    Commit,
    /// Best-effort hygiene on the new tree; failure is not propagated.
    Finalize,
    /// Restore the backup over the install path after a failed clear or
    /// commit.
    Rollback,
    /// The update was applied in full.
    Done,
    /// The attempt failed; the install path holds its pre-apply files,
    /// either untouched or restored from the backup.
    Failed,
    /// The attempt failed and so did the rollback; the install path may be
    /// inconsistent and nothing further is attempted automatically.
    Fatal,
}

/// What the executor must do next; every destructive operation spares the
/// machine's exclusion list.
#[derive(Debug, Clone)]
pub enum ApplyAction {
    /// Remove the directory and everything in it, if it exists.
    EnsureAbsent(String),
    /// Copy every file (structure preserved) from the first directory to
    /// the second.
    CopyContents(String, String),
    /// Extract the archive into the directory.
    Extract(String, String),
    /// Delete the directory's contents.
    DeleteContents(String),
    /// Move every file from the first directory to the second.
    MoveContents(String, String),
    /// Unblock, re-own and re-permission the directory, best-effort.
    Cleanse(String),
}

/// The transition relation of one apply attempt: which phase follows which,
/// given whether the phase's action succeeded.
pub open spec fn spec_apply_step(phase: ApplyPhase, ok: bool) -> ApplyPhase {
    match phase {
        ApplyPhase::ClearStage => if ok {
            ApplyPhase::ClearBackup
        } else {
            ApplyPhase::Failed
        },
        ApplyPhase::ClearBackup => if ok {
            ApplyPhase::Backup
        } else {
            ApplyPhase::Failed
        },
        ApplyPhase::Backup => if ok {
            ApplyPhase::Stage
        } else {
            ApplyPhase::Failed
        },
        ApplyPhase::Stage => if ok {
            ApplyPhase::Clear
        } else {
            ApplyPhase::Failed
        },
        ApplyPhase::Clear => if ok {
            ApplyPhase::Commit
        } else {
            ApplyPhase::Rollback
        },
        ApplyPhase::Commit => if ok {
            ApplyPhase::Finalize
        } else {
            ApplyPhase::Rollback
        },
        ApplyPhase::Finalize => ApplyPhase::Done,
        ApplyPhase::Rollback => if ok {
            ApplyPhase::Failed
        } else {
            ApplyPhase::Fatal
        },
        ApplyPhase::Done => ApplyPhase::Done,
        ApplyPhase::Failed => ApplyPhase::Failed,
        ApplyPhase::Fatal => ApplyPhase::Fatal,
    }
}

/// A phase from which the attempt does not move on.
pub open spec fn spec_terminal(phase: ApplyPhase) -> bool {
    phase == ApplyPhase::Done || phase == ApplyPhase::Failed || phase == ApplyPhase::Fatal
}

/// The machine after a whole sequence of action outcomes.
pub open spec fn spec_apply_run(phase: ApplyPhase, events: Seq<bool>) -> ApplyPhase
    decreases events.len(),
{
    if events.len() == 0 {
        phase
    } else {
        spec_apply_run(spec_apply_step(phase, events[0]), events.drop_first())
    }
}

/// The log file beside the executable: a trailing `.exe` becomes `.log`,
/// any other name gains the `.log` suffix.
pub open spec fn spec_log_name(exe: Seq<char>) -> Seq<char> {
    if exe.len() >= 4 && exe.subrange(exe.len() - 4, exe.len() as int) == ".exe"@ {
        exe.subrange(0, exe.len() - 4) + ".log"@
    } else {
        exe + ".log"@
    }
}

fn log_name(exe: &String) -> (r: String)
    ensures
        r@ == spec_log_name(exe@),
{
    let v = crate::text::chars_of(exe.as_str());
    let n = v.len();
    proof {
        vstd::prelude::reveal_strlit(".exe");
        vstd::prelude::reveal_strlit(".log");
    }
    if n >= 4 && v[n - 4] == '.' && v[n - 3] == 'e' && v[n - 2] == 'x' && v[n - 1] == 'e' {
        let mut stem: Vec<char> = Vec::new();
        let mut i: usize = 0;
        while i < n - 4
            invariant
                n == v@.len(),
                v@ == exe@,
                n >= 4,
                i <= n - 4,
                stem@ == exe@.subrange(0, i as int),
            decreases n - 4 - i,
        {
            stem.push(v[i]);
            i += 1;
            proof {
                assert(stem@ =~= exe@.subrange(0, i as int));
            }
        }
        let mut r = crate::text::string_of(&stem);
        r.append(".log");
        proof {
            assert(exe@.subrange(n - 4, n as int) =~= ".exe"@);
            assert(r@ =~= spec_log_name(exe@));
        }
        r
    } else {
        let mut r = exe.clone();
        r.append(".log");
        proof {
            if exe@.len() >= 4 && exe@.subrange(exe@.len() - 4, exe@.len() as int) == ".exe"@ {
                let l = exe@.len() as int;
                let suf = exe@.subrange(l - 4, l);
                assert(exe@[l - 4] == suf[0] && suf[0] == ".exe"@[0]);
                assert(exe@[l - 3] == suf[1] && suf[1] == ".exe"@[1]);
                assert(exe@[l - 2] == suf[2] && suf[2] == ".exe"@[2]);
                assert(exe@[l - 1] == suf[3] && suf[3] == ".exe"@[3]);
                assert(false);
            }
        }
        r
    }
}

/// One apply attempt over an existing installation: the paths it works on,
/// the names it must never destroy, and the phase it stands in.
#[derive(Debug, Clone)]
pub struct ApplyMachine {
    pub phase: ApplyPhase,
    /// The live installation.
    pub install_path: String,
    /// Where the package is extracted before it replaces the installation.
    pub staging_path: String,
    /// Where the installation is copied before anything is destroyed.
    pub backup_path: String,
    /// The downloaded package archive.
    pub archive_path: String,
    /// File names that survive every destructive step: the running
    /// executable, its log, and its self-update siblings.
    pub exclude: Vec<String>,
}

/// The action each phase asks of the executor.
pub open spec fn spec_next_action(m: ApplyMachine) -> Option<ApplyAction> {
    match m.phase {
        ApplyPhase::ClearStage => Some(ApplyAction::EnsureAbsent(m.staging_path)),
        ApplyPhase::ClearBackup => Some(ApplyAction::EnsureAbsent(m.backup_path)),
        ApplyPhase::Backup => Some(ApplyAction::CopyContents(m.install_path, m.backup_path)),
        ApplyPhase::Stage => Some(ApplyAction::Extract(m.archive_path, m.staging_path)),
        ApplyPhase::Clear => Some(ApplyAction::DeleteContents(m.install_path)),
        ApplyPhase::Commit => Some(ApplyAction::MoveContents(m.staging_path, m.install_path)),
        ApplyPhase::Finalize => Some(ApplyAction::Cleanse(m.install_path)),
        ApplyPhase::Rollback => Some(ApplyAction::MoveContents(m.backup_path, m.install_path)),
        ApplyPhase::Done => None,
        ApplyPhase::Failed => None,
        ApplyPhase::Fatal => None,
    }
}

impl ApplyMachine {
    /// Sets up one attempt.  `temp_dir` must end in a separator; the
    /// staging and backup directories are named after the version being
    /// applied, and the archive is the content-addressed download.
    pub fn new(
        install_path: String,
        temp_dir: &String,
        temp_name: &String,
        version: &String,
        current_exe: &String,
    ) -> (m: ApplyMachine)
        ensures
            m.phase == ApplyPhase::ClearStage,
            m.install_path == install_path,
            m.staging_path@ == temp_dir@ + "Update_Stage_"@ + version@,
            m.backup_path@ == temp_dir@ + "Update_Backup_"@ + version@,
            m.archive_path@ == temp_dir@ + temp_name@,
            m.exclude@.len() == 4,
            m.exclude@[0]@ == current_exe@,
            m.exclude@[1]@ == spec_log_name(current_exe@),
            m.exclude@[2]@ == current_exe@ + "_old"@,
            m.exclude@[3]@ == current_exe@ + "_new"@,
    {
        let mut staging_path = temp_dir.clone();
        staging_path.append("Update_Stage_");
        staging_path.append(version.as_str());
        let mut backup_path = temp_dir.clone();
        backup_path.append("Update_Backup_");
        backup_path.append(version.as_str());
        let mut archive_path = temp_dir.clone();
        archive_path.append(temp_name.as_str());
        let log_file = log_name(current_exe);
        let mut old_file = current_exe.clone();
        old_file.append("_old");
        let mut new_file = current_exe.clone();
        new_file.append("_new");
        let mut exclude: Vec<String> = Vec::new();
        exclude.push(current_exe.clone());
        exclude.push(log_file);
        exclude.push(old_file);
        exclude.push(new_file);
        ApplyMachine {
            phase: ApplyPhase::ClearStage,
            install_path,
            staging_path,
            backup_path,
            archive_path,
            exclude,
        }
    }

    /// The action to perform next, or nothing once the attempt has ended.
    pub fn next_action(&self) -> (r: Option<ApplyAction>)
        ensures
            r == spec_next_action(*self),
    {
        match self.phase {
            ApplyPhase::ClearStage => Some(ApplyAction::EnsureAbsent(self.staging_path.clone())),
            ApplyPhase::ClearBackup => Some(ApplyAction::EnsureAbsent(self.backup_path.clone())),
            ApplyPhase::Backup => Some(
                ApplyAction::CopyContents(self.install_path.clone(), self.backup_path.clone()),
            ),
            ApplyPhase::Stage => Some(
                ApplyAction::Extract(self.archive_path.clone(), self.staging_path.clone()),
            ),
            ApplyPhase::Clear => Some(ApplyAction::DeleteContents(self.install_path.clone())),
            ApplyPhase::Commit => Some(
                ApplyAction::MoveContents(self.staging_path.clone(), self.install_path.clone()),
            ),
            ApplyPhase::Finalize => Some(ApplyAction::Cleanse(self.install_path.clone())),
            ApplyPhase::Rollback => Some(
                ApplyAction::MoveContents(self.backup_path.clone(), self.install_path.clone()),
            ),
            ApplyPhase::Done => None,
            ApplyPhase::Failed => None,
            ApplyPhase::Fatal => None,
        }
    }

    /// Feeds the outcome of the last action back into the machine.
    pub fn step(&mut self, ok: bool)
        ensures
            final(self).phase == spec_apply_step(old(self).phase, ok),
            final(self).install_path == old(self).install_path,
            final(self).staging_path == old(self).staging_path,
            final(self).backup_path == old(self).backup_path,
            final(self).archive_path == old(self).archive_path,
            final(self).exclude == old(self).exclude,
    {
        let next = match self.phase {
            ApplyPhase::ClearStage => if ok {
                ApplyPhase::ClearBackup
            } else {
                ApplyPhase::Failed
            },
            ApplyPhase::ClearBackup => if ok {
                ApplyPhase::Backup
            } else {
                ApplyPhase::Failed
            },
            ApplyPhase::Backup => if ok {
                ApplyPhase::Stage
            } else {
                ApplyPhase::Failed
            },
            ApplyPhase::Stage => if ok {
                ApplyPhase::Clear
            } else {
                ApplyPhase::Failed
            },
            ApplyPhase::Clear => if ok {
                ApplyPhase::Commit
            } else {
                ApplyPhase::Rollback
            },
            ApplyPhase::Commit => if ok {
                ApplyPhase::Finalize
            } else {
                ApplyPhase::Rollback
            },
            ApplyPhase::Finalize => ApplyPhase::Done,
            ApplyPhase::Rollback => if ok {
                ApplyPhase::Failed
            } else {
                ApplyPhase::Fatal
            },
            ApplyPhase::Done => ApplyPhase::Done,
            ApplyPhase::Failed => ApplyPhase::Failed,
            ApplyPhase::Fatal => ApplyPhase::Fatal,
        };
        self.phase = next;
    }

    /// Whether the attempt has ended, one way or the other.
    pub fn is_terminal(&self) -> (r: bool)
        ensures
            r == spec_terminal(self.phase),
    {
        match self.phase {
            ApplyPhase::Done => true,
            ApplyPhase::Failed => true,
            ApplyPhase::Fatal => true,
            _ => false,
        }
    }

    /// The attempt's result once it has ended: a display string on success,
    /// an error string on failure — never success out of a failed attempt.
    pub fn outcome(&self) -> (r: Option<Result<String, String>>)
        ensures
            self.phase == ApplyPhase::Done ==> (r matches Some(o) && o matches Ok(s) && s@
                == "Update applied."@),
            self.phase == ApplyPhase::Failed ==> (r matches Some(o) && o matches Err(e) && e@
                == "The update failed and the previous installation was kept."@),
            self.phase == ApplyPhase::Fatal ==> (r matches Some(o) && o matches Err(e) && e@
                == "The update failed and rolling back failed too; the installation may be incomplete."@),
            !spec_terminal(self.phase) ==> r is None,
    {
        match self.phase {
            ApplyPhase::Done => Some(Ok(("Update applied.").to_owned())),
            ApplyPhase::Failed => Some(
                Err(("The update failed and the previous installation was kept.").to_owned()),
            ),
            ApplyPhase::Fatal => Some(
                Err(
                    ("The update failed and rolling back failed too; the installation may be incomplete.").to_owned(),
                ),
            ),
            _ => None,
        }
    }
}

/// A terminal phase absorbs every further event.
pub proof fn lemma_terminal_absorbs(phase: ApplyPhase, events: Seq<bool>)
    requires
        spec_terminal(phase),
    ensures
        spec_apply_run(phase, events) == phase,
    decreases events.len(),
{
    if events.len() > 0 {
        lemma_terminal_absorbs(phase, events.drop_first());
    }
}

/// Once the machine is rolling back, the attempt can only end in `Failed`
/// or `Fatal`: no sequence of further outcomes reaches `Done`.
pub proof fn lemma_rollback_never_succeeds(events: Seq<bool>)
    ensures
        spec_apply_run(ApplyPhase::Rollback, events) != ApplyPhase::Done,
{
    if events.len() > 0 {
        lemma_terminal_absorbs(spec_apply_step(ApplyPhase::Rollback, events[0]), events.drop_first());
    }
}

/// Apply is all-or-nothing with respect to the install path: if the clear
/// or the commit step fails, the machine turns to rollback at once, and
/// from there the attempt reports failure whatever else happens — it never
/// reports success.
pub proof fn lemma_apply_all_or_nothing(phase: ApplyPhase, events: Seq<bool>)
    requires
        phase == ApplyPhase::Clear || phase == ApplyPhase::Commit,
        events.len() > 0,
        !events[0],
    ensures
        spec_apply_step(phase, events[0]) == ApplyPhase::Rollback,
        spec_apply_run(phase, events) != ApplyPhase::Done,
{
    lemma_rollback_never_succeeds(events.drop_first());
}

/// Success comes only from a clean run: if an attempt started at its first
/// phase ends in `Done`, then each of the six fallible steps before the
/// best-effort hygiene reported success.
pub proof fn lemma_done_means_clean_run(events: Seq<bool>)
    requires
        spec_apply_run(ApplyPhase::ClearStage, events) == ApplyPhase::Done,
    ensures
        events.len() >= 7,
        forall|i: int| 0 <= i < 6 ==> events[i],
{
    lemma_done_prefix(ApplyPhase::ClearStage, events, 0);
}

/// Helper induction for `lemma_done_means_clean_run`: from any phase on
/// the success path at distance `6 - k` from the clear, reaching `Done`
/// takes a success at each remaining fallible step.
proof fn lemma_done_prefix(phase: ApplyPhase, events: Seq<bool>, k: int)
    requires
        0 <= k <= 6,
        phase == (if k == 0 {
            ApplyPhase::ClearStage
        } else if k == 1 {
            ApplyPhase::ClearBackup
        } else if k == 2 {
            ApplyPhase::Backup
        } else if k == 3 {
            ApplyPhase::Stage
        } else if k == 4 {
            ApplyPhase::Clear
        } else if k == 5 {
            ApplyPhase::Commit
        } else {
            ApplyPhase::Finalize
        }),
        spec_apply_run(phase, events) == ApplyPhase::Done,
    ensures
        events.len() >= 7 - k,
        forall|i: int| 0 <= i < 6 - k ==> events[i],
    decreases 7 - k,
{
    assert(events.len() > 0);
    let rest = events.drop_first();
    if k < 6 {
        if !events[0] {
            if phase == ApplyPhase::Clear || phase == ApplyPhase::Commit {
                lemma_rollback_never_succeeds(rest);
            } else {
                lemma_terminal_absorbs(ApplyPhase::Failed, rest);
            }
            assert(false);
        }
        lemma_done_prefix(spec_apply_step(phase, events[0]), rest, k + 1);
        assert forall|i: int| 0 <= i < 6 - k implies events[i] by {
            if i > 0 {
                assert(rest[i - 1] == events[i]);
            }
        }
    }
}

/// The file set of the install path after a successful patch: exactly the
/// staged files whose names are not excluded, plus the install path's own
/// excluded files — nothing of the old installation beyond the exclusion
/// list survives, and everything staged arrives.
pub proof fn lemma_patch_result(
    install: Seq<Seq<char>>,
    staging: Seq<Seq<char>>,
    ignored: Seq<Seq<char>>,
)
    ensures
        forall|f: Seq<char>|
            #[trigger] crate::disk::spec_sync(
                staging,
                crate::disk::spec_delete(install, ignored),
                ignored,
            ).contains(f) == ((staging.contains(f) && !crate::disk::name_excluded(f, ignored)) || (
            install.contains(f) && crate::disk::name_excluded(f, ignored))),
{
    crate::disk::lemma_sync_membership(staging, crate::disk::spec_delete(install, ignored), ignored);
    assert forall|f: Seq<char>|
        #[trigger] crate::disk::spec_delete(
            crate::disk::spec_delete(install, ignored),
            ignored,
        ).contains(f) == (install.contains(f) && crate::disk::name_excluded(f, ignored)) by {
        crate::disk::lemma_delete_membership(install, ignored, f);
        crate::disk::lemma_delete_membership(crate::disk::spec_delete(install, ignored), ignored, f);
    }
}

} // verus!
