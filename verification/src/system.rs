//! Models of the facts the OS collaborators report: system capabilities,
//! running processes, and the application's own registry records.  The
//! queries run outside the library; every judgement over their answers is
//! made here.

use vstd::prelude::*;

use crate::errors::BootstrapError;
use crate::updater::RegistryHandle;

verus! {

broadcast use vstd::string::group_string_axioms;

/// What the OS reports about the machine.
#[derive(Debug, Clone)]
pub struct SystemInfo {
    /// Whether the operating system is 64-bit.
    pub is_x64: bool,
    /// Whether the Windows version is one the application supports.
    pub is_supported: bool,
    /// Whether this is an "N" edition, which ships without media codecs.
    pub is_n_edition: bool,
    /// The product name, for the media-pack message.
    pub product_name: String,
}

/// Checks a system against the application's requirements, returning the
/// error of the first requirement that is not met: the architecture first,
/// the Windows version second, and, on an "N" edition that lacks the media
/// pack, the missing codecs last.
pub fn check_system_compatibility(info: &SystemInfo, needs_media_pack: bool) -> (r: Result<
    (),
    BootstrapError,
>)
    ensures
        !info.is_x64 ==> r == Err::<(), BootstrapError>(BootstrapError::ArchitectureUnsupported),
        info.is_x64 && !info.is_supported ==> r == Err::<(), BootstrapError>(
            BootstrapError::WindowsVersionUnsupported,
        ),
        info.is_x64 && info.is_supported && info.is_n_edition && needs_media_pack ==> (r matches
            Err(e) && e matches BootstrapError::NeedWindowsMediaPack(p) && p@
            == info.product_name@),
        info.is_x64 && info.is_supported && (!info.is_n_edition || !needs_media_pack) ==> r
            == Ok::<(), BootstrapError>(()),
{
    if !info.is_x64 {
        return Err(BootstrapError::ArchitectureUnsupported);
    }
    if !info.is_supported {
        return Err(BootstrapError::WindowsVersionUnsupported);
    }
    if info.is_n_edition && needs_media_pack {
        return Err(BootstrapError::NeedWindowsMediaPack(info.product_name.clone()));
    }
    Ok(())
}

/// The Windows generations the bootstrapper tells apart.
#[derive(Debug, PartialEq, Eq, Structural, Copy, Clone)]
pub enum WindowsVersion {
    WindowsXp,
    WindowsVista,
    Windows7,
    Windows8,
    Windows81,
    Windows10,
}

/// The newest Windows generation whose "this version or greater" probe
/// holds, from the probes the OS collaborator answers; when none holds the
/// version cannot be determined.
pub fn get_windows_version(
    is10: bool,
    is81: bool,
    is8: bool,
    is7: bool,
    is_vista: bool,
    is_xp: bool,
) -> (r: Result<WindowsVersion, BootstrapError>)
    ensures
        is10 ==> r == Ok::<WindowsVersion, BootstrapError>(WindowsVersion::Windows10),
        !is10 && is81 ==> r == Ok::<WindowsVersion, BootstrapError>(WindowsVersion::Windows81),
        !is10 && !is81 && is8 ==> r == Ok::<WindowsVersion, BootstrapError>(
            WindowsVersion::Windows8,
        ),
        !is10 && !is81 && !is8 && is7 ==> r == Ok::<WindowsVersion, BootstrapError>(
            WindowsVersion::Windows7,
        ),
        !is10 && !is81 && !is8 && !is7 && is_vista ==> r == Ok::<WindowsVersion, BootstrapError>(
            WindowsVersion::WindowsVista,
        ),
        !is10 && !is81 && !is8 && !is7 && !is_vista && is_xp ==> r == Ok::<
            WindowsVersion,
            BootstrapError,
        >(WindowsVersion::WindowsXp),
        !is10 && !is81 && !is8 && !is7 && !is_vista && !is_xp ==> r == Err::<
            WindowsVersion,
            BootstrapError,
        >(BootstrapError::OsVersionNotFound),
{
    if is10 {
        Ok(WindowsVersion::Windows10)
    } else if is81 {
        Ok(WindowsVersion::Windows81)
    } else if is8 {
        Ok(WindowsVersion::Windows8)
    } else if is7 {
        Ok(WindowsVersion::Windows7)
    } else if is_vista {
        Ok(WindowsVersion::WindowsVista)
    } else if is_xp {
        Ok(WindowsVersion::WindowsXp)
    } else {
        Err(BootstrapError::OsVersionNotFound)
    }
}

/// Judges the installed .NET Framework from the release number the
/// install-state collaborator reads: absent, or older than release 461808
/// (the 4.7.2 line), means the framework the application needs is missing.
pub fn check_dotnet_framework(release: Option<u32>) -> (r: Result<(), BootstrapError>)
    ensures
        ({
            match release {
                Some(v) => if v >= 461808 {
                    r == Ok::<(), BootstrapError>(())
                } else {
                    r == Err::<(), BootstrapError>(BootstrapError::NeedDotNetFramework)
                },
                None => r == Err::<(), BootstrapError>(BootstrapError::NeedDotNetFramework),
            }
        }),
{
    match release {
        Some(v) if v >= 461808 => Ok(()),
        _ => Err(BootstrapError::NeedDotNetFramework),
    }
}

/// A snapshot of one running process, as the process collaborator reports
/// it.
#[derive(Debug, Clone)]
pub struct Process {
    pub process_id: u32,
    pub parent_id: u32,
    pub process_name: String,
    pub process_path: Option<String>,
}

impl Process {
    /// The process id.
    pub fn id(&self) -> (r: u32)
        ensures
            r == self.process_id,
    {
        self.process_id
    }

    /// The id of the parent process.
    pub fn parent(&self) -> (r: u32)
        ensures
            r == self.parent_id,
    {
        self.parent_id
    }

    /// The executable name of the process.
    pub fn name(&self) -> (r: &str)
        ensures
            r@ == self.process_name@,
    {
        self.process_name.as_str()
    }

    /// The full path of the process image, when the OS knows it.
    pub fn path(&self) -> (r: &Option<String>)
        ensures
            r == self.process_path,
    {
        &self.process_path
    }
}

/// Whether the application is installed: the list of uninstall records the
/// install-state collaborator reports holds the application's key.
pub fn is_installed(uninstall_keys: &Vec<String>, key: &String) -> (r: bool)
    ensures
        r == uninstall_keys.deep_view().contains(key@),
{
    crate::disk::contains_string(uninstall_keys, key)
}

/// The record the application keeps about its own setup.
#[derive(Debug, Clone)]
pub struct RainwayApp {
    pub setup_id: String,
    pub install_state: RainwayAppState,
}

/// The setup states the application records.
#[derive(Debug, PartialEq, Eq, Structural, Copy, Clone)]
pub enum RainwayAppState {
    Nothing,
    Activate,
    Update,
    Deactivate,
}

impl RainwayAppState {
    /// The state stored for this value.
    pub fn number(&self) -> (r: u32)
        ensures
            r == self.spec_number(),
    {
        match *self {
            RainwayAppState::Nothing => 0,
            RainwayAppState::Activate => 1,
            RainwayAppState::Update => 2,
            RainwayAppState::Deactivate => 3,
        }
    }

    /// The stored number of each state.
    pub open spec fn spec_number(self) -> u32 {
        match self {
            RainwayAppState::Nothing => 0,
            RainwayAppState::Activate => 1,
            RainwayAppState::Update => 2,
            RainwayAppState::Deactivate => 3,
        }
    }

    /// The state a stored number denotes; unknown numbers denote `Nothing`.
    pub fn from_number(x: u32) -> (r: RainwayAppState)
        ensures
            x == 1 ==> r == RainwayAppState::Activate,
            x == 2 ==> r == RainwayAppState::Update,
            x == 3 ==> r == RainwayAppState::Deactivate,
            x == 0 || x > 3 ==> r == RainwayAppState::Nothing,
    {
        match x {
            1 => RainwayAppState::Activate,
            2 => RainwayAppState::Update,
            3 => RainwayAppState::Deactivate,
            _ => RainwayAppState::Nothing,
        }
    }
}

/// Splitting on line feeds, front to back, with the line read so far.
pub open spec fn split_lines_rec(s: Seq<char>, cur: Seq<char>) -> Seq<Seq<char>>
    decreases s.len(),
{
    if s.len() == 0 {
        seq![cur]
    } else if s[0] == '\n' {
        seq![cur] + split_lines_rec(s.drop_first(), Seq::empty())
    } else {
        split_lines_rec(s.drop_first(), cur.push(s[0]))
    }
}

/// The lines of a text.
pub open spec fn split_lines(s: Seq<char>) -> Seq<Seq<char>> {
    split_lines_rec(s, Seq::empty())
}

/// The position of the first `=` in a line.
pub open spec fn first_eq_from(s: Seq<char>, i: int) -> Option<int>
    decreases s.len() - i,
{
    if i < 0 || i >= s.len() {
        None
    } else if s[i] == '=' {
        Some(i)
    } else {
        first_eq_from(s, i + 1)
    }
}

/// The key and value of a `key=value` line, both trimmed; a line without
/// an `=` carries nothing.
pub open spec fn line_kv(line: Seq<char>) -> Option<(Seq<char>, Seq<char>)> {
    match first_eq_from(line, 0) {
        Some(i) => Some(
            (
                crate::text::spec_trim(line.subrange(0, i)),
                crate::text::spec_trim(line.subrange(i + 1, line.len() as int)),
            ),
        ),
        None => None,
    }
}

/// The value recorded under a key: the last `key=value` line wins; keys a
/// record does not carry read as empty.
pub open spec fn field_value(lines: Seq<Seq<char>>, key: Seq<char>) -> Seq<char>
    decreases lines.len(),
{
    if lines.len() == 0 {
        Seq::empty()
    } else {
        match line_kv(lines.last()) {
            Some(kv) => if kv.0 == key {
                kv.1
            } else {
                field_value(lines.drop_last(), key)
            },
            None => field_value(lines.drop_last(), key),
        }
    }
}

/// The lines of a text, as strings.
fn split_text_lines(s: &String) -> (lines: Vec<String>)
    ensures
        lines@.len() == split_lines(s@).len(),
        forall|i: int| 0 <= i < lines@.len() ==> lines@[i]@ == split_lines(s@)[i],
{
    let v = crate::text::chars_of(s.as_str());
    let n = v.len();
    let mut done: Vec<String> = Vec::new();
    let mut cur: Vec<char> = Vec::new();
    let mut i: usize = 0;
    proof {
        assert(s@.subrange(0, n as int) =~= s@);
        assert(done.deep_view() =~= Seq::<Seq<char>>::empty());
    }
    while i < n
        invariant
            n == v@.len(),
            v@ == s@,
            i <= n,
            split_lines(s@) == done.deep_view() + split_lines_rec(
                s@.subrange(i as int, n as int),
                cur@,
            ),
        decreases n - i,
    {
        let ghost rest = s@.subrange(i as int, n as int);
        proof {
            assert(rest[0] == s@[i as int]);
            assert(rest.drop_first() =~= s@.subrange(i + 1, n as int));
        }
        if v[i] == '\n' {
            let ghost pre = done.deep_view();
            let ghost curview = cur@;
            let line = crate::text::string_of(&cur);
            done.push(line);
            cur = Vec::new();
            proof {
                assert(done.deep_view() =~= pre.push(curview));
                assert(pre.push(curview) + split_lines_rec(
                    s@.subrange(i + 1, n as int),
                    Seq::empty(),
                ) =~= pre + (seq![curview] + split_lines_rec(
                    s@.subrange(i + 1, n as int),
                    Seq::empty(),
                )));
            }
        } else {
            cur.push(v[i]);
        }
        i += 1;
    }
    proof {
        assert(s@.subrange(n as int, n as int).len() == 0);
    }
    let ghost pre = done.deep_view();
    let ghost curview = cur@;
    let line = crate::text::string_of(&cur);
    done.push(line);
    proof {
        assert(done.deep_view() =~= pre.push(curview));
        assert(pre + seq![curview] =~= pre.push(curview));
        assert(done.deep_view() =~= split_lines(s@));
    }
    done
}

/// The trimmed key and value of one `key=value` line.
fn parse_state_line(line: &String) -> (r: Option<(String, String)>)
    ensures
        ({
            let kv = line_kv(line@);
            match r {
                Some(p) => kv matches Some(q) && p.0@ == q.0 && p.1@ == q.1,
                None => kv is None,
            }
        }),
{
    let v = crate::text::chars_of(line.as_str());
    let n = v.len();
    let mut i: usize = 0;
    while i < n && v[i] != '='
        invariant
            n == v@.len(),
            v@ == line@,
            i <= n,
            first_eq_from(line@, 0) == first_eq_from(line@, i as int),
        decreases n - i,
    {
        i += 1;
    }
    if i == n {
        return None;
    }
    let mut key: Vec<char> = Vec::new();
    let mut k: usize = 0;
    while k < i
        invariant
            n == v@.len(),
            v@ == line@,
            k <= i <= n,
            key@ == line@.subrange(0, k as int),
        decreases i - k,
    {
        key.push(v[k]);
        k += 1;
        proof {
            assert(key@ =~= line@.subrange(0, k as int));
        }
    }
    let mut value: Vec<char> = Vec::new();
    let mut k: usize = i + 1;
    while k < n
        invariant
            n == v@.len(),
            v@ == line@,
            i < n,
            i + 1 <= k <= n,
            value@ == line@.subrange(i + 1, k as int),
        decreases n - k,
    {
        value.push(v[k]);
        k += 1;
        proof {
            assert(value@ =~= line@.subrange(i + 1, k as int));
        }
    }
    proof {
        assert(first_eq_from(line@, 0) == Some(i as int));
        assert(key@ =~= line@.subrange(0, i as int));
        assert(value@ =~= line@.subrange(i + 1, n as int));
    }
    let key_s = crate::text::string_of(&key);
    let value_s = crate::text::string_of(&value);
    Some((crate::text::trim_str(&key_s), crate::text::trim_str(&value_s)))
}

/// Reads an install-state record from its stored `key=value` text: the
/// recorded name, version, install path and branch, with the version and
/// the path required to be present, exactly as judging the record demands;
/// the install path is slash-normalised so nested directories are handled
/// uniformly.  `source` names where the record lives, for writing back
/// later.
pub fn parse_install_info(text: &String, source: &String) -> (r: Result<
    crate::updater::InstallInfo,
    BootstrapError,
>)
    ensures
        ({
            let lines = split_lines(text@);
            let version = field_value(lines, "version"@);
            let path = field_value(lines, "path"@);
            if version.len() == 0 {
                r == Err::<crate::updater::InstallInfo, BootstrapError>(
                    BootstrapError::LocalVersionMissing,
                )
            } else if path.len() == 0 {
                r == Err::<crate::updater::InstallInfo, BootstrapError>(
                    BootstrapError::InstallPathMissing,
                )
            } else {
                r matches Ok(info) && {
                    &&& info.name@ == field_value(lines, "name"@)
                    &&& info.version@ == version
                    &&& info.path@ == crate::disk::spec_to_slash(path)
                    &&& info.branch == crate::updater::spec_branch_of(
                        field_value(lines, "branch"@),
                    )
                    &&& info.registry_key == source
                    &&& info.registry_handle == RegistryHandle::CurrentUser
                    &&& info.id@ == Seq::<char>::empty()
                }
            }
        }),
{
    proof {
        vstd::prelude::reveal_strlit("name");
        vstd::prelude::reveal_strlit("version");
        vstd::prelude::reveal_strlit("path");
        vstd::prelude::reveal_strlit("branch");
    }
    let lines = split_text_lines(text);
    let ghost all = split_lines(text@);
    let mut name = String::new();
    let mut version = String::new();
    let mut path = String::new();
    let mut branch = String::new();
    let key_name = ("name").to_owned();
    let key_version = ("version").to_owned();
    let key_path = ("path").to_owned();
    let key_branch = ("branch").to_owned();
    proof {
        // the four keys are pairwise distinct: their lengths and first
        // characters tell them apart
        assert("name"@.len() == 4);
        assert("version"@.len() == 7);
        assert("path"@.len() == 4);
        assert("branch"@.len() == 6);
        assert("name"@[0] == 'n' && "path"@[0] == 'p');
        assert(key_name@ != key_version@ && key_name@ != key_path@ && key_name@ != key_branch@
            && key_version@ != key_path@ && key_version@ != key_branch@ && key_path@
            != key_branch@);
    }
    let mut i: usize = 0;
    while i < lines.len()
        invariant
            lines@.len() == all.len(),
            forall|j: int| 0 <= j < all.len() ==> lines@[j]@ == all[j],
            i <= all.len(),
            key_name@ == "name"@,
            key_version@ == "version"@,
            key_path@ == "path"@,
            key_branch@ == "branch"@,
            key_name@ != key_version@,
            key_name@ != key_path@,
            key_name@ != key_branch@,
            key_version@ != key_path@,
            key_version@ != key_branch@,
            key_path@ != key_branch@,
            name@ == field_value(all.subrange(0, i as int), "name"@),
            version@ == field_value(all.subrange(0, i as int), "version"@),
            path@ == field_value(all.subrange(0, i as int), "path"@),
            branch@ == field_value(all.subrange(0, i as int), "branch"@),
        decreases all.len() - i,
    {
        let ghost prefix = all.subrange(0, i as int);
        proof {
            assert(lines@[i as int]@ == all[i as int]);
        }
        if let Some((key, value)) = parse_state_line(&lines[i]) {
            if key.eq(&key_name) {
                name = value;
            } else if key.eq(&key_version) {
                version = value;
            } else if key.eq(&key_path) {
                path = value;
            } else if key.eq(&key_branch) {
                branch = value;
            }
        }
        i += 1;
        proof {
            vstd::prelude::reveal_strlit("name");
            vstd::prelude::reveal_strlit("version");
            vstd::prelude::reveal_strlit("path");
            vstd::prelude::reveal_strlit("branch");
            let prefix2 = all.subrange(0, i as int);
            assert(prefix2.drop_last() =~= prefix);
            assert(prefix2.last() == all[i - 1]);
            assert(field_value(prefix2, "name"@) == match line_kv(all[i - 1]) {
                Some(kv) => if kv.0 == "name"@ {
                    kv.1
                } else {
                    field_value(prefix, "name"@)
                },
                None => field_value(prefix, "name"@),
            });
            assert(field_value(prefix2, "version"@) == match line_kv(all[i - 1]) {
                Some(kv) => if kv.0 == "version"@ {
                    kv.1
                } else {
                    field_value(prefix, "version"@)
                },
                None => field_value(prefix, "version"@),
            });
            assert(field_value(prefix2, "path"@) == match line_kv(all[i - 1]) {
                Some(kv) => if kv.0 == "path"@ {
                    kv.1
                } else {
                    field_value(prefix, "path"@)
                },
                None => field_value(prefix, "path"@),
            });
            assert(field_value(prefix2, "branch"@) == match line_kv(all[i - 1]) {
                Some(kv) => if kv.0 == "branch"@ {
                    kv.1
                } else {
                    field_value(prefix, "branch"@)
                },
                None => field_value(prefix, "branch"@),
            });
        }
    }
    proof {
        assert(all.subrange(0, all.len() as int) =~= all);
    }
    match check_uninstall_entry(&version, &path) {
        Ok(u) => u,
        Err(e) => {
            return Err(e);
        },
    }
    let branch = crate::updater::ReleaseBranch::from_name(&branch);
    let path = crate::disk::to_slash(&path);
    Ok(
        crate::updater::InstallInfo {
            name,
            version,
            path,
            branch,
            registry_key: source.clone(),
            registry_handle: RegistryHandle::CurrentUser,
            id: String::new(),
        },
    )
}

/// The needle occurs in the haystack at position `i`.
pub open spec fn matches_at(h: Seq<u8>, n: Seq<u8>, i: int) -> bool {
    0 <= i && i + n.len() <= h.len() && h.subrange(i, i + n.len()) == n
}

/// The first occurrence of the needle at or after `i`.
pub open spec fn first_match_from(h: Seq<u8>, n: Seq<u8>, i: int) -> Option<int>
    decreases h.len() + 1 - i,
{
    if i < 0 || i + n.len() > h.len() {
        None
    } else if matches_at(h, n, i) {
        Some(i)
    } else {
        first_match_from(h, n, i + 1)
    }
}

/// The first occurrence of the needle.
pub open spec fn spec_first_match(h: Seq<u8>, n: Seq<u8>) -> Option<int> {
    first_match_from(h, n, 0)
}

/// A found first match is a match.
proof fn lemma_first_match_is_match(h: Seq<u8>, n: Seq<u8>, i: int)
    requires
        first_match_from(h, n, i) is Some,
    ensures
        matches_at(h, n, first_match_from(h, n, i)->0),
    decreases h.len() + 1 - i,
{
    if !(i < 0 || i + n.len() > h.len()) && !matches_at(h, n, i) {
        lemma_first_match_is_match(h, n, i + 1);
    }
}

/// The bytes of the opening marker around the embedded installer id.
pub open spec fn chief_open() -> Seq<u8> {
    seq![60u8, 99u8, 104u8, 105u8, 101u8, 102u8, 62u8]
}

/// The bytes of the closing marker around the embedded installer id.
pub open spec fn chief_close() -> Seq<u8> {
    seq![60u8, 47u8, 99u8, 104u8, 105u8, 101u8, 102u8, 62u8]
}

/// The first position where the needle occurs in the haystack.
fn find_first(h: &Vec<u8>, n: &Vec<u8>) -> (r: Option<usize>)
    ensures
        ({
            let m = spec_first_match(h@, n@);
            match r {
                Some(i) => m == Some(i as int),
                None => m is None,
            }
        }),
{
    let hn = h.len();
    let nn = n.len();
    if nn > hn {
        return None;
    }
    let mut i: usize = 0;
    while i <= hn - nn
        invariant
            hn == h@.len(),
            nn == n@.len(),
            nn <= hn,
            i <= hn - nn + 1,
            spec_first_match(h@, n@) == first_match_from(h@, n@, i as int),
        decreases hn - nn + 1 - i,
    {
        let mut k: usize = 0;
        let mut matched = true;
        while k < nn
            invariant
                hn == h@.len(),
                nn == n@.len(),
                i + nn <= hn,
                k <= nn,
                matched == (forall|j: int| 0 <= j < k ==> h@[i + j] == n@[j]),
            decreases nn - k,
        {
            let ghost pre_matched = matched;
            if h[i + k] != n[k] {
                matched = false;
            }
            k += 1;
            proof {
                if !pre_matched {
                    let w = choose|w: int| 0 <= w < k - 1 && h@[i + w] != n@[w];
                    assert(h@[i + w] != n@[w]);
                    assert(!(forall|j: int| 0 <= j < k ==> h@[i + j] == n@[j]));
                }
            }
        }
        if matched {
            proof {
                assert(h@.subrange(i as int, i + nn) =~= n@);
                assert(matches_at(h@, n@, i as int));
            }
            return Some(i);
        }
        proof {
            let w = choose|w: int| 0 <= w < nn && h@[i + w] != n@[w];
            assert(h@.subrange(i as int, i + nn)[w] == h@[i + w]);
            assert(h@.subrange(i as int, i + nn) != n@);
            assert(!matches_at(h@, n@, i as int));
            if nn == 0 {
                assert(forall|j: int| 0 <= j < nn ==> h@[i + j] == n@[j]);
            }
        }
        i += 1;
    }
    proof {
        assert(first_match_from(h@, n@, i as int) is None);
    }
    None
}

/// Scans an installer binary for the id embedded between its marker tags:
/// the bytes between the first opening and the first closing marker, when
/// both are present in that order with room for an id between them.
pub fn find_installer_id(data: &Vec<u8>) -> (r: Option<Vec<u8>>)
    ensures
        ({
            let o = spec_first_match(data@, chief_open());
            let c = spec_first_match(data@, chief_close());
            if o is Some && c is Some && c->0 > o->0 + 7 {
                r matches Some(v) && v@ == data@.subrange(o->0 + 7, c->0)
            } else {
                r is None
            }
        }),
{
    let mut open_tag: Vec<u8> = Vec::new();
    open_tag.push(60);
    open_tag.push(99);
    open_tag.push(104);
    open_tag.push(105);
    open_tag.push(101);
    open_tag.push(102);
    open_tag.push(62);
    let mut close_tag: Vec<u8> = Vec::new();
    close_tag.push(60);
    close_tag.push(47);
    close_tag.push(99);
    close_tag.push(104);
    close_tag.push(105);
    close_tag.push(101);
    close_tag.push(102);
    close_tag.push(62);
    proof {
        assert(open_tag@ =~= chief_open());
        assert(close_tag@ =~= chief_close());
    }
    let start = match find_first(data, &open_tag) {
        Some(s) => s,
        None => {
            return None;
        },
    };
    let end = match find_first(data, &close_tag) {
        Some(e) => e,
        None => {
            return None;
        },
    };
    if end <= start || end - start <= 7 {
        return None;
    }
    let mut id: Vec<u8> = Vec::new();
    let mut k: usize = start + 7;
    proof {
        lemma_first_match_is_match(data@, chief_close(), 0);
        assert(matches_at(data@, chief_close(), end as int));
    }
    while k < end
        invariant
            start + 7 <= k <= end,
            end <= data@.len(),
            id@ == data@.subrange(start + 7, k as int),
        decreases end - k,
    {
        id.push(data[k]);
        k += 1;
        proof {
            assert(id@ =~= data@.subrange(start + 7, k as int));
        }
    }
    Some(id)
}

/// The phases of the self-update protocol at launch: a leftover `_old`
/// binary from the previous swap is removed first; a waiting `_new` binary
/// is then swapped in — the running binary is renamed aside, the new one
/// takes its name, and if the new one cannot be moved in, the old name is
/// restored.
#[derive(Debug, PartialEq, Eq, Structural, Copy, Clone)]
pub enum SelfUpdatePhase {
    /// Delete the `_old` binary left by the previous swap.
    RemoveOld,
    /// Rename the running binary to its `_old` name.
    Backup,
    /// Rename the `_new` binary to the running binary's name.
    Commit,
    /// The commit failed: rename the `_old` binary back into place.
    Restore,
    /// Nothing left to do; the executable in place is the one to run.
    Done,
    /// A step failed with no restore path; the swap is abandoned.
    Failed,
}

/// The renames the executor performs; it decides nothing itself.
#[derive(Debug, PartialEq, Eq, Structural, Copy, Clone)]
pub enum SelfUpdateAction {
    RemoveOld,
    RenameCurrentToOld,
    RenameNewToCurrent,
    RenameOldToCurrent,
}

/// The transition relation of the swap: which phase follows which, given
/// whether the rename succeeded and whether a `_new` binary waits.
pub open spec fn spec_self_update_step(
    phase: SelfUpdatePhase,
    has_new: bool,
    ok: bool,
) -> SelfUpdatePhase {
    match phase {
        SelfUpdatePhase::RemoveOld => if !ok {
            SelfUpdatePhase::Failed
        } else if has_new {
            SelfUpdatePhase::Backup
        } else {
            SelfUpdatePhase::Done
        },
        SelfUpdatePhase::Backup => if ok {
            SelfUpdatePhase::Commit
        } else {
            SelfUpdatePhase::Failed
        },
        SelfUpdatePhase::Commit => if ok {
            SelfUpdatePhase::Done
        } else {
            SelfUpdatePhase::Restore
        },
        SelfUpdatePhase::Restore => if ok {
            SelfUpdatePhase::Done
        } else {
            SelfUpdatePhase::Failed
        },
        SelfUpdatePhase::Done => SelfUpdatePhase::Done,
        SelfUpdatePhase::Failed => SelfUpdatePhase::Failed,
    }
}

/// One self-update attempt: what lies beside the executable decides where
/// it starts, and each rename's outcome decides where it goes.
#[derive(Debug, Clone)]
pub struct SelfUpdateMachine {
    pub phase: SelfUpdatePhase,
    /// Whether a `_new` binary waits beside the executable.
    pub has_new: bool,
}

impl SelfUpdateMachine {
    /// Starts the protocol from what lies beside the executable: a
    /// leftover `_old` is removed first, then a waiting `_new` is swapped
    /// in; with neither there is nothing to do.
    pub fn new(has_old: bool, has_new: bool) -> (m: SelfUpdateMachine)
        ensures
            m.has_new == has_new,
            has_old ==> m.phase == SelfUpdatePhase::RemoveOld,
            !has_old && has_new ==> m.phase == SelfUpdatePhase::Backup,
            !has_old && !has_new ==> m.phase == SelfUpdatePhase::Done,
    {
        let phase = if has_old {
            SelfUpdatePhase::RemoveOld
        } else if has_new {
            SelfUpdatePhase::Backup
        } else {
            SelfUpdatePhase::Done
        };
        SelfUpdateMachine { phase, has_new }
    }

    /// The rename to perform next, or nothing once the swap has ended.
    pub fn next_action(&self) -> (r: Option<SelfUpdateAction>)
        ensures
            self.phase == SelfUpdatePhase::RemoveOld ==> r == Some(SelfUpdateAction::RemoveOld),
            self.phase == SelfUpdatePhase::Backup ==> r == Some(
                SelfUpdateAction::RenameCurrentToOld,
            ),
            self.phase == SelfUpdatePhase::Commit ==> r == Some(
                SelfUpdateAction::RenameNewToCurrent,
            ),
            self.phase == SelfUpdatePhase::Restore ==> r == Some(
                SelfUpdateAction::RenameOldToCurrent,
            ),
            self.phase == SelfUpdatePhase::Done || self.phase == SelfUpdatePhase::Failed ==> r
                is None,
    {
        match self.phase {
            SelfUpdatePhase::RemoveOld => Some(SelfUpdateAction::RemoveOld),
            SelfUpdatePhase::Backup => Some(SelfUpdateAction::RenameCurrentToOld),
            SelfUpdatePhase::Commit => Some(SelfUpdateAction::RenameNewToCurrent),
            SelfUpdatePhase::Restore => Some(SelfUpdateAction::RenameOldToCurrent),
            SelfUpdatePhase::Done => None,
            SelfUpdatePhase::Failed => None,
        }
    }

    /// Feeds the outcome of the last rename back into the machine.
    pub fn step(&mut self, ok: bool)
        ensures
            final(self).phase == spec_self_update_step(old(self).phase, old(self).has_new, ok),
            final(self).has_new == old(self).has_new,
    {
        let next = match self.phase {
            SelfUpdatePhase::RemoveOld => if !ok {
                SelfUpdatePhase::Failed
            } else if self.has_new {
                SelfUpdatePhase::Backup
            } else {
                SelfUpdatePhase::Done
            },
            SelfUpdatePhase::Backup => if ok {
                SelfUpdatePhase::Commit
            } else {
                SelfUpdatePhase::Failed
            },
            SelfUpdatePhase::Commit => if ok {
                SelfUpdatePhase::Done
            } else {
                SelfUpdatePhase::Restore
            },
            SelfUpdatePhase::Restore => if ok {
                SelfUpdatePhase::Done
            } else {
                SelfUpdatePhase::Failed
            },
            SelfUpdatePhase::Done => SelfUpdatePhase::Done,
            SelfUpdatePhase::Failed => SelfUpdatePhase::Failed,
        };
        self.phase = next;
    }
}

/// Judges one uninstall record as the engine needs it: an empty version
/// means the local version is missing, an empty install location means the
/// install path is missing; otherwise the record is usable.
pub fn check_uninstall_entry(version: &String, install_location: &String) -> (r: Result<
    (),
    BootstrapError,
>)
    ensures
        version@.len() == 0 ==> r == Err::<(), BootstrapError>(BootstrapError::LocalVersionMissing),
        version@.len() > 0 && install_location@.len() == 0 ==> r == Err::<(), BootstrapError>(
            BootstrapError::InstallPathMissing,
        ),
        version@.len() > 0 && install_location@.len() > 0 ==> r == Ok::<(), BootstrapError>(()),
{
    if version.as_str().unicode_len() == 0 {
        return Err(BootstrapError::LocalVersionMissing);
    }
    if install_location.as_str().unicode_len() == 0 {
        return Err(BootstrapError::InstallPathMissing);
    }
    Ok(())
}

} // verus!
