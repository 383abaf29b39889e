//! Building and manipulating container images.
use crate::json;
use crate::paths;
use crate::seqs;
use crate::text;
use crate::text_map::TextMap;
use vstd::prelude::*;

verus! {

/// The directory of the manifests, below the root.
pub const MANIFESTDIR: &'static str = "usr/share/doc/bootc-base-imagectl/manifests";

/// The version that a package is held at: with its architecture or without.
#[derive(Debug)]
pub struct PackageLock {
    pub evr: Option<String>,
    pub evra: Option<String>,
}

/// The versions that packages are held at, by their names.
#[derive(Debug)]
pub struct Lockfile {
    pub packages: TextMap<PackageLock>,
}

/// The name, the version and the release of a package: what stands before, between and after the
/// last two dashes.
pub open spec fn nevra_parts(nevra: Seq<char>) -> Option<(Seq<char>, Seq<char>, Seq<char>)> {
    match text::split_at_last(nevra, '-') {
        Some((front, release)) => match text::split_at_last(front, '-') {
            Some((name, version)) => Some((name, version, release)),
            None => None,
        },
        None => None,
    }
}

/// Whether a release ends in an architecture.
pub open spec fn has_arch(release: Seq<char>, arch: Seq<char>) -> bool {
    ".noarch"@.is_suffix_of(release) || ("."@ + arch).is_suffix_of(release)
}

/// The name, the version and the release of a package are read as they were put together, as long as
/// the last two hold no dash.
pub proof fn law_nevra_reads_back(name: Seq<char>, version: Seq<char>, release: Seq<char>)
    requires
        !version.contains('-'),
        !release.contains('-'),
    ensures
        nevra_parts(name + "-"@ + version + "-"@ + release) == Some((name, version, release)),
{
    reveal_strlit("-");
    let front = name + "-"@ + version;
    let all = front + "-"@ + release;
    let i = front.len() as int;
    assert forall|j: int| i < j < all.len() implies all[j] != '-' by {
        assert(all[j] == release[j - i - 1]);
        if all[j] == '-' {
            assert(release.contains('-'));
        }
    }
    text::lemma_find_last_is(all, '-', i);
    assert(all.take(i) =~= front && all.skip(i + 1) =~= release);
    let k = name.len() as int;
    assert forall|j: int| k < j < front.len() implies front[j] != '-' by {
        assert(front[j] == version[j - k - 1]);
        if front[j] == '-' {
            assert(version.contains('-'));
        }
    }
    text::lemma_find_last_is(front, '-', k);
    assert(front.take(k) =~= name && front.skip(k + 1) =~= version);
}

/// What a package is held at: its version without and with its architecture.
pub struct LockView {
    pub evr: Option<Seq<char>>,
    pub evra: Option<Seq<char>>,
}

/// What a package is held at.
pub open spec fn lock_view(l: PackageLock) -> LockView {
    LockView { evr: text::opt_view(l.evr), evra: text::opt_view(l.evra) }
}

/// What packages are held at, by their names.
pub open spec fn locks_view(m: Map<Seq<char>, PackageLock>) -> Map<Seq<char>, LockView> {
    m.map_values(|l: PackageLock| lock_view(l))
}

/// What a package of this version and release is held at.
pub open spec fn lock_of(version: Seq<char>, release: Seq<char>, arch: Seq<char>) -> LockView {
    let evr = version + "-"@ + release;
    if has_arch(release, arch) {
        LockView { evr: None, evra: Some(evr) }
    } else {
        LockView { evr: Some(evr), evra: None }
    }
}

impl Lockfile {
    /// A lock file without packages.
    pub fn new() -> (r: Self)
        ensures
            r.packages.wf(),
            locks_view(r.packages@) == Map::<Seq<char>, LockView>::empty(),
    {
        let r = Lockfile { packages: TextMap::new() };
        assert(locks_view(r.packages@) =~= Map::<Seq<char>, LockView>::empty());
        r
    }

    /// Holds a package at a version, which is written `name-epoch:version-release`, with `.arch`
    /// behind or without. `arch` is the architecture of this machine. The error is the message for
    /// what is not written so.
    pub fn add_package(&mut self, nevra: &str, arch: &str) -> (r: Result<(), String>)
        ensures
            match nevra_parts(nevra@) {
                Some((name, version, release)) => r is Ok && locks_view(final(self).packages@)
                    == locks_view(old(self).packages@).insert(
                    name,
                    lock_of(version, release, arch@),
                ),
                None => final(self).packages == old(self).packages && (r matches Err(m) && m@
                    == bad_nevra(nevra@)),
            },
            old(self).packages.wf() ==> final(self).packages.wf(),
    {
        match text::rsplit_once(nevra, '-') {
            Some((front, release)) => match text::rsplit_once(front, '-') {
                Some((name, version)) => {
                    let evr = text::concat3(version, "-", release);
                    let suffix = text::concat2(".", arch);
                    let lock = if text::ends_with(release, ".noarch") || text::ends_with(
                        release,
                        suffix.as_str(),
                    ) {
                        PackageLock { evr: None, evra: Some(evr) }
                    } else {
                        PackageLock { evr: Some(evr), evra: None }
                    };
                    assert(lock_view(lock) == lock_of(version@, release@, arch@));
                    self.packages.insert(name.to_owned(), lock);
                    assert(locks_view(self.packages@) =~= locks_view(old(self).packages@).insert(
                        name@,
                        lock_view(lock),
                    ));
                    Ok(())
                },
                None => Err(text::concat2("Invalid NEVRA/NEVR format: ", nevra)),
            },
            None => Err(text::concat2("Invalid NEVRA/NEVR format: ", nevra)),
        }
    }
}

/// The message for a package that is not written as it should.
pub open spec fn bad_nevra(nevra: Seq<char>) -> Seq<char> {
    "Invalid NEVRA/NEVR format: "@ + nevra
}

impl Default for Lockfile {
    fn default() -> (r: Self)
        ensures
            r.packages.wf(),
            locks_view(r.packages@) == Map::<Seq<char>, LockView>::empty(),
    {
        Lockfile::new()
    }
}

/// What packages are held at, where the last counts of several that have one name; nothing where one
/// is not written as it should.
pub open spec fn locked(locks: Seq<Seq<char>>, arch: Seq<char>) -> Option<Map<Seq<char>, LockView>>
    decreases locks.len(),
{
    if locks.len() == 0 {
        Some(Map::empty())
    } else {
        match (locked(locks.drop_last(), arch), nevra_parts(locks.last())) {
            (Some(m), Some((name, version, release))) => Some(
                m.insert(name, lock_of(version, release, arch)),
            ),
            _ => None,
        }
    }
}

/// The lock file for these packages; nothing where there are none. The error is the message for the
/// first that is not written as it should.
pub fn build_lockfile(locks: &Vec<String>, arch: &str) -> (r: Result<Option<Lockfile>, String>)
    ensures
        match r {
            Ok(None) => locks@.len() == 0,
            Ok(Some(l)) => locks@.len() > 0 && l.packages.wf() && locked(
                text::views(locks@),
                arch@,
            ) == Some(locks_view(l.packages@)),
            Err(m) => locked(text::views(locks@), arch@) is None && exists|i: int|
                0 <= i < locks@.len() && nevra_parts(#[trigger] text::views(locks@)[i]) is None && m@
                    == bad_nevra(text::views(locks@)[i]) && (forall|j: int|
                    0 <= j < i ==> nevra_parts(#[trigger] text::views(locks@)[j]) is Some),
        },
{
    if locks.len() == 0 {
        return Ok(None);
    }
    let mut lockfile = Lockfile::new();
    let mut i: usize = 0;
    let ghost all = text::views(locks@);
    while i < locks.len()
        invariant
            i <= locks@.len(),
            all == text::views(locks@),
            forall|j: int| 0 <= j < i ==> nevra_parts(#[trigger] all[j]) is Some,
            lockfile.packages.wf(),
            locked(all.take(i as int), arch@) == Some(locks_view(lockfile.packages@)),
        decreases locks@.len() - i,
    {
        proof {
            assert(all[i as int] == locks@[i as int]@);
            assert(all.take(i + 1).drop_last() =~= all.take(i as int));
            assert(all.take(i + 1).last() == all[i as int]);
        }
        match lockfile.add_package(locks[i].as_str(), arch) {
            Ok(_) => {},
            Err(e) => {
                proof {
                    lemma_locked_fails(all, arch@, i as int);
                }
                return Err(e);
            },
        }
        i += 1;
    }
    assert(all.take(i as int) =~= all);
    Ok(Some(lockfile))
}

proof fn lemma_locked_fails(locks: Seq<Seq<char>>, arch: Seq<char>, i: int)
    requires
        0 <= i < locks.len(),
        nevra_parts(locks[i]) is None,
    ensures
        locked(locks, arch) is None,
    decreases locks.len(),
{
    if i < locks.len() - 1 {
        assert(locks.drop_last()[i] == locks[i]);
        lemma_locked_fails(locks.drop_last(), arch, i);
    }
}

/// What is laid over a manifest.
#[derive(Debug)]
pub struct ManifestOverride {
    /// The manifest that it is laid over.
    pub base: String,
    pub packages: Option<Vec<String>>,
    pub ostree_override_layers: Option<Vec<String>>,
    pub documentation: Option<bool>,
    pub sysusers: Option<String>,
    pub variables: Option<TextMap<String>>,
    pub repos: Option<Vec<String>>,
}

/// The view of an optional list of texts.
pub open spec fn opt_views(o: Option<Vec<String>>) -> Option<Seq<Seq<char>>> {
    match o {
        Some(v) => Some(text::views(v@)),
        None => None,
    }
}

impl ManifestOverride {
    /// Nothing but a manifest.
    pub fn new(base_manifest: String) -> (r: Self)
        ensures
            r.base == base_manifest,
            r.packages is None,
            r.ostree_override_layers is None,
            r.documentation is None,
            r.sysusers is None,
            r.variables is None,
            r.repos is None,
    {
        ManifestOverride {
            base: base_manifest,
            packages: None,
            ostree_override_layers: None,
            documentation: None,
            sysusers: None,
            variables: None,
            repos: None,
        }
    }
}

/// What a root file system is built with.
#[derive(Debug)]
pub struct BuildRootfsOpts {
    /// Put the build configuration into the target too.
    pub reinject: bool,
    pub manifest: String,
    /// Packages to install.
    pub install: Vec<String>,
    /// A directory for what is downloaded, empty for none.
    pub cachedir: String,
    /// Directories that are laid over the target.
    pub add_dir: Vec<String>,
    pub no_docs: bool,
    /// Make users and groups by `systemd-sysusers`.
    pub sysusers: bool,
    pub nobody_99: bool,
    /// The repositories to use, all where none is named.
    pub repo: Vec<String>,
    /// Packages that are held at a version.
    pub lock: Vec<String>,
    pub target: String,
    /// The root whose package manager configuration is used.
    pub source_root: Option<String>,
}

/// The branch of a directory that is laid over the target.
pub open spec fn branch_of(dir: Seq<char>) -> Seq<char> {
    "overlay/"@ + match paths::last_component(dir) {
        Some(n) => n,
        None => "unknown"@,
    }
}

/// The branch of a directory that is laid over the target.
pub fn overlay_branch(dir: &str) -> (r: String)
    ensures
        r@ == branch_of(dir@),
{
    match paths::file_name(dir) {
        Some(n) => text::concat2("overlay/", n),
        None => text::concat2("overlay/", "unknown"),
    }
}

/// The branches of directories that are laid over the target.
pub fn overlay_branches(dirs: &Vec<String>) -> (r: Vec<String>)
    ensures
        text::views(r@) == text::views(dirs@).map_values(|d: Seq<char>| branch_of(d)),
{
    let mut r: Vec<String> = Vec::new();
    let mut i: usize = 0;
    let ghost f = |d: Seq<char>| branch_of(d);
    while i < dirs.len()
        invariant
            i <= dirs@.len(),
            f == |d: Seq<char>| branch_of(d),
            text::views(r@) == text::views(dirs@.take(i as int)).map_values(f),
        decreases dirs@.len() - i,
    {
        let b = overlay_branch(dirs[i].as_str());
        text::push(&mut r, b.as_str());
        i += 1;
        assert(text::views(dirs@.take(i as int)).map_values(f) =~= text::views(
            dirs@.take(i - 1),
        ).map_values(f).push(b@));
    }
    assert(dirs@.take(i as int) =~= dirs@);
    r
}

/// Whether anything is asked for that the manifest does not say.
pub open spec fn needs_override(o: BuildRootfsOpts) -> bool {
    o.install@.len() > 0 || o.add_dir@.len() > 0 || o.no_docs || o.sysusers || o.repo@.len() > 0
}

/// Whether this is what is to be laid over a manifest.
pub open spec fn is_override(m: ManifestOverride, o: BuildRootfsOpts, base: Seq<char>) -> bool {
    &&& m.base@ == base
    &&& opt_views(m.packages) == if o.install@.len() > 0 {
        Some(text::views(o.install@))
    } else {
        None
    }
    &&& opt_views(m.ostree_override_layers) == if o.add_dir@.len() > 0 {
        Some(text::views(o.add_dir@).map_values(|d: Seq<char>| branch_of(d)))
    } else {
        None
    }
    &&& m.documentation == if o.no_docs {
        Some(false)
    } else {
        None
    }
    &&& text::opt_view(m.sysusers) == if o.sysusers {
        Some("compose-forced"@)
    } else {
        None
    }
    &&& match m.variables {
        Some(v) => o.sysusers && v.wf() && v@.dom() == set!["passwd_mode"@] && v@["passwd_mode"@]@
            == if o.nobody_99 {
            "nobody"@
        } else {
            "none"@
        },
        None => !o.sysusers,
    }
    &&& opt_views(m.repos) == if o.repo@.len() > 0 {
        Some(text::views(o.repo@))
    } else {
        None
    }
}

fn copied(v: &Vec<String>) -> (r: Vec<String>)
    ensures
        text::views(r@) == text::views(v@),
{
    let mut r: Vec<String> = Vec::new();
    text::push_all(&mut r, v);
    assert(text::views(r@) =~= text::views(v@));
    r
}

/// What is to be laid over a manifest; nothing where nothing is asked for that it does not say.
pub fn build_manifest_override(o: &BuildRootfsOpts, base_manifest: &str) -> (r: Option<
    ManifestOverride,
>)
    ensures
        match r {
            Some(m) => needs_override(*o) && is_override(m, *o, base_manifest@),
            None => !needs_override(*o),
        },
{
    let mut m = ManifestOverride::new(base_manifest.to_owned());
    let mut needed = false;
    if o.install.len() > 0 {
        m.packages = Some(copied(&o.install));
        needed = true;
    }
    if o.add_dir.len() > 0 {
        m.ostree_override_layers = Some(overlay_branches(&o.add_dir));
        needed = true;
    }
    if o.no_docs {
        m.documentation = Some(false);
        needed = true;
    }
    if o.sysusers {
        m.sysusers = Some("compose-forced".to_owned());
        let mut variables: TextMap<String> = TextMap::new();
        let mode = if o.nobody_99 {
            "nobody"
        } else {
            "none"
        };
        variables.insert("passwd_mode".to_owned(), mode.to_owned());
        assert(variables@.dom() =~= set!["passwd_mode"@]);
        m.variables = Some(variables);
        needed = true;
    }
    if o.repo.len() > 0 {
        m.repos = Some(copied(&o.repo));
        needed = true;
    }
    if needed {
        Some(m)
    } else {
        None
    }
}

/// An argument `name=value`, if there is a value.
pub open spec fn opt_arg(name: Seq<char>, value: Option<Seq<char>>) -> Seq<Seq<char>> {
    match value {
        Some(v) => seq![name + v],
        None => Seq::empty(),
    }
}

fn push_opt_arg(v: &mut Vec<String>, name: &str, value: Option<&str>)
    ensures
        text::views(final(v)@) == text::views(old(v)@) + opt_arg(
            name@,
            text::opt_slice_view(value),
        ),
{
    match value {
        Some(x) => {
            let arg = text::concat2(name, x);
            text::push(v, arg.as_str());
            assert(text::views(v@) =~= text::views(old(v)@) + seq![name@ + x@]);
        },
        None => {
            assert(text::views(v@) =~= text::views(old(v)@) + Seq::empty());
        },
    }
}

/// The command that builds a root file system.
pub fn rootfs_args(
    o: &BuildRootfsOpts,
    lockfile: Option<&str>,
    ostree_repo: Option<&str>,
    manifest: &str,
) -> (r: Vec<String>)
    ensures
        ({
            let source = match o.source_root {
                Some(s) => s@,
                None => "/"@,
            };
            text::views(r@) == seq!["rpm-ostree"@, "compose"@, "rootfs"@] + opt_arg(
                "--lockfile="@,
                text::opt_slice_view(lockfile),
            ) + opt_arg(
                "--cachedir="@,
                if o.cachedir@.len() > 0 {
                    Some(o.cachedir@)
                } else {
                    None
                },
            ) + opt_arg("--ostree-repo="@, text::opt_slice_view(ostree_repo)) + seq![
                if source == "/"@ {
                    "--source-root=/"@
                } else {
                    "--source-root-rw="@ + source
                },
                manifest@,
                o.target@,
            ]
        }),
{
    let mut r = text::owned(&vec!["rpm-ostree", "compose", "rootfs"]);
    push_opt_arg(&mut r, "--lockfile=", lockfile);
    let cachedir = if o.cachedir.as_str().unicode_len() > 0 {
        Some(o.cachedir.as_str())
    } else {
        None
    };
    push_opt_arg(&mut r, "--cachedir=", cachedir);
    push_opt_arg(&mut r, "--ostree-repo=", ostree_repo);
    let ghost front = text::views(r@);
    let source = match &o.source_root {
        Some(s) => s.as_str(),
        None => "/",
    };
    if text::same(source, "/") {
        text::push(&mut r, "--source-root=/");
    } else {
        let arg = text::concat2("--source-root-rw=", source);
        text::push(&mut r, arg.as_str());
    }
    text::push(&mut r, manifest);
    text::push(&mut r, o.target.as_str());
    assert(text::views(r@) =~= front + seq![
        if source@ == "/"@ {
            "--source-root=/"@
        } else {
            "--source-root-rw="@ + source@
        },
        manifest@,
        o.target@,
    ]);
    r
}

/// The command that makes an ostree repository.
pub fn ostree_init_args(repo: &str) -> (r: Vec<String>)
    ensures
        text::views(r@) == seq!["ostree"@, "init"@, "--repo"@, repo@, "--mode=bare"@],
{
    text::owned(&vec!["ostree", "init", "--repo", repo, "--mode=bare"])
}

/// The command that commits a directory as a branch.
pub fn ostree_commit_args(repo: &str, branch: &str, path: &str) -> (r: Vec<String>)
    ensures
        text::views(r@) == seq![
            "ostree"@,
            "commit"@,
            "--repo"@,
            repo@,
            "-b"@,
            branch@,
            path@,
            "--owner-uid=0"@,
            "--owner-gid=0"@,
            "--no-xattrs"@,
            "--mode-ro-executables"@,
        ],
{
    text::owned(
        &vec![
            "ostree",
            "commit",
            "--repo",
            repo,
            "-b",
            branch,
            path,
            "--owner-uid=0",
            "--owner-gid=0",
            "--no-xattrs",
            "--mode-ro-executables",
        ],
    )
}

/// The command that checks a root file system.
pub fn lint_args(target: &str) -> (r: Vec<String>)
    ensures
        text::views(r@) == seq!["bootc"@, "container"@, "lint"@, "--rootfs="@ + target@],
{
    let arg = text::concat2("--rootfs=", target);
    text::owned(&vec!["bootc", "container", "lint", arg.as_str()])
}

/// The mode that a root directory gets where others cannot enter it: all can read and enter it then.
pub fn fixed_mode(mode: u32) -> (r: Option<u32>)
    ensures
        r == if mode & 0o001 == 0 {
            Some(mode | 0o555)
        } else {
            None
        },
{
    if mode & 0o001 == 0 {
        Some(mode | 0o555)
    } else {
        None
    }
}

/// A mode that was fixed lets others enter and takes nothing away, and needs no more fixing.
pub proof fn law_fixed_mode(mode: u32)
    ensures
        (mode | 0o555) & 0o001 != 0,
        (mode | 0o555) & mode == mode,
{
    assert((mode | 0o555u32) & 0o001 != 0) by (bit_vector);
    assert((mode | 0o555u32) & mode == mode) by (bit_vector);
}

/// Where the manifests are copied from and to.
pub fn reinject_manifests(target: &str) -> (r: (String, String))
    ensures
        r.0@ == paths::joined("/"@, MANIFESTDIR@),
        r.1@ == paths::joined(target@, MANIFESTDIR@),
{
    (paths::join("/", MANIFESTDIR), paths::join(target, MANIFESTDIR))
}

/// Where the tool of that name is copied from and to.
pub fn reinject_tool(target: &str) -> (r: (&'static str, String))
    ensures
        r.0@ == "/usr/libexec/bootc-base-imagectl"@,
        r.1@ == paths::joined(target@, "usr/libexec/bootc-base-imagectl"@),
{
    ("/usr/libexec/bootc-base-imagectl", paths::join(target, "usr/libexec/bootc-base-imagectl"))
}

/// The file of a manifest.
pub open spec fn manifest_file(name: Seq<char>, suffix: Seq<char>) -> Seq<char> {
    paths::joined(paths::joined("/"@, MANIFESTDIR@), name + "."@ + suffix)
}

/// Where a manifest can be: in a plain file, or in a hidden one.
pub fn manifest_candidates(name: &str) -> (r: (String, String))
    ensures
        r.0@ == manifest_file(name@, "yaml"@),
        r.1@ == manifest_file(name@, "hidden.yaml"@),
{
    let dir = paths::join("/", MANIFESTDIR);
    let plain = text::concat3(name, ".", "yaml");
    let hidden = text::concat3(name, ".", "hidden.yaml");
    (paths::join(dir.as_str(), plain.as_str()), paths::join(dir.as_str(), hidden.as_str()))
}

/// The file of a manifest: the plain one if it is there, else the hidden one. The error is the
/// message for a manifest that has neither.
pub fn find_manifest(name: &str, plain_exists: bool, hidden_exists: bool) -> (r: Result<
    String,
    String,
>)
    ensures
        match r {
            Ok(p) => if plain_exists {
                p@ == manifest_file(name@, "yaml"@)
            } else {
                hidden_exists && p@ == manifest_file(name@, "hidden.yaml"@)
            },
            Err(m) => !plain_exists && !hidden_exists && m@ == "Manifest not found: "@ + name@,
        },
{
    let (plain, hidden) = manifest_candidates(name);
    if plain_exists {
        Ok(plain)
    } else if hidden_exists {
        Ok(hidden)
    } else {
        Err(text::concat2("Manifest not found: ", name))
    }
}

/// The name of the manifest in a file: files that are not YAML and hidden ones hold none.
pub open spec fn manifest_name(file: Seq<char>) -> Option<Seq<char>> {
    if ".hidden.yaml"@.is_suffix_of(file) {
        None
    } else {
        text::without_suffix(file, ".yaml"@)
    }
}

/// A file of the manifest directory.
pub struct ManifestFile {
    pub name: String,
    pub path: String,
    pub is_symlink: bool,
}

/// A manifest and its file.
pub struct Manifest {
    pub name: String,
    pub path: String,
}

/// What a manifest is.
pub open spec fn manifest_view(m: Manifest) -> (Seq<char>, Seq<char>) {
    (m.name@, m.path@)
}

/// The manifest in a file; symbolic links count for none.
pub open spec fn listed(f: ManifestFile) -> Option<(Seq<char>, Seq<char>)> {
    if f.is_symlink {
        None
    } else {
        match manifest_name(f.name@) {
            Some(n) => Some((n, f.path@)),
            None => None,
        }
    }
}

/// The manifests in files, in the order of the files.
pub open spec fn manifests_of(files: Seq<ManifestFile>) -> Seq<(Seq<char>, Seq<char>)>
    decreases files.len(),
{
    if files.len() == 0 {
        Seq::empty()
    } else {
        match listed(files.last()) {
            Some(m) => manifests_of(files.drop_last()).push(m),
            None => manifests_of(files.drop_last()),
        }
    }
}

/// Whether a manifest comes before another: as their names do.
pub open spec fn named_before() -> spec_fn((Seq<char>, Seq<char>), (Seq<char>, Seq<char>)) -> bool {
    |a: (Seq<char>, Seq<char>), b: (Seq<char>, Seq<char>)| text::before(a.0, b.0)
}

/// The manifests in files, in the order of their names.
pub fn list_manifests(files: &Vec<ManifestFile>) -> (r: Vec<Manifest>)
    ensures
        r@.map_values(|m: Manifest| manifest_view(m)) == seqs::ordered(
            manifests_of(files@),
            named_before(),
        ),
{
    let mut r: Vec<Manifest> = Vec::new();
    let mut i: usize = 0;
    let ghost f = |m: Manifest| manifest_view(m);
    let ghost less = named_before();
    assert(r@.map_values(f) =~= seqs::ordered(manifests_of(files@.take(0)), less));
    while i < files.len()
        invariant
            i <= files@.len(),
            f == |m: Manifest| manifest_view(m),
            less == named_before(),
            r@.map_values(f) == seqs::ordered(manifests_of(files@.take(i as int)), less),
        decreases files@.len() - i,
    {
        let file = &files[i];
        proof {
            assert(files@.take(i + 1).drop_last() =~= files@.take(i as int));
            assert(files@.take(i + 1).last() == *file);
        }
        if !file.is_symlink && !text::ends_with(file.name.as_str(), ".hidden.yaml") {
            match text::strip_suffix(file.name.as_str(), ".yaml") {
                Some(name) => {
                    let m = Manifest {
                        name: name.to_owned(),
                        path: file.path.as_str().to_owned(),
                    };
                    let ghost placed = r@.map_values(f);
                    let ghost item = manifest_view(m);
                    let mut k: usize = 0;
                    while k < r.len() && !text::less(m.name.as_str(), r[k].name.as_str())
                        invariant
                            k <= r@.len(),
                            f == |m: Manifest| manifest_view(m),
                            less == named_before(),
                            placed == r@.map_values(f),
                            item == manifest_view(m),
                            seqs::place(placed, item, less, 0) == seqs::place(
                                placed,
                                item,
                                less,
                                k as int,
                            ),
                        decreases r@.len() - k,
                    {
                        assert(placed[k as int] == manifest_view(r@[k as int]));
                        k += 1;
                    }
                    proof {
                        if k < r@.len() {
                            assert(placed[k as int] == manifest_view(r@[k as int]));
                        }
                        let all = manifests_of(files@.take(i + 1));
                        assert(all.drop_last() =~= manifests_of(files@.take(i as int)));
                        assert(all.last() == item);
                    }
                    let ghost old_r = r@;
                    r.insert(k, m);
                    assert(r@.map_values(f) =~= placed.insert(k as int, item));
                },
                None => {},
            }
        }
        i += 1;
    }
    assert(files@.take(i as int) =~= files@);
    r
}

/// The manifests are listed in the order of their names, each as often as there are files of it.
pub proof fn law_manifests_sorted(files: Seq<ManifestFile>)
    ensures
        ({
            let all = manifests_of(files);
            let r = seqs::ordered(all, named_before());
            &&& r.to_multiset() == all.to_multiset()
            &&& forall|i: int, j: int|
                0 <= i < j < r.len() ==> !text::before(
                    (#[trigger] r[j]).0,
                    (#[trigger] r[i]).0,
                )
        }),
{
    let all = manifests_of(files);
    let less = named_before();
    assert(seqs::is_order(less)) by {
        assert forall|a: (Seq<char>, Seq<char>), b: (Seq<char>, Seq<char>)| #[trigger]
            less(a, b) implies !less(b, a) by {
            text::lemma_before_total(a.0, b.0);
        }
        assert forall|
            a: (Seq<char>, Seq<char>),
            b: (Seq<char>, Seq<char>),
            c: (Seq<char>, Seq<char>),
        | #[trigger] less(a, b) && #[trigger] less(b, c) implies less(a, c) by {
            text::lemma_before_transitive(a.0, b.0, c.0);
        }
    }
    seqs::lemma_ordered_items(all, less);
    seqs::lemma_ordered_sorted(all, less);
    let r = seqs::ordered(all, less);
    assert forall|i: int, j: int| 0 <= i < j < r.len() implies !text::before(
        (#[trigger] r[j]).0,
        (#[trigger] r[i]).0,
    ) by {
        assert(!less(r[j], r[i]));
    }
}

/// The description in a manifest that was read; a stand-in where it has none.
pub open spec fn description_in(j: json::Json) -> Seq<char> {
    match json::text_at_path(j, seq!["metadata"@, "summary"@]) {
        Some(s) => s,
        None => "<no description>"@,
    }
}

/// The description to show, where there is one to show.
pub fn description_or_default(summary: Option<&str>) -> (r: String)
    ensures
        r@ == match summary {
            Some(s) => s@,
            None => "<no description>"@,
        },
{
    match summary {
        Some(s) => s.to_owned(),
        None => "<no description>".to_owned(),
    }
}

/// The description in what `rpm-ostree` printed of a manifest; nothing where that is no JSON.
pub fn manifest_description(output: &[u8]) -> (r: Option<String>)
    ensures
        text::opt_view(r) == match json::parsed_bytes(output@) {
            Some(j) => Some(description_in(j)),
            None => None,
        },
{
    match json::from_slice(output) {
        Ok(v) => {
            let path: Vec<&str> = vec!["metadata", "summary"];
            assert(text::slice_views(path@) =~= seq!["metadata"@, "summary"@]);
            Some(description_or_default(json::text_at(&v, &path)))
        },
        Err(_) => None,
    }
}

/// The command that prints a manifest.
pub fn print_manifest_args(path: &str) -> (r: Vec<String>)
    ensures
        text::views(r@) == seq!["rpm-ostree"@, "compose"@, "tree"@, "--print-only"@, path@],
{
    text::owned(&vec!["rpm-ostree", "compose", "tree", "--print-only", path])
}

/// The line on a manifest.
pub fn manifest_line(name: &str, description: Option<&str>) -> (r: String)
    ensures
        r@ == name@ + ": "@ + match description {
            Some(d) => d@,
            None => "<description unavailable>"@,
        },
{
    match description {
        Some(d) => text::concat3(name, ": ", d),
        None => text::concat3(name, ": ", "<description unavailable>"),
    }
}

/// What a container image is split into layers with.
#[derive(Debug)]
pub struct RechunkOpts {
    /// How many layers there are at most.
    pub max_layers: Option<u32>,
    pub from_image: String,
    pub to_image: String,
}

/// Why an image cannot be split into layers.
#[derive(Debug, Clone, Copy, PartialEq, Eq, Structural)]
pub enum RechunkError {
    EmptySource,
    EmptyDestination,
    SameImages,
}

impl RechunkError {
    /// The message.
    pub fn message(&self) -> (r: &'static str)
        ensures
            r@ == match *self {
                RechunkError::EmptySource => "Source image cannot be empty"@,
                RechunkError::EmptyDestination => "Destination image cannot be empty"@,
                RechunkError::SameImages => "Source and destination images must be different"@,
            },
    {
        match self {
            RechunkError::EmptySource => "Source image cannot be empty",
            RechunkError::EmptyDestination => "Destination image cannot be empty",
            RechunkError::SameImages => "Source and destination images must be different",
        }
    }
}

/// The command that splits an image into layers.
pub open spec fn rechunk_command(o: RechunkOpts) -> Seq<Seq<char>> {
    seq!["rpm-ostree"@, "experimental"@, "compose"@, "build-chunked-oci"@] + opt_arg(
        "--max-layers="@,
        match o.max_layers {
            Some(n) => Some(text::decimal(n as nat)),
            None => None,
        },
    ) + seq![
        "--bootc"@,
        "--format-version=1"@,
        "--from="@ + o.from_image@,
        "--output=containers-storage:"@ + o.to_image@,
    ]
}

/// The command that splits an image into layers. The two images must have names, and not the same
/// one.
pub fn rechunk(o: &RechunkOpts) -> (r: Result<Vec<String>, RechunkError>)
    ensures
        match r {
            Ok(v) => o.from_image@.len() > 0 && o.to_image@.len() > 0 && o.from_image@
                != o.to_image@ && text::views(v@) == rechunk_command(*o),
            Err(RechunkError::EmptySource) => o.from_image@.len() == 0,
            Err(RechunkError::EmptyDestination) => o.from_image@.len() > 0 && o.to_image@.len()
                == 0,
            Err(RechunkError::SameImages) => o.from_image@.len() > 0 && o.from_image@
                == o.to_image@,
        },
{
    if o.from_image.as_str().unicode_len() == 0 {
        return Err(RechunkError::EmptySource);
    }
    if o.to_image.as_str().unicode_len() == 0 {
        return Err(RechunkError::EmptyDestination);
    }
    if text::same(o.from_image.as_str(), o.to_image.as_str()) {
        return Err(RechunkError::SameImages);
    }
    let mut r = text::owned(&vec!["rpm-ostree", "experimental", "compose", "build-chunked-oci"]);
    match o.max_layers {
        Some(n) => {
            let digits = text::decimal_text(n as u64);
            push_opt_arg(&mut r, "--max-layers=", Some(digits.as_str()));
        },
        None => {
            push_opt_arg(&mut r, "--max-layers=", None);
        },
    }
    let ghost front = text::views(r@);
    let from = text::concat2("--from=", o.from_image.as_str());
    let to = text::concat2("--output=containers-storage:", o.to_image.as_str());
    text::push(&mut r, "--bootc");
    text::push(&mut r, "--format-version=1");
    text::push(&mut r, from.as_str());
    text::push(&mut r, to.as_str());
    assert(text::views(r@) =~= front + seq!["--bootc"@, "--format-version=1"@, from@, to@]);
    Ok(r)
}

/// A package that names its architecture is held at version, release and architecture; one that does
/// not, at version and release.
pub proof fn law_lock(version: Seq<char>, release: Seq<char>, arch: Seq<char>)
    ensures
        ({
            let l = lock_of(version, release + "."@ + arch, arch);
            l.evra == Some(version + "-"@ + (release + "."@ + arch)) && l.evr is None
        }),
        ({
            let l = lock_of(version, release + ".noarch"@, arch);
            l.evra == Some(version + "-"@ + (release + ".noarch"@)) && l.evr is None
        }),
        ({
            let l = lock_of(version, release, arch);
            l.evr is Some <==> l.evra is None
        }),
        !release.contains('.') ==> lock_of(version, release, arch).evr == Some(
            version + "-"@ + release,
        ),
{
    let a = release + "."@ + arch;
    let b = release + ".noarch"@;
    assert(a =~= release + ("."@ + arch));
    text::law_taken_off(release, "."@ + arch);
    text::law_taken_off(release, ".noarch"@);
    if has_arch(release, arch) {
        reveal_strlit(".noarch");
        reveal_strlit(".");
        if ".noarch"@.is_suffix_of(release) {
            assert(".noarch"@[0] == release.subrange(
                release.len() - 7,
                release.len() as int,
            )[0]);
            assert(release.contains(release[release.len() - 7]));
        } else {
            let t = "."@ + arch;
            assert(t[0] == release.subrange(release.len() - t.len(), release.len() as int)[0]);
            assert(release.contains(release[release.len() - t.len()]));
        }
    }
}

/// Of the packages that are to be held, each is held, and where one is named twice the last counts;
/// nothing else is held.
pub proof fn law_locked(locks: Seq<Seq<char>>, arch: Seq<char>, i: int)
    requires
        forall|k: int| 0 <= k < locks.len() ==> nevra_parts(#[trigger] locks[k]) is Some,
        0 <= i < locks.len(),
        forall|k: int|
            i < k < locks.len() ==> nevra_parts(#[trigger] locks[k]).unwrap().0 != nevra_parts(
                locks[i],
            ).unwrap().0,
    ensures
        locked(locks, arch) is Some,
        ({
            let (name, version, release) = nevra_parts(locks[i]).unwrap();
            let m = locked(locks, arch).unwrap();
            m.contains_key(name) && m[name] == lock_of(version, release, arch)
        }),
        forall|n: Seq<char>| #[trigger]
            locked(locks, arch).unwrap().contains_key(n) ==> exists|k: int|
                0 <= k < locks.len() && nevra_parts(#[trigger] locks[k]).unwrap().0 == n,
{
    lemma_locked(locks, arch);
    lemma_locked_last(locks, arch, i);
}

proof fn lemma_locked(locks: Seq<Seq<char>>, arch: Seq<char>)
    requires
        forall|k: int| 0 <= k < locks.len() ==> nevra_parts(#[trigger] locks[k]) is Some,
    ensures
        locked(locks, arch) is Some,
        forall|n: Seq<char>| #[trigger]
            locked(locks, arch).unwrap().contains_key(n) ==> exists|k: int|
                0 <= k < locks.len() && nevra_parts(#[trigger] locks[k]).unwrap().0 == n,
    decreases locks.len(),
{
    if locks.len() > 0 {
        let front = locks.drop_last();
        assert forall|k: int| 0 <= k < front.len() implies nevra_parts(
            #[trigger] front[k],
        ) is Some by {
            assert(front[k] == locks[k]);
        }
        lemma_locked(front, arch);
        assert(nevra_parts(locks[locks.len() - 1]) is Some);
        assert forall|n: Seq<char>| #[trigger]
            locked(locks, arch).unwrap().contains_key(n) implies exists|k: int|
            0 <= k < locks.len() && nevra_parts(#[trigger] locks[k]).unwrap().0 == n by {
            if nevra_parts(locks[locks.len() - 1]).unwrap().0 != n {
                assert(locked(front, arch).unwrap().contains_key(n));
                let k = choose|k: int|
                    0 <= k < front.len() && nevra_parts(#[trigger] front[k]).unwrap().0 == n;
                assert(front[k] == locks[k]);
            }
        }
    }
}

proof fn lemma_locked_last(locks: Seq<Seq<char>>, arch: Seq<char>, i: int)
    requires
        forall|k: int| 0 <= k < locks.len() ==> nevra_parts(#[trigger] locks[k]) is Some,
        0 <= i < locks.len(),
        forall|k: int|
            i < k < locks.len() ==> nevra_parts(#[trigger] locks[k]).unwrap().0 != nevra_parts(
                locks[i],
            ).unwrap().0,
    ensures
        ({
            let (name, version, release) = nevra_parts(locks[i]).unwrap();
            let m = locked(locks, arch).unwrap();
            m.contains_key(name) && m[name] == lock_of(version, release, arch)
        }),
    decreases locks.len(),
{
    let front = locks.drop_last();
    assert forall|k: int| 0 <= k < front.len() implies nevra_parts(#[trigger] front[k]) is Some by {
        assert(front[k] == locks[k]);
    }
    lemma_locked(front, arch);
    assert(nevra_parts(locks[locks.len() - 1]) is Some);
    if i < front.len() {
        assert(front[i] == locks[i]);
        assert forall|k: int| i < k < front.len() implies nevra_parts(
            #[trigger] front[k],
        ).unwrap().0 != nevra_parts(front[i]).unwrap().0 by {
            assert(front[k] == locks[k]);
        }
        lemma_locked_last(front, arch, i);
        assert(nevra_parts(locks[locks.len() - 1]).unwrap().0 != nevra_parts(locks[i]).unwrap().0);
    }
}

/// One package that cannot be read, and nothing is held.
pub proof fn law_not_locked(locks: Seq<Seq<char>>, arch: Seq<char>, i: int)
    requires
        0 <= i < locks.len(),
        nevra_parts(locks[i]) is None,
    ensures
        locked(locks, arch) is None,
    decreases locks.len(),
{
    if i < locks.len() - 1 {
        assert(locks.drop_last()[i] == locks[i]);
        law_not_locked(locks.drop_last(), arch, i);
    }
}

/// A package is read only if there are two hyphens in it.
pub proof fn law_nevra_hyphens(nevra: Seq<char>)
    ensures
        nevra_parts(nevra) matches Some((name, version, release)) ==> nevra == name + "-"@ + version
            + "-"@ + release && !version.contains('-') && !release.contains('-'),
        !nevra.contains('-') ==> nevra_parts(nevra) is None,
{
    text::lemma_find_last(nevra, '-');
    reveal_strlit("-");
    if let Some((front, release)) = text::split_at_last(nevra, '-') {
        text::lemma_find_last(front, '-');
        if let Some((name, version)) = text::split_at_last(front, '-') {
            assert(nevra =~= name + "-"@ + version + "-"@ + release);
            let i = text::find_last(nevra, '-');
            let k = text::find_last(front, '-');
            assert(nevra.contains(nevra[i]));
            assert forall|j: int| 0 <= j < release.len() implies release[j] != '-' by {
                assert(release[j] == nevra[i + 1 + j]);
            }
            assert forall|j: int| 0 <= j < version.len() implies version[j] != '-' by {
                assert(version[j] == front[k + 1 + j]);
            }
        }
        assert(nevra.contains(nevra[text::find_last(nevra, '-')]));
    }
}

/// A manifest is overridden exactly if the override says anything beside the manifest: packages,
/// layers, no documentation, how users are made, or repositories.
pub proof fn law_override(m: ManifestOverride, o: BuildRootfsOpts, base: Seq<char>)
    requires
        is_override(m, o, base),
    ensures
        m.base@ == base,
        needs_override(o) <==> m.packages is Some || m.ostree_override_layers is Some
            || m.documentation is Some || m.sysusers is Some || m.variables is Some
            || m.repos is Some,
        m.packages is Some <==> o.install@.len() > 0,
        m.packages matches Some(v) ==> text::views(v@) == text::views(o.install@),
        m.repos is Some <==> o.repo@.len() > 0,
        m.repos matches Some(v) ==> text::views(v@) == text::views(o.repo@),
        m.ostree_override_layers is Some <==> o.add_dir@.len() > 0,
        m.ostree_override_layers matches Some(v) ==> v@.len() == o.add_dir@.len() && forall|i: int|
            0 <= i < v@.len() ==> (#[trigger] v@[i])@ == branch_of(o.add_dir@[i]@),
        m.documentation != Some(true),
        m.documentation is Some <==> o.no_docs,
        m.sysusers is Some <==> o.sysusers,
        m.sysusers matches Some(s) ==> s@ == "compose-forced"@,
        m.variables is Some <==> o.sysusers,
        m.variables matches Some(v) ==> v@.contains_key("passwd_mode"@) && v@["passwd_mode"@]@ == (
        if o.nobody_99 {
            "nobody"@
        } else {
            "none"@
        }),
{
    if let Some(v) = m.ostree_override_layers {
        let a = text::views(v@);
        let b = text::views(o.add_dir@).map_values(|d: Seq<char>| branch_of(d));
        assert(a == b);
        assert forall|i: int| 0 <= i < v@.len() implies (#[trigger] v@[i])@ == branch_of(
            o.add_dir@[i]@,
        ) by {
            assert(a[i] == v@[i]@);
            assert(b[i] == branch_of(o.add_dir@[i]@));
        }
    }
    if let Some(v) = m.variables {
        assert(v@.dom().contains("passwd_mode"@));
    }
}

/// A layer is named by the last component of its directory.
pub proof fn law_branch(dir: Seq<char>)
    ensures
        paths::last_component(dir) matches Some(n) ==> branch_of(dir) == "overlay/"@ + n,
        paths::last_component(dir) is None ==> branch_of(dir) == "overlay/unknown"@,
{
    reveal_strlit("overlay/");
    reveal_strlit("unknown");
    reveal_strlit("overlay/unknown");
    assert("overlay/"@ + "unknown"@ =~= "overlay/unknown"@);
}

/// An argument that is there says its name and its value; one that is not says nothing.
pub proof fn law_opt_arg(name: Seq<char>, value: Seq<char>)
    ensures
        opt_arg(name, Some(value)).len() == 1,
        opt_arg(name, Some(value))[0] == name + value,
        opt_arg(name, None).len() == 0,
{
}

/// Images are split into layers from the one named to the other, and there is a limit on the layers
/// exactly if one is given.
pub proof fn law_rechunk(o: RechunkOpts)
    ensures
        ({
            let c = rechunk_command(o);
            let n = c.len();
            &&& c.take(4) == seq!["rpm-ostree"@, "experimental"@, "compose"@, "build-chunked-oci"@]
            &&& c[n - 1] == "--output=containers-storage:"@ + o.to_image@
            &&& c[n - 2] == "--from="@ + o.from_image@
            &&& c[n - 3] == "--format-version=1"@
            &&& c[n - 4] == "--bootc"@
            &&& o.max_layers is None ==> n == 8
            &&& o.max_layers matches Some(l) ==> n == 9 && c[4] == "--max-layers="@ + text::decimal(
                l as nat,
            )
        }),
{
    assert(rechunk_command(o).take(4) =~= seq![
        "rpm-ostree"@,
        "experimental"@,
        "compose"@,
        "build-chunked-oci"@,
    ]);
}

/// A manifest is the file of its name in the directory of the manifests.
pub proof fn law_manifest_file(name: Seq<char>, suffix: Seq<char>)
    requires
        name.len() > 0 ==> name[0] != '/',
    ensures
        manifest_file(name, suffix) == "/usr/share/doc/bootc-base-imagectl/manifests/"@ + name
            + "."@ + suffix,
{
    reveal_strlit("/");
    reveal_strlit(".");
    reveal_strlit("usr/share/doc/bootc-base-imagectl/manifests");
    reveal_strlit("/usr/share/doc/bootc-base-imagectl/manifests/");
    let dir = paths::joined("/"@, MANIFESTDIR@);
    assert(dir =~= "/"@ + "usr/share/doc/bootc-base-imagectl/manifests"@);
    assert(dir + "/"@ =~= "/usr/share/doc/bootc-base-imagectl/manifests/"@);
    let file = name + "."@ + suffix;
    assert(file[0] != '/');
    assert(manifest_file(name, suffix) == dir + "/"@ + file);
    assert(dir + "/"@ + file =~= "/usr/share/doc/bootc-base-imagectl/manifests/"@ + name + "."@
        + suffix);
}

/// A manifest is listed exactly if its file is no link, ends in `.yaml` and is not hidden.
pub proof fn law_listed(files: Seq<ManifestFile>, name: Seq<char>, path: Seq<char>)
    ensures
        manifests_of(files).contains((name, path)) <==> exists|i: int|
            0 <= i < files.len() && !(#[trigger] files[i]).is_symlink && files[i].name@ == name
                + ".yaml"@ && !".hidden.yaml"@.is_suffix_of(files[i].name@) && files[i].path@
                == path,
    decreases files.len(),
{
    if files.len() > 0 {
        let front = files.drop_last();
        let f = files.last();
        law_listed(front, name, path);
        text::law_taken_off(f.name@, ".yaml"@);
        text::law_taken_off(name, ".yaml"@);
        let all = manifests_of(front);
        if let Some(m) = listed(f) {
            assert(all.push(m).last() == m);
            if all.push(m).contains((name, path)) {
                let k = all.push(m).index_of((name, path));
                if k < all.len() {
                    assert(all[k] == (name, path));
                }
            }
            if all.contains((name, path)) {
                let k = all.index_of((name, path));
                assert(all.push(m)[k] == (name, path));
            }
        }
        if manifests_of(files).contains((name, path)) {
            if all.contains((name, path)) {
                let i = choose|i: int|
                    0 <= i < front.len() && !(#[trigger] front[i]).is_symlink && front[i].name@
                        == name + ".yaml"@ && !".hidden.yaml"@.is_suffix_of(front[i].name@)
                        && front[i].path@ == path;
                assert(files[i] == front[i]);
            } else {
                assert(files[files.len() - 1] == f);
            }
        }
        if exists|i: int|
            0 <= i < files.len() && !(#[trigger] files[i]).is_symlink && files[i].name@ == name
                + ".yaml"@ && !".hidden.yaml"@.is_suffix_of(files[i].name@) && files[i].path@
                == path {
            let i = choose|i: int|
                0 <= i < files.len() && !(#[trigger] files[i]).is_symlink && files[i].name@ == name
                    + ".yaml"@ && !".hidden.yaml"@.is_suffix_of(files[i].name@) && files[i].path@
                    == path;
            if i < front.len() {
                assert(front[i] == files[i]);
            }
        }
    }
}

/// A manifest is described by the summary in its metadata, if that is a text.
pub proof fn law_description(
    top: Map<Seq<char>, json::Json>,
    metadata: Map<Seq<char>, json::Json>,
    summary: Seq<char>,
)
    ensures
        top.contains_key("metadata"@) && top["metadata"@] == json::Json::Object(metadata)
            && metadata.contains_key("summary"@) && metadata["summary"@] == json::Json::Text(summary)
            ==> description_in(json::Json::Object(top)) == summary,
        !top.contains_key("metadata"@) ==> description_in(json::Json::Object(top))
            == "<no description>"@,
        top.contains_key("metadata"@) && top["metadata"@] == json::Json::Object(metadata) && !(
        metadata.contains_key("summary"@) && metadata["summary"@] is Text) ==> description_in(
            json::Json::Object(top),
        ) == "<no description>"@,
{
    json::law_at_path(top, metadata, "metadata"@, "summary"@);
}

/// What cannot be read is told as it was given.
pub proof fn law_bad_nevra(nevra: Seq<char>)
    ensures
        text::without_prefix(bad_nevra(nevra), "Invalid NEVRA/NEVR format: "@) == Some(nevra),
{
    text::law_taken_off(nevra, "Invalid NEVRA/NEVR format: "@);
}

} // verus!
