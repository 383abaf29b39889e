//! Entries that boot a kernel and an initial ramdisk from files of their own.
use crate::boot;
use crate::boot::EntryKind;
use crate::cmdline;
use crate::origin::OsRelease;
use crate::paths;
use crate::text;
use vstd::prelude::*;

verus! {

/// The file of a kernel.
pub const VMLINUZ: &'static str = "vmlinuz";

/// The file of an initial ramdisk.
pub const INITRD: &'static str = "initrd";

/// The directory of the entries that are in effect.
pub const BOOT_LOADER_ENTRIES: &'static str = "entries";

/// The directory of the entries that take effect at the next boot.
pub const STAGED_BOOT_LOADER_ENTRIES: &'static str = "entries.staged";

/// Where the files of an entry go.
pub struct BlsEntryPath {
    /// Where the kernel and the initial ramdisk are written.
    pub entries_path: String,
    /// The same, as seen from the root of its partition.
    pub abs_entries_path: String,
    /// Where the entry files are written.
    pub config_path: String,
}

/// Where Grub looks for the files of an entry. Its paths start at the root of the partition that
/// holds them: `/boot` may be one.
pub fn grub_entry_paths(root_path: &str, boot_is_mountpoint: Option<bool>) -> (r: BlsEntryPath)
    ensures
        r.entries_path@ == paths::joined(root_path@, "boot"@),
        r.config_path@ == paths::joined(root_path@, "boot"@),
        r.abs_entries_path@ == if boot_is_mountpoint == Some(true) {
            "/"@
        } else {
            "/boot"@
        },
{
    let abs = match boot_is_mountpoint {
        Some(true) => "/",
        _ => "/boot",
    };
    BlsEntryPath {
        entries_path: paths::join(root_path, "boot"),
        config_path: paths::join(root_path, "boot"),
        abs_entries_path: abs.to_owned(),
    }
}

/// Where systemd-boot looks for the files of an entry: on the EFI system partition.
pub fn systemd_entry_paths(mounted_efi: &str) -> (r: BlsEntryPath)
    ensures
        r.entries_path@ == paths::joined(mounted_efi@, boot::EFI_LINUX@),
        r.config_path@ == mounted_efi@,
        r.abs_entries_path@ == paths::joined("/"@, boot::EFI_LINUX@),
{
    BlsEntryPath {
        entries_path: paths::join(mounted_efi, boot::EFI_LINUX),
        config_path: mounted_efi.to_owned(),
        abs_entries_path: paths::join("/", boot::EFI_LINUX),
    }
}

/// The kernel options of a new installation: those of the root file system, and the argument that
/// names the deployment.
pub fn setup_options(root_kargs: &str, id: &str, insecure: bool) -> (r: String)
    ensures
        r@ == text::joined(
            cmdline::params_of(root_kargs@).push(boot::composefs_arg(id@, insecure)),
            " "@,
        ),
{
    let karg = boot::composefs_karg(id, insecure);
    cmdline::add_param(root_kargs, karg.as_str())
}

/// What the booted entry boots.
pub enum BootedConfig {
    /// An EFI executable.
    Efi,
    /// A kernel with these options, if any.
    NonEfi(Option<String>),
}

/// Why there are no kernel options to take over.
#[derive(Debug, Clone, Copy, PartialEq, Eq, Structural)]
pub enum OptionsError {
    /// The booted entry has no options.
    NoOptions,
    /// The booted entry boots an EFI executable.
    NotAKernel,
}

/// The kernel options of an upgrade: those that are booted, with only the argument that names the
/// deployment replaced.
pub fn upgrade_options(booted: &BootedConfig, id: &str) -> (r: Result<String, OptionsError>)
    ensures
        match *booted {
            BootedConfig::NonEfi(Some(o)) => r matches Ok(s) && s@ == text::joined(
                cmdline::with_param(
                    cmdline::params_of(o@),
                    boot::composefs_arg(id@, false),
                    false,
                ),
                " "@,
            ),
            BootedConfig::NonEfi(None) => r == Err::<String, OptionsError>(OptionsError::NoOptions),
            BootedConfig::Efi => r == Err::<String, OptionsError>(OptionsError::NotAKernel),
        },
{
    match booted {
        BootedConfig::NonEfi(Some(options)) => {
            let karg = boot::composefs_karg(id, false);
            Ok(cmdline::set_param(options.as_str(), karg.as_str()))
        },
        BootedConfig::NonEfi(None) => Err(OptionsError::NoOptions),
        BootedConfig::Efi => Err(OptionsError::NotAKernel),
    }
}

/// What an entry says of a deployment.
pub struct EntryLabels {
    pub os_id: String,
    pub title: String,
    pub version: String,
    pub sort_key: String,
}

/// The view of labels.
pub struct LabelsView {
    pub os_id: Seq<char>,
    pub title: Seq<char>,
    pub version: Seq<char>,
    pub sort_key: Seq<char>,
}

impl View for EntryLabels {
    type V = LabelsView;

    open spec fn view(&self) -> LabelsView {
        LabelsView {
            os_id: self.os_id@,
            title: self.title@,
            version: self.version@,
            sort_key: self.sort_key@,
        }
    }
}

/// A value, or another where there is none.
pub open spec fn or_else(o: Option<String>, other: Seq<char>) -> Seq<char> {
    match o {
        Some(s) => s@,
        None => other,
    }
}

/// What an entry says of a deployment: what its system says of itself, with the identifier of the
/// deployment where it says nothing.
pub open spec fn labels_for(release: Option<OsRelease>, id: Seq<char>) -> LabelsView {
    match release {
        Some(r) => LabelsView {
            os_id: r.id@,
            title: or_else(r.title, id),
            version: or_else(r.version, id),
            sort_key: boot::primary_key(r.id@),
        },
        None => LabelsView {
            os_id: "bootc"@,
            title: id,
            version: id,
            sort_key: boot::primary_key("bootc"@),
        },
    }
}

fn text_or(o: &Option<String>, other: &str) -> (r: String)
    ensures
        r@ == or_else(*o, other@),
{
    match o {
        Some(s) => s.as_str().to_owned(),
        None => other.to_owned(),
    }
}

/// What an entry says of a deployment.
pub fn entry_labels(release: &Option<OsRelease>, id: &str) -> (r: EntryLabels)
    ensures
        r@ == labels_for(*release, id@),
{
    match release {
        Some(o) => EntryLabels {
            os_id: o.id.as_str().to_owned(),
            title: text_or(&o.title, id),
            version: text_or(&o.version, id),
            sort_key: boot::primary_sort_key(o.id.as_str()),
        },
        None => EntryLabels {
            os_id: "bootc".to_owned(),
            title: id.to_owned(),
            version: id.to_owned(),
            sort_key: boot::primary_sort_key("bootc"),
        },
    }
}

/// The first of the names from `i` on that is in a list; their number where none is.
pub open spec fn first_shared(names: Seq<Seq<char>>, list: Seq<Seq<char>>, i: int) -> int
    decreases names.len() - i,
{
    if i >= names.len() {
        names.len() as int
    } else if list.contains(names[i]) {
        i
    } else {
        first_shared(names, list, i + 1)
    }
}

/// The first of the names that is in a list.
pub fn find_shared(names: &Vec<String>, list: &Vec<String>) -> (r: Option<usize>)
    ensures
        ({
            let i = first_shared(text::views(names@), text::views(list@), 0);
            match r {
                Some(k) => k == i && i < names@.len(),
                None => i == names@.len(),
            }
        }),
{
    let mut i: usize = 0;
    let ghost all = text::views(names@);
    let ghost wanted = text::views(list@);
    while i < names.len()
        invariant
            i <= names@.len(),
            all == text::views(names@),
            wanted == text::views(list@),
            first_shared(all, wanted, 0) == first_shared(all, wanted, i as int),
        decreases names@.len() - i,
    {
        assert(all[i as int] == names@[i as int]@);
        if text::is_one_of(list, names[i].as_str()) {
            return Some(i);
        }
        i += 1;
    }
    None
}

/// What is known when the entry of a deployment is made.
pub struct BlsInputs {
    /// The kind of the entry that the file system holds.
    pub kind: EntryKind,
    /// The identifier of the deployment.
    pub id: String,
    pub paths: BlsEntryPath,
    pub release: Option<OsRelease>,
    pub options: String,
    /// The deployments with the same kernel and initial ramdisk, if there are any.
    pub duplicates: Option<Vec<String>>,
    /// What is in the directory of kernels.
    pub present: Vec<String>,
    /// The version in the booted entry; there is one on an upgrade only.
    pub booted_version: Option<String>,
}

/// Why no entry can be made.
#[derive(Debug, Clone, Copy, PartialEq, Eq, Structural)]
pub enum BlsError {
    FoundType1,
    FoundUki,
    /// Other deployments have the kernel, but none of their directories is there.
    NoSharedEntry,
}

/// A boot entry.
pub struct BlsEntry {
    pub title: String,
    pub version: String,
    pub sort_key: String,
    pub linux: String,
    pub initrd: String,
    pub options: String,
}

/// What changes of the booted entry.
pub struct BootedEntry {
    pub file_name: String,
    pub sort_key: String,
}

/// What is to be done for the entry of a deployment.
pub struct BlsPlan {
    pub entry: BlsEntry,
    /// The directory that the kernel and the initial ramdisk are to be written to, unless another
    /// deployment has them already.
    pub write_kernel_to: Option<String>,
    /// The directory of the entry files.
    pub entries_dir: String,
    /// The file of the new entry.
    pub file_name: String,
    /// The booted entry, which is kept beside the new one.
    pub booted: Option<BootedEntry>,
}

/// The directory of the kernel: that of the first deployment that has the same one and is there,
/// else one of its own.
pub open spec fn kernel_dir(i: BlsInputs) -> Option<Seq<char>> {
    match i.duplicates {
        None => Some(i.id@),
        Some(d) => {
            let k = first_shared(text::views(i.present@), text::views(d@), 0);
            if k < i.present@.len() {
                Some(i.present@[k]@)
            } else {
                None
            }
        },
    }
}

/// Whether a plan is the one for what is known.
pub open spec fn is_plan(p: BlsPlan, i: BlsInputs) -> bool {
    let l = labels_for(i.release, i.id@);
    let dir = paths::joined(i.paths.abs_entries_path@, kernel_dir(i).unwrap());
    let loader = paths::joined(i.paths.config_path@, "loader"@);
    &&& p.entry.title@ == l.title
    &&& p.entry.version@ == l.version
    &&& p.entry.sort_key@ == l.sort_key
    &&& p.entry.linux@ == paths::joined(dir, VMLINUZ@)
    &&& p.entry.initrd@ == paths::joined(dir, INITRD@)
    &&& p.entry.options@ == i.options@
    &&& text::opt_view(p.write_kernel_to) == if i.duplicates is None {
        Some(paths::joined(i.paths.entries_path@, i.id@))
    } else {
        None
    }
    &&& p.entries_dir@ == paths::joined(
        loader,
        if i.booted_version is Some {
            STAGED_BOOT_LOADER_ENTRIES@
        } else {
            BOOT_LOADER_ENTRIES@
        },
    )
    &&& p.file_name@ == boot::entry_file(l.os_id, l.version, boot::FILENAME_PRIORITY_PRIMARY@)
    &&& match (p.booted, i.booted_version) {
        (Some(b), Some(v)) => b.sort_key@ == boot::secondary_key(l.os_id) && b.file_name@
            == boot::entry_file(l.os_id, v@, boot::FILENAME_PRIORITY_SECONDARY@),
        (None, None) => true,
        _ => false,
    }
}

/// Decides what is to be done for the entry of a deployment.
pub fn plan_bls_boot(i: &BlsInputs) -> (r: Result<BlsPlan, BlsError>)
    ensures
        match i.kind {
            EntryKind::Type1 => r == Err::<BlsPlan, BlsError>(BlsError::FoundType1),
            EntryKind::Type2 => r == Err::<BlsPlan, BlsError>(BlsError::FoundUki),
            EntryKind::UsrLibModulesVmLinuz => match kernel_dir(*i) {
                Some(_) => r matches Ok(p) && is_plan(p, *i),
                None => r == Err::<BlsPlan, BlsError>(BlsError::NoSharedEntry),
            },
        },
{
    match i.kind {
        EntryKind::Type1 => {
            return Err(BlsError::FoundType1);
        },
        EntryKind::Type2 => {
            return Err(BlsError::FoundUki);
        },
        EntryKind::UsrLibModulesVmLinuz => {},
    }
    let labels = entry_labels(&i.release, i.id.as_str());
    let (kernel_name, write_kernel_to) = match &i.duplicates {
        None => (
            i.id.as_str(),
            Some(paths::join(i.paths.entries_path.as_str(), i.id.as_str())),
        ),
        Some(d) => match find_shared(&i.present, d) {
            Some(k) => (i.present[k].as_str(), None),
            None => {
                return Err(BlsError::NoSharedEntry);
            },
        },
    };
    let dir = paths::join(i.paths.abs_entries_path.as_str(), kernel_name);
    let loader = paths::join(i.paths.config_path.as_str(), "loader");
    let file_name = boot::type1_entry_conf_file_name(
        labels.os_id.as_str(),
        labels.version.as_str(),
        boot::FILENAME_PRIORITY_PRIMARY,
    );
    let (entries, booted) = match &i.booted_version {
        Some(v) => (
            STAGED_BOOT_LOADER_ENTRIES,
            Some(
                BootedEntry {
                    file_name: boot::type1_entry_conf_file_name(
                        labels.os_id.as_str(),
                        v.as_str(),
                        boot::FILENAME_PRIORITY_SECONDARY,
                    ),
                    sort_key: boot::secondary_sort_key(labels.os_id.as_str()),
                },
            ),
        ),
        None => (BOOT_LOADER_ENTRIES, None),
    };
    Ok(
        BlsPlan {
            entry: BlsEntry {
                linux: paths::join(dir.as_str(), VMLINUZ),
                initrd: paths::join(dir.as_str(), INITRD),
                options: i.options.as_str().to_owned(),
                title: labels.title,
                version: labels.version,
                sort_key: labels.sort_key,
            },
            write_kernel_to,
            entries_dir: paths::join(loader.as_str(), entries),
            file_name,
            booted,
        },
    )
}

/// On an upgrade, systemd-boot lists the new entry before the booted one, and so does Grub where
/// both have one version. The booted entry's file is never that of the new one.
pub proof fn law_upgrade_order(p: BlsPlan, i: BlsInputs)
    requires
        is_plan(p, i),
        i.booted_version is Some,
    ensures
        text::before(p.entry.sort_key@, p.booted.unwrap().sort_key@),
        i.booted_version.unwrap()@ == p.entry.version@ ==> text::before(
            p.booted.unwrap().file_name@,
            p.file_name@,
        ),
        p.booted.unwrap().file_name@ != p.file_name@,
{
    let l = labels_for(i.release, i.id@);
    boot::law_new_entry_first(l.os_id, l.version);
    let v = i.booted_version.unwrap()@;
    let a = boot::entry_file(l.os_id, v, "0"@);
    let b = boot::entry_file(l.os_id, l.version, "1"@);
    reveal_strlit("0");
    reveal_strlit("1");
    reveal_strlit(".conf");
    assert(a[a.len() - 6] == '0');
    assert(b[b.len() - 6] == '1');
}

/// A kernel is written exactly where no other deployment has it, and the entry then boots the one
/// that was written.
pub proof fn law_kernel_written_once(p: BlsPlan, i: BlsInputs)
    requires
        is_plan(p, i),
    ensures
        p.write_kernel_to is Some <==> i.duplicates is None,
        p.write_kernel_to is Some ==> p.entry.linux@ == paths::joined(
            paths::joined(i.paths.abs_entries_path@, i.id@),
            VMLINUZ@,
        ),
{
}

/// The search finds the first of the names that is in the list, wherever it stands, and finds nothing
/// exactly if none of them is.
pub proof fn law_shared(names: Seq<Seq<char>>, list: Seq<Seq<char>>)
    ensures
        ({
            let k = first_shared(names, list, 0);
            &&& 0 <= k <= names.len()
            &&& k < names.len() ==> list.contains(names[k])
            &&& forall|j: int| 0 <= j < k ==> !list.contains(#[trigger] names[j])
            &&& k == names.len() <==> forall|j: int|
                0 <= j < names.len() ==> !list.contains(#[trigger] names[j])
        }),
{
    lemma_first_shared(names, list, 0);
}

proof fn lemma_first_shared(names: Seq<Seq<char>>, list: Seq<Seq<char>>, i: int)
    requires
        0 <= i <= names.len(),
    ensures
        i <= first_shared(names, list, i) <= names.len(),
        first_shared(names, list, i) < names.len() ==> list.contains(
            names[first_shared(names, list, i)],
        ),
        forall|j: int|
            i <= j < first_shared(names, list, i) ==> !list.contains(#[trigger] names[j]),
    decreases names.len() - i,
{
    if i < names.len() && !list.contains(names[i]) {
        lemma_first_shared(names, list, i + 1);
    }
}

/// An entry can be made unless other deployments have the kernel and none of their directories is
/// there. The kernel is then in the deployment's own directory, or in one that is there and that
/// belongs to a deployment with the same kernel.
pub proof fn law_kernel_dir(i: BlsInputs)
    ensures
        kernel_dir(i) is None <==> (i.duplicates matches Some(d) && forall|k: int, j: int|
            0 <= k < i.present@.len() && 0 <= j < d@.len() ==> (#[trigger] i.present@[k])@ != (
            #[trigger] d@[j])@),
        i.duplicates is None ==> kernel_dir(i) == Some(i.id@),
        i.duplicates matches Some(d) ==> (kernel_dir(i) matches Some(dir) ==> exists|
            k: int,
            j: int,
        |
            0 <= k < i.present@.len() && 0 <= j < d@.len() && (#[trigger] i.present@[k])@ == dir && (
            #[trigger] d@[j])@ == dir),
{
    match i.duplicates {
        Some(d) => {
            let names = text::views(i.present@);
            let list = text::views(d@);
            law_shared(names, list);
            let m = first_shared(names, list, 0);
            if m < names.len() {
                let j = list.index_of(names[m]);
                assert(d@[j]@ == list[j]);
                assert(i.present@[m]@ == names[m]);
                assert(i.present@[m]@ == d@[j]@);
            } else {
                assert forall|k: int, j: int| 0 <= k < i.present@.len() && 0 <= j < d@.len() implies (
                #[trigger] i.present@[k])@ != (#[trigger] d@[j])@ by {
                    assert(!list.contains(names[k]));
                    assert(list[j] == d@[j]@);
                    assert(names[k] == i.present@[k]@);
                    assert(list.contains(list[j]));
                }
            }
        },
        None => {},
    }
}

/// What an entry says of a deployment: the title, the version and the name that its system gives of
/// itself, and the deployment's identifier and `bootc` where it gives none.
pub proof fn law_labels(release: Option<OsRelease>, id: Seq<char>)
    ensures
        release is None ==> labels_for(release, id) == (LabelsView {
            os_id: "bootc"@,
            title: id,
            version: id,
            sort_key: "bootc-"@ + "bootc"@ + "-0"@,
        }),
        release matches Some(r) ==> {
            let l = labels_for(release, id);
            &&& l.os_id == r.id@
            &&& l.sort_key == "bootc-"@ + r.id@ + "-0"@
            &&& (r.title matches Some(t) ==> l.title == t@)
            &&& (r.title is None ==> l.title == id)
            &&& (r.version matches Some(v) ==> l.version == v@)
            &&& (r.version is None ==> l.version == id)
        },
{
    boot::law_sort_keys("bootc"@);
    match release {
        Some(r) => {
            boot::law_sort_keys(r.id@);
        },
        None => {},
    }
}

/// A plan boots the kernel and the initial ramdisk of one directory, with the options that were
/// asked for. An upgrade writes to the directory of staged entries and keeps the booted entry beside
/// the new one, under its own version; an installation does neither.
pub proof fn law_plan(p: BlsPlan, i: BlsInputs)
    requires
        is_plan(p, i),
        kernel_dir(i) is Some,
    ensures
        ({
            let dir = paths::joined(i.paths.abs_entries_path@, kernel_dir(i).unwrap());
            let loader = paths::joined(i.paths.config_path@, "loader"@);
            &&& p.entry.linux@ == paths::joined(dir, "vmlinuz"@)
            &&& p.entry.initrd@ == paths::joined(dir, "initrd"@)
            &&& p.entry.options@ == i.options@
            &&& i.duplicates is None ==> text::opt_view(p.write_kernel_to) == Some(
                paths::joined(i.paths.entries_path@, i.id@),
            )
            &&& i.duplicates is Some ==> p.write_kernel_to is None
            &&& p.booted is Some <==> i.booted_version is Some
            &&& i.booted_version is None ==> p.entries_dir@ == paths::joined(loader, "entries"@)
            &&& i.booted_version is Some ==> p.entries_dir@ == paths::joined(
                loader,
                "entries.staged"@,
            )
            &&& p.entry.title@ == labels_for(i.release, i.id@).title
            &&& p.entry.version@ == labels_for(i.release, i.id@).version
            &&& p.entry.sort_key@ == labels_for(i.release, i.id@).sort_key
            &&& p.file_name@ == boot::entry_file(
                labels_for(i.release, i.id@).os_id,
                p.entry.version@,
                "1"@,
            )
            &&& i.booted_version matches Some(v) ==> p.booted.unwrap().file_name@
                == boot::entry_file(labels_for(i.release, i.id@).os_id, v@, "0"@)
            &&& i.booted_version is Some ==> p.booted.unwrap().sort_key@ == "bootc-"@ + labels_for(
                i.release,
                i.id@,
            ).os_id + "-1"@
        }),
{
    boot::law_sort_keys(labels_for(i.release, i.id@).os_id);
}

/// The argument that names a deployment is read by the kernel as the parameter `composefs`, whose
/// value is the deployment, with a question mark in front where its verification is optional.
pub proof fn law_composefs_arg(id: Seq<char>)
    requires
        !id.contains('"'),
    ensures
        cmdline::parts_of(boot::composefs_arg(id, false)) == ("composefs"@, Some(id)),
        cmdline::parts_of(boot::composefs_arg(id, true)) == ("composefs"@, Some("?"@ + id)),
{
    let key = "composefs"@;
    let optional = "?"@ + id;
    assert(!key.contains('"') && !key.contains('=')) by {
        reveal_strlit("composefs");
    }
    assert(!optional.contains('"')) by {
        reveal_strlit("?");
        if optional.contains('"') {
            let i = optional.index_of('"');
            assert(id.contains(id[i - 1]));
        }
    }
    assert(boot::composefs_arg(id, true) =~= key + "="@ + optional) by {
        reveal_strlit("=?");
        reveal_strlit("=");
        reveal_strlit("?");
    }
    lemma_reads(key, id);
    lemma_reads(key, optional);
}

proof fn lemma_reads(key: Seq<char>, value: Seq<char>)
    requires
        !key.contains('"'),
        !key.contains('='),
        !value.contains('"'),
    ensures
        cmdline::parts_of(key + "="@ + value) == (key, Some(value)),
{
    cmdline::law_quotes(key, value);
}

} // verus!
