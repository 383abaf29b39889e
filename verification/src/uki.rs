//! Unified kernel images: one executable with the kernel, its initial ramdisk and its options.
use crate::bls;
use crate::bls::BootedEntry;
use crate::boot;
use crate::boot::{BootType, Bootloader, EntryKind};
use crate::origin;
use crate::paths;
use crate::text;
use vstd::prelude::*;

verus! {

/// The end of an image's file name.
pub const EFI_EXT: &'static str = ".efi";

/// The end of the name of a directory of add-ons.
pub const EFI_ADDON_DIR_EXT: &'static str = ".efi.extra.d";

/// The end of an add-on's file name.
pub const EFI_ADDON_FILE_EXT: &'static str = ".addon.efi";

/// Grub's configuration of menu entries.
pub const USER_CFG: &'static str = "user.cfg";

/// The same, to take effect at the next boot.
pub const USER_CFG_STAGED: &'static str = "user.cfg.staged";

/// The entries of systemd-boot.
pub const TYPE1_ENT_PATH: &'static str = "loader/entries";

/// The same, to take effect at the next boot.
pub const TYPE1_ENT_PATH_STAGED: &'static str = "loader/entries.staged";

/// The configuration of systemd-boot.
pub const SYSTEMD_LOADER_CONF_PATH: &'static str = "loader/loader.conf";

/// How long the menu of systemd-boot stays.
pub const SYSTEMD_TIMEOUT: &'static str = "timeout 5";

/// What `composefs_boot` finds as a section of an image: its text, nothing where the image or the
/// section cannot be read.
pub uninterp spec fn uki_section(image: Seq<u8>, section: Seq<char>) -> Option<Seq<char>>;

/// What `ComposefsCmdline::from_cmdline` finds in kernel options for SHA-512: the digest in
/// hexadecimal and whether its verification is optional. `None` where it fails.
pub uninterp spec fn composefs_param(cmdline: Seq<char>) -> Option<Option<(Seq<char>, bool)>>;

/// `composefs_boot::uki::get_text_section` of the section with the system's release. It depends on
/// the image alone.
#[verifier::external_body]
fn release_section(image: &[u8]) -> (r: Option<&str>)
    ensures
        text::opt_slice_view(r) == uki_section(image@, ".osrel"@),
{
    composefs_boot::uki::get_text_section(image, ".osrel").ok()
}

/// `composefs_boot::uki::get_cmdline`: the section with the kernel options.
#[verifier::external_body]
fn cmdline_section(image: &[u8]) -> (r: Option<&str>)
    ensures
        text::opt_slice_view(r) == uki_section(image@, ".cmdline"@),
{
    composefs_boot::uki::get_cmdline(image).ok()
}

/// The label of a system: its title and, behind a space, its version.
pub open spec fn release_label(release: Seq<char>) -> Option<Seq<char>> {
    match origin::os_title_of(release) {
        Some(t) => Some(
            match origin::os_version_of(release) {
                Some(v) => t + " "@ + v,
                None => t,
            },
        ),
        None => None,
    }
}

/// The label of the system in an image.
pub open spec fn image_label(image: Seq<u8>) -> Option<Seq<char>> {
    match uki_section(image, ".osrel"@) {
        Some(t) => release_label(t),
        None => None,
    }
}

/// `composefs_boot::uki::get_boot_label`: the label that the release section gives.
#[verifier::external_body]
fn label_of_image(image: &[u8]) -> (r: Option<String>)
    ensures
        text::opt_view(r) == image_label(image@),
{
    composefs_boot::uki::get_boot_label(image).ok()
}

/// The view of a digest and whether its verification is optional.
pub open spec fn param_view(p: Option<(String, bool)>) -> Option<(Seq<char>, bool)> {
    match p {
        Some((d, i)) => Some((d@, i)),
        None => None,
    }
}

/// `ComposefsCmdline::<Sha512HashValue>::from_cmdline`, with `to_hex` of the digest it finds. It
/// depends on the options alone.
#[verifier::external_body]
fn find_composefs_param(cmdline: &str) -> (r: Result<Option<(String, bool)>, ()>)
    ensures
        match r {
            Ok(p) => composefs_param(cmdline@) == Some(param_view(p)),
            Err(_) => composefs_param(cmdline@) is None,
        },
{
    composefs_boot::cmdline::ComposefsCmdline::<
        composefs::fsverity::Sha512HashValue,
    >::from_cmdline(cmdline).map(
        |o|
            o.map(
                |c|
                    (
                        composefs::fsverity::FsVerityHashValue::to_hex(c.digest()),
                        c.is_insecure(),
                    ),
            ),
    ).map_err(|_| ())
}

/// The kinds of executables beside each other on the EFI system partition.
#[derive(Debug, Clone, Copy, PartialEq, Eq, Structural)]
pub enum PeType {
    Uki,
    UkiAddon,
}

/// What an image says of its deployment.
pub struct UkiLabels {
    pub boot_label: String,
    pub version: Option<String>,
    pub os_id: Option<String>,
}

/// Why an image cannot be installed.
pub enum UkiError {
    NoCmdline,
    /// Its options name no root file system, or not properly.
    NoDigest,
    /// Its options name another root file system, this one.
    WrongDigest(String),
    NoRelease,
    NoLabel,
}

/// What is to be warned of.
#[derive(Debug, Clone, Copy, PartialEq, Eq, Structural)]
pub enum InsecureNote {
    Nothing,
    /// Optional verification was asked for, which the image does not allow.
    NotSupported,
    /// The image makes verification optional.
    UkiInsecure,
}

/// What is to be warned of, from what was asked for and what the image says.
pub open spec fn insecure_note(asked: bool, found: bool) -> InsecureNote {
    if asked && !found {
        InsecureNote::NotSupported
    } else if !asked && found {
        InsecureNote::UkiInsecure
    } else {
        InsecureNote::Nothing
    }
}

/// Checks the digest in an image's options against that of the deployment.
pub fn check_digest(found: &str, insecure: bool, id: &str, asked: bool) -> (r: Option<InsecureNote>)
    ensures
        r == if found@ == id@ {
            Some(insecure_note(asked, insecure))
        } else {
            None
        },
{
    if !text::same(found, id) {
        return None;
    }
    if asked && !insecure {
        Some(InsecureNote::NotSupported)
    } else if !asked && insecure {
        Some(InsecureNote::UkiInsecure)
    } else {
        Some(InsecureNote::Nothing)
    }
}

/// Whether the options in an image name a deployment.
pub open spec fn names_deployment(image: Seq<u8>, id: Seq<char>) -> bool {
    uki_section(image, ".cmdline"@) matches Some(c) && (composefs_param(c) matches Some(Some((d, _)))
        && d == id)
}

/// Reads what an image says of its deployment. Its options must name that deployment.
pub fn inspect_uki(image: &[u8], id: &str, asked_insecure: bool) -> (r: Result<
    (UkiLabels, InsecureNote),
    UkiError,
>)
    ensures
        match r {
            Ok((l, note)) => {
                &&& names_deployment(image@, id@)
                &&& note == insecure_note(
                    asked_insecure,
                    composefs_param(uki_section(image@, ".cmdline"@).unwrap()).unwrap().unwrap().1,
                )
                &&& uki_section(image@, ".osrel"@) matches Some(t) && image_label(image@) == Some(
                    l.boot_label@,
                ) && text::opt_view(l.version) == origin::os_version_of(t) && text::opt_view(
                    l.os_id,
                ) == origin::os_release_value(t, "ID"@)
            },
            Err(UkiError::NoCmdline) => uki_section(image@, ".cmdline"@) is None,
            Err(UkiError::NoDigest) => uki_section(image@, ".cmdline"@) matches Some(c)
                && !(composefs_param(c) matches Some(Some(_))),
            Err(UkiError::WrongDigest(d)) => uki_section(image@, ".cmdline"@) matches Some(c)
                && (composefs_param(c) matches Some(Some((f, _))) && f == d@ && f != id@),
            Err(UkiError::NoRelease) => names_deployment(image@, id@) && uki_section(
                image@,
                ".osrel"@,
            ) is None,
            Err(UkiError::NoLabel) => names_deployment(image@, id@) && uki_section(
                image@,
                ".osrel"@,
            ) is Some && image_label(image@) is None,
        },
{
    let cmdline = match cmdline_section(image) {
        Some(c) => c,
        None => {
            return Err(UkiError::NoCmdline);
        },
    };
    let (found, insecure) = match find_composefs_param(cmdline) {
        Ok(Some(p)) => p,
        Ok(None) => {
            return Err(UkiError::NoDigest);
        },
        Err(_) => {
            return Err(UkiError::NoDigest);
        },
    };
    let note = match check_digest(found.as_str(), insecure, id, asked_insecure) {
        Some(n) => n,
        None => {
            return Err(UkiError::WrongDigest(found));
        },
    };
    let release = match release_section(image) {
        Some(t) => t,
        None => {
            return Err(UkiError::NoRelease);
        },
    };
    let (version, os_id) = origin::uki_release(release);
    match label_of_image(image) {
        Some(boot_label) => Ok((UkiLabels { boot_label, version, os_id }, note)),
        None => Err(UkiError::NoLabel),
    }
}

/// The directory of executables for a boot loader, on the EFI system partition.
pub open spec fn pe_root(mounted_efi: Seq<char>, bootloader: Bootloader) -> Seq<char> {
    paths::joined(
        mounted_efi,
        match bootloader {
            Bootloader::Grub => boot::EFI_LINUX@,
            Bootloader::Systemd => boot::SYSTEMD_UKI_DIR@,
        },
    )
}

/// Where the directory of an executable goes: the directory of a deployment's add-ons is named
/// after the deployment, any other keeps its name.
pub open spec fn renamed_parent(parent: Seq<char>, id: Seq<char>) -> Seq<char> {
    if EFI_ADDON_DIR_EXT@.is_suffix_of(parent) {
        match paths::parent_of(parent) {
            Some(p) => paths::joined(p, id + EFI_ADDON_DIR_EXT@),
            None => id + EFI_ADDON_DIR_EXT@,
        }
    } else {
        parent
    }
}

/// The directory that an executable is written to.
pub open spec fn pe_dir(root: Seq<char>, parent: Option<Seq<char>>, id: Seq<char>) -> Seq<char> {
    match parent {
        Some(p) => paths::joined(root, renamed_parent(p, id)),
        None => root,
    }
}

/// The directory that an executable is written to.
pub fn pe_directory(mounted_efi: &str, bootloader: Bootloader, file_path: &str, id: &str) -> (r:
    String)
    ensures
        r@ == pe_dir(pe_root(mounted_efi@, bootloader), paths::parent_of(file_path@), id@),
{
    let root = match bootloader {
        Bootloader::Grub => paths::join(mounted_efi, boot::EFI_LINUX),
        Bootloader::Systemd => paths::join(mounted_efi, boot::SYSTEMD_UKI_DIR),
    };
    match paths::parent(file_path) {
        Some(parent) => {
            let renamed = if text::ends_with(parent, EFI_ADDON_DIR_EXT) {
                let name = text::concat2(id, EFI_ADDON_DIR_EXT);
                match paths::parent(parent) {
                    Some(p) => paths::join(p, name.as_str()),
                    None => name,
                }
            } else {
                parent.to_owned()
            };
            paths::join(root.as_str(), renamed.as_str())
        },
        None => root,
    }
}

/// The file that an executable is written to: an image is named after its deployment, an add-on
/// keeps its name. Nothing for an add-on without one.
pub fn pe_name(pe_type: PeType, file_path: &str, id: &str) -> (r: Option<String>)
    ensures
        text::opt_view(r) == match pe_type {
            PeType::Uki => Some(id@ + EFI_EXT@),
            PeType::UkiAddon => paths::final_component(file_path@),
        },
{
    match pe_type {
        PeType::Uki => Some(text::concat2(id, EFI_EXT)),
        PeType::UkiAddon => match paths::last_of_components(file_path) {
            Some(n) => Some(n.to_owned()),
            None => None,
        },
    }
}

/// Why it cannot be told whether an add-on is wanted.
#[derive(Debug, Clone, Copy, PartialEq, Eq, Structural)]
pub enum AddonError {
    NoName,
    /// Its name has not the ending of an add-on.
    WrongExtension,
}

/// Whether an add-on of this name is asked for.
pub open spec fn addon_wanted(name: Option<Seq<char>>, addons: Seq<Seq<char>>) -> Result<
    bool,
    AddonError,
> {
    match name {
        None => Err(AddonError::NoName),
        Some(n) => match text::without_suffix(n, EFI_ADDON_FILE_EXT@) {
            None => Err(AddonError::WrongExtension),
            Some(a) => Ok(addons.contains(a)),
        },
    }
}

/// Whether an entry of a file system is to be installed: an image always, an add-on if it is asked
/// for by name, anything else never. Without a list no add-on is.
pub fn install_entry(
    kind: EntryKind,
    pe_type: PeType,
    file_path: &str,
    addons: Option<&Vec<String>>,
) -> (r: Result<bool, AddonError>)
    ensures
        r == match (kind, pe_type, addons) {
            (EntryKind::Type2, PeType::Uki, _) => Ok::<bool, AddonError>(true),
            (EntryKind::Type2, PeType::UkiAddon, Some(a)) => addon_wanted(
                paths::final_component(file_path@),
                text::views(a@),
            ),
            _ => Ok::<bool, AddonError>(false),
        },
{
    match kind {
        EntryKind::Type2 => match pe_type {
            PeType::Uki => Ok(true),
            PeType::UkiAddon => match addons {
                None => Ok(false),
                Some(a) => match paths::last_of_components(file_path) {
                    None => Err(AddonError::NoName),
                    Some(name) => match text::strip_suffix(name, EFI_ADDON_FILE_EXT) {
                        None => Err(AddonError::WrongExtension),
                        Some(addon) => Ok(text::is_one_of(a, addon)),
                    },
                },
            },
        },
        _ => Ok(false),
    }
}

/// The file that Grub's menu entries are written to.
pub fn user_cfg_name(is_upgrade: bool) -> (r: &'static str)
    ensures
        r@ == if is_upgrade {
            USER_CFG_STAGED@
        } else {
            USER_CFG@
        },
{
    if is_upgrade {
        USER_CFG_STAGED
    } else {
        USER_CFG
    }
}

/// Grub's menu: the new entry and, on an upgrade, the one that is booted, which is the first of
/// those that were there.
pub fn grub_user_cfg(new_entry: &str, old_entries: Option<&Vec<String>>) -> (r: String)
    requires
        old_entries matches Some(e) ==> e@.len() > 0,
    ensures
        ({
            let source = "\nif [ -f ${config_directory}/"@ + boot::EFI_UUID_FILE@
                + " ]; then\n        source ${config_directory}/"@ + boot::EFI_UUID_FILE@
                + "\nfi\n"@;
            r@ == match old_entries {
                Some(e) => source + new_entry@ + e@[0]@,
                None => source + new_entry@,
            }
        }),
{
    let source = boot::get_efi_uuid_source();
    match old_entries {
        Some(e) => text::concat3(source.as_str(), new_entry, e[0].as_str()),
        None => text::concat2(source.as_str(), new_entry),
    }
}

/// The command that prints the UUID of a partition's file system.
pub fn blkid_args(device: &str) -> (r: Vec<String>)
    ensures
        text::views(r@) == seq!["blkid"@, "-s"@, "UUID"@, "-o"@, "value"@, device@],
{
    text::owned(&vec!["blkid", "-s", "UUID", "-o", "value", device])
}

/// The file with the UUID of the EFI system partition, from what `blkid` printed.
pub fn efi_uuid_line(output: &str) -> (r: String)
    ensures
        r@ == "set EFI_PART_UUID=\""@ + text::trimmed(output@) + "\""@,
{
    text::concat3("set EFI_PART_UUID=\"", text::trim(output), "\"")
}

/// What is to be done for systemd-boot to boot an image.
pub struct SystemdUkiPlan {
    pub title: String,
    pub version: String,
    pub sort_key: String,
    /// The image, as seen from the root of its partition.
    pub efi: String,
    /// The directory of the entry files.
    pub entries_dir: String,
    /// The file of the new entry.
    pub file_name: String,
    /// The booted entry, which is kept beside the new one.
    pub booted: Option<BootedEntry>,
}

/// Whether a plan is the one for an image.
pub open spec fn is_uki_plan(
    p: SystemdUkiPlan,
    l: UkiLabels,
    id: Seq<char>,
    booted_version: Option<Seq<char>>,
) -> bool {
    let os_id = bls::or_else(l.os_id, "bootc"@);
    &&& p.title@ == l.boot_label@
    &&& p.version@ == bls::or_else(l.version, id)
    &&& p.sort_key@ == boot::primary_key(os_id)
    &&& p.efi@ == "/"@ + boot::SYSTEMD_UKI_DIR@ + "/"@ + id + EFI_EXT@
    &&& p.file_name@ == boot::entry_file(os_id, p.version@, boot::FILENAME_PRIORITY_PRIMARY@)
    &&& p.entries_dir@ == if booted_version is Some {
        TYPE1_ENT_PATH_STAGED@
    } else {
        TYPE1_ENT_PATH@
    }
    &&& match (p.booted, booted_version) {
        (Some(b), Some(v)) => b.sort_key@ == boot::secondary_key(os_id) && b.file_name@
            == boot::entry_file(os_id, v, boot::FILENAME_PRIORITY_SECONDARY@),
        (None, None) => true,
        _ => false,
    }
}

/// Decides what is to be done for systemd-boot to boot an image. There is a booted version on an
/// upgrade only.
pub fn plan_systemd_uki(l: UkiLabels, id: &str, booted_version: Option<&str>) -> (r: SystemdUkiPlan)
    ensures
        is_uki_plan(r, l, id@, text::opt_slice_view(booted_version)),
{
    let os_id = match l.os_id {
        Some(o) => o,
        None => "bootc".to_owned(),
    };
    let version = match l.version {
        Some(v) => v,
        None => id.to_owned(),
    };
    let booted = match booted_version {
        Some(v) => Some(
            BootedEntry {
                file_name: boot::type1_entry_conf_file_name(
                    os_id.as_str(),
                    v,
                    boot::FILENAME_PRIORITY_SECONDARY,
                ),
                sort_key: boot::secondary_sort_key(os_id.as_str()),
            },
        ),
        None => None,
    };
    SystemdUkiPlan {
        title: l.boot_label,
        sort_key: boot::primary_sort_key(os_id.as_str()),
        efi: text::concat5("/", boot::SYSTEMD_UKI_DIR, "/", id, EFI_EXT),
        entries_dir: match booted_version {
            Some(_) => TYPE1_ENT_PATH_STAGED.to_owned(),
            None => TYPE1_ENT_PATH.to_owned(),
        },
        file_name: boot::type1_entry_conf_file_name(
            os_id.as_str(),
            version.as_str(),
            boot::FILENAME_PRIORITY_PRIMARY,
        ),
        version,
        booted,
    }
}

/// On an upgrade, systemd-boot lists the new image before the booted one. The booted entry's file is
/// never that of the new one.
pub proof fn law_uki_upgrade_order(
    p: SystemdUkiPlan,
    l: UkiLabels,
    id: Seq<char>,
    booted_version: Option<Seq<char>>,
)
    requires
        is_uki_plan(p, l, id, booted_version),
        booted_version is Some,
    ensures
        text::before(p.sort_key@, p.booted.unwrap().sort_key@),
        p.booted.unwrap().file_name@ != p.file_name@,
{
    let os_id = bls::or_else(l.os_id, "bootc"@);
    boot::law_new_entry_first(os_id, p.version@);
    let a = boot::entry_file(os_id, booted_version.unwrap(), "0"@);
    let b = boot::entry_file(os_id, p.version@, "1"@);
    reveal_strlit("0");
    reveal_strlit("1");
    reveal_strlit(".conf");
    assert(a[a.len() - 6] == '0');
    assert(b[b.len() - 6] == '1');
}

/// What to write to the configuration of systemd-boot: nothing where there is one.
pub fn loader_conf(present: bool) -> (r: Option<&'static str>)
    ensures
        text::opt_slice_view(r) == if present {
            None
        } else {
            Some(SYSTEMD_TIMEOUT@)
        },
{
    if present {
        None
    } else {
        Some(SYSTEMD_TIMEOUT)
    }
}

/// What the last of the images that were installed says; nothing where none says anything.
pub open spec fn last_some(labels: Seq<Option<UkiLabels>>) -> Option<UkiLabels>
    decreases labels.len(),
{
    if labels.len() == 0 {
        None
    } else if labels.last() is Some {
        labels.last()
    } else {
        last_some(labels.drop_last())
    }
}

/// What the last of the images that were installed says.
pub fn last_label(labels: Vec<Option<UkiLabels>>) -> (r: Option<UkiLabels>)
    ensures
        r == last_some(labels@),
{
    let mut rest = labels;
    while rest.len() > 0
        invariant
            last_some(labels@) == last_some(rest@),
        decreases rest@.len(),
    {
        let ghost before = rest@;
        match rest.pop() {
            Some(Some(l)) => {
                return Some(l);
            },
            _ => {
                assert(before.drop_last() =~= rest@);
            },
        }
    }
    None
}

/// Whether one of the files of a directory is an EFI executable.
pub fn has_uki(names: &Vec<String>) -> (r: bool)
    ensures
        r == exists|i: int|
            0 <= i < names@.len() && paths::extension_of((#[trigger] names@[i])@) == Some("efi"@),
{
    let mut i: usize = 0;
    while i < names.len()
        invariant
            i <= names@.len(),
            forall|j: int|
                0 <= j < i ==> paths::extension_of((#[trigger] names@[j])@) != Some("efi"@),
        decreases names@.len() - i,
    {
        match paths::extension(names[i].as_str()) {
            Some(e) => {
                if text::same(e, "efi") {
                    assert(paths::extension_of(names@[i as int]@) == Some("efi"@));
                    return true;
                }
            },
            None => {},
        }
        i += 1;
    }
    false
}

/// Whether a system's root holds a unified kernel image: nothing where it has no boot directory, or
/// that has none for EFI executables.
pub fn container_root_has_uki(efi_linux: Option<&Vec<String>>) -> (r: bool)
    ensures
        r == (efi_linux matches Some(names) && exists|i: int|
            0 <= i < names@.len() && paths::extension_of((#[trigger] names@[i])@) == Some("efi"@)),
{
    match efi_linux {
        Some(names) => has_uki(names),
        None => false,
    }
}

/// How a boot loader is installed.
#[derive(Debug, Clone, Copy, PartialEq, Eq, Structural)]
pub enum InstallMethod {
    Zipl,
    Bootupd,
    SystemdBoot,
}

/// How the boot loader is installed on a machine.
pub fn install_method(is_s390x: bool, bootloader: Bootloader) -> (r: InstallMethod)
    ensures
        r == if is_s390x {
            InstallMethod::Zipl
        } else if bootloader == Bootloader::Grub {
            InstallMethod::Bootupd
        } else {
            InstallMethod::SystemdBoot
        },
{
    if is_s390x {
        InstallMethod::Zipl
    } else {
        match bootloader {
            Bootloader::Grub => InstallMethod::Bootupd,
            Bootloader::Systemd => InstallMethod::SystemdBoot,
        }
    }
}

/// The UUID to boot from: that of the boot file system, else that of the root file system.
pub fn boot_uuid<'a>(boot: Option<&'a str>, root: Option<&'a str>) -> (r: Option<&'a str>)
    ensures
        r == match boot {
            Some(b) => Some(b),
            None => root,
        },
{
    match boot {
        Some(b) => Some(b),
        None => root,
    }
}

/// How a file system is booted: as its first entry says; nothing where it has none.
pub fn boot_type_of_entries(kinds: &Vec<EntryKind>) -> (r: Option<BootType>)
    ensures
        r == if kinds@.len() == 0 {
            None
        } else {
            Some(
                match kinds@[0] {
                    EntryKind::Type2 => BootType::Uki,
                    _ => BootType::Bls,
                },
            )
        },
{
    if kinds.len() == 0 {
        None
    } else {
        Some(BootType::from(kinds[0]))
    }
}

/// The first of the devices below the system's root; nothing where there is none.
pub fn sysroot_parent(devices: &Vec<String>) -> (r: Option<String>)
    ensures
        text::opt_view(r) == if devices@.len() == 0 {
            None
        } else {
            Some(devices@[0]@)
        },
{
    if devices.len() == 0 {
        None
    } else {
        Some(devices[0].as_str().to_owned())
    }
}

/// A label is the system's name, followed by its version where there is one. Without a name there is
/// no label.
pub proof fn law_release_label(release: Seq<char>, title: Seq<char>, version: Seq<char>)
    ensures
        origin::os_title_of(release) is None <==> release_label(release) is None,
        origin::os_title_of(release) == Some(title) && origin::os_version_of(release) == Some(version)
            ==> release_label(release) == Some(title + " "@ + version),
        origin::os_title_of(release) == Some(title) && origin::os_version_of(release) is None
            ==> release_label(release) == Some(title),
{
}

/// An image's label is that of the release that it holds.
pub proof fn law_image_label(image: Seq<u8>)
    ensures
        image_label(image) is Some <==> uki_section(image, ".osrel"@) is Some && release_label(
            uki_section(image, ".osrel"@).unwrap(),
        ) is Some,
        uki_section(image, ".osrel"@) matches Some(t) ==> image_label(image) == release_label(t),
{
}

/// There is something to say exactly if what was asked for is not what the image does: that it is not
/// supported, or that the image is the laxer one.
pub proof fn law_insecure_note(asked: bool, found: bool)
    ensures
        insecure_note(asked, found) is Nothing <==> asked == found,
        insecure_note(asked, found) is NotSupported ==> asked,
        insecure_note(asked, found) is UkiInsecure ==> found,
{
}

/// An image belongs to a deployment exactly if the options it holds name that deployment.
pub proof fn law_names_deployment(
    image: Seq<u8>,
    id: Seq<char>,
    cmdline: Seq<char>,
    digest: Seq<char>,
    insecure: bool,
)
    ensures
        uki_section(image, ".cmdline"@) == Some(cmdline) && composefs_param(cmdline) == Some(
            Some((digest, insecure)),
        ) ==> (names_deployment(image, id) <==> digest == id),
        uki_section(image, ".cmdline"@) is None ==> !names_deployment(image, id),
        uki_section(image, ".cmdline"@) == Some(cmdline) && !(composefs_param(cmdline) matches Some(
            Some(_),
        )) ==> !names_deployment(image, id),
{
}

/// The directory of a deployment's add-ons takes the deployment's name; every other directory keeps
/// its own. What lies at the top lies in the directory of the images.
pub proof fn law_pe_dir(root: Seq<char>, above: Seq<char>, old: Seq<char>, id: Seq<char>)
    requires
        root.len() > 0 ==> root.last() != '/',
        root.len() > 0,
        id.len() > 0 ==> id[0] != '/',
    ensures
        ({
            let dir = above + "/"@ + old + ".efi.extra.d"@;
            &&& paths::parent_of(dir) is None ==> pe_dir(root, Some(dir), id) == root + "/"@ + id
                + ".efi.extra.d"@
            &&& paths::parent_of(dir) == Some(above) && above.len() > 0 && above[0] != '/'
                && above.last() != '/' ==> pe_dir(root, Some(dir), id) == root + "/"@ + above + "/"@
                + id + ".efi.extra.d"@
        }),
        !".efi.extra.d"@.is_suffix_of(above) && above.len() > 0 && above[0] != '/' ==> pe_dir(
            root,
            Some(above),
            id,
        ) == root + "/"@ + above,
        pe_dir(root, None, id) == root,
{
    reveal_strlit(".efi.extra.d");
    reveal_strlit("/");
    let dir = above + "/"@ + old + ".efi.extra.d"@;
    text::law_taken_off(above + "/"@ + old, ".efi.extra.d"@);
    assert(".efi.extra.d"@.is_suffix_of(dir));
    let name = id + ".efi.extra.d"@;
    assert(name[0] != '/');
    if paths::parent_of(dir) is None {
        assert(pe_dir(root, Some(dir), id) == root + "/"@ + name);
        assert(root + "/"@ + name =~= root + "/"@ + id + ".efi.extra.d"@);
    }
    if paths::parent_of(dir) == Some(above) && above.len() > 0 && above[0] != '/' && above.last()
        != '/' {
        let below = above + "/"@ + name;
        assert(renamed_parent(dir, id) == below);
        assert(below[0] == above[0]);
        assert(pe_dir(root, Some(dir), id) == root + "/"@ + below);
        assert(root + "/"@ + below =~= root + "/"@ + above + "/"@ + id + ".efi.extra.d"@);
    }
}

/// Images lie in a directory of their own for systemd-boot, and in the common one for Grub.
pub proof fn law_pe_root(mounted_efi: Seq<char>)
    requires
        mounted_efi.len() > 0,
        mounted_efi.last() != '/',
    ensures
        pe_root(mounted_efi, Bootloader::Grub) == mounted_efi + "/EFI/Linux"@,
        pe_root(mounted_efi, Bootloader::Systemd) == mounted_efi + "/EFI/Linux/bootc"@,
{
    reveal_strlit("/");
    reveal_strlit("EFI/Linux");
    reveal_strlit("EFI/Linux/bootc");
    reveal_strlit("/EFI/Linux");
    reveal_strlit("/EFI/Linux/bootc");
    assert(mounted_efi + "/"@ + "EFI/Linux"@ =~= mounted_efi + "/EFI/Linux"@);
    assert(mounted_efi + "/"@ + "EFI/Linux/bootc"@ =~= mounted_efi + "/EFI/Linux/bootc"@);
}

/// An add-on is wanted exactly if its name, without the ending of an add-on, is among those asked
/// for. One without that ending, or without a name, is an error.
pub proof fn law_addon(name: Seq<char>, addons: Seq<Seq<char>>)
    ensures
        addon_wanted(Some(name + ".addon.efi"@), addons) == Ok::<bool, AddonError>(
            addons.contains(name),
        ),
        addon_wanted(None, addons) == Err::<bool, AddonError>(AddonError::NoName),
        addon_wanted(Some(name), addons) is Err <==> !".addon.efi"@.is_suffix_of(name),
        addon_wanted(Some(name), addons) matches Err(e) ==> e is WrongExtension,
{
    text::law_taken_off(name, ".addon.efi"@);
}

/// A new entry goes by what its image says of itself; the deployment stands for a version that is not
/// given, and `bootc` for a system that is not. It is staged exactly if something is booted.
pub proof fn law_uki_plan(
    p: SystemdUkiPlan,
    l: UkiLabels,
    id: Seq<char>,
    booted_version: Option<Seq<char>>,
)
    requires
        is_uki_plan(p, l, id, booted_version),
    ensures
        p.title@ == l.boot_label@,
        l.version matches Some(v) ==> p.version@ == v@,
        l.version is None ==> p.version@ == id,
        l.os_id matches Some(o) ==> p.sort_key@ == "bootc-"@ + o@ + "-0"@,
        l.os_id is None ==> p.sort_key@ == "bootc-bootc-0"@,
        p.efi@ == "/EFI/Linux/bootc/"@ + id + ".efi"@,
        p.booted is Some <==> booted_version is Some,
        booted_version is Some ==> p.entries_dir@ == "loader/entries.staged"@,
        booted_version is None ==> p.entries_dir@ == "loader/entries"@,
        ".conf"@.is_suffix_of(p.file_name@),
{
    reveal_strlit("/");
    reveal_strlit("EFI/Linux/bootc");
    reveal_strlit("/EFI/Linux/bootc/");
    reveal_strlit("bootc-");
    reveal_strlit("-");
    reveal_strlit("0");
    reveal_strlit("-0");
    reveal_strlit("bootc");
    reveal_strlit("bootc-bootc-0");
    assert("/"@ + boot::SYSTEMD_UKI_DIR@ + "/"@ =~= "/EFI/Linux/bootc/"@);
    if let Some(o) = l.os_id {
        assert("bootc-"@ + o@ + "-"@ + "0"@ =~= "bootc-"@ + o@ + "-0"@);
    } else {
        assert("bootc-"@ + "bootc"@ + "-"@ + "0"@ =~= "bootc-bootc-0"@);
    }
    let os_id = bls::or_else(l.os_id, "bootc"@);
    text::law_taken_off(
        "bootc_"@ + text::replaced(os_id, '-', '_') + "-"@ + p.version@ + "-"@
            + boot::FILENAME_PRIORITY_PRIMARY@,
        ".conf"@,
    );
}

/// Of several labels the last counts; there is none exactly if none is given.
pub proof fn law_last_label(labels: Seq<Option<UkiLabels>>, i: int)
    ensures
        0 <= i < labels.len() && labels[i] is Some && (forall|j: int|
            i < j < labels.len() ==> (#[trigger] labels[j]) is None) ==> last_some(labels)
            == labels[i],
        last_some(labels) is None <==> forall|j: int|
            0 <= j < labels.len() ==> (#[trigger] labels[j]) is None,
    decreases labels.len(),
{
    if labels.len() > 0 {
        let front = labels.drop_last();
        law_last_label(front, i);
        if labels.last() is Some {
            assert(labels[labels.len() - 1] is Some);
        } else {
            assert forall|j: int| 0 <= j < front.len() implies (#[trigger] front[j]) == labels[j] by {}
            if 0 <= i < front.len() {
                assert(front[i] == labels[i]);
            }
            if last_some(front) is None {
                assert forall|j: int| 0 <= j < labels.len() implies (#[trigger] labels[j]) is None by {
                    if j < front.len() {
                        assert(front[j] is None);
                    }
                }
            }
            if forall|j: int| 0 <= j < labels.len() ==> (#[trigger] labels[j]) is None {
                assert forall|j: int| 0 <= j < front.len() implies (#[trigger] front[j]) is None by {
                    assert(labels[j] is None);
                }
            }
        }
    }
}

} // verus!
