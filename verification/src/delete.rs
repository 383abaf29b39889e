//! Deleting a deployment and its boot entries.
use crate::boot;
use crate::boot::{BootType, Bootloader};
use crate::paths;
use crate::text;
use crate::uki;
use vstd::prelude::*;

verus! {

/// A deployment, as far as its deletion depends on it.
pub struct Deployment {
    pub verity: String,
    pub pinned: bool,
    /// Whether it is the one to roll back to.
    pub is_rollback: bool,
}

/// What is to be done to delete a deployment.
pub struct DeletePlan {
    /// Which of the deployments it is.
    pub index: usize,
    pub deleting_staged: bool,
    /// The rollback that is queued must be taken back first.
    pub unqueue_rollback: bool,
    /// How the deployment is called in messages, with a space behind if it is called anything.
    pub kind: &'static str,
}

/// Why a deployment is not deleted.
#[derive(Debug, Clone, Copy, PartialEq, Eq, Structural)]
pub enum DeletePlanError {
    /// It is booted.
    Booted,
    NotFound,
}

/// The first deployment from the `i`-th on with an identifier; their number where none has it.
pub open spec fn deployment_from(d: Seq<Deployment>, id: Seq<char>, i: int) -> int
    decreases d.len() - i,
{
    if i >= d.len() {
        d.len() as int
    } else if d[i].verity@ == id {
        i
    } else {
        deployment_from(d, id, i + 1)
    }
}

/// Decides how a deployment is deleted. The one that is booted never is.
pub fn plan_delete(
    id: &str,
    booted: &str,
    deployments: &Vec<Deployment>,
    staged: Option<&str>,
    rollback_queued: bool,
) -> (r: Result<DeletePlan, DeletePlanError>)
    ensures
        ({
            let k = deployment_from(deployments@, id@, 0);
            match r {
                Ok(p) => {
                    &&& id@ != booted@
                    &&& p.index == k && k < deployments@.len()
                    &&& p.deleting_staged == (text::opt_slice_view(staged) == Some(id@))
                    &&& p.unqueue_rollback == (deployments@[k].is_rollback && rollback_queued)
                    &&& p.kind@ == if deployments@[k].pinned {
                        "pinned "@
                    } else if p.deleting_staged {
                        "staged "@
                    } else {
                        ""@
                    }
                },
                Err(DeletePlanError::Booted) => id@ == booted@,
                Err(DeletePlanError::NotFound) => id@ != booted@ && k == deployments@.len(),
            }
        }),
{
    if text::same(id, booted) {
        return Err(DeletePlanError::Booted);
    }
    let mut i: usize = 0;
    while i < deployments.len() && !text::same(deployments[i].verity.as_str(), id)
        invariant
            i <= deployments@.len(),
            deployment_from(deployments@, id@, 0) == deployment_from(deployments@, id@, i as int),
        decreases deployments@.len() - i,
    {
        i += 1;
    }
    if i == deployments.len() {
        return Err(DeletePlanError::NotFound);
    }
    let deleting_staged = match staged {
        Some(s) => text::same(s, id),
        None => false,
    };
    let found = &deployments[i];
    let kind = if found.pinned {
        "pinned "
    } else if deleting_staged {
        "staged "
    } else {
        ""
    };
    Ok(
        DeletePlan {
            index: i,
            deleting_staged,
            unqueue_rollback: found.is_rollback && rollback_queued,
            kind,
        },
    )
}

/// How the boot entries of a deployment are deleted.
#[derive(Debug, Clone, Copy, PartialEq, Eq, Structural)]
pub enum EntryDeletion {
    /// The entry file, and what it boots.
    Type1,
    /// The entry in Grub's menu, and the image that it boots.
    GrubUki,
    /// The image cannot be deleted: there is no EFI system partition.
    NoEsp,
}

/// Decides how the boot entries of a deployment are deleted. Systemd-boot has entry files for images
/// too.
pub fn entry_deletion(bootloader: Bootloader, boot_type: BootType, has_esp: bool) -> (r:
    EntryDeletion)
    ensures
        r == if bootloader == Bootloader::Grub && boot_type == BootType::Uki {
            if has_esp {
                EntryDeletion::GrubUki
            } else {
                EntryDeletion::NoEsp
            }
        } else {
            EntryDeletion::Type1
        },
{
    match bootloader {
        Bootloader::Grub => match boot_type {
            BootType::Bls => EntryDeletion::Type1,
            BootType::Uki => if has_esp {
                EntryDeletion::GrubUki
            } else {
                EntryDeletion::NoEsp
            },
        },
        Bootloader::Systemd => EntryDeletion::Type1,
    }
}

/// The directory of the entry files.
pub fn type1_entries_dir(deleting_staged: bool) -> (r: &'static str)
    ensures
        r@ == if deleting_staged {
            uki::TYPE1_ENT_PATH_STAGED@
        } else {
            uki::TYPE1_ENT_PATH@
        },
{
    if deleting_staged {
        uki::TYPE1_ENT_PATH_STAGED
    } else {
        uki::TYPE1_ENT_PATH
    }
}

/// Whether nothing but one name is in a list.
pub open spec fn only(names: Seq<Seq<char>>, name: Seq<char>) -> bool {
    forall|i: int| 0 <= i < names.len() ==> #[trigger] names[i] == name
}

/// Whether the kernel of a deployment is deleted with it: `sharing` are the deployments that have
/// the same kernel and initial ramdisk, if that is known. A kernel that another deployment uses
/// stays.
pub fn should_delete_kernel(sharing: Option<&Vec<String>>, verity: &str) -> (r: bool)
    ensures
        r == (sharing matches Some(s) && only(text::views(s@), verity@)),
{
    match sharing {
        None => false,
        Some(s) => {
            let mut i: usize = 0;
            let ghost all = text::views(s@);
            while i < s.len()
                invariant
                    i <= s@.len(),
                    sharing == Some(s),
                    all == text::views(s@),
                    forall|j: int| 0 <= j < i ==> #[trigger] all[j] == verity@,
                decreases s@.len() - i,
            {
                assert(all[i as int] == s@[i as int]@);
                if !text::same(s[i].as_str(), verity) {
                    return false;
                }
                i += 1;
            }
            true
        },
    }
}

/// A kernel is deleted only if no other deployment uses it.
pub proof fn law_kernel_in_use(sharing: Seq<Seq<char>>, verity: Seq<char>, other: Seq<char>)
    requires
        sharing.contains(other),
        other != verity,
    ensures
        !only(sharing, verity),
{
    let i = sharing.index_of(other);
    assert(sharing[i] == other);
}

/// What an entry file boots.
pub enum EntryConfig {
    /// An EFI executable.
    Efi(String),
    /// A kernel with these options, if any.
    NonEfi(Option<String>),
    Unknown,
    /// It cannot be read, or is no entry.
    Invalid,
}

/// What is to be done with an entry file.
#[derive(Debug, Clone, Copy, PartialEq, Eq, Structural)]
pub enum EntryAction {
    /// It belongs to another deployment.
    Keep,
    /// It is deleted, and the image that it boots.
    DeleteWithUki,
    /// It is deleted, and the kernel that it boots where that is asked for.
    DeleteWithKernel(bool),
}

/// Why nothing can be done with an entry file.
#[derive(Debug, Clone, Copy, PartialEq, Eq, Structural)]
pub enum EntryActionError {
    NoOptions,
    UnknownConfig,
    InvalidConfig,
}

/// Whether a file in the directory of entries is an entry.
pub fn is_entry_file(name: &str) -> (r: bool)
    ensures
        r == ".conf"@.is_suffix_of(name@),
{
    text::ends_with(name, ".conf")
}

/// Decides what is to be done with an entry file when a deployment is deleted: it is the
/// deployment's if its image or its options name it.
pub fn entry_action(cfg: &EntryConfig, verity: &str, delete_kernel: bool) -> (r: Result<
    EntryAction,
    EntryActionError,
>)
    ensures
        r == match *cfg {
            EntryConfig::Efi(efi) => Ok::<EntryAction, EntryActionError>(
                if text::occurs(efi@, verity@) {
                    EntryAction::DeleteWithUki
                } else {
                    EntryAction::Keep
                },
            ),
            EntryConfig::NonEfi(None) => Err::<EntryAction, EntryActionError>(
                EntryActionError::NoOptions,
            ),
            EntryConfig::NonEfi(Some(o)) => Ok::<EntryAction, EntryActionError>(
                if text::occurs(o@, verity@) {
                    EntryAction::DeleteWithKernel(delete_kernel)
                } else {
                    EntryAction::Keep
                },
            ),
            EntryConfig::Unknown => Err::<EntryAction, EntryActionError>(
                EntryActionError::UnknownConfig,
            ),
            EntryConfig::Invalid => Err::<EntryAction, EntryActionError>(
                EntryActionError::InvalidConfig,
            ),
        },
{
    match cfg {
        EntryConfig::Efi(efi) => if text::contains(efi.as_str(), verity) {
            Ok(EntryAction::DeleteWithUki)
        } else {
            Ok(EntryAction::Keep)
        },
        EntryConfig::NonEfi(None) => Err(EntryActionError::NoOptions),
        EntryConfig::NonEfi(Some(o)) => if text::contains(o.as_str(), verity) {
            Ok(EntryAction::DeleteWithKernel(delete_kernel))
        } else {
            Ok(EntryAction::Keep)
        },
        EntryConfig::Unknown => Err(EntryActionError::UnknownConfig),
        EntryConfig::Invalid => Err(EntryActionError::InvalidConfig),
    }
}

/// A file in the directory of entries.
pub struct EntryFile {
    pub name: String,
    pub config: EntryConfig,
}

/// Whether an entry names a deployment; nothing where it cannot be told.
pub open spec fn names_deployment(cfg: EntryConfig, verity: Seq<char>) -> Option<bool> {
    match cfg {
        EntryConfig::Efi(efi) => Some(text::occurs(efi@, verity)),
        EntryConfig::NonEfi(Some(o)) => Some(text::occurs(o@, verity)),
        _ => None,
    }
}

/// The first entry file from the `i`-th on that names a deployment, or cannot be told to name it or
/// not; their number where there is none.
pub open spec fn entry_from(files: Seq<EntryFile>, verity: Seq<char>, i: int) -> int
    decreases files.len() - i,
{
    if i >= files.len() {
        files.len() as int
    } else if ".conf"@.is_suffix_of(files[i].name@) && names_deployment(files[i].config, verity)
        != Some(false) {
        i
    } else {
        entry_from(files, verity, i + 1)
    }
}

/// Finds the entry file to delete and tells how; nothing where none names the deployment. Files that
/// are no entries are passed over, and the search ends at the first that names it: what is wrong with
/// a file behind it does not matter.
pub fn find_type1_entry(files: &Vec<EntryFile>, verity: &str, delete_kernel: bool) -> (r: Result<
    Option<(usize, EntryAction)>,
    EntryActionError,
>)
    ensures
        ({
            let k = entry_from(files@, verity@, 0);
            if k == files@.len() {
                r == Ok::<Option<(usize, EntryAction)>, EntryActionError>(None)
            } else {
                match files@[k].config {
                    EntryConfig::Efi(_) => r == Ok::<
                        Option<(usize, EntryAction)>,
                        EntryActionError,
                    >(Some((k as usize, EntryAction::DeleteWithUki))),
                    EntryConfig::NonEfi(Some(_)) => r == Ok::<
                        Option<(usize, EntryAction)>,
                        EntryActionError,
                    >(Some((k as usize, EntryAction::DeleteWithKernel(delete_kernel)))),
                    EntryConfig::NonEfi(None) => r == Err::<
                        Option<(usize, EntryAction)>,
                        EntryActionError,
                    >(EntryActionError::NoOptions),
                    EntryConfig::Unknown => r == Err::<
                        Option<(usize, EntryAction)>,
                        EntryActionError,
                    >(EntryActionError::UnknownConfig),
                    EntryConfig::Invalid => r == Err::<
                        Option<(usize, EntryAction)>,
                        EntryActionError,
                    >(EntryActionError::InvalidConfig),
                }
            }
        }),
{
    let mut i: usize = 0;
    while i < files.len()
        invariant
            i <= files@.len(),
            entry_from(files@, verity@, 0) == entry_from(files@, verity@, i as int),
        decreases files@.len() - i,
    {
        let f = &files[i];
        if is_entry_file(f.name.as_str()) {
            match entry_action(&f.config, verity, delete_kernel) {
                Ok(EntryAction::Keep) => {},
                Ok(a) => {
                    return Ok(Some((i, a)));
                },
                Err(e) => {
                    return Err(e);
                },
            }
        }
        i += 1;
    }
    Ok(None)
}

/// The files of a kernel and its initial ramdisks, and the directory that goes with them if nothing
/// else is in it.
pub struct KernelRemoval {
    pub files: Vec<String>,
    pub directory: String,
}

/// Decides what is removed of a kernel; nothing where it is in no directory.
pub fn kernel_removal(linux: &str, initrd: &Vec<String>) -> (r: Option<KernelRemoval>)
    ensures
        match r {
            Some(k) => text::views(k.files@) == seq![linux@] + text::views(initrd@)
                && paths::parent_of(linux@) == Some(k.directory@),
            None => paths::parent_of(linux@) is None,
        },
{
    match paths::parent(linux) {
        Some(dir) => {
            let mut files = text::owned(&vec![linux]);
            text::push_all(&mut files, initrd);
            Some(KernelRemoval { files, directory: dir.to_owned() })
        },
        None => None,
    }
}

/// Whether the directory of a kernel that was removed is removed too: if nothing is left in it.
pub fn remove_kernel_dir(files_left: usize) -> (r: bool)
    ensures
        r == (files_left == 0),
{
    files_left == 0
}

/// What is to be done with something in the directory of images.
#[derive(Debug, Clone, Copy, PartialEq, Eq, Structural)]
pub enum UkiFileAction {
    Keep,
    /// It is the image.
    RemoveFile,
    /// It is the directory of the image's add-ons.
    RemoveDir,
}

/// Decides what is to be done with something in the directory of images when one is deleted.
pub fn uki_file_action(name: &str, uki_id: &str) -> (r: UkiFileAction)
    ensures
        r == if name@ == uki_id@ + uki::EFI_EXT@ {
            UkiFileAction::RemoveFile
        } else if name@ == uki_id@ + uki::EFI_ADDON_DIR_EXT@ {
            UkiFileAction::RemoveDir
        } else {
            UkiFileAction::Keep
        },
{
    let image = text::concat2(uki_id, uki::EFI_EXT);
    let addons = text::concat2(uki_id, uki::EFI_ADDON_DIR_EXT);
    if text::same(name, image.as_str()) {
        UkiFileAction::RemoveFile
    } else if text::same(name, addons.as_str()) {
        UkiFileAction::RemoveDir
    } else {
        UkiFileAction::Keep
    }
}

/// An entry of Grub's menu: the image that it boots, and how it is written.
pub struct MenuEntry {
    pub chainloader: String,
    pub text: String,
}

/// Entries in a row, without those that boot an image.
pub open spec fn menu_text(entries: Seq<MenuEntry>, id: Seq<char>) -> Seq<char>
    decreases entries.len(),
{
    if entries.len() == 0 {
        Seq::empty()
    } else if text::occurs(entries.last().chainloader@, id) {
        menu_text(entries.drop_last(), id)
    } else {
        menu_text(entries.drop_last(), id) + entries.last().text@
    }
}

/// What is to be done with Grub's menu.
pub enum MenuChange {
    /// Remove the staged one.
    RemoveStaged,
    /// Write a new one, and put it in the place of the old.
    Rewrite(String),
}

/// Takes a deployment out of Grub's menu: the staged menu goes as a whole, the other loses the
/// entries that boot the deployment.
pub fn remove_menu_entry(entries: &Vec<MenuEntry>, id: &str, deleting_staged: bool) -> (r:
    MenuChange)
    ensures
        match r {
            MenuChange::RemoveStaged => deleting_staged,
            MenuChange::Rewrite(s) => !deleting_staged && s@ == "\nif [ -f ${config_directory}/"@
                + boot::EFI_UUID_FILE@ + " ]; then\n        source ${config_directory}/"@
                + boot::EFI_UUID_FILE@ + "\nfi\n"@ + menu_text(entries@, id@),
        },
{
    if deleting_staged {
        return MenuChange::RemoveStaged;
    }
    let source = boot::get_efi_uuid_source();
    let mut body = String::new();
    let mut i: usize = 0;
    while i < entries.len()
        invariant
            i <= entries@.len(),
            body@ == menu_text(entries@.take(i as int), id@),
        decreases entries@.len() - i,
    {
        let e = &entries[i];
        assert(entries@.take(i + 1).drop_last() =~= entries@.take(i as int));
        if !text::contains(e.chainloader.as_str(), id) {
            body.append(e.text.as_str());
        }
        i += 1;
    }
    assert(entries@.take(i as int) =~= entries@);
    MenuChange::Rewrite(text::concat2(source.as_str(), body.as_str()))
}

/// The entries of all other deployments stay in the menu, in their order.
pub proof fn law_menu_keeps_others(entries: Seq<MenuEntry>, id: Seq<char>)
    ensures
        menu_text(entries, id) == menu_text(
            entries.filter(|e: MenuEntry| !text::occurs(e.chainloader@, id)),
            id,
        ),
    decreases entries.len(),
{
    let p = |e: MenuEntry| !text::occurs(e.chainloader@, id);
    reveal(Seq::filter);
    if entries.len() > 0 {
        law_menu_keeps_others(entries.drop_last(), id);
        let f = entries.drop_last().filter(p);
        if p(entries.last()) {
            assert(f.push(entries.last()).drop_last() =~= f);
        }
    }
}

/// A deployment is found wherever it stands: the first with the identifier, and none exactly if no
/// deployment has it.
pub proof fn law_deployment_found(d: Seq<Deployment>, id: Seq<char>)
    ensures
        ({
            let k = deployment_from(d, id, 0);
            &&& 0 <= k <= d.len()
            &&& k < d.len() ==> d[k].verity@ == id
            &&& forall|j: int| 0 <= j < k ==> (#[trigger] d[j]).verity@ != id
        }),
{
    lemma_deployment_from(d, id, 0);
}

proof fn lemma_deployment_from(d: Seq<Deployment>, id: Seq<char>, i: int)
    requires
        0 <= i <= d.len(),
    ensures
        i <= deployment_from(d, id, i) <= d.len(),
        deployment_from(d, id, i) < d.len() ==> d[deployment_from(d, id, i)].verity@ == id,
        forall|j: int| i <= j < deployment_from(d, id, i) ==> (#[trigger] d[j]).verity@ != id,
    decreases d.len() - i,
{
    if i < d.len() && d[i].verity@ != id {
        lemma_deployment_from(d, id, i + 1);
    }
}

/// A kernel is used by no other deployment exactly if every deployment that has it is this one.
pub proof fn law_kernel_unused(sharing: Seq<Seq<char>>, verity: Seq<char>)
    ensures
        only(sharing, verity) <==> forall|other: Seq<char>|
            sharing.contains(other) ==> other == verity,
{
    if forall|other: Seq<char>| sharing.contains(other) ==> other == verity {
        assert forall|i: int| 0 <= i < sharing.len() implies #[trigger] sharing[i] == verity by {
            assert(sharing.contains(sharing[i]));
        }
    }
}

/// The entry of a deployment is found wherever it stands among the files: the search ends at the
/// first file whose name ends in `.conf` and that names the deployment in the image it boots or in
/// its options, or of which neither can be told. It ends nowhere exactly if there is no such file.
pub proof fn law_entry_found(files: Seq<EntryFile>, verity: Seq<char>)
    ensures
        ({
            let k = entry_from(files, verity, 0);
            let ends = |f: EntryFile|
                ".conf"@.is_suffix_of(f.name@) && match f.config {
                    EntryConfig::Efi(efi) => text::occurs(efi@, verity),
                    EntryConfig::NonEfi(Some(options)) => text::occurs(options@, verity),
                    EntryConfig::NonEfi(None) => true,
                    EntryConfig::Unknown => true,
                    EntryConfig::Invalid => true,
                };
            &&& 0 <= k <= files.len()
            &&& k < files.len() ==> ends(files[k])
            &&& forall|j: int| 0 <= j < k ==> !ends(#[trigger] files[j])
        }),
{
    lemma_entry_search(files, verity, 0);
}

proof fn lemma_entry_search(files: Seq<EntryFile>, verity: Seq<char>, i: int)
    requires
        0 <= i <= files.len(),
    ensures
        i <= entry_from(files, verity, i) <= files.len(),
        entry_from(files, verity, i) < files.len() ==> ".conf"@.is_suffix_of(
            files[entry_from(files, verity, i)].name@,
        ) && names_deployment(files[entry_from(files, verity, i)].config, verity) != Some(false),
        forall|j: int|
            i <= j < entry_from(files, verity, i) ==> !".conf"@.is_suffix_of(
                (#[trigger] files[j]).name@,
            ) || names_deployment(files[j].config, verity) == Some(false),
    decreases files.len() - i,
{
    if i < files.len() && !(".conf"@.is_suffix_of(files[i].name@) && names_deployment(
        files[i].config,
        verity,
    ) != Some(false)) {
        lemma_entry_search(files, verity, i + 1);
    }
}

/// An entry stays in the menu, as it is written and at its place, exactly if it boots another image.
pub proof fn law_menu_entry(a: Seq<MenuEntry>, e: MenuEntry, b: Seq<MenuEntry>, id: Seq<char>)
    ensures
        text::occurs(e.chainloader@, id) ==> menu_text(a.push(e) + b, id) == menu_text(a, id)
            + menu_text(b, id),
        !text::occurs(e.chainloader@, id) ==> menu_text(a.push(e) + b, id) == menu_text(a, id)
            + e.text@ + menu_text(b, id),
        menu_text(Seq::empty(), id).len() == 0,
    decreases b.len(),
{
    let all = a.push(e) + b;
    if b.len() > 0 {
        law_menu_entry(a, e, b.drop_last(), id);
        assert(all.drop_last() =~= a.push(e) + b.drop_last());
        assert(all.last() == b.last());
        if text::occurs(e.chainloader@, id) {
            assert(menu_text(all, id) =~= menu_text(a, id) + menu_text(b, id));
        } else {
            assert(menu_text(all, id) =~= menu_text(a, id) + e.text@ + menu_text(b, id));
        }
    } else {
        assert(all =~= a.push(e));
        assert(all.drop_last() =~= a);
        assert(all.last() == e);
        assert(menu_text(b, id) =~= Seq::<char>::empty());
        if text::occurs(e.chainloader@, id) {
            assert(menu_text(all, id) =~= menu_text(a, id) + menu_text(b, id));
        } else {
            assert(menu_text(all, id) =~= menu_text(a, id) + e.text@ + menu_text(b, id));
        }
    }
}

} // verus!
