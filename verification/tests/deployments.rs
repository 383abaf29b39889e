use bootc::boot::{BootType, Bootloader, EntryKind};
use bootc::delete::{
    entry_action, entry_deletion, find_type1_entry, is_entry_file, kernel_removal, plan_delete,
    remove_kernel_dir, remove_menu_entry, should_delete_kernel, type1_entries_dir,
    uki_file_action, DeletePlanError, Deployment, EntryAction, EntryActionError, EntryConfig,
    EntryDeletion, EntryFile, MenuChange, MenuEntry, UkiFileAction,
};
use bootc::digest::{compute_boot_digest, digest_text, sha256_hex, DigestError};
use bootc::gc::{
    delete_object, entry_source, image_path, object_dir, orphaned_images, orphaned_states,
    plan_gc, staged_file, state_dirs, EntrySource, Removal, StateEntry,
};
use bootc::origin::{
    boot_digest_in, find_vmlinuz_initrd_duplicates, parse_os_release, uki_release, Origin,
};
use bootc::uki::{
    blkid_args, boot_type_of_entries, boot_uuid, check_digest, container_root_has_uki,
    efi_uuid_line, grub_user_cfg, inspect_uki, install_entry, install_method, last_label,
    loader_conf, pe_directory, pe_name, plan_systemd_uki, sysroot_parent, user_cfg_name,
    AddonError, InsecureNote, InstallMethod, PeType, UkiError, UkiLabels,
};

fn texts(v: &[&str]) -> Vec<String> {
    v.iter().map(|s| s.to_string()).collect()
}

#[test]
fn test_root_has_uki() {
    // Test case 1: No boot directory
    assert_eq!(container_root_has_uki(None), false);

    // Test case 2: boot directory exists but no EFI/Linux
    assert_eq!(container_root_has_uki(None), false);

    // Test case 3: boot/EFI/Linux exists but no .efi files
    assert_eq!(container_root_has_uki(Some(&vec![])), false);

    // Test case 4: boot/EFI/Linux exists with non-.efi file
    assert_eq!(container_root_has_uki(Some(&texts(&["readme.txt"]))), false);

    // Test case 5: boot/EFI/Linux exists with .efi file
    assert_eq!(
        container_root_has_uki(Some(&texts(&["readme.txt", "bootx64.efi"]))),
        true
    );
}

#[test]
fn digests_of_kernels() {
    assert_eq!(
        compute_boot_digest(b"ab", Some(b"c")),
        Ok("ba7816bf8f01cfea414140de5dae2223b00361a396177a9cb410ff61f20015ad".to_string())
    );
    assert_eq!(compute_boot_digest(b"ab", None), Err(DigestError::NoInitramfs));
    assert_eq!(
        sha256_hex(&vec![]).unwrap(),
        "e3b0c44298fc1c149afbf4c8996fb92427ae41e4649b934ca495991b7852b855"
    );
    assert_eq!(digest_text(Some(&[0, 0xab, 0xff])), Some("00abff".to_string()));
    assert_eq!(digest_text(None), None);
}

#[test]
fn digests_in_origin_files() {
    assert_eq!(
        boot_digest_in("[origin]\ndigest=x\n[boot]\nboot_type=bls\ndigest=abc\n"),
        Ok(Some("abc".to_string()))
    );
    assert_eq!(boot_digest_in("[origin]\ndigest=x\n"), Ok(None));
    assert_eq!(boot_digest_in("[boot\n"), Err(()));
}

#[test]
fn deployments_that_share_a_kernel() {
    let origin = |deployment: &str, digest: &str| Origin {
        deployment: deployment.to_string(),
        text: format!("[boot]\ndigest={digest}\n"),
    };
    let all = vec![origin("one", "a"), origin("two", "b"), origin("three", "a")];
    assert_eq!(
        find_vmlinuz_initrd_duplicates(&all, "a"),
        Ok(Some(texts(&["one", "three"])))
    );
    assert_eq!(find_vmlinuz_initrd_duplicates(&all, "c"), Ok(None));
    let bad = vec![
        origin("one", "a"),
        Origin { deployment: "two".to_string(), text: "[boot\n".to_string() },
    ];
    assert_eq!(find_vmlinuz_initrd_duplicates(&bad, "a"), Err(1));
}

#[test]
fn releases_of_systems() {
    let text = b"NAME=Fedora\nID=fedora\nVERSION=\"41 (Forty One)\"\nVERSION_ID=41\n";
    let r = parse_os_release(Some(text)).unwrap();
    assert_eq!(r.id, "fedora");
    assert_eq!(r.title, Some("Fedora".to_string()));
    assert_eq!(r.version, Some("41".to_string()));
    let r = parse_os_release(Some(b"PRETTY_NAME=\"A B\"\nVERSION=2\n")).unwrap();
    assert_eq!(r.id, "bootc");
    assert_eq!(r.title, Some("A B".to_string()));
    assert_eq!(r.version, Some("2".to_string()));
    assert!(parse_os_release(None).is_none());
    assert!(parse_os_release(Some(&[0xff])).is_none());
    assert_eq!(
        uki_release("ID=fedora\nVERSION_ID=41\n"),
        (Some("41".to_string()), Some("fedora".to_string()))
    );
    assert_eq!(uki_release("A=b\n"), (None, None));
}

/// A portable executable with these sections.
fn image(sections: &[(&str, &str)]) -> Vec<u8> {
    let mut out = vec![0u8; 64];
    out[0x3c] = 64;
    out.extend_from_slice(b"PE\0\0");
    let mut coff = [0u8; 20];
    coff[2] = sections.len() as u8;
    out.extend_from_slice(&coff);
    let mut offset = out.len() + 40 * sections.len();
    for (name, content) in sections {
        let mut header = [0u8; 40];
        header[..name.len()].copy_from_slice(name.as_bytes());
        let size = (content.len() as u32).to_le_bytes();
        header[8..12].copy_from_slice(&size);
        header[16..20].copy_from_slice(&size);
        header[20..24].copy_from_slice(&(offset as u32).to_le_bytes());
        offset += content.len();
        out.extend_from_slice(&header);
    }
    for (_, content) in sections {
        out.extend_from_slice(content.as_bytes());
    }
    out
}

#[test]
fn images_that_are_inspected() {
    let id = "0123456789abcdef".repeat(8);
    let options = format!("rw composefs=?{id}");
    let release = "ID=fedora\nPRETTY_NAME=Fedora\nVERSION_ID=41\n";
    let full = image(&[(".cmdline", &options), (".osrel", release)]);
    let (labels, note) = inspect_uki(&full, &id, true).ok().unwrap();
    assert_eq!(labels.boot_label, "Fedora 41");
    assert_eq!(labels.version, Some("41".to_string()));
    assert_eq!(labels.os_id, Some("fedora".to_string()));
    assert_eq!(note, InsecureNote::Nothing);
    let (_, note) = inspect_uki(&full, &id, false).ok().unwrap();
    assert_eq!(note, InsecureNote::UkiInsecure);

    let other = "f".repeat(128);
    match inspect_uki(&full, &other, false) {
        Err(UkiError::WrongDigest(d)) => assert_eq!(d, id),
        _ => panic!("another deployment was accepted"),
    }
    assert!(matches!(
        inspect_uki(&image(&[(".osrel", release)]), &id, false),
        Err(UkiError::NoCmdline)
    ));
    assert!(matches!(
        inspect_uki(&image(&[(".cmdline", "rw")]), &id, false),
        Err(UkiError::NoDigest)
    ));
    assert!(matches!(
        inspect_uki(&image(&[(".cmdline", "composefs=xyz")]), &id, false),
        Err(UkiError::NoDigest)
    ));
    assert!(matches!(
        inspect_uki(&image(&[(".cmdline", &options)]), &id, false),
        Err(UkiError::NoRelease)
    ));
    assert!(matches!(
        inspect_uki(&image(&[(".cmdline", &options), (".osrel", "A=b\n")]), &id, false),
        Err(UkiError::NoLabel)
    ));
    assert!(inspect_uki(b"no image", &id, false).is_err());
}

#[test]
fn digests_that_are_checked() {
    assert_eq!(check_digest("a", false, "b", false), None);
    assert_eq!(check_digest("a", false, "a", false), Some(InsecureNote::Nothing));
    assert_eq!(check_digest("a", false, "a", true), Some(InsecureNote::NotSupported));
    assert_eq!(check_digest("a", true, "a", false), Some(InsecureNote::UkiInsecure));
}

#[test]
fn where_executables_go() {
    assert_eq!(
        pe_directory("/efi", Bootloader::Grub, "a.efi", "id"),
        "/efi/EFI/Linux/"
    );
    assert_eq!(
        pe_directory("/efi", Bootloader::Systemd, "sub/a.efi.extra.d/x.addon.efi", "id"),
        "/efi/EFI/Linux/bootc/sub/id.efi.extra.d"
    );
    assert_eq!(
        pe_directory("/efi", Bootloader::Grub, "sub/a.efi", "id"),
        "/efi/EFI/Linux/sub"
    );
    assert_eq!(pe_name(PeType::Uki, "sub/a.efi", "id"), Some("id.efi".to_string()));
    assert_eq!(
        pe_name(PeType::UkiAddon, "sub/x.addon.efi", "id"),
        Some("x.addon.efi".to_string())
    );
    assert_eq!(pe_name(PeType::UkiAddon, "", "id"), None);
}

#[test]
fn entries_that_are_installed() {
    let addons = texts(&["debug"]);
    let addon = |path: &str| install_entry(EntryKind::Type2, PeType::UkiAddon, path, Some(&addons));
    assert_eq!(addon("d/debug.addon.efi"), Ok(true));
    assert_eq!(addon("d/other.addon.efi"), Ok(false));
    assert_eq!(addon("d/debug.efi"), Err(AddonError::WrongExtension));
    assert_eq!(addon(""), Err(AddonError::NoName));
    assert_eq!(
        install_entry(EntryKind::Type2, PeType::UkiAddon, "d/debug.addon.efi", None),
        Ok(false)
    );
    assert_eq!(install_entry(EntryKind::Type2, PeType::Uki, "a.efi", None), Ok(true));
    assert_eq!(install_entry(EntryKind::Type1, PeType::Uki, "a.efi", None), Ok(false));
}

#[test]
fn menus_of_grub() {
    let source = "\nif [ -f ${config_directory}/efiuuid.cfg ]; then\n        source ${config_directory}/efiuuid.cfg\nfi\n";
    assert_eq!(grub_user_cfg("NEW", None), format!("{source}NEW"));
    assert_eq!(
        grub_user_cfg("NEW", Some(&texts(&["A", "B"]))),
        format!("{source}NEWA")
    );
    assert_eq!(user_cfg_name(true), "user.cfg.staged");
    assert_eq!(user_cfg_name(false), "user.cfg");
    assert_eq!(efi_uuid_line(" 1A-2B\n"), "set EFI_PART_UUID=\"1A-2B\"");
    assert_eq!(
        blkid_args("/dev/sda1"),
        vec!["blkid", "-s", "UUID", "-o", "value", "/dev/sda1"]
    );

    let entry = |chainloader: &str| MenuEntry {
        chainloader: chainloader.to_string(),
        text: format!("[{chainloader}]"),
    };
    let entries = vec![entry("/EFI/Linux/a.efi"), entry("/EFI/Linux/b.efi")];
    match remove_menu_entry(&entries, "a", false) {
        MenuChange::Rewrite(s) => assert_eq!(s, format!("{source}[/EFI/Linux/b.efi]")),
        MenuChange::RemoveStaged => panic!("the menu is not staged"),
    }
    assert!(matches!(
        remove_menu_entry(&entries, "a", true),
        MenuChange::RemoveStaged
    ));
}

#[test]
fn entries_of_systemd_boot() {
    let labels = || UkiLabels {
        boot_label: "Fedora 41".to_string(),
        version: Some("41".to_string()),
        os_id: Some("fedora-x".to_string()),
    };
    let p = plan_systemd_uki(labels(), "id", None);
    assert_eq!(p.title, "Fedora 41");
    assert_eq!(p.version, "41");
    assert_eq!(p.sort_key, "bootc-fedora-x-0");
    assert_eq!(p.efi, "/EFI/Linux/bootc/id.efi");
    assert_eq!(p.file_name, "bootc_fedora_x-41-1.conf");
    assert_eq!(p.entries_dir, "loader/entries");
    assert!(p.booted.is_none());
    let p = plan_systemd_uki(
        UkiLabels { boot_label: "L".to_string(), version: None, os_id: None },
        "id",
        Some("40"),
    );
    assert_eq!(p.version, "id");
    assert_eq!(p.entries_dir, "loader/entries.staged");
    let booted = p.booted.unwrap();
    assert_eq!(booted.file_name, "bootc_bootc-40-0.conf");
    assert_eq!(booted.sort_key, "bootc-bootc-1");
    assert_eq!(loader_conf(true), None);
    assert_eq!(loader_conf(false), Some("timeout 5"));
    assert!(last_label(vec![]).is_none());
    assert_eq!(
        last_label(vec![Some(labels()), None]).unwrap().boot_label,
        "Fedora 41"
    );
}

#[test]
fn choices_of_an_installation() {
    assert_eq!(install_method(true, Bootloader::Grub), InstallMethod::Zipl);
    assert_eq!(install_method(false, Bootloader::Grub), InstallMethod::Bootupd);
    assert_eq!(install_method(false, Bootloader::Systemd), InstallMethod::SystemdBoot);
    assert_eq!(boot_uuid(Some("a"), Some("b")), Some("a"));
    assert_eq!(boot_uuid(None, Some("b")), Some("b"));
    assert_eq!(boot_uuid(None, None), None);
    assert_eq!(boot_type_of_entries(&vec![]), None);
    assert_eq!(
        boot_type_of_entries(&vec![EntryKind::Type2, EntryKind::Type1]),
        Some(BootType::Uki)
    );
    assert_eq!(sysroot_parent(&texts(&["/dev/sda", "/dev/sdb"])), Some("/dev/sda".to_string()));
    assert_eq!(sysroot_parent(&vec![]), None);
}

#[test]
fn orphans_that_are_found() {
    let images = texts(&["a", "b", "c"]);
    assert_eq!(
        orphaned_images(&images, &texts(&["c", "a"]), "a"),
        Ok(texts(&["b"]))
    );
    assert_eq!(
        orphaned_images(&images, &texts(&["c"]), "a"),
        Err("Inconsistent state. Booted entry 'a' found for cleanup".to_string())
    );
    assert_eq!(orphaned_states(&texts(&["a", "d"]), &images), texts(&["d"]));
    let images = texts(&["x", "b", "y"]);
    let entries = texts(&["b"]);
    let states = texts(&["x", "z", "b", "y"]);
    let r = plan_gc(&images, &entries, &states, "b", true).unwrap();
    assert_eq!(r.len(), 6);
    assert!(matches!(&r[0], Removal::Staged(p) if p == "/run/composefs/staged-deployment"));
    assert!(matches!(&r[1], Removal::Image(p) if p == "composefs/images/x"));
    assert!(matches!(&r[2], Removal::State(p) if p == "state/deploy/x"));
    assert!(matches!(&r[3], Removal::Image(p) if p == "composefs/images/y"));
    assert!(matches!(&r[4], Removal::State(p) if p == "state/deploy/y"));
    assert!(matches!(&r[5], Removal::State(p) if p == "state/deploy/z"));
    assert_eq!(plan_gc(&images, &entries, &states, "b", false).unwrap().len(), 5);
    assert!(plan_gc(&entries, &entries, &entries, "b", true).unwrap().is_empty());
    match plan_gc(&images, &entries, &states, "y", true) {
        Ok(_) => panic!("the booted image is an orphan"),
        Err(m) => assert_eq!(m, "Inconsistent state. Booted entry 'y' found for cleanup"),
    }
    assert_eq!(image_path("x"), "composefs/images/x");
    assert_eq!(staged_file(false), None);
    let listing = vec![
        StateEntry { name: "a".to_string(), is_file: false },
        StateEntry { name: "b".to_string(), is_file: true },
    ];
    assert_eq!(state_dirs(&listing), texts(&["a"]));
    assert_eq!(entry_source(Bootloader::Grub, true), EntrySource::GrubMenu);
    assert_eq!(entry_source(Bootloader::Grub, false), EntrySource::Type1);
    assert_eq!(entry_source(Bootloader::Systemd, true), EntrySource::Type1);
}

#[test]
fn objects_that_are_deleted() {
    assert_eq!(object_dir(0), "00");
    assert_eq!(object_dir(0x1f), "1f");
    assert_eq!(object_dir(255), "ff");
    let name = "AB".repeat(63);
    let id = format!("1f{}", "ab".repeat(63));
    assert_eq!(delete_object(0x1f, &name, &vec![id.clone()]), Some(false));
    assert_eq!(delete_object(0x20, &name, &vec![id]), Some(true));
    assert_eq!(delete_object(0x1f, "ab", &vec![]), None);
    assert_eq!(delete_object(0x1f, &"zz".repeat(63), &vec![]), None);
}

#[test]
fn deletions_that_are_planned() {
    let deployment = |verity: &str, pinned: bool, is_rollback: bool| Deployment {
        verity: verity.to_string(),
        pinned,
        is_rollback,
    };
    let all = vec![
        deployment("a", false, false),
        deployment("b", true, false),
        deployment("c", false, true),
    ];
    assert_eq!(
        plan_delete("a", "a", &all, None, false).err(),
        Some(DeletePlanError::Booted)
    );
    assert_eq!(
        plan_delete("x", "a", &all, None, false).err(),
        Some(DeletePlanError::NotFound)
    );
    let p = plan_delete("b", "a", &all, Some("b"), true).ok().unwrap();
    assert_eq!((p.index, p.deleting_staged, p.unqueue_rollback), (1, true, false));
    assert_eq!(p.kind, "pinned ");
    let p = plan_delete("c", "a", &all, Some("b"), true).ok().unwrap();
    assert_eq!((p.index, p.deleting_staged, p.unqueue_rollback), (2, false, true));
    assert_eq!(p.kind, "");
    let p = plan_delete("c", "a", &all, Some("c"), false).ok().unwrap();
    assert_eq!((p.deleting_staged, p.unqueue_rollback, p.kind), (true, false, "staged "));
}

#[test]
fn boot_entries_that_are_deleted() {
    assert_eq!(
        entry_deletion(Bootloader::Grub, BootType::Uki, true),
        EntryDeletion::GrubUki
    );
    assert_eq!(
        entry_deletion(Bootloader::Grub, BootType::Uki, false),
        EntryDeletion::NoEsp
    );
    assert_eq!(
        entry_deletion(Bootloader::Grub, BootType::Bls, false),
        EntryDeletion::Type1
    );
    assert_eq!(
        entry_deletion(Bootloader::Systemd, BootType::Uki, false),
        EntryDeletion::Type1
    );
    assert_eq!(type1_entries_dir(true), "loader/entries.staged");
    assert_eq!(type1_entries_dir(false), "loader/entries");
    assert!(is_entry_file("a.conf") && !is_entry_file("a.conf.bak"));
    assert_eq!(
        entry_action(&EntryConfig::NonEfi(None), "v", true),
        Err(EntryActionError::NoOptions)
    );
    assert_eq!(
        entry_action(&EntryConfig::Unknown, "v", true),
        Err(EntryActionError::UnknownConfig)
    );
    let file = |name: &str, config: EntryConfig| EntryFile { name: name.to_string(), config };
    let files = vec![
        file("x.txt", EntryConfig::Unknown),
        file("a.conf", EntryConfig::NonEfi(Some("composefs=a".to_string()))),
        file("b.conf", EntryConfig::Efi("/EFI/Linux/bootc/b.efi".to_string())),
        file("broken.conf", EntryConfig::Invalid),
    ];
    assert_eq!(
        find_type1_entry(&files, "=a", true),
        Ok(Some((1, EntryAction::DeleteWithKernel(true))))
    );
    assert_eq!(
        find_type1_entry(&files, "b.efi", true),
        Ok(Some((2, EntryAction::DeleteWithUki)))
    );
    // What is behind the entry does not matter; what stands before it does.
    assert_eq!(
        find_type1_entry(&files, "zzz", true),
        Err(EntryActionError::InvalidConfig)
    );
    let files = vec![file("a.conf", EntryConfig::Efi("a.efi".to_string()))];
    assert_eq!(find_type1_entry(&files, "zzz", true), Ok(None));
}

#[test]
fn kernels_that_are_deleted() {
    assert!(!should_delete_kernel(None, "a"));
    assert!(should_delete_kernel(Some(&texts(&["a"])), "a"));
    assert!(!should_delete_kernel(Some(&texts(&["a", "b"])), "a"));
    let k = kernel_removal("/boot/a/vmlinuz", &texts(&["/boot/a/initrd"])).unwrap();
    assert_eq!(k.files, texts(&["/boot/a/vmlinuz", "/boot/a/initrd"]));
    assert_eq!(k.directory, "/boot/a");
    assert!(kernel_removal("/", &vec![]).is_none());
    assert!(remove_kernel_dir(0) && !remove_kernel_dir(1));
    assert_eq!(uki_file_action("a.efi", "a"), UkiFileAction::RemoveFile);
    assert_eq!(uki_file_action("a.efi.extra.d", "a"), UkiFileAction::RemoveDir);
    assert_eq!(uki_file_action("b.efi", "a"), UkiFileAction::Keep);
}
