use bootc::boot::{
    composefs_karg, get_efi_uuid_source, primary_sort_key, secondary_sort_key,
    type1_entry_conf_file_name, BootType, EntryKind, FILENAME_PRIORITY_PRIMARY,
    FILENAME_PRIORITY_SECONDARY,
};
use bootc::bls::{
    grub_entry_paths, plan_bls_boot, setup_options, systemd_entry_paths, upgrade_options,
    BlsEntryPath, BlsError, BlsInputs, BootedConfig, OptionsError,
};
use bootc::origin::OsRelease;

#[test]
fn test_type1_filename_generation() {
    // Test basic os_id without hyphens
    let filename =
        type1_entry_conf_file_name("fedora", "41.20251125.0", FILENAME_PRIORITY_PRIMARY);
    assert_eq!(filename, "bootc_fedora-41.20251125.0-1.conf");

    // Test primary vs secondary priority
    let primary = type1_entry_conf_file_name("fedora", "41.20251125.0", FILENAME_PRIORITY_PRIMARY);
    let secondary =
        type1_entry_conf_file_name("fedora", "41.20251125.0", FILENAME_PRIORITY_SECONDARY);
    assert_eq!(primary, "bootc_fedora-41.20251125.0-1.conf");
    assert_eq!(secondary, "bootc_fedora-41.20251125.0-0.conf");

    // Test os_id with hyphens (should be replaced with underscores)
    let filename =
        type1_entry_conf_file_name("fedora-coreos", "41.20251125.0", FILENAME_PRIORITY_PRIMARY);
    assert_eq!(filename, "bootc_fedora_coreos-41.20251125.0-1.conf");

    // Test multiple hyphens in os_id
    let filename = type1_entry_conf_file_name("my-custom-os", "1.0.0", FILENAME_PRIORITY_PRIMARY);
    assert_eq!(filename, "bootc_my_custom_os-1.0.0-1.conf");

    // Test rhel example
    let filename = type1_entry_conf_file_name("rhel", "9.3.0", FILENAME_PRIORITY_SECONDARY);
    assert_eq!(filename, "bootc_rhel-9.3.0-0.conf");
}

#[test]
fn test_grub_filename_parsing() {
    // Verify our filename format works correctly with Grub's parsing logic
    // Grub parses: bootc_fedora-41.20251125.0-1.conf
    // Expected:
    //   - name: bootc_fedora
    //   - version: 41.20251125.0
    //   - release: 1

    // For fedora-coreos (with hyphens), we convert to underscores
    let filename = type1_entry_conf_file_name("fedora-coreos", "41.20251125.0", "1");
    assert_eq!(filename, "bootc_fedora_coreos-41.20251125.0-1.conf");

    // Grub parsing simulation (from right):
    // 1. Strip .conf -> bootc_fedora_coreos-41.20251125.0-1
    // 2. Last '-' splits: release="1", remainder="bootc_fedora_coreos-41.20251125.0"
    // 3. Second-to-last '-' splits: version="41.20251125.0", name="bootc_fedora_coreos"
    let without_ext = filename.strip_suffix(".conf").unwrap();
    let parts: Vec<&str> = without_ext.rsplitn(3, '-').collect();
    assert_eq!(parts.len(), 3);
    assert_eq!(parts[0], "1"); // release
    assert_eq!(parts[1], "41.20251125.0"); // version
    assert_eq!(parts[2], "bootc_fedora_coreos"); // name
}

#[test]
fn test_sort_keys() {
    // Test sort-key generation for systemd-boot
    let primary = primary_sort_key("fedora");
    let secondary = secondary_sort_key("fedora");

    assert_eq!(primary, "bootc-fedora-0");
    assert_eq!(secondary, "bootc-fedora-1");

    // Systemd-boot sorts ascending, so "bootc-fedora-0" < "bootc-fedora-1"
    assert!(primary < secondary);

    // Test with hyphenated os_id (sort-key keeps hyphens)
    let primary_coreos = primary_sort_key("fedora-coreos");
    assert_eq!(primary_coreos, "bootc-fedora-coreos-0");
}

#[test]
fn test_filename_sorting_grub_style() {
    // Simulate Grub's descending sort by (name, version, release)

    // Test 1: Same version, different release (priority)
    let primary = type1_entry_conf_file_name("fedora", "41.20251125.0", FILENAME_PRIORITY_PRIMARY);
    let secondary =
        type1_entry_conf_file_name("fedora", "41.20251125.0", FILENAME_PRIORITY_SECONDARY);

    // Descending sort: "bootc_fedora-41.20251125.0-1" > "bootc_fedora-41.20251125.0-0"
    assert!(
        primary > secondary,
        "Primary should sort before secondary in descending order"
    );

    // Test 2: Different versions
    let newer = type1_entry_conf_file_name("fedora", "42.20251125.0", FILENAME_PRIORITY_PRIMARY);
    let older = type1_entry_conf_file_name("fedora", "41.20251125.0", FILENAME_PRIORITY_PRIMARY);

    // Descending sort: version "42" > "41"
    assert!(
        newer > older,
        "Newer version should sort before older in descending order"
    );

    // Test 3: Different os_id (different name)
    let fedora = type1_entry_conf_file_name("fedora", "41.0", FILENAME_PRIORITY_PRIMARY);
    let rhel = type1_entry_conf_file_name("rhel", "9.0", FILENAME_PRIORITY_PRIMARY);

    // Names differ: bootc_rhel > bootc_fedora (descending alphabetical)
    assert!(
        rhel > fedora,
        "RHEL should sort before Fedora in descending order"
    );
}

#[test]
fn boot_types_by_name() {
    assert_eq!(BootType::try_from("bls"), Ok(BootType::Bls));
    assert_eq!(BootType::try_from("uki"), Ok(BootType::Uki));
    assert_eq!(
        BootType::try_from("efi"),
        Err("Unrecognized boot option: 'efi'".to_string())
    );
    assert_eq!(BootType::default(), BootType::Bls);
    assert_eq!(BootType::Bls.name(), "bls");
    assert_eq!(BootType::Uki.name(), "uki");
    assert_eq!(BootType::from(EntryKind::Type2), BootType::Uki);
    assert_eq!(BootType::from(EntryKind::UsrLibModulesVmLinuz), BootType::Bls);
}

#[test]
fn efi_uuid_source_text() {
    assert_eq!(
        get_efi_uuid_source(),
        "\nif [ -f ${config_directory}/efiuuid.cfg ]; then\n        source ${config_directory}/efiuuid.cfg\nfi\n"
    );
}

#[test]
fn kernel_options() {
    assert_eq!(composefs_karg("abc", false), "composefs=abc");
    assert_eq!(composefs_karg("abc", true), "composefs=?abc");
    assert_eq!(
        setup_options("root=UUID=1 rw", "abc", true),
        "root=UUID=1 rw composefs=?abc"
    );
    let booted = BootedConfig::NonEfi(Some("root=UUID=1 composefs=old quiet".to_string()));
    assert_eq!(
        upgrade_options(&booted, "new"),
        Ok("root=UUID=1 composefs=new quiet".to_string())
    );
    assert_eq!(
        upgrade_options(&BootedConfig::NonEfi(None), "new"),
        Err(OptionsError::NoOptions)
    );
    assert_eq!(
        upgrade_options(&BootedConfig::Efi, "new"),
        Err(OptionsError::NotAKernel)
    );
}

#[test]
fn entry_paths() {
    let p = grub_entry_paths("/sysroot", Some(true));
    assert_eq!(p.entries_path, "/sysroot/boot");
    assert_eq!(p.config_path, "/sysroot/boot");
    assert_eq!(p.abs_entries_path, "/");
    assert_eq!(grub_entry_paths("/mnt", None).abs_entries_path, "/boot");
    let p = systemd_entry_paths("/tmp/esp");
    assert_eq!(p.entries_path, "/tmp/esp/EFI/Linux");
    assert_eq!(p.config_path, "/tmp/esp");
    assert_eq!(p.abs_entries_path, "/EFI/Linux");
}

fn inputs(kind: EntryKind) -> BlsInputs {
    BlsInputs {
        kind,
        id: "abc".to_string(),
        paths: BlsEntryPath {
            entries_path: "/sysroot/boot".to_string(),
            abs_entries_path: "/boot".to_string(),
            config_path: "/sysroot/boot".to_string(),
        },
        release: Some(OsRelease {
            id: "fedora-coreos".to_string(),
            title: Some("Fedora CoreOS".to_string()),
            version: Some("41".to_string()),
        }),
        options: "rw composefs=abc".to_string(),
        duplicates: None,
        present: vec!["def".to_string()],
        booted_version: None,
    }
}

#[test]
fn bls_plan_of_an_installation() {
    let p = plan_bls_boot(&inputs(EntryKind::UsrLibModulesVmLinuz)).ok().unwrap();
    assert_eq!(p.entry.title, "Fedora CoreOS");
    assert_eq!(p.entry.version, "41");
    assert_eq!(p.entry.sort_key, "bootc-fedora-coreos-0");
    assert_eq!(p.entry.linux, "/boot/abc/vmlinuz");
    assert_eq!(p.entry.initrd, "/boot/abc/initrd");
    assert_eq!(p.entry.options, "rw composefs=abc");
    assert_eq!(p.write_kernel_to, Some("/sysroot/boot/abc".to_string()));
    assert_eq!(p.entries_dir, "/sysroot/boot/loader/entries");
    assert_eq!(p.file_name, "bootc_fedora_coreos-41-1.conf");
    assert!(p.booted.is_none());
}

#[test]
fn bls_plan_of_an_upgrade_with_a_shared_kernel() {
    let mut i = inputs(EntryKind::UsrLibModulesVmLinuz);
    i.duplicates = Some(vec!["xyz".to_string(), "def".to_string()]);
    i.booted_version = Some("40".to_string());
    let p = plan_bls_boot(&i).ok().unwrap();
    assert_eq!(p.entry.linux, "/boot/def/vmlinuz");
    assert_eq!(p.entry.initrd, "/boot/def/initrd");
    assert_eq!(p.write_kernel_to, None);
    assert_eq!(p.entries_dir, "/sysroot/boot/loader/entries.staged");
    let booted = p.booted.unwrap();
    assert_eq!(booted.file_name, "bootc_fedora_coreos-40-0.conf");
    assert_eq!(booted.sort_key, "bootc-fedora-coreos-1");
    assert!(p.entry.sort_key < booted.sort_key);
}

#[test]
fn bls_plan_without_a_release() {
    let mut i = inputs(EntryKind::UsrLibModulesVmLinuz);
    i.release = None;
    let p = plan_bls_boot(&i).ok().unwrap();
    assert_eq!(p.entry.title, "abc");
    assert_eq!(p.entry.version, "abc");
    assert_eq!(p.file_name, "bootc_bootc-abc-1.conf");
}

#[test]
fn bls_plan_errors() {
    assert_eq!(
        plan_bls_boot(&inputs(EntryKind::Type1)).err(),
        Some(BlsError::FoundType1)
    );
    assert_eq!(
        plan_bls_boot(&inputs(EntryKind::Type2)).err(),
        Some(BlsError::FoundUki)
    );
    let mut i = inputs(EntryKind::UsrLibModulesVmLinuz);
    i.duplicates = Some(vec!["gone".to_string()]);
    assert_eq!(plan_bls_boot(&i).err(), Some(BlsError::NoSharedEntry));
}
