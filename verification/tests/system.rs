use bootc::boot::Bootloader;
use bootc::bootloader::{
    bls_dir, boot_files, boot_partition_offset, bootctl_args, bootupd_args, bootupd_updates,
    get_esp_partition, parse_bls_conf, single_bls_entry, supports_bootupd, zipl_args, BlockDevice,
    BlsSearchError, MissingKey, Partition,
};
use bootc::checks::{
    base_matches, composefs_status_matches, config_without_kargs, find_param_value,
    kargs_expected, refused_unbooted, runs_inside, status_without_type, trial_launch_args,
    variant_has_efi,
};
use bootc::store::{
    boot_dir_of, physical_root, plan_storage, policy_source, repository_is_insecure,
    storage_is_composefs, BootDir, ComposefsCmdline, Environment, PolicySource, StorageKind,
};

fn texts(v: &[&str]) -> Vec<String> {
    v.iter().map(|s| s.to_string()).collect()
}

#[test]
fn efi_system_partitions() {
    let partition = |node: &str, parttype: &str| Partition {
        node: node.to_string(),
        parttype: parttype.to_string(),
        uuid: Some(format!("uuid of {node}")),
    };
    let all = vec![
        partition("/dev/sda1", "0FC63DAF-8483-4772-8E79-3D69D8477DE4"),
        partition("/dev/sda2", "C12A7328-F81F-11D2-BA4B-00A0C93EC93B"),
    ];
    assert_eq!(
        get_esp_partition(&all),
        Some(("/dev/sda2".to_string(), Some("uuid of /dev/sda2".to_string())))
    );
    assert_eq!(get_esp_partition(&vec![]), None);
}

#[test]
fn boot_loaders_by_bootupd() {
    assert_eq!(bootupd_updates(None), "/usr/lib/bootupd/updates");
    assert_eq!(bootupd_updates(Some("d")), "d/usr/lib/bootupd/updates");
    assert!(supports_bootupd(true, true));
    assert!(!supports_bootupd(true, false) && !supports_bootupd(false, true));
    assert_eq!(
        bootupd_args("/dev/sda", "/mnt", true, None, false),
        texts(&["bootupctl", "backend", "install", "--write-uuid", "--device", "/dev/sda", "/mnt"])
    );
    assert_eq!(
        bootupd_args("/dev/sda", "/mnt", false, Some("d"), true),
        texts(&[
            "bootupctl",
            "backend",
            "install",
            "--write-uuid",
            "-vvvv",
            "--update-firmware",
            "--auto",
            "--src-root",
            "/mnt/d",
            "--device",
            "/dev/sda",
            "/mnt",
        ])
    );
    assert_eq!(bootctl_args("/efi"), texts(&["bootctl", "install", "--esp-path", "/efi"]));
}

#[test]
fn boot_loaders_of_mainframes() {
    let device = |maj_min: &str, start: Option<u64>| BlockDevice {
        maj_min: Some(maj_min.to_string()),
        start,
    };
    let devices = vec![
        BlockDevice { maj_min: None, start: Some(1) },
        device("8:1", Some(2048)),
        device("8:2", None),
    ];
    assert_eq!(boot_partition_offset(&devices, "8:1"), Some(2048));
    assert_eq!(boot_partition_offset(&devices, "8:2"), Some(0));
    assert_eq!(boot_partition_offset(&devices, "8:3"), None);

    assert_eq!(single_bls_entry(&texts(&["a.txt", "ostree-1.conf"])), Ok(1));
    assert_eq!(single_bls_entry(&texts(&["a.txt"])), Err(BlsSearchError::NoConfig));
    assert_eq!(
        single_bls_entry(&texts(&["a.conf", "b.conf"])),
        Err(BlsSearchError::MoreThanOne)
    );
    assert_eq!(bls_dir("/mnt"), "/mnt/boot/loader/entries");

    let text = "title T\nlinux /ostree/k\ninitrd /ostree/i\noptions root=x rw\n";
    let c = parse_bls_conf(text).ok().unwrap();
    assert_eq!(c.kernel, "ostree/k");
    assert_eq!(c.initrd, "ostree/i");
    assert_eq!(c.options, "root=x rw");
    assert_eq!(
        boot_files("/b", &c),
        ("/b/ostree/k".to_string(), "/b/ostree/i".to_string())
    );
    assert_eq!(parse_bls_conf("initrd x\n").err(), Some(MissingKey::Linux));
    assert_eq!(parse_bls_conf("linux x\n").err(), Some(MissingKey::Initrd));
    assert_eq!(parse_bls_conf("linux x\ninitrd y\n").err(), Some(MissingKey::Options));
    let args = zipl_args("/b", "/b/k", "/b/i", "root=x", "/dev/dasda", 24);
    assert_eq!(args[0], "zipl");
    assert!(args.contains(&"24".to_string()));
    assert!(args.contains(&"/dev/dasda".to_string()));
}

#[test]
fn environments_and_their_storage() {
    let composefs = || Some(ComposefsCmdline { insecure: true, digest: "d".to_string() });
    let e = Environment::detect(true, composefs(), true);
    assert!(matches!(e, Environment::Container) && !e.needs_mount_namespace());
    let e = Environment::detect(false, composefs(), true);
    assert!(matches!(e, Environment::ComposefsBooted(_)) && e.needs_mount_namespace());
    let p = plan_storage(&e);
    assert!(p.remount);
    assert_eq!(p.kind, StorageKind::Composefs { insecure: true });
    assert_eq!(boot_dir_of(Bootloader::Grub), BootDir::SysrootBoot);
    assert_eq!(boot_dir_of(Bootloader::Systemd), BootDir::Esp);
    let e = Environment::detect(false, None, true);
    assert!(matches!(e, Environment::OstreeBooted) && e.needs_mount_namespace());
    assert_eq!(plan_storage(&e).kind, StorageKind::Ostree);
    let e = Environment::detect(false, None, false);
    assert!(matches!(e, Environment::Other));
    let p = plan_storage(&e);
    assert!(!p.remount && p.kind == StorageKind::Nothing);
    assert!(storage_is_composefs(composefs().as_ref()) && !storage_is_composefs(None));
    assert_eq!(physical_root(true), Some("sysroot"));
    assert_eq!(physical_root(false), None);
    assert_eq!(policy_source(true), PolicySource::BootedDeployment);
    assert_eq!(policy_source(false), PolicySource::ContainerRoot);
    assert!(repository_is_insecure(false) && !repository_is_insecure(true));
}

#[test]
fn outputs_of_an_unbooted_system() {
    assert_eq!(status_without_type("{\"status\": {\"staged\": null}}"), Some(true));
    assert_eq!(status_without_type("{\"status\": {\"ty\": null}}"), Some(false));
    assert_eq!(status_without_type("{}"), Some(false));
    assert_eq!(status_without_type("x"), None);
    assert!(refused_unbooted(false, "error: this command requires a booted host system"));
    assert!(!refused_unbooted(true, "this command requires a booted host system"));
    assert!(!refused_unbooted(false, "error"));
    assert_eq!(config_without_kargs("{\"filesystem\": {}}"), Some(true));
    assert_eq!(config_without_kargs("{\"kargs\": []}"), Some(false));
    assert_eq!(config_without_kargs("["), None);
    assert!(kargs_expected(&texts(&[
        "karg1=1",
        "karg2=2",
        "localtestkarg=somevalue",
        "otherlocalkarg=42",
    ])));
    assert!(!kargs_expected(&texts(&["karg1=1"])));
}

#[test]
fn outputs_of_an_image() {
    assert_eq!(variant_has_efi("ostree"), Some(false));
    assert_eq!(variant_has_efi("composefs-sealeduki-sdboot"), Some(true));
    assert_eq!(variant_has_efi("x"), None);
    assert_eq!(
        base_matches("quay.io/centos-bootc/centos-bootc:stream10", "ID=\"centos\"\n"),
        Some(true)
    );
    assert_eq!(base_matches("quay.io/fedora/fedora-bootc:42", "ID=\"centos\"\n"), Some(false));
    assert_eq!(base_matches("x", "ID=fedora"), None);
}

#[test]
fn outputs_of_a_composefs_system() {
    assert_eq!(find_param_value("rw composefs=abc x", "composefs"), Some("abc".to_string()));
    assert_eq!(find_param_value("rw", "composefs"), None);
    assert_eq!(find_param_value("rw k=\"v w\" x", "k"), Some("v w".to_string()));
    assert_eq!(find_param_value("rw \"k=v w\" x", "k"), Some("v w".to_string()));
    assert_eq!(find_param_value("k", "k"), None);
    let status = "{\"status\": {\"booted\": {\"composefs\": {\"verity\": \"abc\"}}}}";
    assert_eq!(composefs_status_matches(status, "rw composefs=abc"), Some(true));
    assert_eq!(composefs_status_matches(status, "rw composefs=abd"), Some(false));
    assert_eq!(composefs_status_matches(status, "rw"), Some(false));
    assert_eq!(composefs_status_matches("{}", "composefs=abc"), Some(false));
    assert_eq!(composefs_status_matches("{", "composefs=abc"), None);
    assert!(runs_inside("<booted>") && !runs_inside("quay.io/x"));
    assert_eq!(trial_launch_args("img")[7], "img");
}
