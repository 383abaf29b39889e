use bootc::generator::{
    enable_unit, enable_units, enabled_units, fstab_editor, fstab_needs_edit, generator_steps,
    GeneratorSteps, CLEANUP_UNIT, EDIT_UNIT, FSTAB_ANACONDA_STAMP, MULTI_USER_TARGET,
    STATUS_ONBOOT_UNIT, STATUS_PATH_UNIT,
};
use bootc::text_map::TextMap;

#[test]
fn test_generator_no_fstab() {
    assert!(!fstab_needs_edit(false, None));
    assert!(!fstab_needs_edit(true, None));
}

#[test]
fn test_units() {
    let verify = |links: &TextMap<String>, n: usize| {
        assert!(links
            .entries
            .iter()
            .all(|(path, _)| path.starts_with("multi-user.target.wants/")));
        let r = links
            .get(&format!("multi-user.target.wants/{STATUS_ONBOOT_UNIT}"))
            .unwrap();
        assert_eq!(*r, format!("/usr/lib/systemd/system/{STATUS_ONBOOT_UNIT}"));
        assert_eq!(links.entries.len(), n);
    };
    let cleanup = format!("multi-user.target.wants/{CLEANUP_UNIT}");

    // Explicitly run this twice to test idempotency
    let mut links: TextMap<String> = TextMap::new();
    enable_units(&mut links, false);
    enable_units(&mut links, false);
    verify(&links, 2);
    assert!(links.get(&cleanup).is_none());

    // Now rerun the generator
    enable_units(&mut links, false);
    verify(&links, 2);

    // With the destructive stamp
    enable_units(&mut links, true);
    verify(&links, 3);

    // And now the unit should be enabled
    assert_eq!(
        links.get(&cleanup),
        Some(&format!("/usr/lib/systemd/system/{CLEANUP_UNIT}"))
    );
}

#[test]
fn units_that_are_enabled() {
    assert_eq!(enabled_units(false), vec![STATUS_ONBOOT_UNIT, STATUS_PATH_UNIT]);
    assert_eq!(
        enabled_units(true),
        vec![STATUS_ONBOOT_UNIT, STATUS_PATH_UNIT, CLEANUP_UNIT]
    );
    let link = enable_unit(STATUS_ONBOOT_UNIT, MULTI_USER_TARGET);
    assert_eq!(link.source, format!("/usr/lib/systemd/system/{STATUS_ONBOOT_UNIT}"));
    assert_eq!(link.directory, "multi-user.target.wants");
    assert_eq!(link.link, format!("multi-user.target.wants/{STATUS_ONBOOT_UNIT}"));

    // Other links stay, and one that leads elsewhere is put right.
    let mut links: TextMap<String> = TextMap::new();
    links.insert("other".to_string(), "x".to_string());
    links.insert(link.link.clone(), "elsewhere".to_string());
    enable_units(&mut links, false);
    assert_eq!(links.entries.len(), 3);
    assert_eq!(links.get("other"), Some(&"x".to_string()));
    assert_eq!(links.get(&link.link), Some(&link.source));
}

#[test]
fn test_generator_fstab() {
    // Should still be a no-op
    assert!(!fstab_needs_edit(false, Some("# Some dummy fstab")));
    assert!(!fstab_needs_edit(true, Some("# Some dummy fstab")));

    // Also a no-op, not booted via ostree
    let fstab = format!("# {FSTAB_ANACONDA_STAMP}");
    assert!(!fstab_needs_edit(false, Some(&fstab)));

    // Now it should generate
    assert!(fstab_needs_edit(true, Some(&fstab)));
    let e = fstab_editor();
    assert_eq!(e.unit, EDIT_UNIT);
    assert_eq!(e.directory, "local-fs-pre.target.wants");
    assert_eq!(e.source, "../bootc-fstab-edit.service");
    assert_eq!(e.link, "local-fs-pre.target.wants/bootc-fstab-edit.service");
    assert!(e.content.ends_with("ExecStart=bootc internals fixup-etc-fstab\n"));
}

#[test]
fn test_generator_fstab_idempotent() {
    let anaconda_fstab = "
#
# /etc/fstab
# Created by anaconda on Tue Mar 19 12:24:29 2024
#
# Accessible filesystems, by reference, are maintained under '/dev/disk/'.
# See man pages fstab(5), findfs(8), mount(8) and/or blkid(8) for more info.
#
# After editing this file, run 'systemctl daemon-reload' to update systemd
# units generated from this file.
#
# Updated by bootc-fstab-edit.service
UUID=715be2b7-c458-49f2-acec-b2fdb53d9089 /                       xfs     ro              0 0
UUID=341c4712-54e8-4839-8020-d94073b1dc8b /boot                   xfs     defaults        0 0
";
    let updated = fstab_needs_edit(true, Some(anaconda_fstab));
    assert!(!updated);
}

#[test]
fn what_the_generator_does() {
    assert_eq!(generator_steps(false, true, true, true), GeneratorSteps::Nothing);
    assert_eq!(generator_steps(true, false, true, true), GeneratorSteps::Nothing);
    assert_eq!(generator_steps(true, true, false, true), GeneratorSteps::Units);
    assert_eq!(generator_steps(true, true, true, false), GeneratorSteps::Units);
    assert_eq!(generator_steps(true, true, true, true), GeneratorSteps::UnitsAndFstab);
}
