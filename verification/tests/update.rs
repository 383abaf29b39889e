use bootc::boot::{BootType, Bootloader};
use bootc::digest::str_to_sha256digest;
use bootc::update::{
    added_layers, after_booted_check, after_staged_check, after_upgrade, after_validation,
    copy_etc_args, get_imgref, staged_cleanup, switch_after_check, switch_after_validation,
    switch_start, validate_update, ImageSpec, Layer, Outcome, StagedCleanup, SwitchStep, UpdateAction,
    UpgradeOpts, UpgradeStep, Which,
};

const IMAGE_NAME: &str = "quay.io/example/image:latest";

#[test]
fn test_get_imgref_registry_transport() {
    assert_eq!(
        get_imgref("registry:", IMAGE_NAME),
        format!("docker://{IMAGE_NAME}")
    );
}

#[test]
fn test_get_imgref_containers_storage() {
    assert_eq!(
        get_imgref("containers-storage", IMAGE_NAME),
        format!("containers-storage:{IMAGE_NAME}")
    );

    assert_eq!(
        get_imgref("containers-storage:", IMAGE_NAME),
        format!("containers-storage:{IMAGE_NAME}")
    );
}

#[test]
fn test_get_imgref_edge_cases() {
    assert_eq!(
        get_imgref("registry", IMAGE_NAME),
        format!("docker://{IMAGE_NAME}")
    );
}

#[test]
fn imgref_drops_one_colon() {
    assert_eq!(get_imgref("oci:", ":dir"), "oci:dir");
    assert_eq!(get_imgref("oci::", "dir"), "oci::dir");
    assert_eq!(get_imgref("oci", "::dir"), "oci::dir");
}

#[test]
fn what_an_image_calls_for() {
    let all = vec!["a".to_string(), "b".to_string()];
    assert_eq!(validate_update("a", "a", &all), UpdateAction::UpdateOrigin);
    assert_eq!(validate_update("b", "a", &all), UpdateAction::Skip);
    assert_eq!(validate_update("c", "a", &all), UpdateAction::Proceed);
}

#[test]
fn what_is_cleaned_up_before_an_upgrade() {
    assert_eq!(
        staged_cleanup(Bootloader::Grub, BootType::Uki),
        StagedCleanup::GrubUserCfg
    );
    assert_eq!(
        staged_cleanup(Bootloader::Grub, BootType::Bls),
        StagedCleanup::Type1Entries
    );
    assert_eq!(
        staged_cleanup(Bootloader::Systemd, BootType::Uki),
        StagedCleanup::Type1Entries
    );
}

#[test]
fn an_upgrade_step_by_step() {
    let plain = UpgradeOpts { apply: false, check: false };
    let apply = UpgradeOpts { apply: true, check: false };
    let check = UpgradeOpts { apply: false, check: true };

    // The latest version is staged.
    assert_eq!(
        after_booted_check(Some("d"), "d", true, plain),
        UpgradeStep::Finished(Outcome::AlreadyStaged)
    );
    assert_eq!(after_booted_check(Some("d"), "d", true, apply), UpgradeStep::Restart);
    // Another image is staged.
    assert_eq!(
        after_booted_check(Some("e"), "d", true, apply),
        UpgradeStep::CheckImage(Which::Staged)
    );
    assert_eq!(after_staged_check(true, apply), UpgradeStep::Validate(Which::Staged));
    assert_eq!(
        after_staged_check(false, apply),
        UpgradeStep::Upgrade { image: Which::Staged, restart: true }
    );
    assert_eq!(
        after_staged_check(false, check),
        UpgradeStep::ReportLayers { of: Which::Staged }
    );
    // Nothing is staged.
    assert_eq!(
        after_booted_check(None, "d", true, plain),
        UpgradeStep::Validate(Which::Booted)
    );
    assert_eq!(
        after_booted_check(None, "d", false, check),
        UpgradeStep::ReportLayers { of: Which::Booted }
    );
    assert_eq!(
        after_booted_check(None, "d", false, plain),
        UpgradeStep::Upgrade { image: Which::Booted, restart: false }
    );
    // What was validated.
    assert_eq!(
        after_validation(Which::Staged, UpdateAction::Skip),
        UpgradeStep::Finished(Outcome::NoChangesInStaged)
    );
    assert_eq!(
        after_validation(Which::Staged, UpdateAction::UpdateOrigin),
        UpgradeStep::Finished(Outcome::StagedIsBooted)
    );
    assert_eq!(
        after_validation(Which::Staged, UpdateAction::Proceed),
        UpgradeStep::Upgrade { image: Which::Staged, restart: false }
    );
    assert_eq!(
        after_validation(Which::Booted, UpdateAction::Skip),
        UpgradeStep::Finished(Outcome::NoChanges)
    );
    assert_eq!(
        after_validation(Which::Booted, UpdateAction::UpdateOrigin),
        UpgradeStep::UpdateOrigin
    );
    assert_eq!(
        after_validation(Which::Booted, UpdateAction::Proceed),
        UpgradeStep::Upgrade { image: Which::Booted, restart: false }
    );
    assert_eq!(after_upgrade(true), UpgradeStep::Restart);
    assert_eq!(after_upgrade(false), UpgradeStep::Finished(Outcome::Upgraded));
}

#[test]
fn layers_that_are_missing() {
    let layers = || {
        vec![
            Layer { digest: "sha256:a".to_string(), size: 10 },
            Layer { digest: "sha256:b".to_string(), size: 2048 },
        ]
    };
    assert_eq!(
        added_layers(&vec![true, false], &layers()),
        Ok(vec!["Added layer: sha256:b\tSize: 2048".to_string()])
    );
    assert_eq!(added_layers(&vec![true, true, true], &layers()), Ok(vec![]));
    assert_eq!(
        added_layers(&vec![false, true, false], &layers()),
        Err(vec!["Added layer: sha256:a\tSize: 10".to_string()])
    );
}

#[test]
fn a_switch_step_by_step() {
    let spec = |transport: &str, image: &str, signature: Option<&str>| ImageSpec {
        transport: transport.to_string(),
        image: image.to_string(),
        signature: signature.map(|s| s.to_string()),
    };
    let a = spec("registry", "a", None);
    assert_eq!(switch_start(Some(&a), &spec("registry", "a", None)), SwitchStep::Unchanged);
    assert_eq!(switch_start(Some(&a), &spec("registry", "b", None)), SwitchStep::CheckImage);
    assert_eq!(switch_start(Some(&a), &spec("oci", "a", None)), SwitchStep::CheckImage);
    // Another signature policy is a change too.
    assert_eq!(
        switch_start(Some(&a), &spec("registry", "a", Some("containerPolicy"))),
        SwitchStep::CheckImage
    );
    assert_eq!(switch_start(None, &a), SwitchStep::CheckImage);
    assert_eq!(switch_after_check(false), SwitchStep::Upgrade);
    assert_eq!(switch_after_check(true), SwitchStep::Validate);
    assert_eq!(switch_after_validation(UpdateAction::Skip), SwitchStep::NoChanges);
    assert_eq!(switch_after_validation(UpdateAction::Proceed), SwitchStep::Upgrade);
    assert_eq!(
        switch_after_validation(UpdateAction::UpdateOrigin),
        SwitchStep::UpdateOrigin
    );
}

#[test]
fn digests_of_images() {
    let hex = "00ff10a0".repeat(8);
    let d = str_to_sha256digest(&format!("sha256:{hex}")).unwrap();
    assert_eq!(d[0..4], [0u8, 255, 16, 160]);
    assert_eq!(str_to_sha256digest(&hex.to_uppercase()).unwrap(), d);
    assert!(str_to_sha256digest("sha256:00").is_none());
    assert!(str_to_sha256digest(&format!("sha512:{hex}")).is_none());
    assert!(str_to_sha256digest(&"zz".repeat(32)).is_none());
}

#[test]
fn copying_etc() {
    assert_eq!(
        copy_etc_args("/tmp/x", "/state"),
        vec!["cp", "-a", "/tmp/x/etc/.", "/state/etc/."]
    );
}
