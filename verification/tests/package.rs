use bootc::package::{
    append_config_args, archive_args, commit_version, compress_args, edit_vendor_config,
    edit_vendor_value, find_srpm, git_timestamp, gitrev, gitrev_to_version, package_paths,
    rpmbuild_args, schema_args, schemas, source_date_epoch, srpm_move, srpm_spec, update_spec,
    vendor_args, written_config, TimestampError, VendorConfigError,
};

#[test]
fn versions_of_tags() {
    assert_eq!(gitrev_to_version("v0.1.9"), "0.1.9");
    assert_eq!(gitrev_to_version(" v2024-11-rc1\n"), "2024.11.rc1");
    assert!(!gitrev_to_version("v1-2-3").contains('-'));
}

#[test]
fn versions_of_commits() {
    assert_eq!(commit_version("0123456789abcdef", "202505152000"), "202505152000.g0123456789");
    assert_eq!(commit_version("0123", "202505152000"), "202505152000.g0123");
    assert_eq!(git_timestamp("1747339200\n"), Ok("202505152000".to_string()));
    assert_eq!(git_timestamp("x"), Err(TimestampError::NotANumber));
    assert_eq!(git_timestamp("9223372036854775807"), Err(TimestampError::OutOfRange));
    assert_eq!(gitrev(Some("v1.2"), "0123", "x"), Ok("1.2".to_string()));
    assert_eq!(
        gitrev(None, "0123456789abcdef", "1747339200"),
        Ok("202505152000.g0123456789".to_string())
    );
    assert_eq!(source_date_epoch(" 1747339200\n"), Some(1747339200));
    assert_eq!(source_date_epoch("-1"), None);
}

#[test]
fn files_of_a_package() {
    let p = package_paths("1.2");
    assert_eq!(p.prefix, "bootc-1.2/");
    assert_eq!(p.tar, "target/bootc-1.2.tar");
    assert_eq!(p.source, "target/bootc-1.2.tar.zstd");
    assert_eq!(p.vendor, "target/bootc-1.2-vendor.tar.zstd");
    assert_eq!(
        archive_args(&p),
        vec![
            "git",
            "archive",
            "--format=tar",
            "--prefix=bootc-1.2/",
            "-o",
            "target/bootc-1.2.tar",
            "HEAD",
        ]
    );
    assert_eq!(vendor_args(&p)[4], "target/bootc-1.2-vendor.tar.zstd");
    let a = append_config_args(&p, "/tmp/x", 17);
    assert_eq!(a[3], "/tmp/x");
    assert_eq!(a[9], "--mtime=@17");
    assert_eq!(a[10], "--transform=s,^,bootc-1.2/.cargo/,");
    assert_eq!(compress_args(&p)[3], "target/bootc-1.2.tar");
}

#[test]
fn spec_files() {
    let spec = "Name: bootc\nVersion: 0\nSource0: x\nSource1: y\nEnd";
    assert_eq!(
        update_spec(spec, "1.2", &package_paths("1.2")).unwrap(),
        "Name: bootc\n# Replaced by cargo xtask spec\nVersion: 1.2\nSource0: bootc-1.2.tar.zstd\nSource1: bootc-1.2-vendor.tar.zstd\nEnd\n"
    );
    assert_eq!(
        srpm_spec(spec, "1.2"),
        "Name: bootc\n# Replaced by cargo xtask package-srpm\nVersion: 1.2\nSource0: x\nSource1: y\nEnd\n"
    );
}

#[test]
fn vendor_configurations() {
    let config = "[source.crates-io]\nreplace-with = \"vendored-sources\"\n\n[source.vendored-sources]\ndirectory = \"target/x/vendor\"\n";
    let edited = edit_vendor_config(config).unwrap();
    assert_eq!(edited, config.replace("target/x/vendor", "vendor"));
    assert_eq!(
        edit_vendor_config("[source]\n"),
        Err(VendorConfigError::NoVendoredSources)
    );
    assert_eq!(edit_vendor_config("[source"), Err(VendorConfigError::Invalid));
}

#[test]
fn vendor_configurations_that_cannot_be_written() {
    let config = "[source.vendored-sources]\ndirectory = \"x\"\n";
    let mut value: toml::Value = toml::from_str(config).unwrap();
    assert_eq!(
        edit_vendor_value(value.clone()),
        Ok("[source.vendored-sources]\ndirectory = \"vendor\"\n".to_string())
    );
    let no_date = toml::value::Datetime {
        date: None,
        time: None,
        offset: None,
    };
    value
        .as_table_mut()
        .unwrap()
        .insert("when".to_string(), toml::Value::Datetime(no_date));
    assert_eq!(edit_vendor_value(value), Err(VendorConfigError::Unwritable));
    assert_eq!(
        edit_vendor_value(toml::Value::Boolean(true)),
        Err(VendorConfigError::NoVendoredSources)
    );
    assert_eq!(written_config(Some("t".to_string())), Ok("t".to_string()));
    assert_eq!(written_config(None), Err(VendorConfigError::Unwritable));
}

#[test]
fn source_packages() {
    let names: Vec<String> = ["bootc.spec", "bootc-1.src.rpm", "bootc-2.src.rpm"]
        .iter()
        .map(|s| s.to_string())
        .collect();
    assert_eq!(find_srpm(&names), Some(1));
    assert_eq!(find_srpm(&vec![]), None);
    assert_eq!(
        srpm_move("/tmp/d", "a.src.rpm"),
        ("/tmp/d/a.src.rpm".to_string(), "target/a.src.rpm".to_string())
    );
    assert_eq!(rpmbuild_args("/d")[12], "_buildrootdir /d/.build");
    assert_eq!(schemas()[1].1, "docs/src/progress-v0.schema.json");
    assert_eq!(schema_args("host")[6], "--of=host");
}
