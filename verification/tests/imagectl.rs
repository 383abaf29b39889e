use bootc::imagectl::{
    build_lockfile, build_manifest_override, find_manifest, fixed_mode, lint_args, list_manifests,
    manifest_candidates, manifest_description, manifest_line, ostree_commit_args,
    ostree_init_args, print_manifest_args, rechunk, reinject_manifests, reinject_tool,
    rootfs_args, BuildRootfsOpts, Lockfile, ManifestFile, ManifestOverride, RechunkOpts,
};

#[test]
fn test_add_package_nevra() {
    let mut lockfile = Lockfile::new();

    // Test NEVRA format (with architecture)
    lockfile
        .add_package("bash-0:5.1.8-6.el9.x86_64", "x86_64")
        .unwrap();

    let bash_lock = lockfile.packages.get("bash").unwrap();
    assert_eq!(bash_lock.evra, Some("0:5.1.8-6.el9.x86_64".to_string()));
    assert_eq!(bash_lock.evr, None);
}

#[test]
fn test_add_package_nevr() {
    let mut lockfile = Lockfile::new();

    // Test NEVR format (without architecture)
    lockfile.add_package("bash-0:5.1.8-6.el9", "x86_64").unwrap();

    let bash_lock = lockfile.packages.get("bash").unwrap();
    assert_eq!(bash_lock.evr, Some("0:5.1.8-6.el9".to_string()));
    assert_eq!(bash_lock.evra, None);
}

#[test]
fn test_add_package_noarch() {
    let mut lockfile = Lockfile::new();

    // Test noarch package
    lockfile
        .add_package("python3-pip-21.2.3-6.el9.noarch", "x86_64")
        .unwrap();

    let pip_lock = lockfile.packages.get("python3-pip").unwrap();
    assert_eq!(pip_lock.evra, Some("21.2.3-6.el9.noarch".to_string()));
    assert_eq!(pip_lock.evr, None);
}

#[test]
fn test_invalid_format() {
    let mut lockfile = Lockfile::new();

    // Test invalid format
    let result = lockfile.add_package("invalid", "x86_64");
    assert!(result.is_err());
    assert_eq!(
        result.unwrap_err(),
        "Invalid NEVRA/NEVR format: invalid".to_string()
    );
}

#[test]
fn another_architecture_is_part_of_the_release() {
    let mut lockfile = Lockfile::default();
    lockfile.add_package("bash-5-6.x86_64", "aarch64").unwrap();
    lockfile.add_package("bash-5-7.aarch64", "aarch64").unwrap();
    let lock = lockfile.packages.get("bash").unwrap();
    assert_eq!(lock.evra, Some("5-7.aarch64".to_string()));
    assert_eq!(lockfile.packages.entries.len(), 1);
    assert!(lockfile.packages.get("dash").is_none());
}

#[test]
fn lock_files() {
    assert!(build_lockfile(&vec![], "x86_64").unwrap().is_none());
    let l = build_lockfile(&vec!["a-1-2".to_string(), "b-c-1-2".to_string()], "x86_64")
        .unwrap()
        .unwrap();
    assert_eq!(l.packages.get("b-c").unwrap().evr, Some("1-2".to_string()));
    let r = build_lockfile(&vec!["a-1-2".to_string(), "b".to_string()], "x86_64");
    assert_eq!(r.err(), Some("Invalid NEVRA/NEVR format: b".to_string()));
}

#[test]
fn test_validation_same_images() {
    let opts = RechunkOpts {
        max_layers: None,
        from_image: "test".to_string(),
        to_image: "test".to_string(),
    };

    let result = rechunk(&opts);
    assert!(result.is_err());
    assert!(result
        .unwrap_err()
        .message()
        .contains("Source and destination images must be different"));
}

#[test]
fn test_validation_empty_source() {
    let opts = RechunkOpts {
        max_layers: None,
        from_image: "".to_string(),
        to_image: "dest".to_string(),
    };

    let result = rechunk(&opts);
    assert!(result.is_err());
    assert!(result
        .unwrap_err()
        .message()
        .contains("Source image cannot be empty"));
}

#[test]
fn test_validation_empty_dest() {
    let opts = RechunkOpts {
        max_layers: None,
        from_image: "source".to_string(),
        to_image: "".to_string(),
    };

    let result = rechunk(&opts);
    assert!(result.is_err());
    assert!(result
        .unwrap_err()
        .message()
        .contains("Destination image cannot be empty"));
}

#[test]
fn rechunk_command_line() {
    let opts = RechunkOpts {
        max_layers: Some(67),
        from_image: "a".to_string(),
        to_image: "b".to_string(),
    };
    assert_eq!(
        rechunk(&opts).unwrap(),
        vec![
            "rpm-ostree",
            "experimental",
            "compose",
            "build-chunked-oci",
            "--max-layers=67",
            "--bootc",
            "--format-version=1",
            "--from=a",
            "--output=containers-storage:b",
        ]
    );
}

fn opts() -> BuildRootfsOpts {
    BuildRootfsOpts {
        reinject: false,
        manifest: "default".to_string(),
        install: vec![],
        cachedir: "".to_string(),
        add_dir: vec![],
        no_docs: false,
        sysusers: false,
        nobody_99: false,
        repo: vec![],
        lock: vec![],
        target: "/target".to_string(),
        source_root: None,
    }
}

#[test]
fn overrides_of_a_manifest() {
    assert!(build_manifest_override(&opts(), "/m.yaml").is_none());
    let mut o = opts();
    o.install = vec!["vim".to_string()];
    o.add_dir = vec!["some/dir".to_string(), "/".to_string()];
    o.no_docs = true;
    o.sysusers = true;
    o.nobody_99 = true;
    o.repo = vec!["baseos".to_string()];
    let m = build_manifest_override(&o, "/m.yaml").unwrap();
    assert_eq!(m.base, "/m.yaml");
    assert_eq!(m.packages, Some(vec!["vim".to_string()]));
    assert_eq!(
        m.ostree_override_layers,
        Some(vec!["overlay/dir".to_string(), "overlay/unknown".to_string()])
    );
    assert_eq!(m.documentation, Some(false));
    assert_eq!(m.sysusers, Some("compose-forced".to_string()));
    assert_eq!(
        m.variables.unwrap().get("passwd_mode"),
        Some(&"nobody".to_string())
    );
    assert_eq!(m.repos, Some(vec!["baseos".to_string()]));

    let n = ManifestOverride::new("x".to_string());
    assert_eq!(n.base, "x");
    assert!(n.packages.is_none() && n.repos.is_none() && n.variables.is_none());
}

#[test]
fn rootfs_command_line() {
    assert_eq!(
        rootfs_args(&opts(), None, None, "/m.yaml"),
        vec!["rpm-ostree", "compose", "rootfs", "--source-root=/", "/m.yaml", "/target"]
    );
    let mut o = opts();
    o.cachedir = "/cache".to_string();
    o.source_root = Some("/src".to_string());
    assert_eq!(
        rootfs_args(&o, Some("/l.json"), Some("/repo"), "/m.yaml"),
        vec![
            "rpm-ostree",
            "compose",
            "rootfs",
            "--lockfile=/l.json",
            "--cachedir=/cache",
            "--ostree-repo=/repo",
            "--source-root-rw=/src",
            "/m.yaml",
            "/target",
        ]
    );
}

#[test]
fn other_command_lines() {
    assert_eq!(
        ostree_init_args("/r"),
        vec!["ostree", "init", "--repo", "/r", "--mode=bare"]
    );
    assert_eq!(ostree_commit_args("/r", "overlay/d", "/d")[5], "overlay/d");
    assert_eq!(
        lint_args("/t"),
        vec!["bootc", "container", "lint", "--rootfs=/t"]
    );
    assert_eq!(
        print_manifest_args("/m"),
        vec!["rpm-ostree", "compose", "tree", "--print-only", "/m"]
    );
}

#[test]
fn modes_that_are_fixed() {
    assert_eq!(fixed_mode(0o40700), Some(0o40755));
    assert_eq!(fixed_mode(0o40755), None);
    assert_eq!(fixed_mode(fixed_mode(0o700).unwrap()), None);
}

#[test]
fn manifests_by_name() {
    let dir = "/usr/share/doc/bootc-base-imagectl/manifests";
    let plain = format!("{dir}/min.yaml");
    let hidden = format!("{dir}/min.hidden.yaml");
    assert_eq!(manifest_candidates("min"), (plain.clone(), hidden.clone()));
    assert_eq!(find_manifest("min", false, true), Ok(hidden));
    assert_eq!(find_manifest("min", true, true), Ok(plain));
    assert_eq!(
        find_manifest("min", false, false),
        Err("Manifest not found: min".to_string())
    );
    assert_eq!(
        reinject_manifests("/t"),
        (dir.to_string(), format!("/t{dir}"))
    );
    assert_eq!(
        reinject_tool("/t").1,
        "/t/usr/libexec/bootc-base-imagectl".to_string()
    );
}

#[test]
fn manifests_in_order() {
    let file = |name: &str, is_symlink: bool| ManifestFile {
        name: name.to_string(),
        path: format!("/m/{name}"),
        is_symlink,
    };
    let files = vec![
        file("standard.yaml", false),
        file("minimal.yaml", false),
        file("default.yaml", true),
        file("x.hidden.yaml", false),
        file("readme.txt", false),
        file("a.yaml", false),
    ];
    let names: Vec<String> = list_manifests(&files).into_iter().map(|m| m.name).collect();
    assert_eq!(names, vec!["a", "minimal", "standard"]);
}

#[test]
fn descriptions_of_manifests() {
    assert_eq!(
        manifest_description(b"{\"metadata\": {\"summary\": \"A minimal image\"}}"),
        Some("A minimal image".to_string())
    );
    assert_eq!(
        manifest_description(b"{\"metadata\": {\"summary\": 3}}"),
        Some("<no description>".to_string())
    );
    assert_eq!(manifest_description(b"[]"), Some("<no description>".to_string()));
    assert_eq!(manifest_description(b"{"), None);
    assert_eq!(manifest_line("a", Some("b")), "a: b");
    assert_eq!(manifest_line("a", None), "a: <description unavailable>");
}
