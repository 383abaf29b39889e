use bootc::integration::{
    collect_tests, define_test, display_name, format_plans, format_tests, integration_files,
    metadata_header, needs_update, parse_tmt_metadata, plans_file, replace_plans, sort_tests,
    test_command, test_stem, tests_file, IntegrationError, MarkerError, MetadataError, TestDef,
    TestFileError,
};
use bootc::tmt::{
    advance, after_ssh_attempt, after_vm_poll, all_passed, connection_details, context_args,
    env_args, failure_report, generate_random_suffix, inspect_args, inspected, launch_args,
    list_plans, manual_vm_name, missing_tool, persistent_key_path, remove_args, run_args,
    sanitize_plan_name, select_plans, ssh_args, suffix_of, summary_lines, test_result, vm_hints, vm_name, vm_notice,
    PlanState, PlanStep, SshPoll, VmPoll,
};

#[test]
fn test_parse_tmt_metadata_basic() {
    let content = r#"# number: 1
# tmt:
#   summary: Execute booted readonly/nondestructive tests
#   duration: 30m
#
# Run all readonly tests in sequence
use tap.nu
"#;

    let metadata = parse_tmt_metadata(content).ok().unwrap().unwrap();
    assert_eq!(metadata.number, 1);

    // Verify extra fields are captured
    let extra = metadata.extra.as_mapping().unwrap();
    assert_eq!(
        extra.get(&serde_yaml::Value::String("summary".to_string())),
        Some(&serde_yaml::Value::String(
            "Execute booted readonly/nondestructive tests".to_string()
        ))
    );
    assert_eq!(
        extra.get(&serde_yaml::Value::String("duration".to_string())),
        Some(&serde_yaml::Value::String("30m".to_string()))
    );
}

#[test]
fn test_parse_tmt_metadata_with_adjust() {
    let content = r#"# number: 27
# tmt:
#   summary: Execute custom selinux policy test
#   duration: 30m
#   adjust:
#     - when: running_env != image_mode
#       enabled: false
#       because: these tests require features only available in image mode
#
use std assert
"#;

    let metadata = parse_tmt_metadata(content).ok().unwrap().unwrap();
    assert_eq!(metadata.number, 27);

    // Verify adjust section is in extra
    let extra = metadata.extra.as_mapping().unwrap();
    assert!(extra.contains_key(&serde_yaml::Value::String("adjust".to_string())));
}

#[test]
fn test_parse_tmt_metadata_no_metadata() {
    let content = r#"# Just a comment
use std assert
"#;

    let result = parse_tmt_metadata(content).ok().unwrap();
    assert!(result.is_none());
}

#[test]
fn test_parse_tmt_metadata_shell_script() {
    let content = r#"# number: 26
# tmt:
#   summary: Test bootc examples build scripts
#   duration: 45m
#   adjust:
#     - when: running_env != image_mode
#       enabled: false
#
#!/bin/bash
set -eux
"#;

    let metadata = parse_tmt_metadata(content).ok().unwrap().unwrap();
    assert_eq!(metadata.number, 26);

    let extra = metadata.extra.as_mapping().unwrap();
    assert_eq!(
        extra.get(&serde_yaml::Value::String("duration".to_string())),
        Some(&serde_yaml::Value::String("45m".to_string()))
    );
    assert!(extra.contains_key(&serde_yaml::Value::String("adjust".to_string())));
}

#[test]
fn metadata_edge_cases() {
    assert!(matches!(
        parse_tmt_metadata("# number: x\n"),
        Err(MetadataError::InvalidNumber)
    ));
    match parse_tmt_metadata("# number: 2\n# tmt:\n# a: [\n") {
        Err(MetadataError::InvalidYaml(y)) => assert_eq!(y, " a: ["),
        _ => panic!("invalid YAML was accepted"),
    }
    // A number alone is enough.
    let m = parse_tmt_metadata("# number: +7\n").ok().unwrap().unwrap();
    assert_eq!(m.number, 7);
    assert_eq!(m.extra, serde_yaml::Value::Mapping(serde_yaml::Mapping::new()));
    // Only the first fifty lines count.
    let late = format!("{}# number: 3\n", "#\n".repeat(50));
    assert!(parse_tmt_metadata(&late).ok().unwrap().is_none());
    let early = format!("{}# number: 3\n", "#\n".repeat(49));
    assert!(parse_tmt_metadata(&early).ok().unwrap().is_some());
    // The block ends at a bare comment sign.
    let (number, y) = metadata_header("# tmt:\n#  a: 1\n  # indented\n#\n#  b: 2\n# number: 4\n")
        .ok()
        .unwrap()
        .unwrap_or((0, "none".to_string()));
    assert_eq!((number, y.as_str()), (0, "none"));
    let (number, y) = metadata_header("# tmt:\n#  a: 1\n# number: 4\n#  b: 2\n#\n")
        .ok()
        .unwrap()
        .unwrap();
    assert_eq!((number, y.as_str()), (4, "  a: 1\n  b: 2"));
}

#[test]
fn test_files() {
    assert_eq!(test_stem("test-01-readonly.nu"), Some("01-readonly"));
    assert_eq!(test_stem("test-26-examples-build.sh"), Some("26-examples-build"));
    assert_eq!(test_stem("readonly.nu"), None);
    assert_eq!(test_stem("test-x.py"), None);
    assert_eq!(display_name("01-readonly"), "readonly");
    assert_eq!(display_name("26-examples-build"), "examples-build");
    assert_eq!(display_name("image-pushpull"), "image-pushpull");
    assert_eq!(display_name("plain"), "plain");
    assert_eq!(
        test_command("test-01-readonly.nu"),
        Some("nu booted/test-01-readonly.nu".to_string())
    );
    assert_eq!(test_command("test-x.sh"), Some("bash booted/test-x.sh".to_string()));
    assert_eq!(test_command("test-x.py"), None);
    assert!(define_test("notes.md", "").ok().unwrap().is_none());
    assert!(matches!(
        define_test("test-a.nu", "nothing"),
        Err(TestFileError::MissingMetadata)
    ));
    assert!(matches!(
        define_test("test-a.nu", "# number: -1"),
        Err(TestFileError::Metadata(MetadataError::InvalidNumber))
    ));
}

fn tests() -> Vec<TestDef> {
    let a = "# number: 20\n# tmt:\n#   summary: Second\n#   duration: 5m\n#\n";
    let b = "# number: 1\n# tmt:\n#   summary: First\n#   adjust:\n#     - enabled: false\n#\n";
    let c = "# number: 20\n";
    vec![
        define_test("test-20-two.sh", a).ok().unwrap().unwrap(),
        define_test("test-01-one.nu", b).ok().unwrap().unwrap(),
        define_test("test-three.nu", c).ok().unwrap().unwrap(),
    ]
}

#[test]
fn tests_in_order() {
    let names: Vec<String> = sort_tests(tests()).into_iter().map(|t| t.name).collect();
    assert_eq!(names, vec!["one", "two", "three"]);
}

#[test]
fn test_description_file() {
    let content = tests_file(&sort_tests(tests())).unwrap();
    assert_eq!(
        content,
        "# THIS IS GENERATED CODE - DO NOT EDIT\n\
         # Generated by: cargo xtask tmt\n\
         \n\
         /test-01-one:\n\
         \x20 summary: First\n\
         \x20 adjust:\n\
         \x20 - enabled: false\n\
         \x20 test: nu booted/test-01-one.nu\n\
         \n\
         /test-20-two:\n\
         \x20 summary: Second\n\
         \x20 duration: 5m\n\
         \x20 test: bash booted/test-20-two.sh\n\
         \n\
         /test-20-three:\n\
         \x20 test: nu booted/test-three.nu\n"
    );
}

#[test]
fn plan_file() {
    let existing = "top\n# BEGIN GENERATED PLANS\nold\n# END GENERATED PLANS\nbottom\n";
    let sorted = sort_tests(tests());
    let content = plans_file(&sorted, existing).unwrap();
    assert_eq!(
        content,
        "top\n\
         # BEGIN GENERATED PLANS\n\
         /plan-01-one:\n\
         \x20 summary: First\n\
         \x20 discover:\n\
         \x20   how: fmf\n\
         \x20   test:\n\
         \x20     - /tmt/tests/tests/test-01-one\n\
         \x20 adjust:\n\
         \x20 - enabled: false\n\
         \n\
         /plan-20-two:\n\
         \x20 summary: Second\n\
         \x20 discover:\n\
         \x20   how: fmf\n\
         \x20   test:\n\
         \x20     - /tmt/tests/tests/test-20-two\n\
         \n\
         /plan-20-three:\n\
         \x20 discover:\n\
         \x20   how: fmf\n\
         \x20   test:\n\
         \x20     - /tmt/tests/tests/test-20-three\n\
         # END GENERATED PLANS\n\
         bottom\n"
    );
    // Again with the same tests changes nothing.
    assert_eq!(plans_file(&sorted, &content).unwrap(), content);
    assert!(!needs_update(Some(&content), &content));
    assert!(needs_update(Some(existing), &content));
    assert!(needs_update(None, &content));
    assert_eq!(plans_file(&sorted, "x"), Err(MarkerError::MissingBegin));
    assert_eq!(
        replace_plans("# BEGIN GENERATED PLANS\n", "s"),
        Err(MarkerError::MissingEnd)
    );
}

#[test]
fn files_kept_in_step() {
    let file = |name: &str, content: &str| (name.to_string(), content.to_string());
    let files = vec![
        file("test-20-two.sh", "# number: 20\n# tmt:\n#   summary: Second\n#\n"),
        file("README.md", "no test"),
        file("test-01-one.nu", "# number: 1\n"),
    ];
    let names: Vec<String> = match collect_tests(&files) {
        Ok(tests) => tests.into_iter().map(|t| t.name).collect(),
        Err(_) => panic!("a good test file was refused"),
    };
    assert_eq!(names, vec!["one", "two"]);

    let existing = "top\n# BEGIN GENERATED PLANS\nold\n# END GENERATED PLANS\nbottom\n";
    let made = integration_files(&files, existing).ok().unwrap();
    assert_eq!(
        made.tests,
        "# THIS IS GENERATED CODE - DO NOT EDIT\n\
         # Generated by: cargo xtask tmt\n\
         \n\
         /test-01-one:\n\
         \x20 test: nu booted/test-01-one.nu\n\
         \n\
         /test-20-two:\n\
         \x20 summary: Second\n\
         \x20 test: bash booted/test-20-two.sh\n"
    );
    let plans = made.plans.unwrap();
    assert_eq!(
        plans,
        "top\n\
         # BEGIN GENERATED PLANS\n\
         /plan-01-one:\n\
         \x20 discover:\n\
         \x20   how: fmf\n\
         \x20   test:\n\
         \x20     - /tmt/tests/tests/test-01-one\n\
         \n\
         /plan-20-two:\n\
         \x20 summary: Second\n\
         \x20 discover:\n\
         \x20   how: fmf\n\
         \x20   test:\n\
         \x20     - /tmt/tests/tests/test-20-two\n\
         # END GENERATED PLANS\n\
         bottom\n"
    );
    // Again changes nothing.
    assert_eq!(integration_files(&files, &plans).ok().unwrap().plans, Ok(plans));
    // Without markers there are still the tests.
    let made = integration_files(&files, "x").ok().unwrap();
    assert_eq!(made.plans, Err(MarkerError::MissingBegin));
    assert!(made.tests.contains("/test-01-one:"));

    // The first file with which something is wrong is the one that counts.
    let bad = vec![
        file("test-a.nu", "# number: 1\n"),
        file("notes", ""),
        file("test-b.nu", "nothing"),
        file("test-c.nu", "# number: x"),
    ];
    assert!(matches!(
        integration_files(&bad, existing),
        Err(IntegrationError::TestFile(2, TestFileError::MissingMetadata))
    ));
    assert!(matches!(
        collect_tests(&bad),
        Err((2, TestFileError::MissingMetadata))
    ));
}

#[test]
fn lines_between_entries() {
    assert_eq!(
        format_tests("/test-a:\n  x: 1\n/test-b:\n"),
        "# THIS IS GENERATED CODE - DO NOT EDIT\n# Generated by: cargo xtask tmt\n\n/test-a:\n  x: 1\n\n/test-b:\n"
    );
    assert_eq!(
        format_plans("/plan-a:\n    - /tmt/tests/x\n    - other\n"),
        "/plan-a:\n      - /tmt/tests/x\n    - other\n"
    );
}

#[test]
fn names_of_machines() {
    assert_eq!(sanitize_plan_name("/tmt/plans/integration/plan-01"), "tmt-plans-integration-plan-01");
    assert_eq!(sanitize_plan_name("/a b_c.d/"), "a-b_c-d");
    assert_eq!(sanitize_plan_name("/-/"), "plan");
    assert_eq!(sanitize_plan_name(""), "plan");
    assert_eq!(sanitize_plan_name("plän"), "plän");
    assert_eq!(sanitize_plan_name("Plan_1-x"), "Plan_1-x");
    for plan in ["/a b_c.d/", "/-/", "", "Plan_1-x", "--plän/"] {
        let once = sanitize_plan_name(plan);
        assert_eq!(sanitize_plan_name(&once), once);
    }
    assert_eq!(vm_name("abcd1234", "/p"), "bootc-tmt-abcd1234-p");
    assert_eq!(manual_vm_name(None, 1700000000), "bootc-tmt-manual-1700000000");
    assert_eq!(manual_vm_name(Some("mine"), 1700000000), "mine");
    assert_eq!(persistent_key_path("vm"), "target/vm.ssh-key");
}

#[test]
fn random_suffixes() {
    assert_eq!(suffix_of(&vec![0, 25, 26, 35]), "az09");
    let s = generate_random_suffix();
    assert_eq!(s.len(), 8);
    assert!(s.chars().all(|c| c.is_ascii_lowercase() || c.is_ascii_digit()));
}

#[test]
fn plans_that_are_run() {
    let output = "/plans/one\n  /plans/two  \n\nwarning: x\n/plans/three\n";
    assert_eq!(list_plans(output), vec!["/plans/one", "/plans/two", "/plans/three"]);
    assert_eq!(select_plans(output, &vec![]).len(), 3);
    assert_eq!(
        select_plans(output, &vec!["tw".to_string(), "three".to_string()]),
        vec!["/plans/two", "/plans/three"]
    );
    assert!(select_plans(output, &vec!["four".to_string()]).is_empty());
    assert_eq!(
        context_args(&vec!["a=b".to_string()]),
        vec!["--context=a=b", "--context=running_env=image_mode"]
    );
}

#[test]
fn machines_that_become_ready() {
    assert_eq!(
        inspected("{\"ssh_port\": 2222, \"ssh_private_key\": \"KEY\"}"),
        Some((2222, "KEY".to_string()))
    );
    assert_eq!(inspected("{\"ssh_port\": -1, \"ssh_private_key\": \"KEY\"}"), None);
    assert_eq!(inspected("{\"ssh_port\": 2222}"), None);
    assert_eq!(inspected("no"), None);
    assert_eq!(connection_details(Some(65537), Some("k")), Some((1, "k".to_string())));
    assert!(matches!(
        after_vm_poll(60, Some((22, "k".to_string())), "vm"),
        VmPoll::Ready(22, _)
    ));
    assert!(matches!(after_vm_poll(59, None, "vm"), VmPoll::Retry));
    match after_vm_poll(60, None, "vm") {
        VmPoll::Failed(m) => assert_eq!(m, "VM vm did not become ready within 60 seconds"),
        _ => panic!("the last try did not fail"),
    }
}

#[test]
fn connections_that_are_tried() {
    assert!(matches!(after_ssh_attempt(1, Some(" root\n")), (SshPoll::Connected, None)));
    assert!(matches!(after_ssh_attempt(9, Some("user")), (SshPoll::Retry, None)));
    match after_ssh_attempt(10, None) {
        (SshPoll::Retry, Some(m)) => assert_eq!(m, "Waiting for SSH... attempt 10/60"),
        _ => panic!("no progress was reported"),
    }
    match after_ssh_attempt(60, None) {
        (SshPoll::Failed(m), Some(_)) => {
            assert_eq!(m, "SSH connectivity check failed after 60 attempts")
        }
        _ => panic!("the last try did not fail"),
    }
}

fn run(preserve: bool, fails_at: Option<PlanStep>) -> (Vec<PlanState>, PlanState) {
    let mut state = PlanState::Perform(PlanStep::LaunchVm);
    let mut seen = vec![];
    loop {
        let ok = match state {
            PlanState::Perform(s) => Some(s) != fails_at,
            PlanState::Finished { .. } => return (seen, state),
            _ => true,
        };
        seen.push(state);
        state = advance(state, ok, preserve);
    }
}

#[test]
fn plans_step_by_step() {
    let (seen, end) = run(false, None);
    assert_eq!(end, PlanState::Finished { passed: true, ran: true });
    assert_eq!(seen.len(), 9);
    assert_eq!(seen[8], PlanState::RemoveVm { passed: true, ran: true });

    let (seen, end) = run(true, None);
    assert_eq!(end, PlanState::Finished { passed: true, ran: true });
    assert_eq!(seen[8], PlanState::KeepKey { passed: true });

    let (seen, end) = run(false, Some(PlanStep::LaunchVm));
    assert_eq!(end, PlanState::Finished { passed: false, ran: false });
    assert_eq!(seen.len(), 1);

    let (seen, end) = run(false, Some(PlanStep::VerifySsh));
    assert_eq!(end, PlanState::Finished { passed: false, ran: false });
    assert_eq!(seen[seen.len() - 1], PlanState::RemoveVm { passed: false, ran: false });

    let (seen, end) = run(true, Some(PlanStep::WriteKey));
    assert_eq!(end, PlanState::Finished { passed: false, ran: false });
    assert_eq!(seen.len(), 5);

    let (_, end) = run(false, Some(PlanStep::RunTests));
    assert_eq!(end, PlanState::Finished { passed: false, ran: true });
}

#[test]
fn results_of_plans() {
    let a = test_result("/a", "vm-a", true, true);
    let b = test_result("/b", "vm-b", false, false);
    let c = test_result("/c", "vm-c", false, true);
    assert!(failure_report(&a).is_none());
    let r = failure_report(&b).unwrap();
    assert_eq!(r.lines[1], "Plan: /b");
    assert_eq!(r.lines[3], "Run ID not available - cannot generate detailed report");
    assert!(r.command.is_none());
    let r = failure_report(&c).unwrap();
    assert_eq!(r.lines[3], "Run ID: vm-c\n");
    assert_eq!(r.command.unwrap(), vec!["tmt", "run", "-i", "vm-c", "report", "-vvv"]);
    let all = vec![a, b, c];
    assert_eq!(summary_lines(&all), vec!["/a: PASSED", "/b: FAILED", "/c: FAILED"]);
    assert!(!all_passed(&all));
    assert!(all_passed(&vec![]));
}

#[test]
fn commands_of_plans() {
    assert_eq!(
        launch_args("vm", "img"),
        vec![
            "bcvk", "libvirt", "run", "--name", "vm", "--detach", "--firmware=uefi-insecure",
            "--label=bootc.test=1", "img",
        ]
    );
    assert_eq!(remove_args("vm"), vec!["bcvk", "libvirt", "rm", "--stop", "--force", "vm"]);
    assert_eq!(inspect_args("vm"), vec!["bcvk", "libvirt", "inspect", "vm", "--format=json"]);
    let ssh = ssh_args("/k", 2222);
    assert_eq!(ssh[4], "2222");
    assert_eq!(ssh[14], "export TEST=value; whoami");
    let run = run_args(&context_args(&vec![]), &vec![], "id", 22, "/k", "/p");
    assert_eq!(run[0..3], ["tmt", "--context=running_env=image_mode", "run"]);
    assert_eq!(run[run.len() - 1], "/p");
    let env = vec!["A=1".to_string(), "B=2 3".to_string()];
    let run = run_args(&vec![], &env, "id", 22, "/k", "/p");
    assert_eq!(
        run[4..12],
        [
            "--all", "-e", "TMT_SCRIPTS_DIR=/var/lib/tmt/scripts", "-e", "A=1", "-e", "B=2 3",
            "provision",
        ][..]
    );
    assert!(env_args(&vec![]).is_empty());
    assert_eq!(vm_notice("vm", 22, "/k", "head")[4], "SSH port: 22");
    assert_eq!(
        vm_hints("vm", 22, "/k")[1],
        "  ssh -i /k -p 22 -o IdentitiesOnly=yes root@localhost"
    );
    assert_eq!(missing_tool("tmt"), "tmt is not available in PATH");
}
