//! Parsing `cmd overlay list` output, and the shell layer around it.

use aovr::parsers::{parse_overlays, TargetOverlays, Targets, UNGROUPED_TARGET};
use aovr::shell::{
    command_failure, shell_quote, targets_from_output, Backend, CommandOutput, ListStep,
    SetStep, VirtualStore, SU_ENV_VAR,
};

// Listings in the shape that `cmd overlay list` prints on a device, with the
// names and counts that the tests check.


/// A clean listing with three targets.
pub const CMD_OVERLAY_LIST_OK: &str = "\
android
[x] com.android.internal.systemui.navbar.gestural
[ ] com.android.internal.systemui.navbar.threebutton
[ ] com.android.internal.systemui.navbar.twobutton

com.android.systemui
[x] com.android.systemui.navbar.gestural
[ ] com.android.theme.icon_pack.rounded.systemui
--- com.android.systemui.broken.rro

com.android.permissioncontroller
[ ] com.permissioncontroller.googlecarui.rro
";

/// What `cmd overlay list` prints when the binder call fails.
pub const DEVICE_CMD_FAILURE: &str =
    "cmd: Failure calling service overlay: Failed transaction (2147483646)\n";

/// The usage text that `cmd overlay` prints for a bad command line.
pub const DEVICE_CMD_OVERLAY_USAGE: &str = "\
Overlay manager (overlay) commands:
  help
    Print this help text.
  dump [--verbose] [--user USER_ID] [[FIELD] PACKAGE[:NAME]]
    Print debugging information about the overlay manager.
  list [--user USER_ID] [PACKAGE[:NAME]]
    Print information about target and overlay packages.
    Overlay packages are printed in priority order. With optional
    parameters PACKAGE and NAME, only print information about those
    packages.
  enable [--user USER_ID] PACKAGE[:NAME]
    Enable overlay within or owned by PACKAGE with optional unique NAME.
  disable [--user USER_ID] PACKAGE[:NAME]
    Disable overlay within or owned by PACKAGE with optional unique NAME.
  lookup [--user USER_ID] [--verbose] PACKAGE-TO-LOAD PACKAGE:TYPE/NAME
    Load a package and print the value of a given resource
";

fn group(out: &mut String, target: &str, enabled: &[String], disabled: &[String], broken: &[String]) {
    out.push_str(target);
    out.push('\n');
    for name in enabled {
        out.push_str("[x] ");
        out.push_str(name);
        out.push('\n');
    }
    for name in disabled {
        out.push_str("[ ] ");
        out.push_str(name);
        out.push('\n');
    }
    for name in broken {
        out.push_str("--- ");
        out.push_str(name);
        out.push('\n');
    }
    out.push('\n');
}

fn names(prefix: &str, n: usize) -> Vec<String> {
    (0..n).map(|i| format!("{prefix}{i}")).collect()
}

/// A device listing of 31 targets holding 67 enabled, 39 disabled and 20 broken
/// overlays.
pub fn device_list() -> String {
    let mut out = String::new();

    let mut android_enabled = names("android.auto_generated_rro_product_", 33);
    android_enabled.push("android.auto_generated_rro_vendor__".to_string());
    android_enabled.push("com.android.systemui:neutral".to_string());
    let android_disabled = names("com.android.theme.color.", 20);
    let android_broken = vec![
        "android.auto_generated_characteristics_rro".to_string(),
        "android.auto_generated_rro_odm__".to_string(),
    ];
    group(&mut out, "android", &android_enabled, &android_disabled, &android_broken);

    group(
        &mut out,
        "com.android.systemui",
        &names("com.android.systemui.theme.enabled", 7),
        &names("com.android.systemui.theme.disabled", 8),
        &[],
    );

    group(
        &mut out,
        "com.qualcomm.qti.telephonyservice",
        &[],
        &[],
        &["com.qualcomm.qti.telephonyservice".to_string()],
    );

    // 28 more targets: 25 enabled, 11 disabled and 17 broken overlays among them.
    for t in 0..28 {
        let target = format!("com.vendor.app{t}");
        let enabled = if t < 25 { names(&format!("{target}.overlay.on"), 1) } else { vec![] };
        let disabled = if t < 11 { names(&format!("{target}.overlay.off"), 1) } else { vec![] };
        let broken = if t >= 11 { names(&format!("{target}.overlay.bad"), 1) } else { vec![] };
        group(&mut out, &target, &enabled, &disabled, &broken);
    }
    out
}

fn total_of(map: &Targets, pick: impl Fn(&TargetOverlays) -> usize) -> usize {
    map.keys().iter().map(|k| pick(map.get(k).unwrap())).sum()
}

#[test]
fn groups_overlays_by_target() {
    let map = parse_overlays(CMD_OVERLAY_LIST_OK.as_bytes());

    assert_eq!(map.len(), 3);

    let android = map.get("android").unwrap();
    assert_eq!(android.enabled, ["com.android.internal.systemui.navbar.gestural"]);
    assert_eq!(android.disabled.len(), 2);
    assert!(android.broken.is_empty());

    let systemui = map.get("com.android.systemui").unwrap();
    assert_eq!(systemui.enabled, ["com.android.systemui.navbar.gestural"]);
    assert_eq!(systemui.disabled, ["com.android.theme.icon_pack.rounded.systemui"]);
    assert_eq!(systemui.broken, ["com.android.systemui.broken.rro"]);

    let pc = map.get("com.android.permissioncontroller").unwrap();
    assert_eq!(pc.total(), 1);
    assert_eq!(pc.disabled[0], "com.permissioncontroller.googlecarui.rro");
}

#[test]
fn totals_match_fixture() {
    let map = parse_overlays(CMD_OVERLAY_LIST_OK.as_bytes());
    let total: usize = total_of(&map, TargetOverlays::total);
    assert_eq!(total, 7);
}

#[test]
fn device_failure_output_yields_no_targets() {
    assert!(
        parse_overlays(DEVICE_CMD_FAILURE.as_bytes()).is_empty(),
        "error text was misfiled as a target"
    );
}

#[test]
fn real_device_list_is_grouped() {
    let list = device_list();
    let map = parse_overlays(list.as_bytes());

    assert_eq!(map.len(), 31);

    let enabled = total_of(&map, |t| t.enabled.len());
    let disabled = total_of(&map, |t| t.disabled.len());
    let broken = total_of(&map, |t| t.broken.len());
    assert_eq!((enabled, disabled, broken), (67, 39, 20));

    let android = map.get("android").unwrap();
    assert_eq!((android.enabled.len(), android.disabled.len()), (35, 20));
    assert_eq!(android.broken.len(), 2);
    // Overlay identifiers carrying `:name` suffixes target the framework.
    assert!(android.enabled.iter().any(|n| n.as_str() == "com.android.systemui:neutral"));
    assert!(android
        .broken
        .iter()
        .any(|n| n.as_str() == "android.auto_generated_characteristics_rro"));

    let systemui = map.get("com.android.systemui").unwrap();
    assert_eq!((systemui.enabled.len(), systemui.disabled.len()), (7, 8));

    // Target whose only overlay shares its package name.
    let qti = map.get("com.qualcomm.qti.telephonyservice").unwrap();
    assert_eq!(qti.broken, ["com.qualcomm.qti.telephonyservice"]);
}

#[test]
fn usage_output_is_never_misfiled_as_targets() {
    let map = parse_overlays(DEVICE_CMD_OVERLAY_USAGE.as_bytes());
    assert!(map.is_empty(), "usage text produced bogus targets: {:?}", map.keys());
}

#[test]
fn junk_lines_are_ignored() {
    let junk = "\
Error: Unknown option: --bogus
cmd: Can't find service overlay
)
";
    assert!(parse_overlays(junk.as_bytes()).is_empty());
}

#[test]
fn tolerates_crlf_line_endings() {
    let crlf = "com.acme.app\r\n[x] com.acme.app.overlay\r\n";
    let map = parse_overlays(crlf.as_bytes());
    assert_eq!(map.get("com.acme.app").unwrap().enabled, ["com.acme.app.overlay"]);
}

#[test]
fn accepts_overlay_identifiers_with_colon() {
    let out = "com.acme.app\n[x] com.acme.overlay:dark\n";
    let map = parse_overlays(out.as_bytes());
    assert_eq!(map.get("com.acme.app").unwrap().enabled, ["com.acme.overlay:dark"]);
}

#[test]
fn overlay_without_header_goes_to_ungrouped() {
    let map = parse_overlays("[ ] com.acme.orphan\n".as_bytes());
    assert_eq!(map.get(UNGROUPED_TARGET).unwrap().disabled, ["com.acme.orphan"]);
}

#[test]
fn status_prefix_without_identifier_is_ignored() {
    let map = parse_overlays("[x]\n---\n".as_bytes());
    assert!(map.is_empty());
}

#[test]
fn targets_are_exactly_the_headers_and_every_status_line_counts_once() {
    let out = "\
[x] o.first
[ ] o.second
stray words
com.acme.a
[x] a.one
--- a.bad
lonely.header
com.acme.b
[ ] b.one
[x] b.two
[x] b.three
";
    let map = parse_overlays(out.as_bytes());
    assert_eq!(map.keys(), ["(ungrouped)", "com.acme.a", "com.acme.b"]);
    let ung = map.get(UNGROUPED_TARGET).unwrap();
    assert_eq!((ung.enabled.clone(), ung.disabled.clone()), (vec!["o.first".to_string()], vec!["o.second".to_string()]));
    let b = map.get("com.acme.b").unwrap();
    assert_eq!(b.enabled, ["b.two", "b.three"]);
    assert_eq!(b.disabled, ["b.one"]);
    let sum: usize = map.keys().iter().map(|k| map.get(k).unwrap().total()).sum();
    assert_eq!(sum, 7);
}

#[test]
fn targets_come_out_in_ascending_order() {
    let out = "zeta\n[x] z.o\nalpha\n[ ] a.o\nmid\n--- m.o\n";
    let map = parse_overlays(out.as_bytes());
    assert_eq!(map.keys(), ["alpha", "mid", "zeta"]);
}

#[test]
fn repeated_header_merges_into_one_target() {
    let out = "pkg\n[x] one\nother\n[ ] two\npkg\n[ ] three\n";
    let map = parse_overlays(out.as_bytes());
    assert_eq!(map.len(), 2);
    let pkg = map.get("pkg").unwrap();
    assert_eq!(pkg.enabled, ["one"]);
    assert_eq!(pkg.disabled, ["three"]);
}

#[test]
fn bare_word_without_status_line_is_not_a_target() {
    let out = "word\nanother\n[x] kept\n";
    let map = parse_overlays(out.as_bytes());
    assert_eq!(map.keys(), ["another"]);
    assert_eq!(map.get("another").unwrap().enabled, ["kept"]);
}

#[test]
fn names_are_trimmed_and_non_ascii_kept() {
    let out = "pkg\n[x]   caf\u{e9}.overlay  \t\n";
    let map = parse_overlays(out.as_bytes());
    assert_eq!(map.get("pkg").unwrap().enabled, ["caf\u{e9}.overlay"]);
}

#[test]
fn invalid_utf8_is_replaced_not_dropped() {
    let mut bytes = b"pkg\n[x] bad".to_vec();
    bytes.push(0xff);
    bytes.extend_from_slice(b"name\n");
    let map = parse_overlays(&bytes);
    assert_eq!(map.get("pkg").unwrap().enabled, ["bad\u{fffd}name"]);
}

/// `raw` is a Unix wait status: `(code << 8)`.
fn output(raw: i32, stdout: &str, stderr: &str) -> CommandOutput {
    CommandOutput {
        exit_code: Some(raw >> 8),
        stdout: stdout.as_bytes().to_vec(),
        stderr: stderr.as_bytes().to_vec(),
    }
}

#[test]
fn clean_list_is_parsed() {
    let out = output(0, CMD_OVERLAY_LIST_OK, "");
    let targets = targets_from_output(&out).expect("clean output must parse");
    assert_eq!(targets.len(), 3);
}

#[test]
fn device_failure_is_an_error_even_on_exit_zero() {
    let out = output(0, DEVICE_CMD_FAILURE, "");
    let err = targets_from_output(&out).expect_err("binder failure must not parse as a list");
    assert!(err.contains("Failure calling service overlay"));
    assert!(err.contains("2147483646"));
}

#[test]
fn device_failure_on_stderr_is_detected() {
    let out = output(256, "", DEVICE_CMD_FAILURE);
    let err = targets_from_output(&out).expect_err("stderr failure must be reported");
    assert!(err.contains("Failure calling service overlay"));
}

#[test]
fn unknown_service_is_detected() {
    let out = output(0, "", "cmd: Can't find service overlay\n");
    let err = command_failure(&out).expect("missing service must be an error");
    assert!(err.contains("Can't find service overlay"));
}

#[test]
fn nonzero_exit_without_marker_reports_code_and_detail() {
    let out = output(256, "", "sh: cmd: not found\n");
    let err = command_failure(&out).expect("non-zero exit must be an error");
    assert!(err.contains("exit code 1"), "got: {err}");
    assert!(err.contains("cmd: not found"), "got: {err}");
}

#[test]
fn success_with_empty_output_is_not_an_error() {
    let out = output(0, "", "");
    assert!(command_failure(&out).is_none());
    assert!(targets_from_output(&out).unwrap().is_empty());
}

#[test]
fn silent_stdout_with_stderr_noise_is_reported() {
    let out = output(0, "", "cat: /missing: No such file or directory\n");
    let err = command_failure(&out).expect("stderr noise must surface");
    assert!(err.to_string().contains("No such file or directory"));
}

#[test]
fn failure_messages_are_exact() {
    let out = output(256, "  \n", "\n  oops  \n");
    assert_eq!(command_failure(&out).unwrap(), "exit code 1: oops");
    let killed = CommandOutput { exit_code: None, stdout: vec![], stderr: vec![] };
    assert_eq!(command_failure(&killed).unwrap(), "killed by signal: no output");
    let negative = CommandOutput { exit_code: Some(-3), stdout: b"x\n".to_vec(), stderr: vec![] };
    assert_eq!(command_failure(&negative).unwrap(), "exit code -3: x");
    let noise = output(0, "", "\n warn \n");
    assert_eq!(command_failure(&noise).unwrap(), "no output on stdout: warn");
    let marker = output(256, "first\n", "  Failure calling service overlay: x  \n");
    assert_eq!(command_failure(&marker).unwrap(), "Failure calling service overlay: x");
}

#[test]
fn shell_quote_passes_identifiers_through() {
    assert_eq!(shell_quote("com.acme.overlay:dark"), "com.acme.overlay:dark");
    assert_eq!(shell_quote("a b"), "'a b'");
    assert_eq!(shell_quote("x'y"), r"'x'\''y'");
}

#[test]
fn shell_quote_quotes_the_empty_word() {
    assert_eq!(shell_quote(""), "''");
}

fn bundled_backend() -> Backend {
    Backend::from_env_impl(None, None, false, device_list().as_bytes())
}

fn list(backend: &mut Backend) -> Result<Targets, String> {
    match backend.list() {
        ListStep::Ready(r) => r,
        other => panic!("unexpected step {other:?}"),
    }
}

fn set(backend: &mut Backend, enabled: bool, overlay: &str) -> Result<(), String> {
    match backend.set_overlay(enabled, overlay) {
        SetStep::Done(r) => r,
        other => panic!("unexpected step {other:?}"),
    }
}

#[test]
fn bundled_virtual_list_is_the_real_device_capture() {
    let mut backend = bundled_backend();
    assert!(backend.is_virtual());
    assert_eq!(list(&mut backend).unwrap().len(), 31);
}

#[test]
fn virtual_toggle_applies_in_memory() {
    let mut backend = bundled_backend();

    set(&mut backend, false, "android.auto_generated_rro_vendor__").unwrap();
    let targets = list(&mut backend).unwrap();
    let android = targets.get("android").unwrap();
    assert!(!android.enabled.iter().any(|n| n == "android.auto_generated_rro_vendor__"));
    assert!(android.disabled.iter().any(|n| n == "android.auto_generated_rro_vendor__"));

    set(&mut backend, true, "android.auto_generated_rro_vendor__").unwrap();
    let targets = list(&mut backend).unwrap();
    assert!(targets
        .get("android")
        .unwrap()
        .enabled
        .iter()
        .any(|n| n == "android.auto_generated_rro_vendor__"));
}

#[test]
fn virtual_toggle_rejects_unknown_and_broken_overlays() {
    let mut backend = bundled_backend();
    let err = set(&mut backend, true, "com.acme.does.not.exist").unwrap_err();
    assert!(err.contains("not found"));

    let err = set(&mut backend, true, "android.auto_generated_characteristics_rro").unwrap_err();
    assert!(err.contains("broken"), "got: {err}");
}

#[test]
fn virtual_toggle_keeps_every_overlay() {
    let mut store = VirtualStore::bundled(CMD_OVERLAY_LIST_OK.as_bytes());
    store.set_overlay(true, "com.permissioncontroller.googlecarui.rro").unwrap();
    store.set_overlay(true, "com.permissioncontroller.googlecarui.rro").unwrap();
    let targets = match store.list() {
        ListStep::Ready(r) => r.unwrap(),
        other => panic!("unexpected step {other:?}"),
    };
    let pc = targets.get("com.android.permissioncontroller").unwrap();
    assert_eq!(pc.enabled, ["com.permissioncontroller.googlecarui.rro"]);
    assert!(pc.disabled.is_empty());
    assert_eq!(total_of(&targets, TargetOverlays::total), 7);
}

#[test]
fn backend_selection_priority() {
    let targets_file = "/captures/virtual_targets.txt".to_string();

    let mut backend = Backend::from_env_impl(
        Some(targets_file.clone()),
        Some("/x/su".to_string()),
        true,
        device_list().as_bytes(),
    );
    assert!(backend.is_virtual());
    match backend.list() {
        ListStep::ReadFile(path) => assert_eq!(path, targets_file),
        other => panic!("unexpected step {other:?}"),
    }
    let Backend::Virtual(store) = &mut backend else { panic!("not virtual") };
    assert_eq!(store.file_read(Ok(device_list().into_bytes())).unwrap().len(), 31);
    assert_eq!(list(&mut backend).unwrap().len(), 31);

    let backend = Backend::from_env_impl(None, None, true, b"");
    assert!(matches!(backend, Backend::Su(_)));

    let backend = Backend::from_env_impl(None, Some("/x/su".to_string()), false, b"");
    assert!(matches!(backend, Backend::Su(ref bin) if bin == "/x/su"));

    let backend = Backend::from_env_impl(None, None, false, b"");
    assert!(backend.is_virtual());
    assert_eq!(SU_ENV_VAR, "AOVR_SU");
}

#[test]
fn backend_is_always_su() {
    let backend = Backend::from_env_impl(None, Some("/x/su".to_string()), false, b"");
    assert!(matches!(backend, Backend::Su(_)));

    let backend = Backend::from_env_impl(None, None, true, b"");
    assert!(matches!(backend, Backend::Su(_)));
    assert!(!backend.is_virtual());
}

#[test]
fn empty_environment_values_count_as_unset() {
    let backend = Backend::from_env_impl(Some(String::new()), Some(String::new()), false, b"");
    assert!(backend.is_virtual());
    let backend = Backend::from_env_impl(None, Some(String::new()), true, b"");
    assert!(matches!(backend, Backend::Su(ref bin) if bin == "/system/bin/su"));
}

#[test]
fn missing_targets_file_is_a_friendly_error() {
    let mut backend = Backend::from_env_impl(
        Some("/nonexistent/list.txt".to_string()),
        None,
        false,
        b"",
    );
    assert!(backend.is_virtual());
    let path = match backend.list() {
        ListStep::ReadFile(path) => path,
        other => panic!("unexpected step {other:?}"),
    };
    let Backend::Virtual(store) = &mut backend else { panic!("not virtual") };
    let err = store
        .file_read(Err("No such file or directory (os error 2)".to_string()))
        .unwrap_err();
    assert!(err.contains("virtual target list"));
    assert!(err.contains("/nonexistent/list.txt"));
    // The path is retained, not consumed: a refresh reads again.
    assert!(matches!(backend.list(), ListStep::ReadFile(p) if p == path));
}

#[test]
fn su_backend_runs_cmd_overlay() {
    let mut backend = Backend::Su("su".to_string());
    match backend.list() {
        ListStep::RunShell { bin, script } => {
            assert_eq!(bin, "su");
            assert_eq!(script, "cmd overlay list");
        }
        other => panic!("unexpected step {other:?}"),
    }
    match backend.set_overlay(false, "a b") {
        SetStep::RunShell { bin, script, action } => {
            assert_eq!(bin, "su");
            assert_eq!(script, "cmd overlay disable 'a b'");
            assert_eq!(action, "disable");
        }
        other => panic!("unexpected step {other:?}"),
    }
    let failed = aovr::shell::set_overlay_result("enable", &output(256, "", "boom\n"));
    assert_eq!(failed.unwrap_err(), "enable failed: exit code 1: boom");
    assert!(aovr::shell::set_overlay_result("enable", &output(0, "", "")).is_ok());
}

#[test]
fn launch_errors_explain_a_missing_helper() {
    let msg = aovr::shell::launch_error("su", true, "");
    assert!(msg.starts_with("root helper 'su' not found"));
    assert!(msg.ends_with("or set $AOVR_SU"));
    assert_eq!(aovr::shell::launch_error("su", false, "denied"), "failed to run 'su': denied");
}
