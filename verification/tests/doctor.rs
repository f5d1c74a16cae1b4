use octos_tui::doctor::{
    binary_check, cjk_check, color_check, compare_against_server, first_by_canonical, first_word,
    locale_check,
    network_check, protocol_skew_check, release_check, shadow_check, stdio_command_check,
    stdio_program, term_check, transport_check, writability_check, Check, CheckStatus,
    Reachability, ReleaseOutcome, Report, UiProtocolBuild, UiProtocolCapabilities,
    UiProtocolVersion,
};

fn required() -> Vec<String> {
    vec![
        "approval.typed.v1".to_string(),
        "pane.snapshots.v1".to_string(),
        "user.question.v1".to_string(),
    ]
}

fn build() -> UiProtocolBuild {
    UiProtocolBuild {
        protocol: "octos-ui/v1".to_string(),
        schema_version: 3,
        required_features: required(),
    }
}

fn server_caps() -> UiProtocolCapabilities {
    UiProtocolCapabilities {
        version: UiProtocolVersion {
            protocol: "octos-ui/v1".to_string(),
            schema_version: 3,
        },
        supported_features: required(),
    }
}

#[test]
fn renderer_groups_by_category_and_shows_fix_lines() {
    let checks = vec![
        Check::pass("Cat A", "ok thing", "all good"),
        Check::warn("Cat A", "warny thing", "soft problem", "do the fix"),
        Check::fail("Cat B", "broken thing", "hard problem", "fix me"),
    ];
    let report = Report::new(checks);
    let text = report.render(false, false);
    assert!(text.contains("Cat A\n"));
    assert!(text.contains("Cat B\n"));
    assert!(text.contains("[✓] ok thing"));
    assert!(text.contains("[!] warny thing"));
    assert!(text.contains("[✗] broken thing"));
    assert!(text.contains("    → fix: do the fix"));
    assert!(text.contains("    → fix: fix me"));
    assert!(!text.contains("→ fix: \n"));
    assert!(text.contains("1 passed, 1 warning(s), 1 failure(s)"));
}

#[test]
fn renderer_output_is_exact() {
    let checks = vec![
        Check::pass("Cat A", "ok thing", "all good").with_value("/bin/x"),
        Check::warn("Cat A", "warny thing", "", "do the fix"),
        Check::pass("Cat B", "other", "fine"),
    ];
    let report = Report::new(checks);
    assert_eq!(
        report.render(false, false),
        "Cat A\n[✓] ok thing — all good\n[!] warny thing\n    → fix: do the fix\n\nCat B\n[✓] other — fine\n\n• Doctor summary: 2 passed, 1 warning(s). No fatal issues found.\n"
    );
    assert_eq!(
        report.render(true, true),
        "Cat A\n[✓] ok thing — all good (/bin/x)\n[!] warny thing\n    → fix: do the fix\n\nCat B\n[✓] other — fine\n\n• Doctor summary: 2 passed, 1 warning(s), 0 failure(s).\n"
    );
}

#[test]
fn empty_report_renders_only_the_summary() {
    let report = Report::new(Vec::new());
    assert_eq!(
        report.render(false, false),
        "\n• Doctor summary: 0 passed, 0 warning(s). No fatal issues found.\n"
    );
    assert_eq!(report.counts(), (0, 0, 0));
    assert_eq!(report.exit_code(true), 0);
}

#[test]
fn exit_code_is_one_on_failure_zero_on_warnings() {
    let warn_only = Report::new(vec![Check::warn("c", "n", "d", "f")]);
    assert_eq!(warn_only.exit_code(false), 0);
    assert_eq!(warn_only.exit_code(true), 1);

    let with_fail = Report::new(vec![Check::fail("c", "n", "d", "f")]);
    assert_eq!(with_fail.exit_code(false), 1);
}

#[test]
fn summary_wording_follows_the_exit_code() {
    for strict in [false, true] {
        for checks in [
            vec![Check::pass("c", "n", "d")],
            vec![Check::warn("c", "n", "d", "f")],
            vec![Check::fail("c", "n", "d", "f")],
        ] {
            let report = Report::new(checks);
            let text = report.render(false, strict);
            assert_eq!(
                text.ends_with(" No fatal issues found.\n"),
                report.exit_code(strict) == 0
            );
        }
    }
}

#[test]
fn counts_add_up() {
    let report = Report::new(vec![
        Check::pass("a", "1", ""),
        Check::pass("a", "2", ""),
        Check::warn("b", "3", "", "f"),
        Check::fail("c", "4", "", "f"),
        Check::fail("c", "5", "", "f"),
    ]);
    assert_eq!(report.counts(), (2, 1, 2));
}

#[test]
fn shadow_check_passes_for_single_and_warns_for_multiple() {
    let one = shadow_check(&["/usr/local/bin/octos-tui".to_string()]);
    assert_eq!(one.status, CheckStatus::Pass);

    let two = shadow_check(&[
        "/opt/homebrew/bin/octos-tui".to_string(),
        "/home/u/.cargo/bin/octos-tui".to_string(),
    ]);
    assert_eq!(two.status, CheckStatus::Warn);
    assert!(two.detail.contains("2 octos-tui binaries"));
    assert!(two.fix.unwrap().contains(".cargo/bin/octos-tui"));
}

#[test]
fn shadow_check_lists_every_binary() {
    let three = shadow_check(&["/a/octos-tui".to_string(), "/b/octos-tui".to_string(), "/c/octos-tui".to_string()]);
    assert_eq!(three.detail, "3 octos-tui binaries on PATH; first wins: /a/octos-tui");
    assert_eq!(three.fix.as_deref(), Some("remove the extras: /b/octos-tui, /c/octos-tui"));
    assert_eq!(three.value.as_deref(), Some("/a/octos-tui | /b/octos-tui | /c/octos-tui"));
    let none = shadow_check(&[]);
    assert_eq!(none.status, CheckStatus::Pass);
    assert_eq!(none.fix, None);
    assert_eq!(none.detail, "octos-tui not found on $PATH");
}

#[test]
fn term_check_warns_when_unset_or_dumb() {
    assert_eq!(term_check(None).status, CheckStatus::Warn);
    assert_eq!(term_check(Some("dumb")).status, CheckStatus::Warn);
    assert_eq!(term_check(Some("xterm-256color")).status, CheckStatus::Pass);
}

#[test]
fn term_check_treats_empty_as_unset() {
    let empty = term_check(Some(""));
    assert_eq!(empty.status, CheckStatus::Warn);
    assert!(empty.detail.starts_with("TERM is unset"));
    let ok = term_check(Some("screen"));
    assert_eq!(ok.value.as_deref(), Some("screen"));
}

#[test]
fn locale_check_requires_utf8() {
    assert_eq!(
        locale_check(Some("en_US.UTF-8"), None, None).status,
        CheckStatus::Pass
    );
    assert_eq!(locale_check(Some("C"), None, None).status, CheckStatus::Warn);
    assert_eq!(locale_check(None, None, None).status, CheckStatus::Warn);
    assert_eq!(
        locale_check(Some("C"), Some("en_US.UTF-8"), None).status,
        CheckStatus::Pass
    );
}

#[test]
fn locale_check_precedence_and_spelling() {
    // LC_CTYPE outranks LANG, LC_ALL outranks both.
    assert_eq!(locale_check(Some("en_US.UTF-8"), None, Some("C")).status, CheckStatus::Warn);
    assert_eq!(locale_check(Some("C"), None, Some("de_DE.utf8")).status, CheckStatus::Pass);
    let c = locale_check(Some("C"), None, None);
    assert_eq!(c.detail, "locale `C` is not UTF-8; box-drawing and CJK may break");
}

#[test]
fn color_check_recognizes_truecolor_and_256() {
    assert_eq!(
        color_check(Some("xterm"), Some("truecolor")).status,
        CheckStatus::Pass
    );
    assert_eq!(
        color_check(Some("xterm-256color"), None).status,
        CheckStatus::Pass
    );
    assert_eq!(color_check(Some("xterm"), None).status, CheckStatus::Warn);
}

#[test]
fn color_check_details() {
    assert_eq!(color_check(None, Some("24bit")).detail, "truecolor (24-bit)");
    assert_eq!(color_check(Some("screen-256color"), None).detail, "256-color");
}

#[test]
fn cjk_check_always_passes() {
    assert_eq!(cjk_check().status, CheckStatus::Pass);
}

#[test]
fn structural_skew_check_passes_against_own_core_build() {
    let known = vec![
        "approval.typed.v1".to_string(),
        "pane.snapshots.v1".to_string(),
        "user.question.v1".to_string(),
        "session.hydrate.v1".to_string(),
    ];
    let check = protocol_skew_check(&build(), &known);
    assert_eq!(check.status, CheckStatus::Pass);
    assert_eq!(
        check.detail,
        "TUI requires 3 features; all known in octos-ui/v1 (schema v3)"
    );
    assert_eq!(check.value.as_deref(), Some("octos-ui/v1 schema v3"));
}

#[test]
fn structural_skew_check_fails_on_unknown_features() {
    let known = vec!["pane.snapshots.v1".to_string()];
    let check = protocol_skew_check(&build(), &known);
    assert_eq!(check.status, CheckStatus::Fail);
    assert_eq!(
        check.detail,
        "TUI requires features absent from its octos-core build: approval.typed.v1, user.question.v1"
    );
}

#[test]
fn compare_against_server_passes_for_full_protocol() {
    let check = compare_against_server(&server_caps(), &build());
    assert_eq!(check.status, CheckStatus::Pass, "{:?}", check);
    assert_eq!(
        check.detail,
        "compatible (server schema v3, all required features present)"
    );
}

#[test]
fn compare_against_server_warns_when_feature_missing() {
    let mut caps = server_caps();
    caps.supported_features.retain(|f| f != "user.question.v1");
    let check = compare_against_server(&caps, &build());
    assert_eq!(check.status, CheckStatus::Warn);
    assert!(check.detail.contains("user.question.v1"));
}

#[test]
fn compare_against_server_fails_on_older_schema() {
    let mut caps = server_caps();
    caps.version.schema_version = 2;
    let check = compare_against_server(&caps, &build());
    assert_eq!(check.status, CheckStatus::Fail);
    assert!(check.detail.contains("older"));
    assert_eq!(check.detail, "server schema v2 is older than the TUI's v3");
}

#[test]
fn compare_against_server_accepts_newer_schema() {
    let mut caps = server_caps();
    caps.version.schema_version = 7;
    assert_eq!(compare_against_server(&caps, &build()).status, CheckStatus::Pass);
}

#[test]
fn compare_against_server_fails_on_wrong_protocol_family() {
    let mut caps = server_caps();
    caps.version.protocol = "octos-ui/v2alpha".into();
    let check = compare_against_server(&caps, &build());
    assert_eq!(check.status, CheckStatus::Fail);
    assert_eq!(
        check.detail,
        "server speaks `octos-ui/v2alpha` but the TUI speaks `octos-ui/v1`"
    );
}

#[test]
fn writability_check_passes_for_writable_tempdir() {
    let check = writability_check("tmp", "/tmp", true, true);
    assert_eq!(check.status, CheckStatus::Pass);
}

#[test]
fn writability_check_warns_for_missing_dir() {
    let check = writability_check("missing", "/tmp/octos-nope", false, false);
    assert_eq!(check.status, CheckStatus::Warn);
    assert!(check.fix.unwrap().contains("mkdir -p"));
}

#[test]
fn writability_check_fails_for_read_only_dir() {
    let check = writability_check("data", "/ro", true, false);
    assert_eq!(check.status, CheckStatus::Fail);
    assert_eq!(check.detail, "/ro is not writable");
    assert_eq!(check.fix.as_deref(), Some("chmod u+w /ro"));
}

#[test]
fn stdio_program_is_the_first_shell_word() {
    assert_eq!(stdio_program("octos serve --stdio").as_deref(), Some("octos"));
    assert_eq!(
        stdio_program("'/opt/my tools/octos' serve").as_deref(),
        Some("/opt/my tools/octos")
    );
    assert_eq!(stdio_program("octos 'unterminated"), None);
    assert_eq!(stdio_program(""), None);
    assert_eq!(first_word(Some(vec!["a".to_string(), "b".to_string()])).as_deref(), Some("a"));
    assert_eq!(first_word(Some(Vec::new())), None);
    assert_eq!(first_word(None), None);
}

#[test]
fn stdio_command_check_outcomes() {
    let unparsed = stdio_command_check("octos 'x", None, None, None);
    assert_eq!(unparsed.status, CheckStatus::Fail);
    assert_eq!(unparsed.detail, "could not parse stdio command `octos 'x`");

    let missing = stdio_command_check("octos serve", Some("octos"), None, None);
    assert_eq!(missing.status, CheckStatus::Fail);
    assert_eq!(missing.detail, "`octos` not found on PATH");

    let found = stdio_command_check(
        "octos serve",
        Some("octos"),
        Some("/usr/bin/octos"),
        Some("  octos 1.2.3\n"),
    );
    assert_eq!(found.status, CheckStatus::Pass);
    assert_eq!(found.detail, "resolves to /usr/bin/octos (octos 1.2.3)");
    assert_eq!(found.value.as_deref(), Some("/usr/bin/octos"));

    let silent = stdio_command_check("octos", Some("octos"), Some("/usr/bin/octos"), Some(" \n"));
    assert_eq!(silent.detail, "resolves to /usr/bin/octos");
}

#[test]
fn transport_check_records_endpoint_or_mock_mode() {
    let ws = transport_check(Some("wss://example.test/ui"));
    assert_eq!(ws.status, CheckStatus::Warn);
    assert_eq!(ws.value.as_deref(), Some("wss://example.test/ui"));
    let mock = transport_check(None);
    assert_eq!(mock.status, CheckStatus::Pass);
    assert_eq!(mock.name, "transport");
}

#[test]
fn release_check_outcomes() {
    let newer = release_check(
        &ReleaseOutcome::Newer { current: "0.1.0".into(), latest: "0.2.0".into() },
        None,
    );
    assert_eq!(newer.status, CheckStatus::Warn);
    assert_eq!(newer.detail, "newer release available: 0.1.0 -> 0.2.0");
    assert_eq!(newer.fix.as_deref(), Some("run `octos-tui update`"));
    let brewed = release_check(
        &ReleaseOutcome::Newer { current: "0.1.0".into(), latest: "0.2.0".into() },
        Some("brew upgrade octos-tui"),
    );
    assert_eq!(brewed.fix.as_deref(), Some("brew upgrade octos-tui"));
    let current = release_check(
        &ReleaseOutcome::Current { current: "0.2.0".into(), latest: "0.2.0".into() },
        None,
    );
    assert_eq!(current.status, CheckStatus::Pass);
    assert_eq!(current.detail, "v0.2.0 is current");
    let offline = release_check(&ReleaseOutcome::Unreachable("timeout".into()), None);
    assert_eq!(offline.status, CheckStatus::Warn);
    let odd = release_check(&ReleaseOutcome::Unparsed("nightly".into()), None);
    assert_eq!(odd.detail, "could not parse versions (latest tag nightly)");
}

#[test]
fn network_and_binary_checks() {
    assert_eq!(network_check(&Reachability::Reachable).status, CheckStatus::Pass);
    assert_eq!(network_check(&Reachability::RateLimited).status, CheckStatus::Warn);
    assert_eq!(
        network_check(&Reachability::Unreachable("dns".into())).detail,
        "api.github.com unreachable: dns"
    );
    let ok = binary_check(Ok("/usr/bin/octos-tui"), "0.1.0");
    assert_eq!(ok.detail, "v0.1.0");
    assert_eq!(ok.value.as_deref(), Some("/usr/bin/octos-tui"));
    assert_eq!(binary_check(Err("gone"), "0.1.0").status, CheckStatus::Warn);
}

#[test]
fn status_words() {
    assert_eq!(CheckStatus::Pass.json_str(), "pass");
    assert_eq!(CheckStatus::Warn.glyph(), "[!]");
    assert_eq!(CheckStatus::Fail.glyph(), "[✗]");
}

#[test]
fn first_candidate_of_each_canonical_path_wins() {
    let pair = |a: &str, b: &str| (a.to_string(), b.to_string());
    let candidates = vec![
        pair("/usr/local/bin/octos-tui", "/opt/octos/octos-tui"),
        pair("/home/u/.cargo/bin/octos-tui", "/home/u/.cargo/bin/octos-tui"),
        pair("/opt/homebrew/bin/octos-tui", "/opt/octos/octos-tui"),
        pair("/usr/bin/octos-tui", "/usr/bin/octos-tui"),
        pair("/home/u/.cargo/bin/octos-tui", "/home/u/.cargo/bin/octos-tui"),
    ];
    assert_eq!(
        first_by_canonical(&candidates),
        vec![
            "/usr/local/bin/octos-tui".to_string(),
            "/home/u/.cargo/bin/octos-tui".to_string(),
            "/usr/bin/octos-tui".to_string(),
        ]
    );
    assert!(first_by_canonical(&[]).is_empty());
}
