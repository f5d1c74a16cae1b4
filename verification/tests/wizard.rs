use octos_tui::wizard::{
    MenuPreview, OnboardingWizardState, OnboardingWorkspaceValidation, WizardLocale,
    WizardProgress, WizardStep,
};

fn valid_workspace() -> OnboardingWorkspaceValidation {
    OnboardingWorkspaceValidation::Valid {
        canonical: "/tmp/ws".into(),
        writable: true,
        has_workspace_toml: false,
    }
}

fn state_with_profile() -> OnboardingWizardState {
    OnboardingWizardState {
        profile_id: Some("alice".into()),
        ..OnboardingWizardState::default()
    }
}

fn state_with_selection() -> OnboardingWizardState {
    let mut state = state_with_profile();
    state.provider.family_id = "gpt".into();
    state.provider.model_id = "gpt-x".into();
    state.provider.route.route_id = "openai".into();
    state
}

#[test]
fn fresh_state_starts_on_profile_step() {
    let state = OnboardingWizardState::default();
    let progress = WizardProgress::from_state(&state, None, true);
    assert_eq!(progress.current, WizardStep::Profile);
    assert_eq!(progress.current.number(), 1);
    let en = WizardLocale::english();
    assert_eq!(
        progress.header(&en),
        format!("Step 1 of 6 — {}", WizardStep::Profile.short_title(&en))
    );
    assert!(progress.done.iter().all(|done| !done));
}

#[test]
fn resolved_profile_advances_to_provider_step() {
    let progress = WizardProgress::from_state(&state_with_profile(), None, true);
    assert_eq!(progress.current, WizardStep::Provider);
    assert!(progress.done[0]);
}

#[test]
fn ready_selection_advances_to_connect_step() {
    let progress = WizardProgress::from_state(&state_with_selection(), None, true);
    assert_eq!(progress.current, WizardStep::Connect);
    assert!(progress.done[1], "provider step complete");
}

#[test]
fn validated_workspace_with_save_lands_on_activate() {
    let mut state = state_with_selection();
    state.provider_tested = true;
    state.provider_saved = true;
    state.workspace_validation = valid_workspace();

    let progress = WizardProgress::from_state(&state, None, true);
    assert_eq!(progress.current, WizardStep::Activate);
    assert!(progress.done[..5].iter().all(|done| *done));
    assert!(!progress.done[5], "activate never self-marks complete");
}

#[test]
fn checklist_marks_current_completed_and_pending() {
    let progress = WizardProgress::from_state(&state_with_profile(), None, true);
    let rows = match progress.checklist_preview(&WizardLocale::english()) {
        MenuPreview::KeyValues { rows, .. } => rows,
    };
    assert_eq!(rows.len(), 6);
    assert!(rows[0].label.starts_with("[x]"), "profile done");
    assert!(rows[1].label.starts_with('>'), "provider current");
    assert!(rows[2].label.starts_with("[ ]"), "connect pending");
}

#[test]
fn server_profile_without_local_create_skips_profile_step() {
    let state = OnboardingWizardState::default();
    let progress = WizardProgress::from_state(&state, Some("server-prof"), false);
    assert!(progress.done[0], "server-authenticated profile satisfies step 1");
    assert_eq!(progress.current, WizardStep::Provider);
}

#[test]
fn fallback_save_completes_save_but_not_connect() {
    let mut state = state_with_selection();
    state.provider_saved = true;
    state.provider.route.fallback = true;
    let progress = WizardProgress::from_state(&state, None, true);
    assert!(!progress.done[2]);
    assert!(progress.done[3]);
    assert_eq!(progress.current, WizardStep::Connect);
}

#[test]
fn checklist_rows_are_labelled_and_titled() {
    let progress = WizardProgress::from_state(&state_with_selection(), None, true);
    let (title, rows) = match progress.checklist_preview(&WizardLocale::english()) {
        MenuPreview::KeyValues { title, rows } => (title, rows),
    };
    assert_eq!(title.as_deref(), Some("Setup progress"));
    let labels: Vec<&str> = rows.iter().map(|r| r.label.as_str()).collect();
    assert_eq!(labels, vec!["[x] 1", "[x] 2", "> 3", "[ ] 4", "[ ] 5", "[ ] 6"]);
    assert_eq!(rows[2].value, "Connect");
}

#[test]
fn subtitle_and_footer() {
    let progress = WizardProgress::from_state(&state_with_selection(), None, true);
    let en = WizardLocale::english();
    assert_eq!(
        progress.subtitle(&en),
        format!("Step 3 of 6 — Connect\n{}", WizardStep::Connect.purpose(&en))
    );
    assert_eq!(progress.footer_hint(&en, "press Enter to test"), "Next: press Enter to test");
}

#[test]
fn step_numbers_and_keys() {
    let steps = [
        WizardStep::Profile,
        WizardStep::Provider,
        WizardStep::Connect,
        WizardStep::Save,
        WizardStep::Workspace,
        WizardStep::Activate,
    ];
    for (i, step) in steps.iter().enumerate() {
        assert_eq!(step.number(), i + 1);
    }
    assert_eq!(WizardStep::Workspace.key(), "workspace");
    assert_eq!(WizardStep::Save.short_title(&WizardLocale::english()), "Save");
}

fn texts(prefix: &str) -> Vec<String> {
    (1..=6).map(|n| format!("{prefix}{n}")).collect()
}

#[test]
fn locale_texts_fill_the_templates() {
    let locale = WizardLocale::new(
        texts("T"),
        texts("P"),
        "%{title} (%{number}/%{total})".to_owned(),
        "%{purpose} | %{header} | %{unknown}".to_owned(),
        "-> %{next}".to_owned(),
        "Fortschritt".to_owned(),
    )
    .expect("one text per step");
    let progress = WizardProgress::from_state(&state_with_selection(), None, true);
    assert_eq!(progress.header(&locale), "T3 (3/6)");
    assert_eq!(progress.subtitle(&locale), "P3 | T3 (3/6) | %{unknown}");
    assert_eq!(progress.footer_hint(&locale, "go"), "-> go");
    let (title, rows) = match progress.checklist_preview(&locale) {
        MenuPreview::KeyValues { title, rows } => (title, rows),
    };
    assert_eq!(title.as_deref(), Some("Fortschritt"));
    let values: Vec<&str> = rows.iter().map(|r| r.value.as_str()).collect();
    assert_eq!(values, vec!["T1", "T2", "T3", "T4", "T5", "T6"]);
}

#[test]
fn locale_needs_a_text_per_step() {
    let short = texts("T")[..5].to_vec();
    assert!(WizardLocale::new(short, texts("P"), String::new(), String::new(), String::new(), String::new()).is_none());
}
