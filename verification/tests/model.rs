use octos_tui::model::{
    ActivityItem, ActivityKind, AppState, AppUiSnapshot, FocusPane, GitPaneState, Message,
    PreviewId, SessionKey, SessionView, TaskId, TaskRuntimeState, TaskView, APP_UI_API_V1,
    MAX_ACTIVITY_ITEMS,
};
use octos_tui::snapshot::{
    UiArtifactPaneItem, UiArtifactPaneSnapshot, UiGitHistoryItem, UiGitPaneSnapshot,
    UiGitStatusItem, UiPaneSnapshot, UiWorkspacePaneEntry, UiWorkspacePaneSnapshot,
};

const PREVIEW: &str = "6f1d2a3b-4c5d-4e6f-8a9b-0c1d2e3f4a5b";

fn session(id: &str, tasks: Vec<TaskView>) -> SessionView {
    SessionView {
        id: SessionKey(id.into()),
        title: "test".into(),
        profile_id: Some("coding".into()),
        messages: vec![Message::system("ready")],
        tasks,
        live_reply: None,
    }
}

fn state_with_task(task: TaskView) -> AppState {
    AppState::new(vec![session("local:test", vec![task])], 0, "ready".into(), None, false)
}

#[test]
fn snapshot_seeds_artifacts_workspace_and_git_panes_from_mock_data() {
    let snapshot = AppUiSnapshot {
        sessions: vec![SessionView {
            id: SessionKey("local:test".into()),
            title: "M9 protocol draft".into(),
            profile_id: Some("coding".into()),
            messages: vec![Message::system("ready")],
            tasks: vec![TaskView {
                id: TaskId("task-1".into()),
                title: "protocol spike".into(),
                state: TaskRuntimeState::Running,
                runtime_detail: Some(format!("pending preview_id: {PREVIEW}")),
                output_tail: "bootstrap: seeded mock session\n".into(),
            }],
            live_reply: None,
        }],
        selected_session: 0,
        status: "Mock backend ready".into(),
        target: Some("local mock snapshot".into()),
        readonly: false,
    };

    let state = AppState::from_snapshot(snapshot);

    assert!(state.artifacts.items.iter().any(|item| {
        item.title == "AppUi bootstrap snapshot" && item.source == "local mock snapshot"
    }));
    assert!(state.artifacts.items.iter().any(|item| item.title == "protocol spike output tail"
        && item.status == "bootstrap: seeded mock session"));
    assert!(state.artifacts.items.iter().any(|item| {
        item.title == "protocol spike diff preview" && item.status == PREVIEW
    }));
    assert!(state.workspace.contract.iter().any(|line| line.contains(APP_UI_API_V1)));
    assert!(state
        .workspace
        .entries
        .iter()
        .any(|entry| entry.label == "protocol spike" && entry.detail == "running"));
    assert_eq!(state.git.branch, "m9.7/mock-snapshot");
    assert!(state
        .git
        .history
        .iter()
        .any(|entry| entry.summary == "seed missing pane snapshots"));
}

#[test]
fn protocol_snapshot_seeds_contract_fallbacks_when_pane_payloads_are_absent() {
    let snapshot = AppUiSnapshot {
        sessions: vec![],
        selected_session: 0,
        status: "Protocol backend connected".into(),
        target: Some("wss://example.test/ui-protocol".into()),
        readonly: true,
    };

    let state = AppState::from_snapshot(snapshot);

    assert!(state.artifacts.items.iter().any(|item| {
        item.title == "Protocol artifact stream" && item.status == "waiting for artifact payloads"
    }));
    assert_eq!(state.workspace.root, "wss://example.test/ui-protocol");
    assert!(state.workspace.contract.iter().any(|line| line.contains("pane.snapshots.v1")));
    assert!(state
        .workspace
        .contract
        .iter()
        .any(|line| line == "readonly launch: commands disabled"));
    assert_eq!(state.git.branch, "not supplied");
    assert!(state.git.status.iter().any(|item| item.detail.contains("protocol snapshot")));
}

#[test]
fn pane_snapshot_hydrates_workspace_artifacts_and_git() {
    let mut state = AppState::new(vec![], 0, "ready".into(), None, false);
    state.apply_pane_snapshot(UiPaneSnapshot {
        session_id: SessionKey("local:test".into()),
        workspace: Some(UiWorkspacePaneSnapshot {
            root: "/repo".into(),
            contract: vec!["feature pane.snapshots.v1".into()],
            entries: vec![UiWorkspacePaneEntry {
                path: "src/lib.rs".into(),
                label: "lib.rs".into(),
                depth: 1,
                kind: "file".into(),
                detail: Some("12 KB".into()),
            }],
        }),
        artifacts: Some(UiArtifactPaneSnapshot {
            items: vec![UiArtifactPaneItem {
                title: "lib.rs".into(),
                kind: "file".into(),
                path: Some("src/lib.rs".into()),
                source: Some("workspace".into()),
                status: "12 KB".into(),
            }],
        }),
        git: Some(UiGitPaneSnapshot {
            branch: Some("coding-green".into()),
            head: Some("abc1234".into()),
            status: vec![UiGitStatusItem {
                code: "M".into(),
                path: "src/lib.rs".into(),
                detail: "modified".into(),
            }],
            history: vec![UiGitHistoryItem {
                commit: "abc1234".into(),
                summary: "pane snapshots".into(),
            }],
        }),
    });

    assert_eq!(state.workspace.root, "/repo");
    assert_eq!(state.workspace.entries[0].label, "lib.rs");
    assert_eq!(state.artifacts.items[0].title, "lib.rs");
    assert_eq!(state.git.branch, "coding-green");
    assert_eq!(state.git.status[0].path, "src/lib.rs");
}

#[test]
fn pane_snapshot_clamps_selection_and_keeps_absent_panes() {
    let mut state = AppState::new(vec![], 0, "ready".into(), None, false);
    let branch_before = state.git.branch.clone();
    state.workspace.selected = 9;
    state.workspace.scroll = 9;
    state.apply_pane_snapshot(UiPaneSnapshot {
        session_id: SessionKey("local:test".into()),
        workspace: Some(UiWorkspacePaneSnapshot {
            root: "/repo".into(),
            contract: vec![],
            entries: vec![
                UiWorkspacePaneEntry {
                    path: "a".into(),
                    label: "a".into(),
                    depth: 0,
                    kind: "file".into(),
                    detail: None,
                },
                UiWorkspacePaneEntry {
                    path: "b".into(),
                    label: "b".into(),
                    depth: 0,
                    kind: "dir".into(),
                    detail: None,
                },
            ],
        }),
        artifacts: None,
        git: None,
    });
    assert_eq!(state.workspace.selected, 1);
    assert_eq!(state.workspace.scroll, 1);
    assert_eq!(state.workspace.entries[1].detail, "dir b");
    assert_eq!(state.git.branch, branch_before);
}

#[test]
fn focus_cycle_includes_m9_panes_and_returns_to_sessions() {
    let mut focus = FocusPane::Sessions;
    let mut visited = Vec::new();
    for _ in 0..7 {
        visited.push(focus);
        focus = focus.next();
    }

    assert_eq!(
        visited,
        vec![
            FocusPane::Sessions,
            FocusPane::Tasks,
            FocusPane::Artifacts,
            FocusPane::Transcript,
            FocusPane::Workspace,
            FocusPane::Git,
            FocusPane::Composer,
        ]
    );
    assert_eq!(focus, FocusPane::Sessions);
}

#[test]
fn active_diff_preview_id_extracts_existing_protocol_id_from_task_detail() {
    let state = state_with_task(TaskView {
        id: TaskId("task-1".into()),
        title: "diff".into(),
        state: TaskRuntimeState::Running,
        runtime_detail: Some(format!("pending preview_id: {PREVIEW}")),
        output_tail: String::new(),
    });

    assert_eq!(state.active_diff_preview_id(), Some(PreviewId(PREVIEW.to_string())));
}

#[test]
fn diff_preview_id_is_printed_in_canonical_form() {
    let upper = PREVIEW.to_uppercase();
    let state = state_with_task(TaskView {
        id: TaskId("task-1".into()),
        title: "diff".into(),
        state: TaskRuntimeState::Running,
        runtime_detail: Some(format!("Preview-ID {upper} ready")),
        output_tail: String::new(),
    });
    assert_eq!(state.active_diff_preview_id(), Some(PreviewId(PREVIEW.to_string())));
}

#[test]
fn no_preview_id_without_a_uuid() {
    let state = state_with_task(TaskView {
        id: TaskId("task-1".into()),
        title: "diff".into(),
        state: TaskRuntimeState::Running,
        runtime_detail: Some("preview_id: not-a-uuid".into()),
        output_tail: String::new(),
    });
    assert_eq!(state.active_diff_preview_id(), None);
}

#[test]
fn git_scroll_uses_top_origin_like_workspace_pane() {
    let mut git = GitPaneState::default();

    git.scroll_down(8);
    assert_eq!(git.scroll, 8);

    git.scroll_up(3);
    assert_eq!(git.scroll, 5);

    git.scroll_up(99);
    assert_eq!(git.scroll, 0);
}

#[test]
fn activity_feed_keeps_only_the_newest_items() {
    let mut state = AppState::new(vec![], 0, "ready".into(), None, false);
    for i in 0..(MAX_ACTIVITY_ITEMS + 5) {
        state.push_activity(ActivityItem::new(ActivityKind::Tool, &format!("t{i}"), "done"));
    }
    assert_eq!(state.activity.len(), MAX_ACTIVITY_ITEMS);
    assert_eq!(state.activity[0].title, "t5");
    assert_eq!(state.activity.last().unwrap().title, format!("t{}", MAX_ACTIVITY_ITEMS + 4));
}

#[test]
fn composer_drafts_round_trip_per_session() {
    let mut state = AppState::new(
        vec![session("local:a", vec![]), session("local:b", vec![])],
        0,
        "ready".into(),
        None,
        false,
    );
    state.composer = "draft for a".into();
    state.persist_composer_draft_for_selected_session();
    state.selected_session = 1;
    state.load_composer_draft_for_selected_session();
    assert_eq!(state.composer, "");
    state.composer = "draft for b".into();
    state.persist_composer_draft_for_selected_session();
    state.selected_session = 0;
    state.load_composer_draft_for_selected_session();
    assert_eq!(state.composer, "draft for a");
    state.clear_current_composer_draft();
    assert_eq!(state.composer, "");
    state.load_composer_draft_for_selected_session();
    assert_eq!(state.composer, "");
    state.selected_session = 1;
    state.load_composer_draft_for_selected_session();
    assert_eq!(state.composer, "draft for b");
}

#[test]
fn session_selection_wraps_around() {
    let mut state = AppState::new(
        vec![session("local:a", vec![]), session("local:b", vec![]), session("local:c", vec![])],
        2,
        "ready".into(),
        None,
        false,
    );
    state.select_next_session();
    assert_eq!(state.selected_session, 0);
    state.select_prev_session();
    assert_eq!(state.selected_session, 2);
}

#[test]
fn transcript_scroll_saturates() {
    let mut state = AppState::new(vec![], 0, "ready".into(), None, false);
    state.scroll_transcript_up(5);
    state.scroll_transcript_down(2);
    assert_eq!(state.transcript_scroll, 3);
    state.scroll_transcript_down(10);
    assert_eq!(state.transcript_scroll, 0);
    state.scroll_transcript_up(usize::MAX);
    state.scroll_transcript_up(1);
    assert_eq!(state.transcript_scroll, usize::MAX);
}

#[test]
fn pane_hydration_is_idempotent() {
    let panes = UiPaneSnapshot {
        session_id: SessionKey("local:test".into()),
        workspace: None,
        artifacts: Some(UiArtifactPaneSnapshot {
            items: vec![UiArtifactPaneItem {
                title: "notes.md".into(),
                kind: "file".into(),
                path: Some("docs/notes.md".into()),
                source: None,
                status: "1 KB".into(),
            }],
        }),
        git: Some(UiGitPaneSnapshot {
            branch: None,
            head: None,
            status: vec![],
            history: vec![],
        }),
    };
    let mut once = AppState::new(vec![], 0, "ready".into(), None, false);
    once.artifacts.selected = 4;
    once.git.scroll = 7;
    once.apply_pane_snapshot(panes.clone());
    let mut twice = once.clone();
    twice.apply_pane_snapshot(panes);
    assert_eq!(once.artifacts, twice.artifacts);
    assert_eq!(once.git, twice.git);
    assert_eq!(once.artifacts.items[0].source, "docs/notes.md");
    assert_eq!(once.artifacts.selected, 0);
    assert_eq!(once.git.branch, "not supplied");
    assert_eq!(once.git.scroll, 0);
}

#[test]
fn next_then_previous_session_restores_the_composer() {
    let mut state = AppState::new(
        vec![session("local:a", vec![]), session("local:b", vec![])],
        0,
        "ready".into(),
        None,
        false,
    );
    state.composer = "half-written".into();
    state.selected_task = 3;
    state.select_next_session();
    assert_eq!(state.selected_session, 1);
    assert_eq!(state.composer, "");
    state.select_prev_session();
    assert_eq!(state.selected_session, 0);
    assert_eq!(state.composer, "half-written");
    assert_eq!(state.selected_task, 0);
    assert!(state.composer_drafts.iter().all(|d| !d.text.is_empty()));
}

#[test]
fn selecting_in_empty_panes_is_a_no_op_even_at_the_top_index() {
    let mut state = AppState::new(vec![], 0, "ready".into(), None, false);
    state.artifacts.items.clear();
    state.artifacts.selected = usize::MAX;
    state.select_next_artifact();
    assert_eq!(state.artifacts.selected, usize::MAX);
    state.selected_session = usize::MAX;
    state.select_next_session();
    assert_eq!(state.selected_session, usize::MAX);
}
