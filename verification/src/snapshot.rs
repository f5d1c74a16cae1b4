//! Seeding the artifact, workspace and git panes from a bootstrap snapshot,
//! hydrating them from protocol pane snapshots, and finding diff-preview ids
//! mentioned in task text.

use vstd::prelude::*;

use crate::model::{
    AppState, AppUiSnapshot, ArtifactItem, ArtifactItemView, ArtifactPaneState,
    DiffPreviewPaneState, FocusPane, GitHistoryItem, GitHistoryView, GitPaneState, GitStatusItem,
    GitStatusView, PreviewId, SessionView, TaskOutputDetailState,
    TaskRuntimeState, TaskView, WorkspaceEntry, WorkspaceEntryView, WorkspacePaneState,
    APP_UI_API_V1, initial_run_state_spec, task_state_label,
};
use crate::text::{
    chars_contain, chars_start_with, chars_vec, contains, lines, lower_chars, occurs_at,
    split_lines, starts_with, string_of, to_ascii_lower, trim, trimmed,
};

verus! {

// ---------------------------------------------------------------------------
// Diff-preview ids in free text
// ---------------------------------------------------------------------------

/// The canonical text of the UUID that `token` spells, as the `uuid` crate
/// parses and prints it (`None` when `token` is not a UUID).
pub uninterp spec fn uuid_text(token: Seq<char>) -> Option<Seq<char>>;

/// `serde_json::from_value::<uuid::Uuid>` on a JSON string, printed back.
///
/// Trusted: the result is named by [`uuid_text`] of the token's characters;
/// deserialising a UUID from a JSON string parses the string with the `uuid`
/// crate and fails exactly when it does not parse.
#[verifier::external_body]
fn parse_uuid_token(token: &str) -> (r: Option<String>)
    ensures
        r is Some <==> uuid_text(token@) is Some,
        r matches Some(t) ==> uuid_text(token@) == Some(t@),
{
    serde_json::from_value::<uuid::Uuid>(serde_json::Value::String(token.to_owned())).ok().map(
        |u| u.to_string(),
    )
}

/// First position at or after `i` where `needle` occurs in `hay`, or -1.
pub open spec fn find_from(hay: Seq<char>, needle: Seq<char>, i: int) -> int
    decreases hay.len() + 1 - i,
{
    if i < 0 || i + needle.len() > hay.len() {
        -1
    } else if occurs_at(hay, needle, i) {
        i
    } else {
        find_from(hay, needle, i + 1)
    }
}

/// The three spellings of the preview-id marker.
pub open spec fn preview_markers() -> Seq<Seq<char>> {
    seq![
        seq!['p', 'r', 'e', 'v', 'i', 'e', 'w', '_', 'i', 'd'],
        seq!['p', 'r', 'e', 'v', 'i', 'e', 'w', '-', 'i', 'd'],
        seq!['p', 'r', 'e', 'v', 'i', 'e', 'w', ' ', 'i', 'd'],
    ]
}

/// The smallest end position (in characters) of a marker found in the
/// ASCII-lower-cased text, or -1 when no marker occurs.
pub open spec fn marker_end(lower: Seq<char>) -> int {
    let ends = Seq::new(
        3,
        |m: int|
            if find_from(lower, preview_markers()[m], 0) < 0 {
                -1
            } else {
                find_from(lower, preview_markers()[m], 0) + 10
            },
    );
    min_found(ends[0], min_found(ends[1], ends[2]))
}

/// The smaller of two positions, ignoring -1 (not found).
pub open spec fn min_found(a: int, b: int) -> int {
    if a < 0 {
        b
    } else if b < 0 {
        a
    } else if a <= b {
        a
    } else {
        b
    }
}

/// A character that may appear inside a UUID token.
pub open spec fn is_token_char(c: char) -> bool {
    ('0' <= c <= '9') || ('a' <= c <= 'f') || ('A' <= c <= 'F') || c == '-'
}

/// Length of the leading run of token characters.
pub open spec fn token_run(s: Seq<char>) -> int
    decreases s.len(),
{
    if s.len() > 0 && is_token_char(s[0]) {
        1 + token_run(s.drop_first())
    } else {
        0
    }
}

pub proof fn lemma_token_run(s: Seq<char>)
    ensures
        0 <= token_run(s) <= s.len(),
    decreases s.len(),
{
    if s.len() > 0 && is_token_char(s[0]) {
        lemma_token_run(s.drop_first());
    }
}

/// The pieces of `s` between non-token characters (std `str::split` with a
/// predicate): empty pieces included, one more piece than separators.
pub open spec fn split_tokens(s: Seq<char>) -> Seq<Seq<char>>
    decreases s.len(),
{
    proof {
        lemma_token_run(s);
    }
    if token_run(s) >= s.len() {
        seq![s]
    } else {
        seq![s.take(token_run(s))] + split_tokens(s.skip(token_run(s) + 1))
    }
}

/// The first piece of at least 32 characters that spells a UUID.
pub open spec fn first_uuid(tokens: Seq<Seq<char>>) -> Option<Seq<char>>
    decreases tokens.len(),
{
    if tokens.len() == 0 {
        None
    } else if tokens[0].len() >= 32 && uuid_text(tokens[0]) is Some {
        uuid_text(tokens[0])
    } else {
        first_uuid(tokens.drop_first())
    }
}

/// The preview id a text mentions: after the first marker (`preview_id`,
/// `preview-id` or `preview id`, any ASCII case), the first UUID-shaped token.
pub open spec fn preview_in_text(text: Seq<char>) -> Option<Seq<char>> {
    let start = marker_end(to_ascii_lower(text));
    if start < 0 {
        None
    } else {
        first_uuid(split_tokens(text.skip(start)))
    }
}

fn find_marker(lower: &[char], marker: &[char]) -> (r: Option<usize>)
    ensures
        r matches Some(i) ==> i == find_from(lower@, marker@, 0) && i + marker@.len() <= lower@.len(),
        r is None ==> find_from(lower@, marker@, 0) < 0,
{
    let n = lower.len();
    let m = marker.len();
    let mut i: usize = 0;
    while m <= n - i
        invariant
            i <= n,
            n == lower@.len(),
            m == marker@.len(),
            find_from(lower@, marker@, 0) == find_from(lower@, marker@, i as int),
        decreases n - i,
    {
        if crate::text::matches_at(lower, marker, i) {
            return Some(i);
        }
        if i == n {
            assert(find_from(lower@, marker@, n + 1) == -1);
            return None;
        }
        i = i + 1;
    }
    None
}

fn token_char(c: char) -> (b: bool)
    ensures
        b == is_token_char(c),
{
    ('0' <= c && c <= '9') || ('a' <= c && c <= 'f') || ('A' <= c && c <= 'F') || c == '-'
}

proof fn lemma_token_run_exact(s: Seq<char>, k: int)
    requires
        0 <= k <= s.len(),
        forall|j: int| 0 <= j < k ==> is_token_char(#[trigger] s[j]),
        k < s.len() ==> !is_token_char(s[k]),
    ensures
        token_run(s) == k,
    decreases s.len(),
{
    if k > 0 {
        assert forall|j: int| 0 <= j < k - 1 implies is_token_char(#[trigger] s.drop_first()[j]) by {
            assert(s.drop_first()[j] == s[j + 1]);
        }
        lemma_token_run_exact(s.drop_first(), k - 1);
    }
}

/// The diff-preview id a text mentions, as [`preview_in_text`] describes.
pub fn preview_id_from_text(text: &str) -> (r: Option<PreviewId>)
    ensures
        r matches Some(p) ==> preview_in_text(text@) == Some(p.0@),
        r is None ==> preview_in_text(text@) is None,
{
    let chars = chars_vec(text);
    let lower = lower_chars(chars.as_slice());
    let _lower_len = lower.len();
    let m0 = vec!['p', 'r', 'e', 'v', 'i', 'e', 'w', '_', 'i', 'd'];
    let m1 = vec!['p', 'r', 'e', 'v', 'i', 'e', 'w', '-', 'i', 'd'];
    let m2 = vec!['p', 'r', 'e', 'v', 'i', 'e', 'w', ' ', 'i', 'd'];
    assert(m0@ =~= preview_markers()[0]);
    assert(m1@ =~= preview_markers()[1]);
    assert(m2@ =~= preview_markers()[2]);
    let e0: Option<usize> = match find_marker(lower.as_slice(), m0.as_slice()) {
        Some(i) => Some(i + 10),
        None => None,
    };
    let e1: Option<usize> = match find_marker(lower.as_slice(), m1.as_slice()) {
        Some(i) => Some(i + 10),
        None => None,
    };
    let e2: Option<usize> = match find_marker(lower.as_slice(), m2.as_slice()) {
        Some(i) => Some(i + 10),
        None => None,
    };
    let e12 = match (e1, e2) {
        (None, b) => b,
        (a, None) => a,
        (Some(a), Some(b)) => if a <= b { Some(a) } else { Some(b) },
    };
    let start = match (e0, e12) {
        (None, b) => b,
        (a, None) => a,
        (Some(a), Some(b)) => if a <= b { Some(a) } else { Some(b) },
    };
    let ghost lo = to_ascii_lower(text@);
    assert(lower@ == lo);
    let start = match start {
        None => {
            assert(marker_end(lo) < 0);
            return None;
        },
        Some(s) => s,
    };
    assert(marker_end(lo) == start);
    let n = chars.len();
    let mut pos = start;
    assert(chars@.skip(start as int) == text@.skip(start as int));
    while pos <= n
        invariant
            chars@ == text@,
            n == chars@.len(),
            start <= n,
            preview_in_text(text@) == first_uuid(split_tokens(chars@.skip(pos as int))),
            pos <= n,
        decreases n + 1 - pos,
    {
        let ghost rest = chars@.skip(pos as int);
        let mut k = pos;
        while k < n && token_char(chars[k])
            invariant
                pos <= k <= n,
                n == chars@.len(),
                forall|j: int| pos <= j < k ==> is_token_char(#[trigger] chars@[j]),
            decreases n - k,
        {
            k = k + 1;
        }
        proof {
            assert forall|j: int| 0 <= j < k - pos implies is_token_char(#[trigger] rest[j]) by {
                assert(rest[j] == chars@[pos + j]);
            }
            if k < n {
                assert(rest[k - pos] == chars@[k as int]);
            }
            lemma_token_run_exact(rest, (k - pos) as int);
        }
        let token = crate::text::slice_chars(chars.as_slice(), pos, k);
        assert(token@ =~= rest.take((k - pos) as int));
        if k - pos >= 32 {
            let token_str = string_of(token.as_slice());
            match parse_uuid_token(token_str.as_str()) {
                Some(t) => {
                    return Some(PreviewId(t));
                },
                None => {},
            }
        }
        if k == n {
            assert(rest =~= token@);
            assert(split_tokens(rest) == seq![rest]);
            assert(seq![rest].drop_first() =~= Seq::<Seq<char>>::empty());
            assert(first_uuid(Seq::<Seq<char>>::empty()) is None);
            return None;
        }
        assert(rest.skip((k - pos) + 1) =~= chars@.skip(k + 1));
        let ghost tail = split_tokens(chars@.skip(k + 1));
        assert(split_tokens(rest) == seq![token@] + tail);
        assert((seq![token@] + tail).drop_first() =~= tail);
        pos = k + 1;
    }
    None
}

// ---------------------------------------------------------------------------
// Snapshot source
// ---------------------------------------------------------------------------

/// The first line of `ls` that is not blank, trimmed.
pub open spec fn first_non_blank(ls: Seq<Seq<char>>) -> Option<Seq<char>>
    decreases ls.len(),
{
    if ls.len() == 0 {
        None
    } else if trim(ls[0]).len() > 0 {
        Some(trim(ls[0]))
    } else {
        first_non_blank(ls.drop_first())
    }
}

/// The first non-blank line of `text`, trimmed.
pub fn first_non_empty_line(text: &str) -> (r: Option<String>)
    ensures
        r matches Some(l) ==> first_non_blank(lines(text@)) == Some(l@),
        r is None ==> first_non_blank(lines(text@)) is None,
{
    let chars = chars_vec(text);
    let all = split_lines(chars.as_slice());
    let n = all.len();
    let ghost ls = lines(text@);
    let mut i: usize = 0;
    assert(ls.skip(0) =~= ls);
    while i < n
        invariant
            n == all@.len(),
            n == ls.len(),
            ls == lines(chars@),
            ls == lines(text@),
            forall|k: int| 0 <= k < n ==> (#[trigger] all@[k])@ == ls[k],
            i <= n,
            first_non_blank(ls) == first_non_blank(ls.skip(i as int)),
        decreases n - i,
    {
        let t = trimmed(all[i].as_slice());
        assert(ls.skip(i as int)[0] == ls[i as int]);
        if t.len() > 0 {
            assert(t@ == trim(ls[i as int]));
            assert(first_non_blank(ls.skip(i as int)) == Some(t@));
            return Some(string_of(t.as_slice()));
        }
        assert(ls.skip(i as int).drop_first() =~= ls.skip(i + 1));
        i = i + 1;
    }
    assert(ls.skip(n as int) =~= Seq::<Seq<char>>::empty());
    None
}

/// Where a bootstrap snapshot came from.
#[derive(Debug, Clone, Copy, PartialEq, Eq, Structural)]
pub enum SnapshotSource {
    Mock,
    Protocol,
    Unknown,
}

/// `ws://` and `wss://`.
pub open spec fn ws_prefix() -> Seq<char> {
    seq!['w', 's', ':', '/', '/']
}

pub open spec fn wss_prefix() -> Seq<char> {
    seq!['w', 's', 's', ':', '/', '/']
}

/// Classification of a snapshot by its status line and target: a `mock`
/// mention (any ASCII case) wins, then a `protocol` status or a WebSocket
/// target, otherwise unknown.
pub open spec fn classify_spec(status: Seq<char>, target: Seq<char>) -> SnapshotSource {
    let s = to_ascii_lower(status);
    let t = to_ascii_lower(target);
    if contains(s, "mock"@) || contains(t, "mock"@) {
        SnapshotSource::Mock
    } else if contains(s, "protocol"@) || starts_with(t, ws_prefix()) || starts_with(t, wss_prefix()) {
        SnapshotSource::Protocol
    } else {
        SnapshotSource::Unknown
    }
}

/// The target's text, empty when there is none.
pub open spec fn target_text(target: Option<Seq<char>>) -> Seq<char> {
    match target {
        Some(t) => t,
        None => Seq::empty(),
    }
}

/// The characters of an optional string slice.
pub open spec fn opt_view(t: Option<&str>) -> Option<Seq<char>> {
    match t {
        Some(s) => Some(s@),
        None => None,
    }
}

/// The characters of an optional string.
pub open spec fn opt_string_view(t: Option<String>) -> Option<Seq<char>> {
    match t {
        Some(s) => Some(s@),
        None => None,
    }
}

/// The label shown when a snapshot has no target.
pub open spec fn source_label_spec(source: SnapshotSource) -> Seq<char> {
    match source {
        SnapshotSource::Mock => "mock snapshot"@,
        SnapshotSource::Protocol => "protocol snapshot"@,
        SnapshotSource::Unknown => "app-ui snapshot"@,
    }
}

impl SnapshotSource {
    pub fn classify(status: &str, target: Option<&str>) -> (r: Self)
        ensures
            r == classify_spec(status@, target_text(opt_view(target))),
    {
        let s = lower_chars(chars_vec(status).as_slice());
        let t = match target {
            Some(t) => lower_chars(chars_vec(t).as_slice()),
            None => Vec::new(),
        };
        assert(t@ == to_ascii_lower(target_text(opt_view(target))));
        let mock = chars_vec("mock");
        let protocol = chars_vec("protocol");
        let ws = vec!['w', 's', ':', '/', '/'];
        let wss = vec!['w', 's', 's', ':', '/', '/'];
        assert(ws@ =~= ws_prefix());
        assert(wss@ =~= wss_prefix());
        if chars_contain(s.as_slice(), mock.as_slice()) || chars_contain(t.as_slice(), mock.as_slice()) {
            Self::Mock
        } else if chars_contain(s.as_slice(), protocol.as_slice()) || chars_start_with(
            t.as_slice(),
            ws.as_slice(),
        ) || chars_start_with(t.as_slice(), wss.as_slice()) {
            Self::Protocol
        } else {
            Self::Unknown
        }
    }

    pub fn label(self) -> (s: &'static str)
        ensures
            s@ == source_label_spec(self),
    {
        match self {
            Self::Mock => "mock snapshot",
            Self::Protocol => "protocol snapshot",
            Self::Unknown => "app-ui snapshot",
        }
    }
}

// ---------------------------------------------------------------------------
// Seeding the artifact pane
// ---------------------------------------------------------------------------

pub open spec fn av(title: Seq<char>, kind: Seq<char>, source: Seq<char>, status: Seq<char>) -> ArtifactItemView {
    ArtifactItemView { title, kind, source, status }
}

/// The text of every row of an artifact list.
pub open spec fn artifact_views(items: Seq<ArtifactItem>) -> Seq<ArtifactItemView> {
    items.map_values(|i: ArtifactItem| i@)
}

/// The diff-preview id a task mentions: in its runtime detail first, then in
/// its output tail.
pub open spec fn task_preview(task: TaskView) -> Option<Seq<char>> {
    match task.runtime_detail {
        Some(d) => match preview_in_text(d@) {
            Some(p) => Some(p),
            None => preview_in_text(task.output_tail@),
        },
        None => preview_in_text(task.output_tail@),
    }
}

/// The artifact rows a task contributes: its first output line, then its
/// diff preview, each when present.
pub open spec fn task_artifacts(session: SessionView, task: TaskView) -> Seq<ArtifactItemView> {
    let tail = match first_non_blank(lines(task.output_tail@)) {
        Some(line) => seq![av(task.title@ + " output tail"@, "task-output"@, session.title@, line)],
        None => Seq::empty(),
    };
    let preview = match task_preview(task) {
        Some(p) => seq![av(task.title@ + " diff preview"@, "diff-preview"@, session.title@, p)],
        None => Seq::empty(),
    };
    tail + preview
}

pub open spec fn tasks_artifacts(session: SessionView, tasks: Seq<TaskView>) -> Seq<ArtifactItemView>
    decreases tasks.len(),
{
    if tasks.len() == 0 {
        Seq::empty()
    } else {
        tasks_artifacts(session, tasks.drop_last()) + task_artifacts(session, tasks.last())
    }
}

pub open spec fn sessions_artifacts(sessions: Seq<SessionView>) -> Seq<ArtifactItemView>
    decreases sessions.len(),
{
    if sessions.len() == 0 {
        Seq::empty()
    } else {
        sessions_artifacts(sessions.drop_last()) + tasks_artifacts(
            sessions.last(),
            sessions.last().tasks@,
        )
    }
}

/// The closing row that names where the snapshot came from.
pub open spec fn source_artifacts(source: SnapshotSource) -> Seq<ArtifactItemView> {
    match source {
        SnapshotSource::Mock => seq![
            av("M9.7 mock artifact manifest"@, "mock"@, "mock backend"@, "seeded"@),
        ],
        SnapshotSource::Protocol => seq![
            av(
                "Protocol artifact stream"@,
                "contract"@,
                "app-ui protocol"@,
                "waiting for artifact payloads"@,
            ),
        ],
        SnapshotSource::Unknown => Seq::empty(),
    }
}

/// The root label of the panes: the target, or the source's label.
pub open spec fn root_label(target: Option<Seq<char>>, source: SnapshotSource) -> Seq<char> {
    match target {
        Some(t) => t,
        None => source_label_spec(source),
    }
}

/// The seeded artifact rows.
pub open spec fn seed_artifacts_spec(
    sessions: Seq<SessionView>,
    status: Seq<char>,
    target: Option<Seq<char>>,
    readonly: bool,
    source: SnapshotSource,
) -> Seq<ArtifactItemView> {
    seq![
        av(
            "AppUi bootstrap snapshot"@,
            "snapshot"@,
            root_label(target, source),
            if readonly { "read-only"@ } else { status },
        ),
    ] + sessions_artifacts(sessions) + source_artifacts(source)
}

fn concat(a: &String, b: &str) -> (r: String)
    ensures
        r@ == a@ + b@,
{
    let mut r = a.clone();
    r.append(b);
    r
}

fn push_artifact(items: &mut Vec<ArtifactItem>, title: String, kind: &str, source: String, status: String)
    ensures
        artifact_views(final(items)@) == artifact_views(old(items)@).push(
            av(title@, kind@, source@, status@),
        ),
{
    items.push(ArtifactItem { title, kind: kind.to_owned(), source, status });
    assert(artifact_views(items@) =~= artifact_views(old(items)@).push(
        av(title@, kind@, source@, status@),
    ));
}

fn task_preview_id(task: &TaskView) -> (r: Option<PreviewId>)
    ensures
        r matches Some(p) ==> task_preview(*task) == Some(p.0@),
        r is None ==> task_preview(*task) is None,
{
    let from_detail = match &task.runtime_detail {
        Some(d) => preview_id_from_text(d.as_str()),
        None => None,
    };
    match from_detail {
        Some(p) => Some(p),
        None => preview_id_from_text(task.output_tail.as_str()),
    }
}

fn push_task_artifacts(items: &mut Vec<ArtifactItem>, session: &SessionView, task: &TaskView)
    ensures
        artifact_views(final(items)@) == artifact_views(old(items)@) + task_artifacts(*session, *task),
{
    let ghost start = artifact_views(items@);
    if let Some(line) = first_non_empty_line(task.output_tail.as_str()) {
        push_artifact(
            items,
            concat(&task.title, " output tail"),
            "task-output",
            session.title.clone(),
            line,
        );
    }
    let ghost mid = artifact_views(items@);
    if let Some(preview_id) = task_preview_id(task) {
        push_artifact(
            items,
            concat(&task.title, " diff preview"),
            "diff-preview",
            session.title.clone(),
            preview_id.0,
        );
    }
    let ghost tail = match first_non_blank(lines(task.output_tail@)) {
        Some(line) => seq![av(task.title@ + " output tail"@, "task-output"@, session.title@, line)],
        None => Seq::<ArtifactItemView>::empty(),
    };
    assert(mid =~= start + tail);
    assert(artifact_views(items@) =~= start + task_artifacts(*session, *task));
}

fn seed_artifacts(
    sessions: &[SessionView],
    status: &str,
    target: Option<&str>,
    readonly: bool,
    source: SnapshotSource,
) -> (pane: ArtifactPaneState)
    ensures
        artifact_views(pane.items@) == seed_artifacts_spec(
            sessions@,
            status@,
            opt_view(target),
            readonly,
            source,
        ),
        pane.selected == 0,
{
    let mut items: Vec<ArtifactItem> = Vec::new();
    let root = match target {
        Some(t) => t.to_owned(),
        None => source.label().to_owned(),
    };
    let first_status = if readonly {
        "read-only".to_owned()
    } else {
        status.to_owned()
    };
    push_artifact(&mut items, "AppUi bootstrap snapshot".to_owned(), "snapshot", root, first_status);
    let ghost head = artifact_views(items@);
    let n = sessions.len();
    let mut i: usize = 0;
    while i < n
        invariant
            n == sessions@.len(),
            i <= n,
            artifact_views(items@) == head + sessions_artifacts(sessions@.take(i as int)),
        decreases n - i,
    {
        let session = &sessions[i];
        let m = session.tasks.len();
        let mut j: usize = 0;
        let ghost before = artifact_views(items@);
        while j < m
            invariant
                i < n,
                n == sessions@.len(),
                *session == sessions@[i as int],
                m == session.tasks@.len(),
                j <= m,
                artifact_views(items@) == before + tasks_artifacts(*session, session.tasks@.take(j as int)),
            decreases m - j,
        {
            push_task_artifacts(&mut items, session, &session.tasks[j]);
            assert(session.tasks@.take(j + 1).drop_last() =~= session.tasks@.take(j as int));
            j = j + 1;
        }
        assert(session.tasks@.take(m as int) =~= session.tasks@);
        assert(sessions@.take(i + 1).drop_last() =~= sessions@.take(i as int));
        i = i + 1;
    }
    assert(sessions@.take(n as int) =~= sessions@);
    match source {
        SnapshotSource::Mock => push_artifact(
            &mut items,
            "M9.7 mock artifact manifest".to_owned(),
            "mock",
            "mock backend".to_owned(),
            "seeded".to_owned(),
        ),
        SnapshotSource::Protocol => push_artifact(
            &mut items,
            "Protocol artifact stream".to_owned(),
            "contract",
            "app-ui protocol".to_owned(),
            "waiting for artifact payloads".to_owned(),
        ),
        SnapshotSource::Unknown => {},
    }
    ArtifactPaneState { items, selected: 0 }
}

// ---------------------------------------------------------------------------
// Seeding the workspace pane
// ---------------------------------------------------------------------------

pub open spec fn wv(depth: usize, label: Seq<char>, detail: Seq<char>) -> WorkspaceEntryView {
    WorkspaceEntryView { depth, label, detail }
}

/// The text of every workspace row.
pub open spec fn entry_views(entries: Seq<WorkspaceEntry>) -> Seq<WorkspaceEntryView> {
    entries.map_values(|e: WorkspaceEntry| e@)
}

/// The characters of every string in a list.
pub open spec fn string_views(v: Seq<String>) -> Seq<Seq<char>> {
    v.map_values(|s: String| s@)
}

pub open spec fn task_label_spec(state: TaskRuntimeState) -> Seq<char> {
    match state {
        TaskRuntimeState::Pending => "pending"@,
        TaskRuntimeState::Running => "running"@,
        TaskRuntimeState::Completed => "done"@,
        TaskRuntimeState::Failed => "failed"@,
    }
}

/// The contract lines of the seeded workspace pane.
pub open spec fn seed_contract_spec(readonly: bool, source: SnapshotSource) -> Seq<Seq<char>> {
    seq![
        "api "@ + APP_UI_API_V1@,
        "snapshot.sessions -> Sessions, Tasks, Transcript"@,
        "snapshot task tails -> Artifacts hints"@,
        "snapshot target/status -> Workspace/Git fallback"@,
    ] + match source {
        SnapshotSource::Mock => seq!["mock backend seeds local M9.7 panes"@],
        SnapshotSource::Protocol => seq![
            "pane.snapshots.v1 hydrates panes when negotiated"@,
            "fallback panes render until server snapshot arrives"@,
        ],
        SnapshotSource::Unknown => Seq::empty(),
    } + if readonly {
        seq!["readonly launch: commands disabled"@]
    } else {
        Seq::empty()
    }
}

pub open spec fn tasks_entries(tasks: Seq<TaskView>) -> Seq<WorkspaceEntryView>
    decreases tasks.len(),
{
    if tasks.len() == 0 {
        Seq::empty()
    } else {
        tasks_entries(tasks.drop_last()).push(
            wv(2, tasks.last().title@, task_label_spec(tasks.last().state)),
        )
    }
}

/// The rows for one session: its title and id, its message count, then its
/// tasks (or a `none` row).
pub open spec fn session_entries(s: SessionView) -> Seq<WorkspaceEntryView> {
    seq![
        wv(1, s.title@, s.id.0@),
        wv(2, "messages"@, crate::text::decimal(s.messages@.len())),
    ] + if s.tasks@.len() == 0 {
        seq![wv(2, "tasks"@, "none"@)]
    } else {
        tasks_entries(s.tasks@)
    }
}

pub open spec fn sessions_entries(sessions: Seq<SessionView>) -> Seq<WorkspaceEntryView>
    decreases sessions.len(),
{
    if sessions.len() == 0 {
        Seq::empty()
    } else {
        sessions_entries(sessions.drop_last()) + session_entries(sessions.last())
    }
}

/// The seeded workspace rows.
pub open spec fn seed_entries_spec(sessions: Seq<SessionView>) -> Seq<WorkspaceEntryView> {
    seq![wv(0, "sessions"@, crate::text::decimal(sessions.len()) + " hydrated"@)] + sessions_entries(
        sessions,
    )
}

fn push_line(v: &mut Vec<String>, line: String)
    ensures
        string_views(final(v)@) == string_views(old(v)@).push(line@),
{
    v.push(line);
    assert(string_views(v@) =~= string_views(old(v)@).push(line@));
}

fn push_entry(v: &mut Vec<WorkspaceEntry>, depth: usize, label: String, detail: String)
    ensures
        entry_views(final(v)@) == entry_views(old(v)@).push(wv(depth, label@, detail@)),
{
    v.push(WorkspaceEntry { depth, label, detail });
    assert(entry_views(v@) =~= entry_views(old(v)@).push(wv(depth, label@, detail@)));
}

fn decimal_string(n: usize) -> (s: String)
    ensures
        s@ == crate::text::decimal(n as nat),
{
    let mut s = String::new();
    crate::text::push_decimal(&mut s, n);
    s
}

fn seed_workspace(
    sessions: &[SessionView],
    target: Option<&str>,
    readonly: bool,
    source: SnapshotSource,
) -> (pane: WorkspacePaneState)
    ensures
        pane.root@ == root_label(opt_view(target), source),
        string_views(pane.contract@) == seed_contract_spec(readonly, source),
        entry_views(pane.entries@) == seed_entries_spec(sessions@),
        pane.selected == 0,
        pane.scroll == 0,
{
    let mut contract: Vec<String> = Vec::new();
    push_line(&mut contract, concat(&"api ".to_owned(), APP_UI_API_V1));
    push_line(&mut contract, "snapshot.sessions -> Sessions, Tasks, Transcript".to_owned());
    push_line(&mut contract, "snapshot task tails -> Artifacts hints".to_owned());
    push_line(&mut contract, "snapshot target/status -> Workspace/Git fallback".to_owned());
    match source {
        SnapshotSource::Mock => {
            push_line(&mut contract, "mock backend seeds local M9.7 panes".to_owned());
        },
        SnapshotSource::Protocol => {
            push_line(&mut contract, "pane.snapshots.v1 hydrates panes when negotiated".to_owned());
            push_line(&mut contract, "fallback panes render until server snapshot arrives".to_owned());
        },
        SnapshotSource::Unknown => {},
    }
    if readonly {
        push_line(&mut contract, "readonly launch: commands disabled".to_owned());
    }
    assert(string_views(contract@) =~= seed_contract_spec(readonly, source));
    let mut entries: Vec<WorkspaceEntry> = Vec::new();
    push_entry(&mut entries, 0, "sessions".to_owned(), concat(&decimal_string(sessions.len()), " hydrated"));
    let ghost head = entry_views(entries@);
    let n = sessions.len();
    let mut i: usize = 0;
    while i < n
        invariant
            n == sessions@.len(),
            i <= n,
            entry_views(entries@) == head + sessions_entries(sessions@.take(i as int)),
        decreases n - i,
    {
        let session = &sessions[i];
        let ghost before = entry_views(entries@);
        push_entry(&mut entries, 1, session.title.clone(), session.id.0.clone());
        push_entry(&mut entries, 2, "messages".to_owned(), decimal_string(session.messages.len()));
        let ghost mid = entry_views(entries@);
        let m = session.tasks.len();
        if m == 0 {
            push_entry(&mut entries, 2, "tasks".to_owned(), "none".to_owned());
        } else {
            let mut j: usize = 0;
            while j < m
                invariant
                    i < n,
                    n == sessions@.len(),
                    *session == sessions@[i as int],
                    m == session.tasks@.len(),
                    j <= m,
                    entry_views(entries@) == mid + tasks_entries(session.tasks@.take(j as int)),
                decreases m - j,
            {
                let task = &session.tasks[j];
                push_entry(&mut entries, 2, task.title.clone(), task_state_label(task.state).to_owned());
                assert(session.tasks@.take(j + 1).drop_last() =~= session.tasks@.take(j as int));
                j = j + 1;
            }
            assert(session.tasks@.take(m as int) =~= session.tasks@);
        }
        assert(entry_views(entries@) =~= before + session_entries(*session));
        assert(sessions@.take(i + 1).drop_last() =~= sessions@.take(i as int));
        i = i + 1;
    }
    assert(sessions@.take(n as int) =~= sessions@);
    let root = match target {
        Some(t) => t.to_owned(),
        None => source.label().to_owned(),
    };
    WorkspacePaneState { root, contract, entries, selected: 0, scroll: 0 }
}

// ---------------------------------------------------------------------------
// Seeding the git pane
// ---------------------------------------------------------------------------

pub open spec fn gsv(code: Seq<char>, path: Seq<char>, detail: Seq<char>) -> GitStatusView {
    GitStatusView { code, path, detail }
}

pub open spec fn ghv(commit: Seq<char>, summary: Seq<char>) -> GitHistoryView {
    GitHistoryView { commit, summary }
}

pub open spec fn status_views(v: Seq<GitStatusItem>) -> Seq<GitStatusView> {
    v.map_values(|i: GitStatusItem| i@)
}

pub open spec fn history_views(v: Seq<GitHistoryItem>) -> Seq<GitHistoryView> {
    v.map_values(|i: GitHistoryItem| i@)
}

/// The fallback git pane for a snapshot source: mock data for a mock backend,
/// placeholders otherwise.
pub open spec fn seed_git_matches(source: SnapshotSource, git: GitPaneState) -> bool {
    &&& git.selected == 0
    &&& git.scroll == 0
    &&& match source {
        SnapshotSource::Mock => {
            &&& git.branch@ == "m9.7/mock-snapshot"@
            &&& git.head matches Some(h) && h@ == "mock-head"@
            &&& status_views(git.status@) == seq![
                gsv("M"@, "src/model.rs"@, "pane state contract"@),
                gsv("M"@, "src/app.rs"@, "pane rendering surface"@),
            ]
            &&& history_views(git.history@) == seq![
                ghv("mock-m97"@, "seed missing pane snapshots"@),
                ghv("mock-m9"@, "app-ui protocol TUI scaffold"@),
            ]
        },
        SnapshotSource::Protocol => {
            &&& git.branch@ == "not supplied"@
            &&& git.head is None
            &&& status_views(git.status@) == seq![
                gsv("?"@, "git status"@, "protocol snapshot does not include git state yet"@),
            ]
            &&& history_views(git.history@) == seq![ghv("pending"@, "waiting for git history snapshot"@)]
        },
        SnapshotSource::Unknown => {
            &&& git.branch@ == "unknown"@
            &&& git.head is None
            &&& status_views(git.status@) == seq![
                gsv("?"@, "git status"@, "snapshot source did not include git state"@),
            ]
            &&& history_views(git.history@) == seq![ghv("pending"@, "no git history in snapshot"@)]
        },
    }
}

fn status_item(code: &str, path: &str, detail: &str) -> (i: GitStatusItem)
    ensures
        i@ == gsv(code@, path@, detail@),
{
    GitStatusItem { code: code.to_owned(), path: path.to_owned(), detail: detail.to_owned() }
}

fn history_item(commit: &str, summary: &str) -> (i: GitHistoryItem)
    ensures
        i@ == ghv(commit@, summary@),
{
    GitHistoryItem { commit: commit.to_owned(), summary: summary.to_owned() }
}

pub fn seed_git(source: SnapshotSource) -> (git: GitPaneState)
    ensures
        seed_git_matches(source, git),
{
    match source {
        SnapshotSource::Mock => {
            let status = vec![
                status_item("M", "src/model.rs", "pane state contract"),
                status_item("M", "src/app.rs", "pane rendering surface"),
            ];
            let history = vec![
                history_item("mock-m97", "seed missing pane snapshots"),
                history_item("mock-m9", "app-ui protocol TUI scaffold"),
            ];
            let git = GitPaneState {
                branch: "m9.7/mock-snapshot".to_owned(),
                head: Some("mock-head".to_owned()),
                status,
                history,
                selected: 0,
                scroll: 0,
            };
            assert(status_views(git.status@) =~= seq![
                gsv("M"@, "src/model.rs"@, "pane state contract"@),
                gsv("M"@, "src/app.rs"@, "pane rendering surface"@),
            ]);
            assert(history_views(git.history@) =~= seq![
                ghv("mock-m97"@, "seed missing pane snapshots"@),
                ghv("mock-m9"@, "app-ui protocol TUI scaffold"@),
            ]);
            git
        },
        SnapshotSource::Protocol => {
            let git = GitPaneState {
                branch: "not supplied".to_owned(),
                head: None,
                status: vec![
                    status_item("?", "git status", "protocol snapshot does not include git state yet"),
                ],
                history: vec![history_item("pending", "waiting for git history snapshot")],
                selected: 0,
                scroll: 0,
            };
            assert(status_views(git.status@) =~= seq![
                gsv("?"@, "git status"@, "protocol snapshot does not include git state yet"@),
            ]);
            assert(history_views(git.history@) =~= seq![
                ghv("pending"@, "waiting for git history snapshot"@),
            ]);
            git
        },
        SnapshotSource::Unknown => {
            let git = GitPaneState {
                branch: "unknown".to_owned(),
                head: None,
                status: vec![status_item("?", "git status", "snapshot source did not include git state")],
                history: vec![history_item("pending", "no git history in snapshot")],
                selected: 0,
                scroll: 0,
            };
            assert(status_views(git.status@) =~= seq![
                gsv("?"@, "git status"@, "snapshot source did not include git state"@),
            ]);
            assert(history_views(git.history@) =~= seq![ghv("pending"@, "no git history in snapshot"@)]);
            git
        },
    }
}

// ---------------------------------------------------------------------------
// Building the application state
// ---------------------------------------------------------------------------

/// The selection a new state starts on: the requested session, clamped to
/// the last one (0 when there are none).
pub open spec fn clamp_selection(len: int, selected: usize) -> usize {
    if len == 0 {
        0
    } else if selected <= len - 1 {
        selected
    } else {
        (len - 1) as usize
    }
}

/// What a freshly built state holds: the sessions and snapshot fields as
/// given, the panes seeded from them, and every other field at rest.
pub open spec fn is_fresh_state(
    st: AppState,
    sessions: Seq<SessionView>,
    selected_session: usize,
    status: Seq<char>,
    target: Option<Seq<char>>,
    readonly: bool,
) -> bool {
    let source = classify_spec(status, target_text(target));
    let sel = clamp_selection(sessions.len() as int, selected_session);
    &&& st.sessions@ == sessions
    &&& st.selected_session == sel
    &&& st.selected_task == 0
    &&& st.transcript_scroll == 0
    &&& st.focus == FocusPane::Composer
    &&& artifact_views(st.artifacts.items@) == seed_artifacts_spec(sessions, status, target, readonly, source)
    &&& st.artifacts.selected == 0
    &&& st.workspace.root@ == root_label(target, source)
    &&& string_views(st.workspace.contract@) == seed_contract_spec(readonly, source)
    &&& entry_views(st.workspace.entries@) == seed_entries_spec(sessions)
    &&& st.workspace.selected == 0
    &&& st.workspace.scroll == 0
    &&& seed_git_matches(source, st.git)
    &&& st.composer@.len() == 0
    &&& st.composer_drafts@.len() == 0
    &&& st.pending_messages@.len() == 0
    &&& st.status@ == status
    &&& opt_string_view(st.target) == target
    &&& st.readonly == readonly
    &&& st.protocol_version@ == APP_UI_API_V1@
    &&& st.run_state == initial_run_state_spec(sessions, sel as int)
    &&& st.approval_auto_open
    &&& st.approval is None
    &&& st.task_output.is_closed()
    &&& st.task_output_cursors@.len() == 0
    &&& st.diff_preview.is_closed()
    &&& st.activity@.len() == 0
}

impl AppState {
    pub fn new(
        sessions: Vec<SessionView>,
        selected_session: usize,
        status: String,
        target: Option<String>,
        readonly: bool,
    ) -> (st: Self)
        ensures
            is_fresh_state(st, sessions@, selected_session, status@, opt_string_view(target), readonly),
    {
        let target_ref: Option<&str> = match &target {
            Some(t) => Some(t.as_str()),
            None => None,
        };
        let source = SnapshotSource::classify(status.as_str(), target_ref);
        let artifacts = seed_artifacts(sessions.as_slice(), status.as_str(), target_ref, readonly, source);
        let workspace = seed_workspace(sessions.as_slice(), target_ref, readonly, source);
        let git = seed_git(source);
        let selected_session = if sessions.len() == 0 {
            0
        } else if selected_session <= sessions.len() - 1 {
            selected_session
        } else {
            sessions.len() - 1
        };
        let run_state = crate::model::initial_run_state(sessions.as_slice(), selected_session);
        AppState {
            sessions,
            selected_session,
            selected_task: 0,
            transcript_scroll: 0,
            focus: FocusPane::Composer,
            artifacts,
            workspace,
            git,
            composer: String::new(),
            composer_drafts: Vec::new(),
            pending_messages: Vec::new(),
            status,
            target,
            readonly,
            protocol_version: APP_UI_API_V1,
            run_state,
            approval_auto_open: true,
            approval: None,
            task_output: TaskOutputDetailState::default(),
            task_output_cursors: Vec::new(),
            diff_preview: DiffPreviewPaneState::default(),
            activity: Vec::new(),
        }
    }

    pub fn from_snapshot(snapshot: AppUiSnapshot) -> (st: Self)
        ensures
            is_fresh_state(
                st,
                snapshot.sessions@,
                snapshot.selected_session,
                snapshot.status@,
                opt_string_view(snapshot.target),
                snapshot.readonly,
            ),
    {
        Self::new(
            snapshot.sessions,
            snapshot.selected_session,
            snapshot.status,
            snapshot.target,
            snapshot.readonly,
        )
    }

    /// The diff preview the selected task mentions.
    pub fn active_diff_preview_id(&self) -> (r: Option<PreviewId>)
        ensures
            match self.active_task_spec() {
                Some(t) => match task_preview(t) {
                    Some(p) => r matches Some(id) && id.0@ == p,
                    None => r is None,
                },
                None => r is None,
            },
    {
        match self.active_task() {
            Some(task) => task_preview_id(task),
            None => None,
        }
    }
}

// ---------------------------------------------------------------------------
// Hydrating panes from a protocol pane snapshot
// ---------------------------------------------------------------------------

#[derive(Debug, Clone, PartialEq, Eq)]
pub struct UiArtifactPaneItem {
    pub title: String,
    pub kind: String,
    pub path: Option<String>,
    pub source: Option<String>,
    pub status: String,
}

#[derive(Debug, Clone, PartialEq, Eq)]
pub struct UiArtifactPaneSnapshot {
    pub items: Vec<UiArtifactPaneItem>,
}

#[derive(Debug, Clone, PartialEq, Eq)]
pub struct UiWorkspacePaneEntry {
    pub path: String,
    pub label: String,
    pub depth: usize,
    pub kind: String,
    pub detail: Option<String>,
}

#[derive(Debug, Clone, PartialEq, Eq)]
pub struct UiWorkspacePaneSnapshot {
    pub root: String,
    pub contract: Vec<String>,
    pub entries: Vec<UiWorkspacePaneEntry>,
}

#[derive(Debug, Clone, PartialEq, Eq)]
pub struct UiGitStatusItem {
    pub code: String,
    pub path: String,
    pub detail: String,
}

#[derive(Debug, Clone, PartialEq, Eq)]
pub struct UiGitHistoryItem {
    pub commit: String,
    pub summary: String,
}

#[derive(Debug, Clone, PartialEq, Eq)]
pub struct UiGitPaneSnapshot {
    pub branch: Option<String>,
    pub head: Option<String>,
    pub status: Vec<UiGitStatusItem>,
    pub history: Vec<UiGitHistoryItem>,
}

/// The `pane.snapshots.v1` payload: each pane present replaces the seeded one.
#[derive(Debug, Clone, PartialEq, Eq)]
pub struct UiPaneSnapshot {
    pub session_id: crate::model::SessionKey,
    pub workspace: Option<UiWorkspacePaneSnapshot>,
    pub artifacts: Option<UiArtifactPaneSnapshot>,
    pub git: Option<UiGitPaneSnapshot>,
}

/// An artifact row from a protocol item: its source, else its path, else
/// `protocol`.
pub open spec fn protocol_artifact(i: UiArtifactPaneItem) -> ArtifactItemView {
    av(
        i.title@,
        i.kind@,
        match i.source {
            Some(s) => s@,
            None => match i.path {
                Some(p) => p@,
                None => "protocol"@,
            },
        },
        i.status@,
    )
}

/// A workspace row from a protocol entry: its detail, else `<kind> <path>`.
pub open spec fn protocol_entry(e: UiWorkspacePaneEntry) -> WorkspaceEntryView {
    wv(
        e.depth,
        e.label@,
        match e.detail {
            Some(d) => d@,
            None => e.kind@ + " "@ + e.path@,
        },
    )
}

pub open spec fn protocol_artifacts(items: Seq<UiArtifactPaneItem>) -> Seq<ArtifactItemView> {
    items.map_values(|i: UiArtifactPaneItem| protocol_artifact(i))
}

pub open spec fn protocol_entries(entries: Seq<UiWorkspacePaneEntry>) -> Seq<WorkspaceEntryView> {
    entries.map_values(|e: UiWorkspacePaneEntry| protocol_entry(e))
}

pub open spec fn protocol_status(items: Seq<UiGitStatusItem>) -> Seq<GitStatusView> {
    items.map_values(|i: UiGitStatusItem| gsv(i.code@, i.path@, i.detail@))
}

pub open spec fn protocol_history(items: Seq<UiGitHistoryItem>) -> Seq<GitHistoryView> {
    items.map_values(|i: UiGitHistoryItem| ghv(i.commit@, i.summary@))
}

pub open spec fn min_usize(a: usize, b: int) -> usize {
    if a <= b {
        a
    } else {
        b as usize
    }
}

fn artifact_from_protocol(i: &UiArtifactPaneItem) -> (a: ArtifactItem)
    ensures
        a@ == protocol_artifact(*i),
{
    let source = match &i.source {
        Some(s) => s.clone(),
        None => match &i.path {
            Some(p) => p.clone(),
            None => "protocol".to_owned(),
        },
    };
    ArtifactItem { title: i.title.clone(), kind: i.kind.clone(), source, status: i.status.clone() }
}

fn entry_from_protocol(e: &UiWorkspacePaneEntry) -> (w: WorkspaceEntry)
    ensures
        w@ == protocol_entry(*e),
{
    let detail = match &e.detail {
        Some(d) => d.clone(),
        None => {
            let mut d = e.kind.clone();
            d.append(" ");
            d.append(e.path.as_str());
            d
        },
    };
    WorkspaceEntry { depth: e.depth, label: e.label.clone(), detail }
}

/// The last row index of a pane with `len` rows (0 when it is empty).
pub open spec fn last_row(len: int) -> int {
    if len <= 0 {
        0
    } else {
        len - 1
    }
}

/// The artifact pane after a protocol artifact snapshot: its rows, with the
/// selection clamped to them.
pub open spec fn artifacts_hydrated(
    old: ArtifactPaneState,
    a: UiArtifactPaneSnapshot,
    new: ArtifactPaneState,
) -> bool {
    &&& artifact_views(new.items@) == protocol_artifacts(a.items@)
    &&& new.selected == min_usize(old.selected, last_row(a.items@.len() as int))
}

/// The workspace pane after a protocol workspace snapshot.
pub open spec fn workspace_hydrated(
    old: WorkspacePaneState,
    w: UiWorkspacePaneSnapshot,
    new: WorkspacePaneState,
) -> bool {
    &&& new.root@ == w.root@
    &&& new.contract@ == w.contract@
    &&& entry_views(new.entries@) == protocol_entries(w.entries@)
    &&& new.selected == min_usize(old.selected, last_row(w.entries@.len() as int))
    &&& new.scroll == min_usize(old.scroll, new.selected as int)
}

/// The git pane after a protocol git snapshot; a missing branch reads
/// `not supplied`.
pub open spec fn git_hydrated(old: GitPaneState, g: UiGitPaneSnapshot, new: GitPaneState) -> bool {
    &&& new.branch@ == match g.branch {
        Some(b) => b@,
        None => "not supplied"@,
    }
    &&& opt_string_view(new.head) == opt_string_view(g.head)
    &&& status_views(new.status@) == protocol_status(g.status@)
    &&& history_views(new.history@) == protocol_history(g.history@)
    &&& new.selected == min_usize(
        old.selected,
        last_row((g.status@.len() + g.history@.len()) as int),
    )
    &&& new.scroll == min_usize(old.scroll, new.selected as int)
}

fn hydrate_artifacts(old: &ArtifactPaneState, a: &UiArtifactPaneSnapshot) -> (new: ArtifactPaneState)
    ensures
        artifacts_hydrated(*old, *a, new),
{
    let mut items: Vec<ArtifactItem> = Vec::new();
    let n = a.items.len();
    let mut i: usize = 0;
    while i < n
        invariant
            n == a.items@.len(),
            i <= n,
            artifact_views(items@) == protocol_artifacts(a.items@.take(i as int)),
        decreases n - i,
    {
        let ghost before = items@;
        let x = artifact_from_protocol(&a.items[i]);
        items.push(x);
        assert(artifact_views(items@) =~= artifact_views(before).push(x@));
        assert(protocol_artifacts(a.items@.take(i + 1)) =~= protocol_artifacts(
            a.items@.take(i as int),
        ).push(protocol_artifact(a.items@[i as int])));
        i = i + 1;
    }
    assert(a.items@.take(n as int) =~= a.items@);
    let cap = n.saturating_sub(1);
    let selected = if old.selected > cap {
        cap
    } else {
        old.selected
    };
    ArtifactPaneState { items, selected }
}

fn hydrate_workspace(old: &WorkspacePaneState, w: &UiWorkspacePaneSnapshot) -> (new: WorkspacePaneState)
    ensures
        workspace_hydrated(*old, *w, new),
{
    let mut entries: Vec<WorkspaceEntry> = Vec::new();
    let n = w.entries.len();
    let mut i: usize = 0;
    while i < n
        invariant
            n == w.entries@.len(),
            i <= n,
            entry_views(entries@) == protocol_entries(w.entries@.take(i as int)),
        decreases n - i,
    {
        let ghost before = entries@;
        let e = entry_from_protocol(&w.entries[i]);
        entries.push(e);
        assert(entry_views(entries@) =~= entry_views(before).push(e@));
        assert(protocol_entries(w.entries@.take(i + 1)) =~= protocol_entries(
            w.entries@.take(i as int),
        ).push(protocol_entry(w.entries@[i as int])));
        i = i + 1;
    }
    assert(w.entries@.take(n as int) =~= w.entries@);
    let cap = n.saturating_sub(1);
    let selected = if old.selected > cap {
        cap
    } else {
        old.selected
    };
    let scroll = if old.scroll > selected {
        selected
    } else {
        old.scroll
    };
    let contract = w.contract.clone();
    assert(contract@ =~= w.contract@);
    WorkspacePaneState { root: w.root.clone(), contract, entries, selected, scroll }
}

fn hydrate_git(old: &GitPaneState, g: &UiGitPaneSnapshot) -> (new: GitPaneState)
    requires
        g.status@.len() + g.history@.len() <= usize::MAX,
    ensures
        git_hydrated(*old, *g, new),
{
    let branch = match &g.branch {
        Some(b) => b.clone(),
        None => "not supplied".to_owned(),
    };
    let head = match &g.head {
        Some(h) => Some(h.clone()),
        None => None,
    };
    let mut status: Vec<GitStatusItem> = Vec::new();
    let n = g.status.len();
    let mut i: usize = 0;
    while i < n
        invariant
            n == g.status@.len(),
            i <= n,
            status_views(status@) == protocol_status(g.status@.take(i as int)),
        decreases n - i,
    {
        let item = &g.status[i];
        let ghost before = status@;
        let x = GitStatusItem {
            code: item.code.clone(),
            path: item.path.clone(),
            detail: item.detail.clone(),
        };
        status.push(x);
        assert(status_views(status@) =~= status_views(before).push(x@));
        assert(protocol_status(g.status@.take(i + 1)) =~= protocol_status(
            g.status@.take(i as int),
        ).push(gsv(item.code@, item.path@, item.detail@)));
        i = i + 1;
    }
    assert(g.status@.take(n as int) =~= g.status@);
    let mut history: Vec<GitHistoryItem> = Vec::new();
    let m = g.history.len();
    let mut j: usize = 0;
    while j < m
        invariant
            m == g.history@.len(),
            j <= m,
            history_views(history@) == protocol_history(g.history@.take(j as int)),
        decreases m - j,
    {
        let item = &g.history[j];
        let ghost before = history@;
        let x = GitHistoryItem { commit: item.commit.clone(), summary: item.summary.clone() };
        history.push(x);
        assert(history_views(history@) =~= history_views(before).push(x@));
        assert(protocol_history(g.history@.take(j + 1)) =~= protocol_history(
            g.history@.take(j as int),
        ).push(ghv(item.commit@, item.summary@)));
        j = j + 1;
    }
    assert(g.history@.take(m as int) =~= g.history@);
    let cap = (n + m).saturating_sub(1);
    let selected = if old.selected > cap {
        cap
    } else {
        old.selected
    };
    let scroll = if old.scroll > selected {
        selected
    } else {
        old.scroll
    };
    GitPaneState { branch, head, status, history, selected, scroll }
}

impl AppState {
    /// The state after hydrating from `panes`: each pane present is replaced
    /// (selection and scroll clamped to the new rows), everything else kept.
    pub open spec fn hydrated(&self, panes: UiPaneSnapshot, next: AppState) -> bool {
        &&& next == (AppState {
            artifacts: next.artifacts,
            workspace: next.workspace,
            git: next.git,
            ..*self
        })
        &&& match panes.artifacts {
            None => next.artifacts == self.artifacts,
            Some(a) => artifacts_hydrated(self.artifacts, a, next.artifacts),
        }
        &&& match panes.workspace {
            None => next.workspace == self.workspace,
            Some(w) => workspace_hydrated(self.workspace, w, next.workspace),
        }
        &&& match panes.git {
            None => next.git == self.git,
            Some(g) => git_hydrated(self.git, g, next.git),
        }
    }

    /// Replaces each pane that `panes` carries by its protocol rows.
    pub fn apply_pane_snapshot(&mut self, panes: UiPaneSnapshot)
        requires
            panes.git matches Some(g) ==> g.status@.len() + g.history@.len() <= usize::MAX,
        ensures
            old(self).hydrated(panes, *final(self)),
    {
        if let Some(a) = &panes.artifacts {
            self.artifacts = hydrate_artifacts(&self.artifacts, a);
        }
        if let Some(w) = &panes.workspace {
            self.workspace = hydrate_workspace(&self.workspace, w);
        }
        if let Some(g) = &panes.git {
            self.git = hydrate_git(&self.git, g);
        }
    }
}

/// Hydrating twice from the same pane snapshot shows the same panes as
/// hydrating once: the rows are the snapshot's, and the already clamped
/// selection and scroll stay where they are.
pub proof fn law_pane_hydration_idempotent(s0: AppState, s1: AppState, s2: AppState, panes: UiPaneSnapshot)
    requires
        s0.hydrated(panes, s1),
        s1.hydrated(panes, s2),
    ensures
        artifact_views(s2.artifacts.items@) == artifact_views(s1.artifacts.items@),
        s2.artifacts.selected == s1.artifacts.selected,
        s2.workspace.root@ == s1.workspace.root@,
        s2.workspace.contract@ == s1.workspace.contract@,
        entry_views(s2.workspace.entries@) == entry_views(s1.workspace.entries@),
        s2.workspace.selected == s1.workspace.selected,
        s2.workspace.scroll == s1.workspace.scroll,
        s2.git.branch@ == s1.git.branch@,
        opt_string_view(s2.git.head) == opt_string_view(s1.git.head),
        status_views(s2.git.status@) == status_views(s1.git.status@),
        history_views(s2.git.history@) == history_views(s1.git.history@),
        s2.git.selected == s1.git.selected,
        s2.git.scroll == s1.git.scroll,
        s2.sessions == s1.sessions,
        s2.composer == s1.composer,
{
}

} // verus!
