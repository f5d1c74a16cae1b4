use unicode_width::UnicodeWidthChar;
use octos_tui::insert_history::{
    hard_split, insert_history_lines, plan_insert, queue_modifier_diff, split_keep_ws,
    wrap_line, write_history_line, Attr, Color, Rect, Style, StyledLine, StyledSpan, TermOp,
    BOLD, DIM, ITALIC, REVERSED,
};

fn plain_line(text: &str) -> StyledLine {
    StyledLine {
        spans: vec![StyledSpan { content: text.to_string(), style: Style::default() }],
        style: Style::default(),
    }
}

fn row_text(line: &StyledLine) -> String {
    line.spans.iter().map(|s| s.content.as_str()).collect::<Vec<_>>().join("")
}

#[test]
fn wrap_short_line_is_unchanged() {
    let line = plain_line("hello");
    let out = wrap_line(&line, 20);
    assert_eq!(out.len(), 1);
    assert_eq!(out[0].width(), 5);
    assert_eq!(out[0], line);
}

#[test]
fn wrap_splits_on_word_boundary() {
    let line = plain_line("the quick brown fox jumps");
    let out = wrap_line(&line, 10);
    assert!(out.len() >= 3, "expected wrapping, got {out:?}");
    for l in &out {
        assert!(l.width() <= 10, "row too wide: {l:?}");
    }
}

#[test]
fn wrap_drops_whitespace_only_at_row_starts() {
    let line = plain_line("the quick brown fox jumps");
    let out = wrap_line(&line, 10);
    let rows: Vec<String> = out.iter().map(row_text).collect();
    assert_eq!(rows, vec!["the quick ", "brown fox ", "jumps"]);
}

#[test]
fn wrap_hard_splits_overlong_word() {
    let line = plain_line("abcdefghijklmnopqrstuvwxyz");
    let out = wrap_line(&line, 8);
    assert!(out.len() >= 3);
    for l in &out {
        assert!(l.width() <= 8);
    }
    let rows: Vec<String> = out.iter().map(row_text).collect();
    assert_eq!(rows, vec!["abcdefgh", "ijklmnop", "qrstuvwx", "yz"]);
}

#[test]
fn wrap_preserves_span_style() {
    let bold = Style { add_modifier: BOLD, ..Style::default() };
    let line = StyledLine {
        spans: vec![
            StyledSpan { content: "bold ".to_string(), style: bold },
            StyledSpan { content: "and plain text here".to_string(), style: Style::default() },
        ],
        style: Style::default(),
    };
    let out = wrap_line(&line, 8);
    assert!(out.len() >= 2);
    let first_has_bold = out[0].spans.iter().any(|s| s.style.add_modifier & BOLD == BOLD);
    assert!(first_has_bold, "bold style lost: {out:?}");
}

#[test]
fn wrap_keeps_the_line_style_on_every_row() {
    let line_style = Style { fg: Some(Color::Cyan), ..Style::default() };
    let mut line = plain_line("one two three four five six");
    line.style = line_style;
    let out = wrap_line(&line, 7);
    assert!(out.len() > 1);
    assert!(out.iter().all(|row| row.style == line_style));
}

#[test]
fn wrap_width_zero_counts_as_one() {
    let out = wrap_line(&plain_line("ab"), 0);
    let rows: Vec<String> = out.iter().map(row_text).collect();
    assert_eq!(rows, vec!["a", "b"]);
}

#[test]
fn wrap_of_wide_chars_uses_display_columns() {
    // Each of these CJK characters is two columns wide.
    let out = wrap_line(&plain_line("你好世界"), 4);
    let rows: Vec<String> = out.iter().map(row_text).collect();
    assert_eq!(rows, vec!["你好", "世界"]);
}

#[test]
fn split_keep_ws_round_trips() {
    let s = "a  bc   d";
    let parts = split_keep_ws(s);
    assert_eq!(parts.concat(), s);
}

#[test]
fn split_keep_ws_alternates_runs() {
    assert_eq!(split_keep_ws("a  bc   d"), vec!["a", "  ", "bc", "   ", "d"]);
    assert_eq!(split_keep_ws(" x"), vec![" ", "x"]);
    assert!(split_keep_ws("").is_empty());
}

#[test]
fn hard_split_cuts_at_width() {
    assert_eq!(hard_split("abcdefg", 3), vec!["abc", "def", "g"]);
    assert_eq!(hard_split("", 3), vec![""]);
    // A char wider than the width still makes progress, one char per chunk.
    assert_eq!(hard_split("你好", 1), vec!["你", "好"]);
}

#[test]
fn modifier_diff_restores_dim_after_normal_intensity() {
    let mut ops = Vec::new();
    queue_modifier_diff(&mut ops, BOLD, DIM);
    assert_eq!(
        ops,
        vec![
            TermOp::SetAttribute(Attr::NormalIntensity),
            TermOp::SetAttribute(Attr::Dim),
            TermOp::SetAttribute(Attr::Dim),
        ]
    );
}

#[test]
fn modifier_diff_removes_then_adds() {
    let mut ops = Vec::new();
    queue_modifier_diff(&mut ops, REVERSED | ITALIC, BOLD);
    assert_eq!(
        ops,
        vec![
            TermOp::SetAttribute(Attr::NoReverse),
            TermOp::SetAttribute(Attr::NoItalic),
            TermOp::SetAttribute(Attr::Bold),
        ]
    );
}

#[test]
fn modifier_diff_dropping_dim_under_bold_emits_normal_intensity() {
    // Normal intensity ends bold as well; this is the one case where the
    // terminal does not end up showing the target modifiers.
    let mut ops = Vec::new();
    queue_modifier_diff(&mut ops, BOLD | DIM, BOLD);
    assert_eq!(ops, vec![TermOp::SetAttribute(Attr::NormalIntensity)]);
}

#[test]
fn history_line_with_theme_bg_is_emitted_on_default_background() {
    let line = StyledLine {
        spans: vec![StyledSpan {
            content: "committed reply".to_string(),
            style: Style { fg: Some(Color::Rgb(236, 239, 244)), ..Style::default() },
        }],
        style: Style::default(),
    };
    let mut ops = Vec::new();
    write_history_line(&mut ops, &line);
    for op in &ops {
        match op {
            TermOp::SetColors(_, bg) => assert_eq!(*bg, Color::Reset),
            TermOp::SetBackground(bg) => assert_eq!(*bg, Color::Reset),
            _ => {}
        }
    }
    assert!(ops.contains(&TermOp::SetBackground(Color::Reset)));
    assert!(ops.contains(&TermOp::Print("committed reply".to_string())));
}

#[test]
fn history_write_resets_sgr_after_each_line() {
    let line = StyledLine {
        spans: vec![StyledSpan {
            content: "styled".to_string(),
            style: Style {
                fg: Some(Color::Rgb(110, 188, 255)),
                add_modifier: BOLD,
                ..Style::default()
            },
        }],
        style: Style::default(),
    };
    let mut ops = Vec::new();
    write_history_line(&mut ops, &line);
    assert_eq!(
        ops,
        vec![
            TermOp::SetColors(Color::Reset, Color::Reset),
            TermOp::ClearUntilNewLine,
            TermOp::SetAttribute(Attr::Bold),
            TermOp::SetColors(Color::Rgb(110, 188, 255), Color::Reset),
            TermOp::Print("styled".to_string()),
            TermOp::SetForeground(Color::Reset),
            TermOp::SetBackground(Color::Reset),
            TermOp::SetAttribute(Attr::Reset),
        ]
    );
}

#[test]
fn line_style_is_merged_into_spans() {
    let line = StyledLine {
        spans: vec![StyledSpan { content: "x".to_string(), style: Style::default() }],
        style: Style { fg: Some(Color::Green), ..Style::default() },
    };
    let mut ops = Vec::new();
    write_history_line(&mut ops, &line);
    assert_eq!(ops[0], TermOp::SetColors(Color::Green, Color::Reset));
    assert_eq!(ops[2], TermOp::SetColors(Color::Green, Color::Reset));
}

#[test]
fn insert_without_room_below_scrolls_the_region_above() {
    let area = Rect { x: 0, y: 5, width: 40, height: 1 };
    let plan = insert_history_lines(6, area, 3, 5, &[plain_line("hi")]);
    assert_eq!(plan.area, None);
    assert_eq!(plan.rows.len(), 1);
    assert_eq!(plan.ops[0], TermOp::Print("\x1b[1;5r".to_string()));
    assert_eq!(plan.ops[1], TermOp::MoveTo(0, 4));
    assert_eq!(plan.ops[2], TermOp::Print("\r\n".to_string()));
    let n = plan.ops.len();
    assert_eq!(plan.ops[n - 2], TermOp::Print("\x1b[r".to_string()));
    assert_eq!(plan.ops[n - 1], TermOp::MoveTo(3, 5));
}

#[test]
fn insert_with_room_below_slides_the_viewport_down() {
    let area = Rect { x: 0, y: 2, width: 40, height: 3 };
    let (ops, moved) = plan_insert(10, area, 0, 0, &[plain_line("a"), plain_line("b")]);
    assert_eq!(moved, Some(Rect { x: 0, y: 4, width: 40, height: 3 }));
    assert_eq!(
        ops[..6].to_vec(),
        vec![
            TermOp::Print("\x1b[3;10r".to_string()),
            TermOp::MoveTo(0, 2),
            TermOp::Print("\x1bM".to_string()),
            TermOp::Print("\x1bM".to_string()),
            TermOp::Print("\x1b[r".to_string()),
            TermOp::Print("\x1b[1;4r".to_string()),
        ]
    );
    assert_eq!(ops[6], TermOp::MoveTo(0, 1));
}

#[test]
fn insert_slides_no_further_than_the_screen() {
    let area = Rect { x: 0, y: 7, width: 10, height: 2 };
    let lines: Vec<StyledLine> = (0..5).map(|i| plain_line(&format!("row {i}"))).collect();
    let plan = insert_history_lines(10, area, 0, 0, &lines);
    let moved = plan.area.expect("viewport moved");
    assert_eq!(moved.y, 8);
    assert!(moved.y + moved.height <= 10);
}

#[test]
fn insert_of_nothing_writes_nothing() {
    let area = Rect { x: 0, y: 2, width: 40, height: 3 };
    let plan = insert_history_lines(10, area, 0, 0, &[]);
    assert!(plan.ops.is_empty());
    assert_eq!(plan.area, None);
}

#[test]
fn wrap_fills_rows_greedily_across_spans() {
    let line = StyledLine {
        spans: vec![
            StyledSpan { content: "ab cd".to_string(), style: Style::default() },
            StyledSpan { content: " ef gh".to_string(), style: Style { fg: Some(Color::Red), ..Style::default() } },
        ],
        style: Style::default(),
    };
    let out = wrap_line(&line, 6);
    let rows: Vec<String> = out.iter().map(row_text).collect();
    assert_eq!(rows, vec!["ab cd ", "ef gh"]);
    assert_eq!(out[1].spans[0].style.fg, Some(Color::Red));
}

#[test]
fn inserted_history_keeps_the_default_background_and_resets_after_the_line() {
    let bottom = Rect { x: 0, y: 5, width: 40, height: 1 };
    let reply = StyledLine {
        spans: vec![StyledSpan {
            content: "committed reply".to_string(),
            style: Style { fg: Some(Color::Rgb(236, 239, 244)), ..Style::default() },
        }],
        style: Style::default(),
    };
    let plan = insert_history_lines(6, bottom, 0, 5, &[reply]);
    for op in &plan.ops {
        match op {
            TermOp::SetColors(_, bg) | TermOp::SetBackground(bg) => assert_eq!(*bg, Color::Reset),
            _ => {}
        }
    }
    assert!(plan.ops.contains(&TermOp::SetBackground(Color::Reset)));

    let styled = StyledLine {
        spans: vec![StyledSpan {
            content: "styled".to_string(),
            style: Style {
                fg: Some(Color::Rgb(110, 188, 255)),
                add_modifier: BOLD,
                ..Style::default()
            },
        }],
        style: Style::default(),
    };
    let plan = insert_history_lines(6, bottom, 0, 5, &[styled]);
    assert!(plan.ops.contains(&TermOp::SetAttribute(Attr::Reset)));
    assert!(plan.ops.contains(&TermOp::SetForeground(Color::Reset)));
}

#[test]
fn hard_split_rows_add_up_to_the_width_char_by_char() {
    let cols = |s: &str| s.chars().map(|c| c.width().unwrap_or(0)).sum::<usize>();
    let out = wrap_line(&plain_line("abcdefghijkl"), 5);
    let texts: Vec<String> = out.iter().map(row_text).collect();
    assert_eq!(texts, vec!["abcde", "fghij", "kl"]);
    let hearts = "\u{2764}\u{FE0F}\u{2764}\u{FE0F}\u{2764}\u{FE0F}";
    let out = wrap_line(&plain_line(hearts), 2);
    assert_eq!(out.len(), 2);
    for row in &out {
        assert!(cols(&row_text(row)) <= 2, "row over the width char by char: {row:?}");
    }
    assert_eq!(out.iter().map(row_text).collect::<String>(), hearts);
}
