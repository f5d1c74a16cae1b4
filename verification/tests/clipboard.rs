use octos_tui::clipboard::{
    advertises_png, base64_encode, copyable_assistant_text, image_from_flavour_list,
    image_from_png_read, merge_unavailable, osascript_reports_no_image,
    osc52_copy_sequence_capped, osc52_copy_sequence_for, osc52_truncated_chars,
    staged_paste_file_name, staged_paste_file_name_from_digest, truncate_at_char_boundary,
    ClipboardImage, OSC52_MAX_ENCODED_BYTES, OSC52_MAX_INPUT_BYTES,
};
use octos_tui::model::{AppState, LiveReply, Message, SessionKey, SessionView, TurnId};

fn base_session() -> SessionView {
    SessionView {
        id: SessionKey("local:test".into()),
        title: "t".into(),
        profile_id: None,
        messages: Vec::new(),
        tasks: Vec::new(),
        live_reply: None,
    }
}

fn state_with(session: SessionView) -> AppState {
    AppState::new(vec![session], 0, "ready".into(), None, false)
}

fn empty_state() -> AppState {
    AppState::new(Vec::new(), 0, "ready".into(), None, false)
}

fn payload_of(seq: &str) -> &str {
    seq.strip_prefix("\x1b]52;c;")
        .and_then(|s| s.strip_suffix('\x07'))
        .expect("bare OSC 52 frame present")
}

#[test]
fn should_match_rfc4648_base64_vectors() {
    assert_eq!(base64_encode(b""), "");
    assert_eq!(base64_encode(b"f"), "Zg==");
    assert_eq!(base64_encode(b"fo"), "Zm8=");
    assert_eq!(base64_encode(b"foo"), "Zm9v");
    assert_eq!(base64_encode(b"foob"), "Zm9vYg==");
    assert_eq!(base64_encode(b"fooba"), "Zm9vYmE=");
    assert_eq!(base64_encode(b"foobar"), "Zm9vYmFy");
}

#[test]
fn should_encode_non_ascii_utf8_bytes() {
    assert_eq!(base64_encode("✓ café".as_bytes()), "4pyTIGNhZsOp");
}

#[test]
fn should_wrap_payload_in_osc52_clipboard_frame() {
    let seq = osc52_copy_sequence_for("foobar", false);
    assert_eq!(seq, "\x1b]52;c;Zm9vYmFy\x07");
}

#[test]
fn should_wrap_in_tmux_passthrough_when_inside_tmux() {
    let seq = osc52_copy_sequence_for("foobar", true);
    assert_eq!(seq, "\x1bPtmux;\x1b\x1b]52;c;Zm9vYmFy\x07\x1b\\");
}

#[test]
fn should_emit_bare_osc52_when_not_in_tmux() {
    let seq = osc52_copy_sequence_for("foobar", false);
    assert_eq!(seq, "\x1b]52;c;Zm9vYmFy\x07");
}

#[test]
fn should_not_truncate_input_at_or_below_the_cap() {
    let text = "a".repeat(OSC52_MAX_INPUT_BYTES);
    let (seq, truncated) = osc52_copy_sequence_capped(&text, false);
    assert!(!truncated);
    assert_eq!(payload_of(&seq), base64_encode(text.as_bytes()));
    assert!(payload_of(&seq).len() <= OSC52_MAX_ENCODED_BYTES);
}

#[test]
fn should_cap_oversized_payload_keeping_the_head() {
    let text = "x".repeat(300 * 1024);
    let (seq, truncated) = osc52_copy_sequence_capped(&text, false);
    assert!(truncated);
    let payload = payload_of(&seq);
    assert!(payload.len() <= OSC52_MAX_ENCODED_BYTES);
    assert_eq!(
        payload,
        base64_encode(&text.as_bytes()[..OSC52_MAX_INPUT_BYTES])
    );
    assert_eq!(payload.len() % 4, 0);
}

#[test]
fn should_truncate_on_a_char_boundary() {
    let ch = "é";
    let text = ch.repeat(OSC52_MAX_INPUT_BYTES);
    let (seq, truncated) = osc52_copy_sequence_capped(&text, false);
    assert!(truncated);
    let mut cut = OSC52_MAX_INPUT_BYTES;
    while !text.is_char_boundary(cut) {
        cut -= 1;
    }
    assert_eq!(payload_of(&seq), base64_encode(&text.as_bytes()[..cut]));
}

#[test]
fn should_cap_the_tmux_wrapped_variant_too() {
    let text = "y".repeat(300 * 1024);
    let (seq, truncated) = osc52_copy_sequence_capped(&text, true);
    assert!(truncated);
    assert!(seq.starts_with("\x1bPtmux;"));
    assert!(seq.len() <= OSC52_MAX_ENCODED_BYTES + 32);
}

#[test]
fn public_uncapped_helpers_apply_the_same_cap() {
    let text = "z".repeat(300 * 1024);
    let seq = osc52_copy_sequence_for(&text, false);
    assert!(payload_of(&seq).len() <= OSC52_MAX_ENCODED_BYTES);
}

#[test]
fn should_not_emit_newlines_in_the_escape_sequence() {
    let seq = osc52_copy_sequence_for("line one\nline two\nline three\n", false);
    let payload = payload_of(&seq);
    assert!(!payload.contains('\n'));
    assert!(!payload.contains('\r'));
}

#[test]
fn should_copy_last_assistant_message_when_no_live_reply() {
    let mut session = base_session();
    session.messages = vec![
        Message::user("please summarize"),
        Message::assistant("first answer"),
        Message::user("and again"),
        Message::assistant("the final report"),
    ];
    let state = state_with(session);
    assert_eq!(
        copyable_assistant_text(&state).as_deref(),
        Some("the final report")
    );
}

#[test]
fn should_prefer_streaming_live_reply_over_committed_message() {
    let mut session = base_session();
    session.messages = vec![Message::assistant("old answer")];
    session.live_reply = Some(LiveReply {
        turn_id: TurnId("turn-1".into()),
        text: "streaming answer".into(),
    });
    let state = state_with(session);
    assert_eq!(
        copyable_assistant_text(&state).as_deref(),
        Some("streaming answer")
    );
}

#[test]
fn should_fall_back_to_message_when_live_reply_is_blank() {
    let mut session = base_session();
    session.messages = vec![Message::assistant("committed answer")];
    session.live_reply = Some(LiveReply {
        turn_id: TurnId("turn-1".into()),
        text: "   ".into(),
    });
    let state = state_with(session);
    assert_eq!(
        copyable_assistant_text(&state).as_deref(),
        Some("committed answer")
    );
}

#[test]
fn should_return_none_when_session_has_no_assistant_text() {
    let mut session = base_session();
    session.messages = vec![Message::user("just a prompt")];
    let state = state_with(session);
    assert_eq!(copyable_assistant_text(&state), None);
}

#[test]
fn should_return_none_when_no_active_session() {
    let state = empty_state();
    assert_eq!(copyable_assistant_text(&state), None);
}

#[test]
fn copy_skips_blank_assistant_messages() {
    let mut session = base_session();
    session.messages = vec![
        Message::assistant("real answer"),
        Message::assistant(" \n\t "),
        Message::user("thanks"),
    ];
    let state = state_with(session);
    assert_eq!(copyable_assistant_text(&state).as_deref(), Some("real answer"));
}

#[test]
fn truncation_keeps_short_text_whole() {
    assert_eq!(truncate_at_char_boundary("héllo", 10), ("héllo", false));
    assert_eq!(truncate_at_char_boundary("héllo", 6), ("héllo", false));
}

#[test]
fn truncation_backs_off_to_a_char_boundary() {
    // "é" takes bytes 1..3, so a 2-byte cap backs off to 1.
    assert_eq!(truncate_at_char_boundary("héllo", 2), ("h", true));
    assert_eq!(truncate_at_char_boundary("héllo", 3), ("hé", true));
    assert_eq!(truncate_at_char_boundary("héllo", 0), ("", true));
}

#[test]
fn truncated_chars_reports_only_a_cut() {
    assert_eq!(osc52_truncated_chars("short"), None);
    let text = "é".repeat(OSC52_MAX_INPUT_BYTES);
    assert_eq!(osc52_truncated_chars(&text), Some(OSC52_MAX_INPUT_BYTES / 2));
}

#[test]
fn png_flavour_is_recognised_case_insensitively() {
    assert!(advertises_png("text/plain\nimage/png\n"));
    assert!(advertises_png("  IMAGE/PNG  "));
    assert!(!advertises_png("text/plain\nimage/jpeg"));
    assert!(!advertises_png(""));
}

#[test]
fn flavour_listing_decides_whether_to_read() {
    assert_eq!(
        image_from_flavour_list(Ok("text/plain".into())),
        Some(ClipboardImage::Empty)
    );
    assert_eq!(image_from_flavour_list(Ok("image/png".into())), None);
    assert_eq!(
        image_from_flavour_list(Err("wl-paste not found".into())),
        Some(ClipboardImage::Unavailable("wl-paste not found".into()))
    );
}

#[test]
fn png_read_turns_empty_bytes_into_unavailable() {
    assert_eq!(
        image_from_png_read("xclip", Ok(vec![0x89, b'P', b'N', b'G'])),
        ClipboardImage::Png(vec![0x89, b'P', b'N', b'G'])
    );
    assert_eq!(
        image_from_png_read("xclip", Ok(Vec::new())),
        ClipboardImage::Unavailable("xclip returned no bytes".into())
    );
    assert_eq!(
        image_from_png_read("xclip", Err("xclip timed out".into())),
        ClipboardImage::Unavailable("xclip timed out".into())
    );
}

#[test]
fn unavailable_reasons_are_joined() {
    assert_eq!(
        merge_unavailable(
            "wl-paste not found".into(),
            ClipboardImage::Unavailable("xclip not found".into())
        ),
        ClipboardImage::Unavailable("wl-paste not found; xclip not found".into())
    );
    assert_eq!(
        merge_unavailable("wl-paste not found".into(), ClipboardImage::Empty),
        ClipboardImage::Empty
    );
}

#[test]
fn osascript_sentinel_means_no_image() {
    assert!(osascript_reports_no_image("NOIMAGE\n"));
    assert!(!osascript_reports_no_image("OK"));
}

#[test]
fn staged_name_uses_the_sha256_prefix() {
    // sha256("") = e3b0c44298fc1c149afbf4c8996fb924...
    assert_eq!(staged_paste_file_name(b""), "paste-e3b0c44298fc1c14.png");
    // sha256("abc") = ba7816bf8f01cfea414140de5dae2223...
    assert_eq!(staged_paste_file_name(b"abc"), "paste-ba7816bf8f01cfea.png");
}

#[test]
fn staged_name_from_digest_is_lower_hex_of_eight_bytes() {
    let digest = [0xABu8, 0x01, 0xFF, 0x10, 0x00, 0x7F, 0x80, 0x09, 0xEE];
    assert_eq!(
        staged_paste_file_name_from_digest(&digest),
        "paste-ab01ff10007f8009.png"
    );
}

#[test]
fn base64_pads_to_whole_groups() {
    for (input, pads) in [(&b"a"[..], 2), (&b"ab"[..], 1), (&b"abc"[..], 0), (&b"abcd"[..], 2)] {
        let out = base64_encode(input);
        assert_eq!(out.len(), 4 * ((input.len() + 2) / 3));
        assert_eq!(out.chars().rev().take_while(|c| *c == '=').count(), pads);
        assert!(out.chars().all(|c| c.is_ascii_alphanumeric() || "+/=".contains(c)));
    }
}

#[test]
fn truncated_copy_keeps_fewer_chars_than_the_text() {
    let text = "x".repeat(OSC52_MAX_INPUT_BYTES + 1);
    let kept = osc52_truncated_chars(&text).expect("cut");
    assert!(kept < text.chars().count());
}
