//! Clipboard copy via the OSC 52 terminal escape sequence, and the pure
//! decisions behind reading a bitmap out of the system clipboard.
//!
//! The copy path writes `ESC ] 52 ; c ; <base64(text)> BEL` (optionally
//! wrapped in tmux's DCS passthrough). The payload is standard RFC 4648
//! base64 on a single line, and input past the terminal-safe cap is cut at a
//! UTF-8 character boundary, keeping the head of the text.

use vstd::prelude::*;

use vstd::string::*;
use vstd::utf8::*;

use crate::text::{
    chars_eq, chars_vec, eq_ignore_ascii_case, lines, lower_chars, push_char, push_chars,
    split_lines, to_ascii_lower, trim, trimmed,
};

verus! {

/// Maximum size, in bytes, of the base64 payload inside the OSC 52 sequence.
pub const OSC52_MAX_ENCODED_BYTES: usize = 72 * 1024;

/// Maximum input bytes so that `base64(input)` never exceeds
/// [`OSC52_MAX_ENCODED_BYTES`]: base64 emits 4 output bytes per 3 input bytes.
pub const OSC52_MAX_INPUT_BYTES: usize = OSC52_MAX_ENCODED_BYTES / 4 * 3;

// ---------------------------------------------------------------------------
// RFC 4648 base64
// ---------------------------------------------------------------------------

/// The base64 alphabet character for a 6-bit value.
pub open spec fn sextet_char(v: int) -> char {
    if v < 26 {
        (('A' as u32) + v) as char
    } else if v < 52 {
        (('a' as u32) + (v - 26)) as char
    } else if v < 62 {
        (('0' as u32) + (v - 52)) as char
    } else if v == 62 {
        '+'
    } else {
        '/'
    }
}

/// The four output characters for the 3-byte group starting the sequence
/// (missing bytes count as zero and their characters become `=`).
pub open spec fn base64_group(bytes: Seq<u8>) -> Seq<char>
    recommends
        bytes.len() > 0,
{
    let b0 = bytes[0] as int;
    let b1 = if bytes.len() > 1 { bytes[1] as int } else { 0 };
    let b2 = if bytes.len() > 2 { bytes[2] as int } else { 0 };
    seq![
        sextet_char(b0 / 4),
        sextet_char((b0 % 4) * 16 + b1 / 16),
        if bytes.len() > 1 { sextet_char((b1 % 16) * 4 + b2 / 64) } else { '=' },
        if bytes.len() > 2 { sextet_char(b2 % 64) } else { '=' },
    ]
}

/// Standard base64 (RFC 4648, `+`/`/`, `=` padding) of a byte sequence, with
/// no line wrapping.
pub open spec fn base64(bytes: Seq<u8>) -> Seq<char>
    decreases bytes.len(),
{
    if bytes.len() == 0 {
        Seq::empty()
    } else if bytes.len() <= 3 {
        base64_group(bytes)
    } else {
        base64_group(bytes) + base64(bytes.skip(3))
    }
}

/// A character of the base64 output alphabet (including the `=` pad).
pub open spec fn is_base64_char(c: char) -> bool {
    ('A' <= c <= 'Z') || ('a' <= c <= 'z') || ('0' <= c <= '9') || c == '+' || c == '/'
        || c == '='
}

fn encode_sextet(v: u32) -> (c: char)
    requires
        v < 64,
    ensures
        c == sextet_char(v as int),
{
    let b: u8 = if v < 26 {
        65u8 + (v as u8)
    } else if v < 52 {
        97u8 + ((v - 26) as u8)
    } else if v < 62 {
        48u8 + ((v - 52) as u8)
    } else if v == 62 {
        43u8
    } else {
        47u8
    };
    b as char
}

proof fn lemma_triple_sextets(b0: u32, b1: u32, b2: u32)
    requires
        b0 < 256,
        b1 < 256,
        b2 < 256,
    ensures
        ((((b0 << 16u32) | (b1 << 8u32) | b2) >> 18u32) & 0x3fu32) == b0 / 4,
        ((((b0 << 16u32) | (b1 << 8u32) | b2) >> 12u32) & 0x3fu32) == (b0 % 4) * 16 + b1 / 16,
        ((((b0 << 16u32) | (b1 << 8u32) | b2) >> 6u32) & 0x3fu32) == (b1 % 16) * 4 + b2 / 64,
        (((b0 << 16u32) | (b1 << 8u32) | b2) & 0x3fu32) == b2 % 64,
{
    assert(((((b0 << 16u32) | (b1 << 8u32) | b2) >> 18u32) & 0x3fu32) == b0 / 4
        && ((((b0 << 16u32) | (b1 << 8u32) | b2) >> 12u32) & 0x3fu32) == (b0 % 4) * 16 + b1 / 16
        && ((((b0 << 16u32) | (b1 << 8u32) | b2) >> 6u32) & 0x3fu32) == (b1 % 16) * 4 + b2 / 64
        && (((b0 << 16u32) | (b1 << 8u32) | b2) & 0x3fu32) == b2 % 64) by (bit_vector)
        requires
            b0 < 256,
            b1 < 256,
            b2 < 256,
    ;
}

/// Minimal RFC 4648 standard base64 encoder (no line wrapping).
pub fn base64_encode(input: &[u8]) -> (out: String)
    ensures
        out@ == base64(input@),
{
    let mut out = String::new();
    let n = input.len();
    let mut i: usize = 0;
    assert(input@.skip(0) =~= input@);
    while i < n
        invariant
            n == input@.len(),
            i <= n,
            base64(input@) == out@ + base64(input@.skip(i as int)),
        decreases n - i,
    {
        let rest = Ghost(input@.skip(i as int));
        let b0 = input[i] as u32;
        let b1: u32 = if n - i > 1 { input[i + 1] as u32 } else { 0 };
        let b2: u32 = if n - i > 2 { input[i + 2] as u32 } else { 0 };
        let triple: u32 = (b0 << 16u32) | (b1 << 8u32) | b2;
        proof {
            lemma_triple_sextets(b0, b1, b2);
        }
        let c0 = encode_sextet((triple >> 18u32) & 0x3f);
        let c1 = encode_sextet((triple >> 12u32) & 0x3f);
        let c2 = if n - i > 1 { encode_sextet((triple >> 6u32) & 0x3f) } else { '=' };
        let c3 = if n - i > 2 { encode_sextet(triple & 0x3f) } else { '=' };
        assert(base64_group(rest@) =~= seq![c0, c1, c2, c3]);
        let ghost before = out@;
        push_char(&mut out, c0);
        push_char(&mut out, c1);
        push_char(&mut out, c2);
        push_char(&mut out, c3);
        assert(out@ =~= before + seq![c0, c1, c2, c3]);
        if n - i <= 3 {
            assert(input@.skip(n as int) =~= Seq::<u8>::empty());
            i = n;
        } else {
            assert(rest@.skip(3) =~= input@.skip(i + 3));
            i = i + 3;
        }
    }
    assert(input@.skip(n as int) =~= Seq::<u8>::empty());
    out
}


// ---------------------------------------------------------------------------
// Truncation at a UTF-8 character boundary
// ---------------------------------------------------------------------------

/// The largest character boundary of `bytes` at or below `i` (0 when none is
/// above 0).
pub open spec fn boundary_floor(bytes: Seq<u8>, i: int) -> int
    decreases i,
{
    if i <= 0 {
        0
    } else if is_char_boundary(bytes, i) {
        i
    } else {
        boundary_floor(bytes, i - 1)
    }
}

/// The bytes kept when `bytes` is cut to at most `max` bytes on a character
/// boundary: all of them when they fit, otherwise the head up to the last
/// boundary that fits.
pub open spec fn truncated_bytes(bytes: Seq<u8>, max: int) -> Seq<u8> {
    if bytes.len() <= max {
        bytes
    } else {
        bytes.subrange(0, boundary_floor(bytes, max))
    }
}

/// The input bytes that reach the OSC 52 payload.
pub open spec fn capped_bytes(bytes: Seq<u8>) -> Seq<u8> {
    truncated_bytes(bytes, OSC52_MAX_INPUT_BYTES as int)
}

proof fn lemma_boundary_floor(bytes: Seq<u8>, i: int)
    requires
        valid_utf8(bytes),
        i <= bytes.len(),
    ensures
        0 <= boundary_floor(bytes, i),
        i >= 0 ==> boundary_floor(bytes, i) <= i,
        is_char_boundary(bytes, boundary_floor(bytes, i)),
        forall|j: int| boundary_floor(bytes, i) < j <= i ==> !is_char_boundary(bytes, j),
    decreases i,
{
    if i <= 0 {
        is_char_boundary_start_end_of_seq(bytes);
    } else if !is_char_boundary(bytes, i) {
        lemma_boundary_floor(bytes, i - 1);
    }
}

/// Truncate `text` to at most `max_bytes`, backing off to a UTF-8 char
/// boundary so the kept head is always valid UTF-8. Returns the (possibly
/// shortened) slice and whether anything was dropped.
pub fn truncate_at_char_boundary(text: &str, max_bytes: usize) -> (res: (&str, bool))
    ensures
        res.1 == (text.spec_bytes().len() > max_bytes),
        res.0.spec_bytes() == truncated_bytes(text.spec_bytes(), max_bytes as int),
        !res.1 ==> res.0@ == text@,
{
    broadcast use encode_utf8_valid_utf8;

    if text.as_bytes().len() <= max_bytes {
        return (text, false);
    }
    let ghost bytes = text.spec_bytes();
    let mut cut = max_bytes;
    while cut > 0 && !text.is_char_boundary(cut)
        invariant
            bytes == text.spec_bytes(),
            valid_utf8(bytes),
            cut <= max_bytes,
            max_bytes < bytes.len(),
            boundary_floor(bytes, max_bytes as int) == boundary_floor(bytes, cut as int),
        decreases cut,
    {
        cut = cut - 1;
    }
    proof {
        is_char_boundary_start_end_of_seq(bytes);
    }
    let (head, _tail) = text.split_at(cut);
    (head, true)
}

// ---------------------------------------------------------------------------
// OSC 52 framing
// ---------------------------------------------------------------------------

/// `ESC ] 52 ; c ; <payload> BEL`: the bare OSC 52 clipboard frame.
pub open spec fn osc52_frame(payload: Seq<char>) -> Seq<char> {
    seq!['\x1b', ']', '5', '2', ';', 'c', ';'] + payload + seq!['\x07']
}

/// Every `ESC` in `s` doubled, everything else unchanged.
pub open spec fn double_esc(s: Seq<char>) -> Seq<char>
    decreases s.len(),
{
    if s.len() == 0 {
        Seq::empty()
    } else if s[0] == '\x1b' {
        seq!['\x1b', '\x1b'] + double_esc(s.drop_first())
    } else {
        seq![s[0]] + double_esc(s.drop_first())
    }
}

/// tmux DCS passthrough: `ESC P tmux ; <s with ESC doubled> ESC \`.
pub open spec fn tmux_passthrough(s: Seq<char>) -> Seq<char> {
    seq!['\x1b', 'P', 't', 'm', 'u', 'x', ';'] + double_esc(s) + seq!['\x1b', '\\']
}

/// The full copy sequence for a text whose UTF-8 bytes are `text_bytes`.
pub open spec fn osc52_sequence(text_bytes: Seq<u8>, tmux: bool) -> Seq<char> {
    let bare = osc52_frame(base64(capped_bytes(text_bytes)));
    if tmux {
        tmux_passthrough(bare)
    } else {
        bare
    }
}

fn push_all(out: &mut String, chars: &Vec<char>)
    ensures
        final(out)@ == old(out)@ + chars@,
{
    let n = chars.len();
    let mut i: usize = 0;
    while i < n
        invariant
            n == chars@.len(),
            i <= n,
            out@ == old(out)@ + chars@.take(i as int),
        decreases n - i,
    {
        push_char(out, chars[i]);
        assert(chars@.take(i + 1) =~= chars@.take(i as int).push(chars@[i as int]));
        i = i + 1;
    }
    assert(chars@.take(n as int) =~= chars@);
}

fn push_escaped(out: &mut String, chars: &Vec<char>)
    ensures
        final(out)@ == old(out)@ + double_esc(chars@),
{
    let n = chars.len();
    let mut i: usize = 0;
    assert(chars@.skip(0) =~= chars@);
    while i < n
        invariant
            n == chars@.len(),
            i <= n,
            old(out)@ + double_esc(chars@) == out@ + double_esc(chars@.skip(i as int)),
        decreases n - i,
    {
        let c = chars[i];
        let ghost before = out@;
        assert(chars@.skip(i as int).drop_first() =~= chars@.skip(i + 1));
        if c == '\x1b' {
            push_char(out, '\x1b');
            push_char(out, '\x1b');
            assert(out@ =~= before + seq!['\x1b', '\x1b']);
        } else {
            push_char(out, c);
            assert(out@ =~= before + seq![c]);
        }
        i = i + 1;
    }
    assert(chars@.skip(n as int) =~= Seq::<char>::empty());
}

/// [`osc52_copy_sequence_for`] plus a truncation signal.
///
/// Returns `(sequence, truncated)`: when `text` encodes past
/// [`OSC52_MAX_ENCODED_BYTES`] the input is cut at the largest char boundary
/// that fits (keeping the head) and `truncated` is `true`.
pub fn osc52_copy_sequence_capped(text: &str, tmux: bool) -> (res: (String, bool))
    ensures
        res.0@ == osc52_sequence(text.spec_bytes(), tmux),
        res.1 == (text.spec_bytes().len() > OSC52_MAX_INPUT_BYTES),
{
    let (kept, truncated) = truncate_at_char_boundary(text, OSC52_MAX_INPUT_BYTES);
    let encoded = base64_encode(kept.as_bytes());
    let mut bare = String::new();
    push_char(&mut bare, '\x1b');
    push_char(&mut bare, ']');
    push_char(&mut bare, '5');
    push_char(&mut bare, '2');
    push_char(&mut bare, ';');
    push_char(&mut bare, 'c');
    push_char(&mut bare, ';');
    bare.append(encoded.as_str());
    push_char(&mut bare, '\x07');
    assert(bare@ =~= osc52_frame(base64(capped_bytes(text.spec_bytes()))));
    if tmux {
        let bare_chars = chars_vec(bare.as_str());
        let mut wrapped = String::new();
        push_char(&mut wrapped, '\x1b');
        push_char(&mut wrapped, 'P');
        push_char(&mut wrapped, 't');
        push_char(&mut wrapped, 'm');
        push_char(&mut wrapped, 'u');
        push_char(&mut wrapped, 'x');
        push_char(&mut wrapped, ';');
        push_escaped(&mut wrapped, &bare_chars);
        push_char(&mut wrapped, '\x1b');
        push_char(&mut wrapped, '\\');
        assert(wrapped@ =~= tmux_passthrough(bare@));
        (wrapped, truncated)
    } else {
        (bare, truncated)
    }
}

/// Build the OSC 52 sequence, optionally wrapped for tmux passthrough.
pub fn osc52_copy_sequence_for(text: &str, tmux: bool) -> (seq: String)
    ensures
        seq@ == osc52_sequence(text.spec_bytes(), tmux),
{
    osc52_copy_sequence_capped(text, tmux).0
}

/// How many characters of `text` reach the clipboard once the OSC 52 input
/// cap is applied, or `None` when the whole text fits.
pub fn osc52_truncated_chars(text: &str) -> (res: Option<usize>)
    ensures
        res is None <==> text.spec_bytes().len() <= OSC52_MAX_INPUT_BYTES,
        res matches Some(n) ==> n == decode_utf8(capped_bytes(text.spec_bytes())).len(),
{
    let (kept, truncated) = truncate_at_char_boundary(text, OSC52_MAX_INPUT_BYTES);
    if truncated {
        proof {
            encode_utf8_decode_utf8(kept@);
        }
        Some(kept.unicode_len())
    } else {
        None
    }
}

// ---------------------------------------------------------------------------
// Laws
// ---------------------------------------------------------------------------

proof fn lemma_sextet_char_alphabet(v: int)
    requires
        0 <= v < 64,
    ensures
        is_base64_char(sextet_char(v)),
        sextet_char(v) != '\x1b',
{
}

proof fn lemma_base64_shape(b: Seq<u8>)
    ensures
        base64(b).len() == 4 * ((b.len() + 2) / 3),
        forall|i: int| 0 <= i < base64(b).len() ==> is_base64_char(#[trigger] base64(b)[i]),
        forall|i: int| 0 <= i < base64(b).len() ==> #[trigger] base64(b)[i] != '\x1b',
    decreases b.len(),
{
    if b.len() > 0 {
        let b0 = b[0] as int;
        let b1 = if b.len() > 1 { b[1] as int } else { 0 };
        let b2 = if b.len() > 2 { b[2] as int } else { 0 };
        lemma_sextet_char_alphabet(b0 / 4);
        lemma_sextet_char_alphabet((b0 % 4) * 16 + b1 / 16);
        lemma_sextet_char_alphabet((b1 % 16) * 4 + b2 / 64);
        lemma_sextet_char_alphabet(b2 % 64);
        let g = base64_group(b);
        assert(forall|i: int| 0 <= i < 4 ==> is_base64_char(#[trigger] g[i]) && g[i] != '\x1b');
        if b.len() > 3 {
            lemma_base64_shape(b.skip(3));
            let r = base64(b.skip(3));
            assert(base64(b) == g + r);
            assert forall|i: int| 0 <= i < base64(b).len() implies is_base64_char(
                #[trigger] base64(b)[i],
            ) && base64(b)[i] != '\x1b' by {
                if i >= 4 {
                    assert(base64(b)[i] == r[i - 4]);
                }
            }
        }
    }
}

/// The 6-bit value of a base64 alphabet character.
pub open spec fn sextet_value(c: char) -> int {
    let u = c as int;
    if 65 <= u <= 90 {
        u - 65
    } else if 97 <= u <= 122 {
        u - 71
    } else if 48 <= u <= 57 {
        u + 4
    } else if u == 43 {
        62
    } else {
        63
    }
}

/// RFC 4648 decoding of one four-character group: three bytes, or fewer
/// where the group ends in `=` padding.
pub open spec fn decode_group(g: Seq<char>) -> Seq<u8> {
    let v0 = sextet_value(g[0]);
    let v1 = sextet_value(g[1]);
    let v2 = sextet_value(g[2]);
    let v3 = sextet_value(g[3]);
    let b0 = (v0 * 4 + v1 / 16) as u8;
    let b1 = ((v1 % 16) * 16 + v2 / 4) as u8;
    let b2 = ((v2 % 4) * 64 + v3) as u8;
    if g[2] == '=' {
        seq![b0]
    } else if g[3] == '=' {
        seq![b0, b1]
    } else {
        seq![b0, b1, b2]
    }
}

/// RFC 4648 standard base64 decoding, group by group.
pub open spec fn base64_decode(s: Seq<char>) -> Seq<u8>
    decreases s.len(),
{
    if s.len() < 4 {
        Seq::empty()
    } else {
        decode_group(s.take(4)) + base64_decode(s.skip(4))
    }
}

/// The number of `=` pad characters base64 ends with for `n` input bytes.
pub open spec fn pad_count(n: int) -> int {
    (3 - n % 3) % 3
}

proof fn lemma_sextet_round_trip(v: int)
    requires
        0 <= v < 64,
    ensures
        sextet_value(sextet_char(v)) == v,
        sextet_char(v) != '=',
{
}

proof fn lemma_group_round_trip(b: Seq<u8>)
    requires
        b.len() > 0,
    ensures
        decode_group(base64_group(b)) == b.take(if b.len() < 3 { b.len() as int } else { 3 }),
        forall|i: int|
            0 <= i < 4 ==> (#[trigger] base64_group(b)[i] == '=' <==> (i == 2 && b.len() < 2) || (i
                == 3 && b.len() < 3)),
{
    let b0 = b[0] as int;
    let b1 = if b.len() > 1 { b[1] as int } else { 0 };
    let b2 = if b.len() > 2 { b[2] as int } else { 0 };
    let v0 = b0 / 4;
    let v1 = (b0 % 4) * 16 + b1 / 16;
    let v2 = (b1 % 16) * 4 + b2 / 64;
    let v3 = b2 % 64;
    assert(0 <= v0 < 64 && 0 <= v1 < 64 && 0 <= v2 < 64 && 0 <= v3 < 64) by (nonlinear_arith)
        requires
            0 <= b0 < 256,
            0 <= b1 < 256,
            0 <= b2 < 256,
            v0 == b0 / 4,
            v1 == (b0 % 4) * 16 + b1 / 16,
            v2 == (b1 % 16) * 4 + b2 / 64,
            v3 == b2 % 64,
    ;
    lemma_sextet_round_trip(v0);
    lemma_sextet_round_trip(v1);
    lemma_sextet_round_trip(v2);
    lemma_sextet_round_trip(v3);
    assert(v0 * 4 + v1 / 16 == b0 && (v1 % 16) * 16 + v2 / 4 == b1 && (v2 % 4) * 64 + v3 == b2)
        by (nonlinear_arith)
        requires
            0 <= b0 < 256,
            0 <= b1 < 256,
            0 <= b2 < 256,
            v0 == b0 / 4,
            v1 == (b0 % 4) * 16 + b1 / 16,
            v2 == (b1 % 16) * 4 + b2 / 64,
            v3 == b2 % 64,
    ;
    let g = base64_group(b);
    let d = decode_group(g);
    if b.len() == 1 {
        assert(d =~= b.take(1));
    } else if b.len() == 2 {
        assert(d =~= b.take(2));
    } else {
        assert(d =~= b.take(3));
    }
}

proof fn lemma_base64_padding(b: Seq<u8>)
    ensures
        forall|i: int|
            0 <= i < base64(b).len() ==> (#[trigger] base64(b)[i] == '=' <==> i >= base64(b).len()
                - pad_count(b.len() as int)),
    decreases b.len(),
{
    lemma_base64_shape(b);
    if b.len() > 0 {
        lemma_group_round_trip(b);
        let g = base64_group(b);
        if b.len() > 3 {
            let rest = b.skip(3);
            lemma_base64_padding(rest);
            lemma_base64_shape(rest);
            let r = base64(rest);
            assert(base64(b) == g + r);
            assert(pad_count(b.len() as int) == pad_count(rest.len() as int));
            assert forall|i: int| 0 <= i < base64(b).len() implies (#[trigger] base64(b)[i] == '='
                <==> i >= base64(b).len() - pad_count(b.len() as int)) by {
                if i >= 4 {
                    assert(base64(b)[i] == r[i - 4]);
                } else {
                    assert(base64(b)[i] == g[i]);
                }
            }
        }
    }
}

proof fn lemma_base64_decodes(b: Seq<u8>)
    ensures
        base64_decode(base64(b)) == b,
    decreases b.len(),
{
    if b.len() == 0 {
        assert(base64_decode(Seq::<char>::empty()) =~= Seq::<u8>::empty());
    } else {
        lemma_group_round_trip(b);
        let g = base64_group(b);
        if b.len() <= 3 {
            assert(g.take(4) =~= g);
            assert(g.skip(4) =~= Seq::<char>::empty());
            assert(base64_decode(g.skip(4)) =~= Seq::<u8>::empty());
            assert(b.take(b.len() as int) =~= b);
            assert(base64_decode(g) =~= b);
        } else {
            let rest = b.skip(3);
            lemma_base64_decodes(rest);
            let r = base64(rest);
            assert(base64(b) == g + r);
            assert((g + r).take(4) =~= g);
            assert((g + r).skip(4) =~= r);
            assert(b.take(3) + rest =~= b);
        }
    }
}

/// Base64 output has four characters per started group of three bytes, all
/// from the RFC 4648 alphabet, with `=` exactly in the last `pad_count`
/// places, and decoding it gives the input bytes back.
pub proof fn law_base64_round_trip(b: Seq<u8>)
    ensures
        base64(b).len() == 4 * ((b.len() + 2) / 3),
        forall|i: int| 0 <= i < base64(b).len() ==> is_base64_char(#[trigger] base64(b)[i]),
        forall|i: int|
            0 <= i < base64(b).len() ==> (#[trigger] base64(b)[i] == '=' <==> i >= base64(b).len()
                - pad_count(b.len() as int)),
        base64_decode(base64(b)) == b,
{
    lemma_base64_shape(b);
    lemma_base64_padding(b);
    lemma_base64_decodes(b);
}

proof fn lemma_double_esc_concat(a: Seq<char>, b: Seq<char>)
    ensures
        double_esc(a + b) == double_esc(a) + double_esc(b),
    decreases a.len(),
{
    if a.len() == 0 {
        assert(a + b =~= b);
    } else {
        lemma_double_esc_concat(a.drop_first(), b);
        assert((a + b).drop_first() =~= a.drop_first() + b);
        assert((a + b)[0] == a[0]);
        if a[0] == '\x1b' {
            assert(double_esc(a + b) =~= seq!['\x1b', '\x1b'] + double_esc(a.drop_first() + b));
            assert(double_esc(a) =~= seq!['\x1b', '\x1b'] + double_esc(a.drop_first()));
        } else {
            assert(double_esc(a + b) =~= seq![a[0]] + double_esc(a.drop_first() + b));
            assert(double_esc(a) =~= seq![a[0]] + double_esc(a.drop_first()));
        }
    }
}

proof fn lemma_double_esc_no_esc(s: Seq<char>)
    requires
        forall|i: int| 0 <= i < s.len() ==> s[i] != '\x1b',
    ensures
        double_esc(s) == s,
    decreases s.len(),
{
    if s.len() > 0 {
        lemma_double_esc_no_esc(s.drop_first());
        assert(double_esc(s) =~= seq![s[0]] + s.drop_first());
    }
}

proof fn lemma_double_esc_keeps(s: Seq<char>, c: char)
    requires
        c != '\x1b',
        forall|i: int| 0 <= i < s.len() ==> s[i] != c,
    ensures
        forall|i: int| 0 <= i < double_esc(s).len() ==> #[trigger] double_esc(s)[i] != c,
    decreases s.len(),
{
    if s.len() > 0 {
        lemma_double_esc_keeps(s.drop_first(), c);
        let r = double_esc(s.drop_first());
        let h: Seq<char> = if s[0] == '\x1b' { seq!['\x1b', '\x1b'] } else { seq![s[0]] };
        assert(double_esc(s) == h + r);
        assert forall|i: int| 0 <= i < double_esc(s).len() implies #[trigger] double_esc(s)[i]
            != c by {
            if i >= h.len() {
                assert(double_esc(s)[i] == r[i - h.len()]);
            }
        }
    }
}

proof fn lemma_capped_len(bytes: Seq<u8>)
    requires
        valid_utf8(bytes),
    ensures
        capped_bytes(bytes).len() <= OSC52_MAX_INPUT_BYTES,
        capped_bytes(bytes) == bytes.take(capped_bytes(bytes).len() as int),
        is_char_boundary(bytes, capped_bytes(bytes).len() as int),
{
    if bytes.len() > OSC52_MAX_INPUT_BYTES {
        lemma_boundary_floor(bytes, OSC52_MAX_INPUT_BYTES as int);
    } else {
        is_char_boundary_start_end_of_seq(bytes);
        assert(bytes.take(bytes.len() as int) =~= bytes);
    }
}

/// The base64 payload of the OSC 52 sequence never exceeds
/// [`OSC52_MAX_ENCODED_BYTES`], whatever the text.
pub proof fn law_osc52_payload_within_cap(text: &str)
    ensures
        base64(capped_bytes(text.spec_bytes())).len() <= OSC52_MAX_ENCODED_BYTES,
{
    broadcast use encode_utf8_valid_utf8;

    lemma_capped_len(text.spec_bytes());
    lemma_base64_shape(capped_bytes(text.spec_bytes()));
}

/// The copy sequence (bare or tmux-wrapped) never holds a line feed or a
/// carriage return, which would terminate the OSC string.
pub proof fn law_osc52_sequence_single_line(text: &str, tmux: bool)
    ensures
        forall|i: int|
            0 <= i < osc52_sequence(text.spec_bytes(), tmux).len() ==> {
                let c = #[trigger] osc52_sequence(text.spec_bytes(), tmux)[i];
                c != '\n' && c != '\r'
            },
{
    let payload = base64(capped_bytes(text.spec_bytes()));
    lemma_base64_shape(capped_bytes(text.spec_bytes()));
    let bare = osc52_frame(payload);
    assert forall|i: int| 0 <= i < bare.len() implies #[trigger] bare[i] != '\n' && bare[i]
        != '\r' by {
        if 7 <= i < 7 + payload.len() {
            assert(bare[i] == payload[i - 7]);
        }
    }
    if tmux {
        lemma_double_esc_keeps(bare, '\n');
        lemma_double_esc_keeps(bare, '\r');
        let d = double_esc(bare);
        let w = tmux_passthrough(bare);
        assert forall|i: int| 0 <= i < w.len() implies #[trigger] w[i] != '\n' && w[i]
            != '\r' by {
            if 7 <= i < 7 + d.len() {
                assert(w[i] == d[i - 7]);
            }
        }
    }
}

/// The tmux-wrapped sequence stays within the payload cap plus a fixed
/// framing overhead of 32 characters.
pub proof fn law_osc52_tmux_within_cap(text: &str)
    ensures
        osc52_sequence(text.spec_bytes(), true).len() <= OSC52_MAX_ENCODED_BYTES + 32,
{
    let payload = base64(capped_bytes(text.spec_bytes()));
    law_osc52_payload_within_cap(text);
    lemma_base64_shape(capped_bytes(text.spec_bytes()));
    let pre: Seq<char> = seq!['\x1b', ']', '5', '2', ';', 'c', ';'];
    let post: Seq<char> = seq!['\x07'];
    let rest = payload + post;
    assert(osc52_frame(payload) =~= pre + rest);
    lemma_double_esc_concat(pre, rest);
    assert forall|i: int| 0 <= i < rest.len() implies rest[i] != '\x1b' by {
        if i < payload.len() {
            assert(rest[i] == payload[i]);
        }
    }
    lemma_double_esc_no_esc(rest);
    assert(pre =~= seq!['\x1b'] + pre.drop_first());
    lemma_double_esc_concat(seq!['\x1b'], pre.drop_first());
    assert forall|i: int| 0 <= i < pre.drop_first().len() implies pre.drop_first()[i]
        != '\x1b' by {
    }
    lemma_double_esc_no_esc(pre.drop_first());
    assert(double_esc(seq!['\x1b']) =~= seq!['\x1b', '\x1b'] + double_esc(
        seq!['\x1b'].drop_first(),
    ));
    assert(double_esc(Seq::<char>::empty()) =~= Seq::<char>::empty());
    assert(seq!['\x1b'].drop_first() =~= Seq::<char>::empty());
}

/// Truncation keeps the head: the kept bytes are a prefix of the text's
/// bytes ending on a character boundary, and the kept characters are a
/// prefix of the text's characters.
pub proof fn law_osc52_truncation_keeps_head(text: &str)
    ensures
        capped_bytes(text.spec_bytes()) == text.spec_bytes().take(
            capped_bytes(text.spec_bytes()).len() as int,
        ),
        decode_utf8(capped_bytes(text.spec_bytes())) == text@.take(
            decode_utf8(capped_bytes(text.spec_bytes())).len() as int,
        ),
{
    broadcast use encode_utf8_valid_utf8;

    let bytes = text.spec_bytes();
    lemma_capped_len(bytes);
    let k = capped_bytes(bytes).len() as int;
    decode_utf8_split(bytes, k);
    encode_utf8_decode_utf8(text@);
    assert(bytes.subrange(0, k) =~= capped_bytes(bytes));
    let head = decode_utf8(capped_bytes(bytes));
    let tail = decode_utf8(bytes.subrange(k, bytes.len() as int));
    assert(text@ == head + tail);
    assert(text@.take(head.len() as int) =~= head);
}

/// A copy that had to be cut reaches the clipboard with strictly fewer
/// characters than the text has; one that was not cut keeps them all.
pub proof fn law_osc52_truncation_drops_chars(text: &str)
    ensures
        text.spec_bytes().len() > OSC52_MAX_INPUT_BYTES ==> decode_utf8(
            capped_bytes(text.spec_bytes()),
        ).len() < text@.len(),
        text.spec_bytes().len() <= OSC52_MAX_INPUT_BYTES ==> decode_utf8(
            capped_bytes(text.spec_bytes()),
        ) == text@,
{
    broadcast use encode_utf8_valid_utf8;

    let bytes = text.spec_bytes();
    encode_utf8_decode_utf8(text@);
    lemma_capped_len(bytes);
    let k = capped_bytes(bytes).len() as int;
    if bytes.len() > OSC52_MAX_INPUT_BYTES {
        decode_utf8_split(bytes, k);
        valid_utf8_split(bytes, k);
        let tail_bytes = bytes.subrange(k, bytes.len() as int);
        assert(bytes.subrange(0, k) =~= capped_bytes(bytes));
        assert(tail_bytes.len() > 0);
        assert(decode_utf8(tail_bytes).len() > 0);
    }
}

/// The cut is the largest character boundary that fits: no boundary lies
/// between the kept length and the input cap.
pub proof fn law_osc52_truncation_is_maximal(text: &str)
    ensures
        forall|j: int|
            capped_bytes(text.spec_bytes()).len() < j <= OSC52_MAX_INPUT_BYTES && j
                <= text.spec_bytes().len() ==> !is_char_boundary(text.spec_bytes(), j),
{
    broadcast use encode_utf8_valid_utf8;

    let bytes = text.spec_bytes();
    if bytes.len() > OSC52_MAX_INPUT_BYTES {
        lemma_boundary_floor(bytes, OSC52_MAX_INPUT_BYTES as int);
    }
}

// ---------------------------------------------------------------------------
// Reading a bitmap out of the system clipboard
// ---------------------------------------------------------------------------

/// What the OS clipboard turned out to be holding.
#[derive(Debug, Clone, PartialEq, Eq)]
pub enum ClipboardImage {
    /// The clipboard holds a bitmap; these are its PNG bytes.
    Png(Vec<u8>),
    /// The clipboard holds no bitmap (text, nothing, an unsupported flavour).
    Empty,
    /// The read could not be performed; the payload is a short diagnostic
    /// reason and never holds clipboard bytes.
    Unavailable(String),
}

/// The seam between "ask the OS for a clipboard bitmap" and everything built
/// on top of it; implemented by the platform reader and by test fakes.
pub trait ClipboardImageSource {
    /// Read the clipboard's bitmap as PNG bytes. Must never panic.
    fn read_png(&self) -> ClipboardImage;
}

/// The PNG MIME type, `image/png`.
pub open spec fn png_mime() -> Seq<char> {
    seq!['i', 'm', 'a', 'g', 'e', '/', 'p', 'n', 'g']
}

/// Whether a helper's newline-separated flavour list advertises PNG: some
/// line, trimmed, equals `image/png` ignoring ASCII case.
pub open spec fn advertises_png_spec(list: Seq<char>) -> bool {
    exists|i: int|
        0 <= i < lines(list).len() && eq_ignore_ascii_case(trim(#[trigger] lines(list)[i]), png_mime())
}

/// True when `list` (a helper's newline-separated flavour list) advertises PNG.
pub fn advertises_png(list: &str) -> (b: bool)
    ensures
        b == advertises_png_spec(list@),
{
    let chars = chars_vec(list);
    let all = split_lines(chars.as_slice());
    let target = lower_chars(vec!['i', 'm', 'a', 'g', 'e', '/', 'p', 'n', 'g'].as_slice());
    assert(target@ =~= to_ascii_lower(png_mime()));
    let n = all.len();
    let mut i: usize = 0;
    while i < n
        invariant
            n == all@.len(),
            n == lines(list@).len(),
            chars@ == list@,
            target@ == to_ascii_lower(png_mime()),
            forall|k: int| 0 <= k < n ==> (#[trigger] all@[k])@ == lines(chars@)[k],
            forall|k: int|
                0 <= k < i ==> !eq_ignore_ascii_case(trim(#[trigger] lines(list@)[k]), png_mime()),
            i <= n,
        decreases n - i,
    {
        let line = &all[i];
        let t = trimmed(line.as_slice());
        let low = lower_chars(t.as_slice());
        if chars_eq(low.as_slice(), target.as_slice()) {
            assert(eq_ignore_ascii_case(trim(lines(list@)[i as int]), png_mime()));
            return true;
        }
        i = i + 1;
    }
    false
}

/// The outcome of listing the clipboard's flavours: `Some` when the read is
/// already decided (helper failed, or no PNG on offer), `None` when the PNG
/// bytes should be fetched next.
pub fn image_from_flavour_list(listing: Result<String, String>) -> (r: Option<ClipboardImage>)
    ensures
        listing matches Err(reason) ==> r == Some(ClipboardImage::Unavailable(reason)),
        listing matches Ok(list) ==> (r == if advertises_png_spec(list@) {
            None
        } else {
            Some(ClipboardImage::Empty)
        }),
{
    match listing {
        Err(reason) => Some(ClipboardImage::Unavailable(reason)),
        Ok(list) => {
            if advertises_png(list.as_str()) {
                None
            } else {
                Some(ClipboardImage::Empty)
            }
        },
    }
}

/// `"<command> returned no bytes"`.
pub open spec fn no_bytes_reason(command: Seq<char>) -> Seq<char> {
    command + seq![' ', 'r', 'e', 't', 'u', 'r', 'n', 'e', 'd', ' ', 'n', 'o', ' ', 'b', 'y', 't', 'e', 's']
}

/// The outcome of fetching the PNG bytes with `command`: a failed read or a
/// zero-byte payload is `Unavailable`, anything else is the bitmap.
pub fn image_from_png_read(command: &str, read: Result<Vec<u8>, String>) -> (r: ClipboardImage)
    ensures
        read matches Err(reason) ==> r == ClipboardImage::Unavailable(reason),
        read matches Ok(bytes) ==> (r == if bytes@.len() == 0 {
            ClipboardImage::Unavailable(r->Unavailable_0)
        } else {
            ClipboardImage::Png(bytes)
        }),
        read matches Ok(bytes) && bytes@.len() == 0 ==> r is Unavailable && r->Unavailable_0@
            == no_bytes_reason(command@),
{
    match read {
        Err(reason) => ClipboardImage::Unavailable(reason),
        Ok(bytes) => {
            if bytes.len() == 0 {
                let mut reason = String::new();
                reason.append(command);
                let suffix = vec![' ', 'r', 'e', 't', 'u', 'r', 'n', 'e', 'd', ' ', 'n', 'o', ' ', 'b', 'y', 't', 'e', 's'];
                push_chars(&mut reason, suffix.as_slice());
                ClipboardImage::Unavailable(reason)
            } else {
                ClipboardImage::Png(bytes)
            }
        },
    }
}

/// Wayland-then-X11 fallback: when the Wayland read was unavailable, the X11
/// outcome decides, and two unavailable reads are reported together as
/// `"<wayland>; <x11>"`.
pub fn merge_unavailable(wayland_reason: String, x11: ClipboardImage) -> (r: ClipboardImage)
    ensures
        !(x11 is Unavailable) ==> r == x11,
        x11 matches ClipboardImage::Unavailable(x) ==> r is Unavailable && r->Unavailable_0@
            == wayland_reason@ + seq![';', ' '] + x@,
{
    match x11 {
        ClipboardImage::Unavailable(x) => {
            let mut reason = wayland_reason;
            push_char(&mut reason, ';');
            push_char(&mut reason, ' ');
            reason.append(x.as_str());
            ClipboardImage::Unavailable(reason)
        },
        other => other,
    }
}

/// `NOIMAGE`: the sentinel the macOS AppleScript helper prints when the
/// pasteboard holds no PNG.
pub open spec fn no_image_sentinel() -> Seq<char> {
    seq!['N', 'O', 'I', 'M', 'A', 'G', 'E']
}

/// Whether the macOS helper's output, trimmed, is the `NOIMAGE` sentinel.
pub fn osascript_reports_no_image(output: &str) -> (b: bool)
    ensures
        b == (trim(output@) == no_image_sentinel()),
{
    let chars = chars_vec(output);
    let t = trimmed(chars.as_slice());
    let target = vec!['N', 'O', 'I', 'M', 'A', 'G', 'E'];
    assert(target@ =~= no_image_sentinel());
    chars_eq(t.as_slice(), target.as_slice())
}

// ---------------------------------------------------------------------------
// Staging a pasted bitmap
// ---------------------------------------------------------------------------

/// The SHA-256 digest of `data` (computed by the `sha2` crate).
pub uninterp spec fn sha256_digest(data: Seq<u8>) -> Seq<u8>;

/// `sha2::Sha256::digest`.
///
/// Trusted: the result is named by [`sha256_digest`] of the input bytes; its
/// length is 32, the SHA-256 output size fixed by the digest's type.
#[verifier::external_body]
fn sha256(data: &[u8]) -> (d: Vec<u8>)
    ensures
        d@ == sha256_digest(data@),
        d@.len() == 32,
{
    <sha2::Sha256 as sha2::Digest>::digest(data).to_vec()
}

/// Lower-case hex digit for `v < 16`.
pub open spec fn hex_digit(v: int) -> char {
    if v < 10 {
        (('0' as u32) + v) as char
    } else {
        (('a' as u32) + (v - 10)) as char
    }
}

/// Two lower-case hex digits per byte (`{byte:02x}`).
pub open spec fn hex_lower(bytes: Seq<u8>) -> Seq<char>
    decreases bytes.len(),
{
    if bytes.len() == 0 {
        Seq::empty()
    } else {
        seq![hex_digit(bytes[0] as int / 16), hex_digit(bytes[0] as int % 16)] + hex_lower(
            bytes.drop_first(),
        )
    }
}

/// `paste-<first 16 hex chars of the digest>.png`.
pub open spec fn staged_name_spec(digest: Seq<u8>) -> Seq<char> {
    seq!['p', 'a', 's', 't', 'e', '-'] + hex_lower(digest.take(8)) + seq!['.', 'p', 'n', 'g']
}

fn hex_char(v: u8) -> (c: char)
    requires
        v < 16,
    ensures
        c == hex_digit(v as int),
{
    if v < 10 {
        (48u8 + v) as char
    } else {
        (97u8 + (v - 10)) as char
    }
}

/// The staging file name for a bitmap whose SHA-256 digest is `digest`.
pub fn staged_paste_file_name_from_digest(digest: &[u8]) -> (name: String)
    requires
        digest@.len() >= 8,
    ensures
        name@ == staged_name_spec(digest@),
{
    let mut name = String::new();
    push_chars(&mut name, vec!['p', 'a', 's', 't', 'e', '-'].as_slice());
    let ghost head = digest@.take(8);
    let mut i: usize = 0;
    assert(head.skip(0) =~= head);
    while i < 8
        invariant
            digest@.len() >= 8,
            head == digest@.take(8),
            i <= 8,
            seq!['p', 'a', 's', 't', 'e', '-'] + hex_lower(head) == name@ + hex_lower(
                head.skip(i as int),
            ),
        decreases 8 - i,
    {
        let byte = digest[i];
        let ghost before = name@;
        push_char(&mut name, hex_char(byte / 16));
        push_char(&mut name, hex_char(byte % 16));
        assert(head.skip(i as int).drop_first() =~= head.skip(i + 1));
        assert(name@ =~= before + seq![hex_digit(byte as int / 16), hex_digit(byte as int % 16)]);
        i = i + 1;
    }
    assert(head.skip(8) =~= Seq::<u8>::empty());
    push_chars(&mut name, vec!['.', 'p', 'n', 'g'].as_slice());
    name
}

/// Staging file name for a clipboard bitmap: `paste-<sha256[..16]>.png`,
/// content-addressed so the same bitmap always maps to the same file.
pub fn staged_paste_file_name(bytes: &[u8]) -> (name: String)
    ensures
        name@ == staged_name_spec(sha256_digest(bytes@)),
{
    let digest = sha256(bytes);
    staged_paste_file_name_from_digest(digest.as_slice())
}

// ---------------------------------------------------------------------------
// What a copy takes
// ---------------------------------------------------------------------------

/// The latest committed assistant message with non-blank text.
pub open spec fn last_assistant_text(msgs: Seq<crate::model::Message>) -> Option<Seq<char>>
    decreases msgs.len(),
{
    if msgs.len() == 0 {
        None
    } else if msgs.last().role == crate::model::MessageRole::Assistant && !crate::text::is_blank(
        msgs.last().content@,
    ) {
        Some(msgs.last().content@)
    } else {
        last_assistant_text(msgs.drop_last())
    }
}

/// The text a copy takes from the active session: the reply streaming in when
/// it is not blank, else the last non-blank assistant message.
pub open spec fn copyable_spec(state: crate::model::AppState) -> Option<Seq<char>> {
    match state.active_session_spec() {
        None => None,
        Some(session) => match session.live_reply {
            Some(live) if !crate::text::is_blank(live.text@) => Some(live.text@),
            _ => last_assistant_text(session.messages@),
        },
    }
}

/// The assistant text to copy, or `None` when there is none yet (so the
/// caller can say "nothing to copy" rather than clear the clipboard).
pub fn copyable_assistant_text(state: &crate::model::AppState) -> (r: Option<String>)
    ensures
        match r {
            Some(t) => copyable_spec(*state) == Some(t@),
            None => copyable_spec(*state) is None,
        },
{
    let session = match state.active_session() {
        Some(s) => s,
        None => return None,
    };
    if let Some(live) = &session.live_reply {
        let chars = chars_vec(live.text.as_str());
        if !crate::text::chars_are_blank(chars.as_slice()) {
            return Some(live.text.clone());
        }
    }
    let n = session.messages.len();
    let mut i: usize = n;
    assert(session.messages@.take(n as int) =~= session.messages@);
    assert(copyable_spec(*state) == last_assistant_text(session.messages@));
    while i > 0
        invariant
            copyable_spec(*state) == last_assistant_text(session.messages@),
            i <= n,
            n == session.messages@.len(),
            last_assistant_text(session.messages@) == last_assistant_text(
                session.messages@.take(i as int),
            ),
        decreases i,
    {
        let m = &session.messages[i - 1];
        assert(session.messages@.take(i as int).drop_last() =~= session.messages@.take(i - 1));
        assert(session.messages@.take(i as int).last() == *m);
        let chars = chars_vec(m.content.as_str());
        let assistant = match m.role {
            crate::model::MessageRole::Assistant => true,
            _ => false,
        };
        if assistant && !crate::text::chars_are_blank(chars.as_slice()) {
            return Some(m.content.clone());
        }
        i = i - 1;
    }
    assert(session.messages@.take(0) =~= Seq::<crate::model::Message>::empty());
    None
}

} // verus!
