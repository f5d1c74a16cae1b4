//! Inserting finalized history lines into the terminal's normal scrollback,
//! above the inline viewport.
//!
//! The mechanism: set a DECSTBM scroll region over the rows above the
//! viewport, scroll it (Reverse Index, `ESC M`) or let it grow when there is
//! room below the viewport, print the new rows into the freed space, reset the
//! region and restore the cursor. The printed rows land in the terminal's own
//! grid, so they become real scrollback: selectable, scrollable, copyable.
//!
//! Each line is first word-wrapped to the viewport width so that it occupies
//! the right number of physical rows. This module computes the wrapped rows
//! and the exact stream of terminal operations; writing them is the caller's.

use vstd::prelude::*;
use crate::text::{chars_vec, char_is_whitespace, decimal, is_blank, is_ws, string_of};

verus! {

// ---------------------------------------------------------------------------
// Styled text
// ---------------------------------------------------------------------------

/// A terminal colour (the palette of `ratatui::style::Color`).
#[derive(Debug, Clone, Copy, PartialEq, Eq, Structural)]
pub enum Color {
    Reset,
    Black,
    Red,
    Green,
    Yellow,
    Blue,
    Magenta,
    Cyan,
    Gray,
    DarkGray,
    LightRed,
    LightGreen,
    LightYellow,
    LightBlue,
    LightMagenta,
    LightCyan,
    White,
    Rgb(u8, u8, u8),
    Indexed(u8),
}

/// Text modifiers as bits (the bit values of `ratatui::style::Modifier`).
pub const BOLD: u16 = 0x001;
pub const DIM: u16 = 0x002;
pub const ITALIC: u16 = 0x004;
pub const UNDERLINED: u16 = 0x008;
pub const REVERSED: u16 = 0x040;
pub const CROSSED_OUT: u16 = 0x100;

/// A style: colours, and the modifiers it adds and removes.
#[derive(Debug, Clone, Copy, PartialEq, Eq, Structural)]
pub struct Style {
    pub fg: Option<Color>,
    pub bg: Option<Color>,
    pub underline_color: Option<Color>,
    pub add_modifier: u16,
    pub sub_modifier: u16,
}

pub open spec fn or_opt(a: Option<Color>, b: Option<Color>) -> Option<Color> {
    match a {
        Some(c) => Some(c),
        None => b,
    }
}

/// `base` patched with `other` (ratatui `Style::patch`): `other`'s colours
/// win where it sets them; its removed modifiers are dropped from `base`'s
/// added ones and its added modifiers joined, and the other way round for
/// the removed set.
pub open spec fn patch_spec(base: Style, other: Style) -> Style {
    Style {
        fg: or_opt(other.fg, base.fg),
        bg: or_opt(other.bg, base.bg),
        underline_color: or_opt(other.underline_color, base.underline_color),
        add_modifier: (base.add_modifier & !other.sub_modifier) | other.add_modifier,
        sub_modifier: (base.sub_modifier & !other.add_modifier) | other.sub_modifier,
    }
}

fn or_color(a: Option<Color>, b: Option<Color>) -> (r: Option<Color>)
    ensures
        r == or_opt(a, b),
{
    match a {
        Some(c) => Some(c),
        None => b,
    }
}

impl Style {
    pub fn patch(self, other: Style) -> (s: Style)
        ensures
            s == patch_spec(self, other),
    {
        Style {
            fg: or_color(other.fg, self.fg),
            bg: or_color(other.bg, self.bg),
            underline_color: or_color(other.underline_color, self.underline_color),
            add_modifier: (self.add_modifier & !other.sub_modifier) | other.add_modifier,
            sub_modifier: (self.sub_modifier & !other.add_modifier) | other.sub_modifier,
        }
    }
}

impl Default for Style {
    /// No colours and no modifiers.
    fn default() -> (s: Style)
        ensures
            s.fg is None && s.bg is None && s.underline_color is None,
            s.add_modifier == 0 && s.sub_modifier == 0,
    {
        Style { fg: None, bg: None, underline_color: None, add_modifier: 0, sub_modifier: 0 }
    }
}

/// A run of text in one style.
#[derive(Debug, Clone, PartialEq, Eq)]
pub struct StyledSpan {
    pub content: String,
    pub style: Style,
}

/// A line of styled spans, with a line-level style.
#[derive(Debug, Clone, PartialEq, Eq)]
pub struct StyledLine {
    pub spans: Vec<StyledSpan>,
    pub style: Style,
}

pub struct SpanView {
    pub content: Seq<char>,
    pub style: Style,
}

impl View for StyledSpan {
    type V = SpanView;

    open spec fn view(&self) -> SpanView {
        SpanView { content: self.content@, style: self.style }
    }
}

pub open spec fn span_views(s: Seq<StyledSpan>) -> Seq<SpanView> {
    s.map_values(|x: StyledSpan| x@)
}

fn clone_span(s: &StyledSpan) -> (r: StyledSpan)
    ensures
        r@ == s@,
{
    StyledSpan { content: s.content.clone(), style: s.style }
}

// ---------------------------------------------------------------------------
// Display width (unicode-width)
// ---------------------------------------------------------------------------

/// The columns `unicode-width` gives a string.
pub uninterp spec fn str_display_width(s: Seq<char>) -> usize;

/// The columns `unicode-width` gives a char (`None` for control chars).
pub uninterp spec fn char_display_width(c: char) -> Option<usize>;

/// `UnicodeWidthStr::width`: a string's displayed width in columns.
///
/// Trusted: the result depends on the string alone (unicode-width's tables
/// are fixed), named `str_display_width`; nothing more is stated of it.
#[verifier::external_body]
fn str_width(s: &str) -> (w: usize)
    ensures
        w == str_display_width(s@),
{
    unicode_width::UnicodeWidthStr::width(s)
}

/// `UnicodeWidthChar::width`: a char's displayed width, `None` for a control
/// character.
///
/// Trusted: the result depends on the char alone, named
/// `char_display_width`; nothing more is stated of it.
#[verifier::external_body]
fn char_width(c: char) -> (w: Option<usize>)
    ensures
        w == char_display_width(c),
{
    unicode_width::UnicodeWidthChar::width(c)
}

/// The columns a char advances the hard-split cursor by (0 for control
/// characters).
pub open spec fn char_cols(c: char) -> usize {
    match char_display_width(c) {
        Some(w) => w,
        None => 0,
    }
}

// ---------------------------------------------------------------------------
// Words and whitespace runs
// ---------------------------------------------------------------------------

/// All the pieces joined, in order.
pub open spec fn flatten(parts: Seq<Seq<char>>) -> Seq<char>
    decreases parts.len(),
{
    if parts.len() == 0 {
        Seq::empty()
    } else {
        flatten(parts.drop_last()) + parts.last()
    }
}

/// `s` cut into maximal runs of whitespace and of non-whitespace, in order.
pub open spec fn ws_runs(s: Seq<char>) -> Seq<Seq<char>>
    decreases s.len(),
{
    if s.len() == 0 {
        Seq::empty()
    } else {
        let init = ws_runs(s.drop_last());
        let c = s.last();
        if init.len() > 0 && is_ws(init.last().last()) == is_ws(c) {
            init.update(init.len() - 1, init.last().push(c))
        } else {
            init.push(seq![c])
        }
    }
}

/// Each run is non-empty and all whitespace or all not.
pub open spec fn runs_uniform(parts: Seq<Seq<char>>) -> bool {
    forall|k: int, j: int|
        0 <= k < parts.len() && 0 <= j < parts[k].len() ==> parts[k].len() > 0 && is_ws(
            #[trigger] parts[k][j],
        ) == is_ws(parts[k][0])
}

/// Neighbouring runs differ in whitespace-ness (the runs are maximal).
pub open spec fn runs_alternate(parts: Seq<Seq<char>>) -> bool {
    forall|k: int|
        0 < k < parts.len() ==> is_ws((#[trigger] parts[k])[0]) != is_ws(parts[k - 1][0])
}

/// Splitting keeps every character: joining the runs gives back the
/// string; the runs are non-empty, uniform and alternating.
pub proof fn law_ws_runs_round_trip(s: Seq<char>)
    ensures
        flatten(ws_runs(s)) == s,
        runs_uniform(ws_runs(s)),
        runs_alternate(ws_runs(s)),
        s.len() == 0 <==> ws_runs(s).len() == 0,
    decreases s.len(),
{
    if s.len() > 0 {
        let init = ws_runs(s.drop_last());
        law_ws_runs_round_trip(s.drop_last());
        let c = s.last();
        if init.len() > 0 && is_ws(init.last().last()) == is_ws(c) {
            let r = init.update(init.len() - 1, init.last().push(c));
            assert(r.drop_last() =~= init.drop_last());
            assert(flatten(r) =~= flatten(init).push(c));
            assert(s =~= s.drop_last().push(c));
            assert forall|k: int, j: int|
                0 <= k < r.len() && 0 <= j < r[k].len() implies r[k].len() > 0 && is_ws(
                #[trigger] r[k][j],
            ) == is_ws(r[k][0]) by {
                if k == r.len() - 1 {
                    let last = init.last();
                    assert(is_ws(last[last.len() - 1]) == is_ws(last[0]));
                    if j < last.len() {
                        assert(r[k][j] == last[j]);
                    }
                }
            }
            assert forall|k: int| 0 < k < r.len() implies is_ws((#[trigger] r[k])[0]) != is_ws(
                r[k - 1][0],
            ) by {
                if k == r.len() - 1 {
                    assert(r[k][0] == init[k][0]);
                }
            }
        } else {
            let r = init.push(seq![c]);
            assert(r.drop_last() =~= init);
            assert(s =~= s.drop_last().push(c));
            assert(flatten(r) =~= flatten(init) + seq![c]);
            assert forall|k: int| 0 < k < r.len() implies is_ws((#[trigger] r[k])[0]) != is_ws(
                r[k - 1][0],
            ) by {
                if k == r.len() - 1 {
                    let last = init.last();
                    assert(is_ws(last[last.len() - 1]) == is_ws(last[0]));
                }
            }
        }
    }
}

pub open spec fn strings_view(v: Seq<String>) -> Seq<Seq<char>> {
    v.map_values(|x: String| x@)
}

/// Splits a string into words and whitespace runs, both kept.
pub fn split_keep_ws(s: &str) -> (parts: Vec<String>)
    ensures
        strings_view(parts@) == ws_runs(s@),
{
    let cs = chars_vec(s);
    let n = cs.len();
    let mut done: Vec<String> = Vec::new();
    let mut cur: Vec<char> = Vec::new();
    let mut cur_ws = false;
    let mut i: usize = 0;
    while i < n
        invariant
            n == cs@.len(),
            cs@ == s@,
            i <= n,
            i > 0 ==> cur@.len() > 0,
            cur@.len() > 0 ==> cur_ws == is_ws(cur@.last()),
            if cur@.len() > 0 {
                strings_view(done@).push(cur@) == ws_runs(cs@.take(i as int))
            } else {
                strings_view(done@) == ws_runs(cs@.take(i as int))
            },
        decreases n - i,
    {
        let c = cs[i];
        let ws = char_is_whitespace(c);
        let ghost prefix = cs@.take(i + 1);
        assert(prefix.drop_last() =~= cs@.take(i as int));
        assert(prefix.last() == c);
        if cur.len() > 0 && cur_ws == ws {
            let ghost before = cur@;
            cur.push(c);
            assert(strings_view(done@).push(cur@) =~= strings_view(done@).push(before).update(
                done@.len() as int,
                before.push(c),
            ));
        } else {
            if cur.len() > 0 {
                let word = string_of(cur.as_slice());
                let ghost before = done@;
                done.push(word);
                assert(strings_view(done@) =~= strings_view(before).push(cur@));
            }
            cur = Vec::new();
            cur.push(c);
            assert(cur@ =~= seq![c]);
        }
        cur_ws = ws;
        i = i + 1;
    }
    assert(cs@.take(n as int) =~= cs@);
    if cur.len() > 0 {
        let word = string_of(cur.as_slice());
        let ghost before = done@;
        done.push(word);
        assert(strings_view(done@) =~= strings_view(before).push(cur@));
    }
    done
}

// ---------------------------------------------------------------------------
// Hard split of an over-long word
// ---------------------------------------------------------------------------

/// The chunks a hard split cuts from position `i` on, the current chunk
/// starting at `start` and having used `col` columns: a new chunk starts
/// before a char that would take the current one past `width`.
pub open spec fn chunks_from(cs: Seq<char>, width: usize, i: int, start: int, col: int) -> Seq<
    Seq<char>,
>
    decreases cs.len() - i,
{
    if i >= cs.len() {
        if start < cs.len() {
            seq![cs.subrange(start, cs.len() as int)]
        } else {
            Seq::empty()
        }
    } else if col + char_cols(cs[i]) > width && i > start {
        seq![cs.subrange(start, i)] + chunks_from(cs, width, i + 1, i, char_cols(cs[i]) as int)
    } else {
        chunks_from(cs, width, i + 1, start, col + char_cols(cs[i]))
    }
}

/// A word cut into chunks of at most `width` columns at char boundaries
/// (a chunk is wider only when it is one char); the empty word is one
/// empty chunk.
pub open spec fn hard_split_spec(cs: Seq<char>, width: usize) -> Seq<Seq<char>> {
    let r = chunks_from(cs, width, 0, 0, 0);
    if r.len() == 0 {
        seq![cs]
    } else {
        r
    }
}

proof fn lemma_flatten_single(x: Seq<char>)
    ensures
        flatten(seq![x]) == x,
{
    assert(seq![x].drop_last() =~= Seq::<Seq<char>>::empty());
    assert(flatten(Seq::<Seq<char>>::empty()) == Seq::<char>::empty());
    assert(seq![x].last() == x);
    assert(Seq::<char>::empty() + x =~= x);
}

/// Joining two lists of pieces joins their joins.
pub proof fn lemma_flatten_concat(a: Seq<Seq<char>>, b: Seq<Seq<char>>)
    ensures
        flatten(a + b) == flatten(a) + flatten(b),
    decreases b.len(),
{
    if b.len() == 0 {
        assert(a + b =~= a);
        assert(flatten(a) + flatten(b) =~= flatten(a));
    } else {
        lemma_flatten_concat(a, b.drop_last());
        assert((a + b).drop_last() =~= a + b.drop_last());
        assert(flatten(a) + flatten(b) =~= flatten(a) + flatten(b.drop_last()) + b.last());
    }
}

proof fn lemma_chunks_flatten(cs: Seq<char>, width: usize, i: int, start: int, col: int)
    requires
        0 <= start <= i <= cs.len(),
    ensures
        flatten(chunks_from(cs, width, i, start, col)) == cs.subrange(start, cs.len() as int),
    decreases cs.len() - i,
{
    if i >= cs.len() {
        if start < cs.len() {
            lemma_flatten_single(cs.subrange(start, cs.len() as int));
        } else {
            assert(cs.subrange(start, cs.len() as int) =~= Seq::<char>::empty());
        }
    } else if col + char_cols(cs[i]) > width && i > start {
        lemma_chunks_flatten(cs, width, i + 1, i, char_cols(cs[i]) as int);
        let rest = chunks_from(cs, width, i + 1, i, char_cols(cs[i]) as int);
        lemma_flatten_concat(seq![cs.subrange(start, i)], rest);
        lemma_flatten_single(cs.subrange(start, i));
        assert(cs.subrange(start, i) + cs.subrange(i, cs.len() as int) =~= cs.subrange(
            start,
            cs.len() as int,
        ));
    } else {
        lemma_chunks_flatten(cs, width, i + 1, start, col + char_cols(cs[i]));
    }
}

proof fn lemma_cols_sum_step(cs: Seq<char>, start: int, i: int)
    requires
        0 <= start <= i < cs.len(),
    ensures
        cols_sum(cs.subrange(start, i + 1)) == cols_sum(cs.subrange(start, i)) + char_cols(cs[i]),
{
    assert(cs.subrange(start, i + 1).drop_last() =~= cs.subrange(start, i));
}

proof fn lemma_chunk_fits(c: Seq<char>, col: int, width: int)
    requires
        col == cols_sum(c),
        col <= width || c.len() == 1,
    ensures
        chunk_fits(c, width),
{
    if c.len() == 1 && col > width {
        assert(c.drop_last() =~= Seq::<char>::empty());
        assert(cols_sum(Seq::<char>::empty()) == 0);
        assert(cols_sum(c) == char_cols(c[0]));
    }
}

proof fn lemma_chunks_fit(cs: Seq<char>, width: usize, i: int, start: int, col: int)
    requires
        0 <= start <= i <= cs.len(),
        col == cols_sum(cs.subrange(start, i)),
        col <= width || i == start + 1,
    ensures
        forall|k: int|
            0 <= k < chunks_from(cs, width, i, start, col).len() ==> chunk_fits(
                #[trigger] chunks_from(cs, width, i, start, col)[k],
                width as int,
            ),
    decreases cs.len() - i,
{
    let r = chunks_from(cs, width, i, start, col);
    if i >= cs.len() {
        if start < cs.len() {
            let c = cs.subrange(start, cs.len() as int);
            lemma_chunk_fits(c, col, width as int);
            assert(r =~= seq![c]);
            assert forall|k: int| 0 <= k < r.len() implies chunk_fits(#[trigger] r[k], width as int) by {
                assert(r[k] == c);
            }
        } else {
            assert(r =~= Seq::<Seq<char>>::empty());
        }
    } else if col + char_cols(cs[i]) > width && i > start {
        lemma_cols_sum_step(cs, i, i);
        assert(cs.subrange(i, i) =~= Seq::<char>::empty());
        lemma_chunks_fit(cs, width, i + 1, i, char_cols(cs[i]) as int);
        let c = cs.subrange(start, i);
        lemma_chunk_fits(c, col, width as int);
        let rest = chunks_from(cs, width, i + 1, i, char_cols(cs[i]) as int);
        assert(r == seq![c] + rest);
        assert forall|k: int| 0 <= k < r.len() implies chunk_fits(#[trigger] r[k], width as int) by {
            if k > 0 {
                assert(r[k] == rest[k - 1]);
            } else {
                assert(r[0] == c);
            }
        }
    } else {
        lemma_cols_sum_step(cs, start, i);
        if i == start {
            assert(cs.subrange(start, i) =~= Seq::<char>::empty());
        }
        lemma_chunks_fit(cs, width, i + 1, start, col + char_cols(cs[i]));
        assert(r == chunks_from(cs, width, i + 1, start, col + char_cols(cs[i])));
    }
}

/// Each hard-split chunk adds up to at most `width` columns char by char,
/// whenever each of its chars fits.
pub proof fn law_hard_split_chunks_fit(cs: Seq<char>, width: usize)
    ensures
        forall|k: int|
            0 <= k < hard_split_spec(cs, width).len() ==> chunk_fits(
                #[trigger] hard_split_spec(cs, width)[k],
                width as int,
            ),
{
    assert(cs.subrange(0, 0) =~= Seq::<char>::empty());
    lemma_chunks_fit(cs, width, 0, 0, 0);
    if chunks_from(cs, width, 0, 0, 0).len() == 0 {
        lemma_chunks_flatten(cs, width, 0, 0, 0);
        assert(cs.subrange(0, cs.len() as int) =~= cs);
        assert(cs =~= Seq::<char>::empty());
    }
}

/// Hard splitting keeps every character: the chunks join back to the word.
pub proof fn law_hard_split_round_trip(cs: Seq<char>, width: usize)
    ensures
        flatten(hard_split_spec(cs, width)) == cs,
{
    lemma_chunks_flatten(cs, width, 0, 0, 0);
    assert(cs.subrange(0, cs.len() as int) =~= cs);
    if chunks_from(cs, width, 0, 0, 0).len() == 0 {
        lemma_flatten_single(cs);
    }
}

/// Hard-splits an over-long word into chunks of at most `width` columns.
pub fn hard_split(word: &str, width: usize) -> (chunks: Vec<String>)
    ensures
        strings_view(chunks@) == hard_split_spec(word@, width),
{
    let cs = chars_vec(word);
    let n = cs.len();
    let mut out: Vec<String> = Vec::new();
    let mut start: usize = 0;
    let mut col: usize = 0;
    let mut i: usize = 0;
    while i < n
        invariant
            n == cs@.len(),
            cs@ == word@,
            start <= i <= n,
            i == start ==> col == 0,
            strings_view(out@) + chunks_from(cs@, width, i as int, start as int, col as int)
                == chunks_from(cs@, width, 0, 0, 0),
        decreases n - i,
    {
        let cw = match char_width(cs[i]) {
            Some(w) => w,
            None => 0,
        };
        assert(cw == char_cols(cs@[i as int]));
        let over = match col.checked_add(cw) {
            Some(t) => t > width,
            None => true,
        };
        if over && i > start {
            let chunk = crate::text::slice_chars(cs.as_slice(), start, i);
            let s = string_of(chunk.as_slice());
            let ghost before = out@;
            out.push(s);
            assert(strings_view(out@) =~= strings_view(before).push(cs@.subrange(
                start as int,
                i as int,
            )));
            assert(strings_view(out@) + chunks_from(cs@, width, i + 1, i as int, cw as int)
                =~= strings_view(before) + chunks_from(cs@, width, i as int, start as int, col as int));
            start = i;
            col = cw;
        } else {
            col = col + cw;
        }
        i = i + 1;
    }
    if start < n {
        let chunk = crate::text::slice_chars(cs.as_slice(), start, n);
        let s = string_of(chunk.as_slice());
        let ghost before = out@;
        out.push(s);
        assert(strings_view(out@) =~= strings_view(before) + chunks_from(cs@, width, n as int, start as int, col as int));
    } else {
        assert(strings_view(out@) =~= strings_view(out@) + chunks_from(cs@, width, n as int, start as int, col as int));
    }
    if out.len() == 0 {
        out.push(word.to_owned());
        assert(strings_view(out@) =~= seq![word@]);
    }
    out
}

// ---------------------------------------------------------------------------
// Word wrapping
// ---------------------------------------------------------------------------

pub struct LineView {
    pub spans: Seq<SpanView>,
    pub style: Style,
}

impl View for StyledLine {
    type V = LineView;

    open spec fn view(&self) -> LineView {
        LineView { spans: span_views(self.spans@), style: self.style }
    }
}

pub open spec fn line_views(v: Seq<StyledLine>) -> Seq<LineView> {
    v.map_values(|l: StyledLine| l@)
}

/// Displayed width of a row of spans (ratatui `Line::width`: the sum of its
/// spans' widths).
pub open spec fn row_width(spans: Seq<SpanView>) -> int
    decreases spans.len(),
{
    if spans.len() == 0 {
        0
    } else {
        row_width(spans.drop_last()) + str_display_width(spans.last().content)
    }
}

/// Each char of `s`, tagged with the style it is shown in.
pub open spec fn tag(s: Seq<char>, st: Style) -> Seq<(char, Style)> {
    s.map_values(|c: char| (c, st))
}

/// The styled characters of a row, in order.
pub open spec fn row_text(spans: Seq<SpanView>) -> Seq<(char, Style)>
    decreases spans.len(),
{
    if spans.len() == 0 {
        Seq::empty()
    } else {
        row_text(spans.drop_last()) + tag(spans.last().content, spans.last().style)
    }
}

/// The styled characters of several rows, in order.
pub open spec fn rows_text(rows: Seq<LineView>) -> Seq<(char, Style)>
    decreases rows.len(),
{
    if rows.len() == 0 {
        Seq::empty()
    } else {
        rows_text(rows.drop_last()) + row_text(rows.last().spans)
    }
}

/// The words and whitespace runs of a span, each with the span's style.
pub open spec fn span_words(sp: SpanView) -> Seq<(Seq<char>, Style)> {
    ws_runs(sp.content).map_values(|w: Seq<char>| (w, sp.style))
}

/// The words and whitespace runs of a row of spans, in order.
pub open spec fn line_words(spans: Seq<SpanView>) -> Seq<(Seq<char>, Style)>
    decreases spans.len(),
{
    if spans.len() == 0 {
        Seq::empty()
    } else {
        line_words(spans.drop_last()) + span_words(spans.last())
    }
}

/// The styled characters of the words that `keep` marks.
pub open spec fn kept_text(words: Seq<(Seq<char>, Style)>, keep: Seq<bool>) -> Seq<(char, Style)>
    decreases words.len(),
{
    if words.len() == 0 {
        Seq::empty()
    } else {
        kept_text(words.drop_last(), keep.drop_last()) + if keep.last() {
            tag(words.last().0, words.last().1)
        } else {
            Seq::empty()
        }
    }
}

/// `keep` marks each word, and only whitespace runs go unmarked.
pub open spec fn drops_only_blank(words: Seq<(Seq<char>, Style)>, keep: Seq<bool>) -> bool {
    &&& keep.len() == words.len()
    &&& forall|i: int| 0 <= i < words.len() && !keep[i] ==> is_blank(#[trigger] words[i].0)
}

/// The columns of `s` counted char by char (what a hard split adds up).
pub open spec fn cols_sum(s: Seq<char>) -> int
    decreases s.len(),
{
    if s.len() == 0 {
        0
    } else {
        cols_sum(s.drop_last()) + char_cols(s.last())
    }
}

/// A hard-split chunk fits `width` counted char by char, whenever each of
/// its chars does.
pub open spec fn chunk_fits(c: Seq<char>, width: int) -> bool {
    (forall|k: int| 0 <= k < c.len() ==> char_cols(#[trigger] c[k]) <= width) ==> cols_sum(c)
        <= width
}

/// A row fits `width`, or it is wider only by its last span: one hard-split
/// chunk, after zero-width ones, whose chars add up to at most `width`
/// columns whenever each of them fits (its string width, which joins
/// sequences such as emoji, may still exceed `width`).
pub open spec fn row_fits(spans: Seq<SpanView>, width: int) -> bool {
    row_width(spans) <= width || (spans.len() > 0 && row_width(spans) == str_display_width(
        spans.last().content,
    ) && chunk_fits(spans.last().content, width))
}

proof fn lemma_row_width_prefix(spans: Seq<SpanView>, k: int)
    requires
        0 <= k <= spans.len(),
    ensures
        row_width(spans.take(k)) <= row_width(spans),
    decreases spans.len(),
{
    if k < spans.len() {
        lemma_row_width_prefix(spans.drop_last(), k);
        assert(spans.drop_last().take(k) =~= spans.take(k));
    } else {
        assert(spans.take(k) =~= spans);
    }
}

impl StyledLine {
    /// The line's displayed width (the sum of its spans' widths, capped at
    /// `usize::MAX`).
    pub fn width(&self) -> (w: usize)
        ensures
            w == if row_width(self@.spans) > usize::MAX {
                usize::MAX as int
            } else {
                row_width(self@.spans)
            },
    {
        let n = self.spans.len();
        let mut total: usize = 0;
        let mut i: usize = 0;
        while i < n
            invariant
                n == self.spans@.len(),
                i <= n,
                total == row_width(self@.spans.take(i as int)),
            decreases n - i,
        {
            assert(self@.spans.take(i + 1).drop_last() =~= self@.spans.take(i as int));
            let w = str_width(self.spans[i].content.as_str());
            match total.checked_add(w) {
                Some(t) => total = t,
                None => {
                    proof {
                        lemma_row_width_prefix(self@.spans, i + 1);
                    }
                    return usize::MAX;
                },
            }
            i = i + 1;
        }
        assert(self@.spans.take(n as int) =~= self@.spans);
        total
    }
}

/// Whether the line fits in `width` columns.
fn line_fits(line: &StyledLine, width: usize) -> (b: bool)
    ensures
        b == (row_width(line@.spans) <= width),
{
    let n = line.spans.len();
    let mut total: usize = 0;
    let mut i: usize = 0;
    while i < n
        invariant
            n == line.spans@.len(),
            i <= n,
            total == row_width(line@.spans.take(i as int)),
            total <= width,
        decreases n - i,
    {
        assert(line@.spans.take(i + 1).drop_last() =~= line@.spans.take(i as int));
        let w = str_width(line.spans[i].content.as_str());
        match total.checked_add(w) {
            Some(t) => {
                if t > width {
                    proof {
                        lemma_row_width_prefix(line@.spans, i + 1);
                    }
                    return false;
                }
                total = t;
            },
            None => {
                proof {
                    lemma_row_width_prefix(line@.spans, i + 1);
                }
                return false;
            },
        }
        i = i + 1;
    }
    assert(line@.spans.take(n as int) =~= line@.spans);
    true
}

fn owned_line(line: &StyledLine) -> (r: StyledLine)
    ensures
        r@ == line@,
{
    let n = line.spans.len();
    let mut spans: Vec<StyledSpan> = Vec::new();
    let mut i: usize = 0;
    while i < n
        invariant
            n == line.spans@.len(),
            i <= n,
            span_views(spans@) == span_views(line.spans@).take(i as int),
        decreases n - i,
    {
        let ghost before = spans@;
        spans.push(clone_span(&line.spans[i]));
        assert(span_views(spans@) =~= span_views(before).push(line.spans@[i as int]@));
        i = i + 1;
    }
    assert(span_views(line.spans@).take(n as int) =~= span_views(line.spans@));
    StyledLine { spans, style: line.style }
}

/// Pushes a finished row (in the line's style) onto `out`.
fn push_row(out: &mut Vec<StyledLine>, row: Vec<StyledSpan>, style: Style)
    ensures
        final(out)@ == old(out)@.push((StyledLine { spans: row, style })),
        line_views(final(out)@) == line_views(old(out)@).push(LineView { spans: span_views(row@), style }),
        rows_text(line_views(final(out)@)) == rows_text(line_views(old(out)@)) + row_text(span_views(row@)),
{
    let ghost before = out@;
    out.push(StyledLine { spans: row, style });
    assert(line_views(out@) =~= line_views(before).push(LineView { spans: span_views(row@), style }));
    assert(line_views(out@).drop_last() =~= line_views(before));
}

/// Appends a piece to the current row.
fn push_piece(cur: &mut Vec<StyledSpan>, piece: String, style: Style)
    ensures
        span_views(final(cur)@) == span_views(old(cur)@).push(SpanView { content: piece@, style }),
        row_text(span_views(final(cur)@)) == row_text(span_views(old(cur)@)) + tag(piece@, style),
        row_width(span_views(final(cur)@)) == row_width(span_views(old(cur)@)) + str_display_width(
            piece@,
        ),
{
    let ghost before = cur@;
    cur.push(StyledSpan { content: piece, style });
    assert(span_views(cur@) =~= span_views(before).push(SpanView { content: piece@, style }));
    assert(span_views(cur@).drop_last() =~= span_views(before));
}

proof fn lemma_kept_push(words: Seq<(Seq<char>, Style)>, keep: Seq<bool>, w: (Seq<char>, Style), k: bool)
    requires
        keep.len() == words.len(),
    ensures
        kept_text(words.push(w), keep.push(k)) == kept_text(words, keep) + if k {
            tag(w.0, w.1)
        } else {
            Seq::empty()
        },
{
    assert(words.push(w).drop_last() =~= words);
    assert(keep.push(k).drop_last() =~= keep);
}

/// Whether `a + b` exceeds `limit` (an overflowing sum does).
fn exceeds(a: usize, b: usize, limit: usize) -> (r: bool)
    ensures
        r == (a + b > limit),
{
    match a.checked_add(b) {
        Some(t) => t > limit,
        None => true,
    }
}

/// The words of the spans before `si`, then the first `wi` of span `si`.
pub open spec fn words_upto(spans: Seq<SpanView>, si: int, wi: int) -> Seq<(Seq<char>, Style)> {
    line_words(spans.take(si)) + span_words(spans[si]).take(wi)
}

/// The spans of each row.
pub open spec fn row_spans(rows: Seq<LineView>) -> Seq<Seq<SpanView>> {
    rows.map_values(|r: LineView| r.spans)
}

/// A wrap in progress: the finished rows, and the row being filled.
pub type WrapState = (Seq<Seq<SpanView>>, Seq<SpanView>);

/// Ends the row being filled.
pub open spec fn break_row(st: WrapState) -> WrapState {
    (st.0.push(st.1), Seq::empty())
}

/// Adds `piece` to the row being filled, ending that row first when it is
/// not empty-width and the piece would take it past `width`.
pub open spec fn place(st: WrapState, piece: Seq<char>, style: Style, width: usize) -> WrapState {
    let s1 = if row_width(st.1) + str_display_width(piece) > width && row_width(st.1) > 0 {
        break_row(st)
    } else {
        st
    };
    (s1.0, s1.1.push(SpanView { content: piece, style }))
}

/// Places each chunk of an over-long word in turn.
pub open spec fn place_chunks(st: WrapState, chunks: Seq<Seq<char>>, style: Style, width: usize) -> WrapState
    decreases chunks.len(),
{
    if chunks.len() == 0 {
        st
    } else {
        place(place_chunks(st, chunks.drop_last(), style, width), chunks.last(), style, width)
    }
}

/// One greedy step: a word that does not fit on a row already holding
/// something ends that row; a whitespace run that would start the new row is
/// dropped; a word wider than the whole width is hard-split into chunks,
/// each placed in turn; any other word joins the row.
pub open spec fn wrap_word(st: WrapState, word: (Seq<char>, Style), width: usize) -> WrapState {
    let w = str_display_width(word.0);
    let over = row_width(st.1) + w > width && row_width(st.1) > 0;
    let s1 = if over {
        break_row(st)
    } else {
        st
    };
    if over && is_blank(word.0) {
        s1
    } else if w > width {
        place_chunks(s1, hard_split_spec(word.0, width), word.1, width)
    } else {
        (s1.0, s1.1.push(SpanView { content: word.0, style: word.1 }))
    }
}

/// The greedy wrap of `words`, one word after the other.
pub open spec fn wrap_words(words: Seq<(Seq<char>, Style)>, width: usize) -> WrapState
    decreases words.len(),
{
    if words.len() == 0 {
        (Seq::empty(), Seq::empty())
    } else {
        wrap_word(wrap_words(words.drop_last(), width), words.last(), width)
    }
}

/// The rows of the greedy wrap of `line` to `width` columns (0 counts as
/// 1): the line itself when it fits; otherwise the wrap of its words, the
/// last row included when it holds anything, and one empty row when nothing
/// was placed.
pub open spec fn wrap_rows(line: LineView, width: usize) -> Seq<Seq<SpanView>> {
    let w: usize = if width == 0 {
        1
    } else {
        width
    };
    if row_width(line.spans) <= w {
        seq![line.spans]
    } else {
        let st = wrap_words(line_words(line.spans), w);
        let rows = if st.1.len() > 0 {
            st.0.push(st.1)
        } else {
            st.0
        };
        if rows.len() == 0 {
            seq![Seq::empty()]
        } else {
            rows
        }
    }
}

/// `rows` is the wrapping of `line` to `width` columns (0 counts as 1): the
/// greedy rows of [`wrap_rows`], each in the line's style. So there is at
/// least one row, each fits the width (or is wider only by one hard-split
/// chunk that fits counted char by char), a line that fits is kept as it
/// is, and otherwise the rows hold
/// every styled character of the line's words in order, except whitespace
/// runs dropped where a row broke.
pub open spec fn wrapped_ok(line: LineView, rows: Seq<LineView>, width: usize) -> bool {
    let w: int = if width == 0 {
        1
    } else {
        width as int
    };
    &&& rows.len() >= 1
    &&& row_spans(rows) == wrap_rows(line, width)
    &&& forall|r: int|
        0 <= r < rows.len() ==> (#[trigger] rows[r]).style == line.style && row_fits(
            rows[r].spans,
            w,
        )
    &&& row_width(line.spans) <= w ==> rows == seq![line]
    &&& row_width(line.spans) > w ==> exists|keep: Seq<bool>|
        drops_only_blank(line_words(line.spans), keep) && rows_text(rows) == kept_text(
            line_words(line.spans),
            keep,
        )
}

proof fn lemma_wrap_words_push(words: Seq<(Seq<char>, Style)>, x: (Seq<char>, Style), width: usize)
    ensures
        wrap_words(words.push(x), width) == wrap_word(wrap_words(words, width), x, width),
{
    assert(words.push(x).drop_last() =~= words);
}

proof fn lemma_place_chunks_push(
    st: WrapState,
    chunks: Seq<Seq<char>>,
    c: Seq<char>,
    style: Style,
    width: usize,
)
    ensures
        place_chunks(st, chunks.push(c), style, width) == place(
            place_chunks(st, chunks, style, width),
            c,
            style,
            width,
        ),
{
    assert(chunks.push(c).drop_last() =~= chunks);
}

/// Word-wraps a line to `width` columns (at least one), keeping each span's
/// style; a word wider than the width is hard-split, and a whitespace run
/// that would start a wrapped row is dropped.
pub fn wrap_line(line: &StyledLine, width: usize) -> (rows: Vec<StyledLine>)
    ensures
        wrapped_ok(line@, line_views(rows@), width),
{
    let width = if width == 0 {
        1
    } else {
        width
    };
    if line_fits(line, width) {
        let only = owned_line(line);
        let rows = vec![only];
        assert(line_views(rows@) =~= seq![line@]);
        assert(row_spans(line_views(rows@)) =~= seq![line@.spans]);
        return rows;
    }
    let mut out: Vec<StyledLine> = Vec::new();
    let mut cur: Vec<StyledSpan> = Vec::new();
    let mut cur_width: usize = 0;
    let ghost mut keep: Seq<bool> = Seq::empty();
    let ghost spans = line@.spans;
    let ns = line.spans.len();
    let mut si: usize = 0;
    assert(line_words(spans.take(0)) =~= Seq::<(Seq<char>, Style)>::empty());
    while si < ns
        invariant
            ns == spans.len(),
            spans == line@.spans,
            si <= ns,
            width >= 1,
            forall|r: int| 0 <= r < out@.len() ==> (#[trigger] out@[r]).style == line.style,
            forall|r: int| 0 <= r < out@.len() ==> row_fits((#[trigger] out@[r])@.spans, width as int),
            cur_width == row_width(span_views(cur@)),
            row_fits(span_views(cur@), width as int),
            drops_only_blank(line_words(spans.take(si as int)), keep),
            rows_text(line_views(out@)) + row_text(span_views(cur@)) == kept_text(
                line_words(spans.take(si as int)),
                keep,
            ),
            (row_spans(line_views(out@)), span_views(cur@)) == wrap_words(
                line_words(spans.take(si as int)),
                width,
            ),
        decreases ns - si,
    {
        let span = &line.spans[si];
        let words = split_keep_ws(span.content.as_str());
        let nw = words.len();
        let mut wi: usize = 0;
        assert(words_upto(spans, si as int, 0) =~= line_words(spans.take(si as int)));
        while wi < nw
            invariant
                ns == spans.len(),
                spans == line@.spans,
                si < ns,
                span == line.spans@[si as int],
                strings_view(words@) == ws_runs(span.content@),
                nw == words@.len(),
                wi <= nw,
                width >= 1,
                forall|r: int| 0 <= r < out@.len() ==> (#[trigger] out@[r]).style == line.style,
                forall|r: int|
                    0 <= r < out@.len() ==> row_fits((#[trigger] out@[r])@.spans, width as int),
                cur_width == row_width(span_views(cur@)),
                row_fits(span_views(cur@), width as int),
                drops_only_blank(words_upto(spans, si as int, wi as int), keep),
                rows_text(line_views(out@)) + row_text(span_views(cur@)) == kept_text(
                    words_upto(spans, si as int, wi as int),
                    keep,
                ),
                (row_spans(line_views(out@)), span_views(cur@)) == wrap_words(
                    words_upto(spans, si as int, wi as int),
                    width,
                ),
            decreases nw - wi,
        {
            let word = &words[wi];
            let ghost item: (Seq<char>, Style) = (word@, span.style);
            assert(span_words(span@)[wi as int] == item) by {
                assert(strings_view(words@)[wi as int] == word@);
            }
            assert(words_upto(spans, si as int, wi + 1) =~= words_upto(
                spans,
                si as int,
                wi as int,
            ).push(item));
            let w = str_width(word.as_str());
            let ghost acc = rows_text(line_views(out@)) + row_text(span_views(cur@));
            let ghost st0: WrapState = wrap_words(words_upto(spans, si as int, wi as int), width);
            proof {
                lemma_wrap_words_push(words_upto(spans, si as int, wi as int), item, width);
            }
            if exceeds(cur_width, w, width) && cur_width > 0 {
                let row = cur;
                cur = Vec::new();
                let ghost rows_before = row_spans(line_views(out@));
                push_row(&mut out, row, line.style);
                cur_width = 0;
                assert(span_views(cur@) =~= Seq::<SpanView>::empty());
                assert(rows_text(line_views(out@)) + row_text(span_views(cur@)) =~= acc);
                assert(row_spans(line_views(out@)) =~= rows_before.push(span_views(row@)));
                let wc = chars_vec(word.as_str());
                if crate::text::chars_are_blank(wc.as_slice()) {
                    proof {
                        lemma_kept_push(words_upto(spans, si as int, wi as int), keep, item, false);
                        keep = keep.push(false);
                    }
                    assert((row_spans(line_views(out@)), span_views(cur@)) == wrap_word(
                        st0,
                        item,
                        width,
                    ));
                    wi = wi + 1;
                    continue;
                }
            }
            if w > width {
                let chunks = hard_split(word.as_str(), width);
                let nc = chunks.len();
                let mut ci: usize = 0;
                let ghost base = kept_text(words_upto(spans, si as int, wi as int), keep);
                let ghost s1: WrapState = (row_spans(line_views(out@)), span_views(cur@));
                assert(strings_view(chunks@).take(0) =~= Seq::<Seq<char>>::empty());
                proof {
                    law_hard_split_chunks_fit(word@, width);
                }
                while ci < nc
                    invariant
                        nc == chunks@.len(),
                        ci <= nc,
                        width >= 1,
                        forall|k: int|
                            0 <= k < nc ==> chunk_fits(
                                #[trigger] strings_view(chunks@)[k],
                                width as int,
                            ),
                        forall|r: int|
                            0 <= r < out@.len() ==> (#[trigger] out@[r]).style == line.style,
                        forall|r: int|
                            0 <= r < out@.len() ==> row_fits(
                                (#[trigger] out@[r])@.spans,
                                width as int,
                            ),
                        cur_width == row_width(span_views(cur@)),
                        row_fits(span_views(cur@), width as int),
                        rows_text(line_views(out@)) + row_text(span_views(cur@)) == base + tag(
                            flatten(strings_view(chunks@).take(ci as int)),
                            span.style,
                        ),
                        (row_spans(line_views(out@)), span_views(cur@)) == place_chunks(
                            s1,
                            strings_view(chunks@).take(ci as int),
                            span.style,
                            width,
                        ),
                    decreases nc - ci,
                {
                    let chunk = &chunks[ci];
                    let cw = str_width(chunk.as_str());
                    let ghost acc = rows_text(line_views(out@)) + row_text(span_views(cur@));
                    let ghost sp: WrapState = (row_spans(line_views(out@)), span_views(cur@));
                    proof {
                        lemma_place_chunks_push(
                            s1,
                            strings_view(chunks@).take(ci as int),
                            chunk@,
                            span.style,
                            width,
                        );
                        assert(strings_view(chunks@).take(ci + 1) =~= strings_view(chunks@).take(
                            ci as int,
                        ).push(chunk@));
                    }
                    if exceeds(cur_width, cw, width) && cur_width > 0 {
                        let row = cur;
                        cur = Vec::new();
                        let ghost rows_before = row_spans(line_views(out@));
                        push_row(&mut out, row, line.style);
                        cur_width = 0;
                        assert(span_views(cur@) =~= Seq::<SpanView>::empty());
                        assert(rows_text(line_views(out@)) + row_text(span_views(cur@)) =~= acc);
                        assert(row_spans(line_views(out@)) =~= rows_before.push(span_views(row@)));
                    }
                    let piece = chunk.clone();
                    push_piece(&mut cur, piece, span.style);
                    assert(rows_text(line_views(out@)) + row_text(span_views(cur@)) =~= acc + tag(
                        chunk@,
                        span.style,
                    ));
                    cur_width = cur_width + cw;
                    assert((row_spans(line_views(out@)), span_views(cur@)) == place(
                        sp,
                        chunk@,
                        span.style,
                        width,
                    ));
                    assert(strings_view(chunks@).take(ci + 1).drop_last() =~= strings_view(
                        chunks@,
                    ).take(ci as int));
                    assert(tag(flatten(strings_view(chunks@).take(ci + 1)), span.style) =~= tag(
                        flatten(strings_view(chunks@).take(ci as int)),
                        span.style,
                    ) + tag(chunk@, span.style));
                    ci = ci + 1;
                }
                proof {
                    assert(strings_view(chunks@).take(nc as int) =~= strings_view(chunks@));
                    law_hard_split_round_trip(word@, width);
                }
                assert((row_spans(line_views(out@)), span_views(cur@)) == wrap_word(
                    st0,
                    item,
                    width,
                ));
            } else {
                let ghost acc2 = rows_text(line_views(out@)) + row_text(span_views(cur@));
                let piece = word.clone();
                push_piece(&mut cur, piece, span.style);
                cur_width = cur_width + w;
                assert(rows_text(line_views(out@)) + row_text(span_views(cur@)) =~= acc2 + tag(
                    word@,
                    span.style,
                ));
                assert((row_spans(line_views(out@)), span_views(cur@)) == wrap_word(
                    st0,
                    item,
                    width,
                ));
            }
            proof {
                lemma_kept_push(words_upto(spans, si as int, wi as int), keep, item, true);
                keep = keep.push(true);
            }
            wi = wi + 1;
        }
        proof {
            assert(span_words(span@).take(nw as int) =~= span_words(span@));
            assert(spans.take(si + 1).drop_last() =~= spans.take(si as int));
            assert(line_words(spans.take(si + 1)) =~= words_upto(spans, si as int, nw as int));
        }
        si = si + 1;
    }
    assert(spans.take(ns as int) =~= spans);
    let ghost fin = wrap_words(line_words(spans), width);
    if cur.len() > 0 {
        let row = cur;
        let ghost rows_before = row_spans(line_views(out@));
        push_row(&mut out, row, line.style);
        assert(row_spans(line_views(out@)) =~= rows_before.push(span_views(row@)));
    } else {
        assert(row_text(span_views(cur@)) =~= Seq::<(char, Style)>::empty());
    }
    if out.len() == 0 {
        let empty: Vec<StyledSpan> = Vec::new();
        assert(row_text(span_views(empty@)) =~= Seq::<(char, Style)>::empty());
        assert(row_width(span_views(empty@)) == 0);
        let ghost ev = span_views(empty@);
        assert(ev =~= Seq::<SpanView>::empty());
        let ghost rows_before = row_spans(line_views(out@));
        assert(rows_before =~= Seq::<Seq<SpanView>>::empty());
        push_row(&mut out, empty, line.style);
        assert(row_spans(line_views(out@)) =~= rows_before.push(ev));
        assert(row_spans(line_views(out@)) =~= seq![Seq::<SpanView>::empty()]);
    }
    assert(row_spans(line_views(out@)) == wrap_rows(line@, width));
    assert(drops_only_blank(line_words(line@.spans), keep));
    assert forall|r: int| 0 <= r < line_views(out@).len() implies (#[trigger] line_views(
        out@,
    )[r]).style == line.style && row_fits(line_views(out@)[r].spans, width as int) by {
        assert(line_views(out@)[r] == out@[r]@);
    }
    out
}

/// A row that begins with something other than whitespace.
pub open spec fn starts_with_word(row: Seq<SpanView>) -> bool {
    row.len() > 0 && !is_blank(row[0].content)
}

/// Every finished row after the first begins with a word, and so does the
/// row being filled once a row has been finished.
spec fn wrap_state_ok(st: WrapState) -> bool {
    &&& forall|r: int| 1 <= r < st.0.len() ==> starts_with_word(#[trigger] st.0[r])
    &&& st.0.len() >= 1 && st.1.len() > 0 ==> !is_blank(st.1[0].content)
}

/// A word whose chars are all whitespace or all not.
spec fn uniform_word(w: Seq<char>) -> bool {
    forall|j: int| 0 <= j < w.len() ==> is_ws(#[trigger] w[j]) == is_ws(w[0])
}

/// No two whitespace runs follow each other, and none is wider than `width`.
pub open spec fn blanks_separate_and_fit(words: Seq<(Seq<char>, Style)>, width: usize) -> bool {
    &&& forall|k: int|
        0 < k < words.len() ==> !(is_blank(words[k - 1].0) && is_blank(#[trigger] words[k].0))
    &&& forall|k: int|
        0 <= k < words.len() && is_blank(#[trigger] words[k].0) ==> str_display_width(words[k].0)
            <= width
}

proof fn lemma_span_words_uniform(sp: SpanView)
    ensures
        forall|k: int| 0 <= k < span_words(sp).len() ==> uniform_word(#[trigger] span_words(sp)[k].0),
{
    law_ws_runs_round_trip(sp.content);
    let runs = ws_runs(sp.content);
    assert forall|k: int| 0 <= k < span_words(sp).len() implies uniform_word(
        #[trigger] span_words(sp)[k].0,
    ) by {
        assert(span_words(sp)[k].0 == runs[k]);
        assert forall|j: int| 0 <= j < runs[k].len() implies is_ws(#[trigger] runs[k][j]) == is_ws(
            runs[k][0],
        ) by {}
    }
}

proof fn lemma_line_words_uniform(spans: Seq<SpanView>)
    ensures
        forall|k: int| 0 <= k < line_words(spans).len() ==> uniform_word(#[trigger] line_words(spans)[k].0),
    decreases spans.len(),
{
    if spans.len() > 0 {
        lemma_line_words_uniform(spans.drop_last());
        lemma_span_words_uniform(spans.last());
        let a = line_words(spans.drop_last());
        let b = span_words(spans.last());
        assert forall|k: int| 0 <= k < line_words(spans).len() implies uniform_word(
            #[trigger] line_words(spans)[k].0,
        ) by {
            if k < a.len() {
                assert(line_words(spans)[k] == a[k]);
            } else {
                assert(line_words(spans)[k] == b[k - a.len()]);
            }
        }
    }
}

proof fn lemma_chunks_start_with_word(cs: Seq<char>, width: usize, i: int, start: int, col: int)
    requires
        0 <= start <= i <= cs.len(),
        forall|j: int| 0 <= j < cs.len() ==> !is_ws(#[trigger] cs[j]),
    ensures
        forall|k: int|
            0 <= k < chunks_from(cs, width, i, start, col).len() ==> !is_blank(
                #[trigger] chunks_from(cs, width, i, start, col)[k],
            ),
    decreases cs.len() - i,
{
    let r = chunks_from(cs, width, i, start, col);
    if i >= cs.len() {
        if start < cs.len() {
            let c = cs.subrange(start, cs.len() as int);
            assert(c[0] == cs[start]);
            assert(r =~= seq![c]);
            assert forall|k: int| 0 <= k < r.len() implies !is_blank(#[trigger] r[k]) by {
                assert(r[k] == c);
            }
        } else {
            assert(r =~= Seq::<Seq<char>>::empty());
        }
    } else if col + char_cols(cs[i]) > width && i > start {
        lemma_chunks_start_with_word(cs, width, i + 1, i, char_cols(cs[i]) as int);
        let c = cs.subrange(start, i);
        assert(c[0] == cs[start]);
        let rest = chunks_from(cs, width, i + 1, i, char_cols(cs[i]) as int);
        assert(r == seq![c] + rest);
        assert forall|k: int| 0 <= k < r.len() implies !is_blank(#[trigger] r[k]) by {
            if k > 0 {
                assert(r[k] == rest[k - 1]);
            } else {
                assert(r[0] == c);
            }
        }
    } else {
        lemma_chunks_start_with_word(cs, width, i + 1, start, col + char_cols(cs[i]));
        assert(r == chunks_from(cs, width, i + 1, start, col + char_cols(cs[i])));
    }
}

proof fn lemma_place_keeps_rows_ok(st: WrapState, piece: Seq<char>, style: Style, width: usize)
    requires
        wrap_state_ok(st),
        !is_blank(piece),
    ensures
        wrap_state_ok(place(st, piece, style, width)),
        place(st, piece, style, width).1.len() > 0,
{
    let r = place(st, piece, style, width);
    if row_width(st.1) + str_display_width(piece) > width && row_width(st.1) > 0 {
        assert(st.1.len() > 0);
        let s1 = break_row(st);
        assert(s1.0[st.0.len() as int] == st.1);
        assert forall|k: int| 1 <= k < s1.0.len() implies starts_with_word(#[trigger] s1.0[k]) by {
            if k < st.0.len() {
                assert(s1.0[k] == st.0[k]);
            }
        }
        assert(r.1[0] == SpanView { content: piece, style });
    } else {
        assert(r.1.len() > 0);
        if st.1.len() > 0 {
            assert(r.1[0] == st.1[0]);
        } else {
            assert(r.1[0] == SpanView { content: piece, style });
        }
    }
}

proof fn lemma_place_chunks_keeps_rows_ok(
    st: WrapState,
    chunks: Seq<Seq<char>>,
    style: Style,
    width: usize,
)
    requires
        wrap_state_ok(st),
        forall|k: int| 0 <= k < chunks.len() ==> !is_blank(#[trigger] chunks[k]),
    ensures
        wrap_state_ok(place_chunks(st, chunks, style, width)),
        chunks.len() > 0 ==> place_chunks(st, chunks, style, width).1.len() > 0,
    decreases chunks.len(),
{
    if chunks.len() > 0 {
        let init = chunks.drop_last();
        assert forall|k: int| 0 <= k < init.len() implies !is_blank(#[trigger] init[k]) by {
            assert(init[k] == chunks[k]);
        }
        lemma_place_chunks_keeps_rows_ok(st, init, style, width);
        lemma_place_keeps_rows_ok(place_chunks(st, init, style, width), chunks.last(), style, width);
    }
}

proof fn lemma_break_keeps_rows_ok(st: WrapState)
    requires
        wrap_state_ok(st),
        row_width(st.1) > 0,
    ensures
        wrap_state_ok(break_row(st)),
        break_row(st).1.len() == 0,
{
    assert(st.1.len() > 0);
    let s1 = break_row(st);
    assert(s1.0[st.0.len() as int] == st.1);
    assert forall|k: int| 1 <= k < s1.0.len() implies starts_with_word(#[trigger] s1.0[k]) by {
        if k < st.0.len() {
            assert(s1.0[k] == st.0[k]);
        }
    }
}

proof fn lemma_wrap_words_rows_ok(words: Seq<(Seq<char>, Style)>, width: usize)
    requires
        blanks_separate_and_fit(words, width),
        forall|k: int| 0 <= k < words.len() ==> uniform_word(#[trigger] words[k].0),
    ensures
        wrap_state_ok(wrap_words(words, width)),
        wrap_words(words, width).0.len() >= 1 && wrap_words(words, width).1.len() == 0 ==> words.len()
            > 0 && is_blank(words.last().0),
    decreases words.len(),
{
    if words.len() > 0 {
        let init = words.drop_last();
        let x = words.last();
        assert forall|k: int| 0 <= k < init.len() implies uniform_word(#[trigger] init[k].0) by {
            assert(init[k] == words[k]);
        }
        assert forall|k: int| 0 < k < init.len() implies !(is_blank(init[k - 1].0) && is_blank(
            #[trigger] init[k].0,
        )) by {
            assert(init[k] == words[k] && init[k - 1] == words[k - 1]);
        }
        assert forall|k: int| 0 <= k < init.len() && is_blank(#[trigger] init[k].0) implies str_display_width(
            init[k].0,
        ) <= width by {
            assert(init[k] == words[k]);
        }
        lemma_wrap_words_rows_ok(init, width);
        let st = wrap_words(init, width);
        assert(wrap_words(words, width) == wrap_word(st, x, width));
        assert(uniform_word(words[words.len() - 1].0));
        let w = str_display_width(x.0);
        let over = row_width(st.1) + w > width && row_width(st.1) > 0;
        if init.len() > 0 && is_blank(init.last().0) {
            assert(init.last() == words[words.len() - 2]);
            assert(!is_blank(x.0));
        }
        if over {
            lemma_break_keeps_rows_ok(st);
        }
        let s1 = if over {
            break_row(st)
        } else {
            st
        };
        if over && is_blank(x.0) {
        } else if w > width {
            assert(!is_blank(x.0)) by {
                assert(is_blank(words[words.len() - 1].0) ==> str_display_width(
                    words[words.len() - 1].0,
                ) <= width);
            }
            let i = choose|i: int| 0 <= i < x.0.len() && !is_ws(#[trigger] x.0[i]);
            assert(is_ws(x.0[i]) == is_ws(x.0[0]));
            assert forall|j: int| 0 <= j < x.0.len() implies !is_ws(#[trigger] x.0[j]) by {
                assert(is_ws(x.0[j]) == is_ws(x.0[0]));
            }
            lemma_chunks_start_with_word(x.0, width, 0, 0, 0);
            let chunks = hard_split_spec(x.0, width);
            assert forall|k: int| 0 <= k < chunks.len() implies !is_blank(#[trigger] chunks[k]) by {
                if chunks_from(x.0, width, 0, 0, 0).len() == 0 {
                    assert(chunks[k] == x.0);
                }
            }
            lemma_place_chunks_keeps_rows_ok(s1, chunks, x.1, width);
        } else {
            let r = (s1.0, s1.1.push(SpanView { content: x.0, style: x.1 }));
            assert(r.0 == s1.0);
            if s1.1.len() > 0 {
                assert(r.1[0] == s1.1[0]);
            } else {
                assert(r.1[0] == SpanView { content: x.0, style: x.1 });
            }
        }
    }
}

/// Wrapped rows do not begin with whitespace: a whitespace run that would
/// start a new row is dropped, so every row after the first begins with a
/// word. This holds for lines where no two whitespace runs follow each other
/// (they can only meet at a span boundary) and none is wider than the width.
pub proof fn law_wrapped_rows_start_with_a_word(line: LineView, rows: Seq<LineView>, width: usize)
    requires
        wrapped_ok(line, rows, width),
        blanks_separate_and_fit(
            line_words(line.spans),
            if width == 0 {
                1
            } else {
                width
            },
        ),
    ensures
        forall|r: int| 1 <= r < rows.len() ==> starts_with_word(#[trigger] rows[r].spans),
{
    let w: usize = if width == 0 {
        1
    } else {
        width
    };
    let wr = wrap_rows(line, width);
    assert forall|r: int| 1 <= r < rows.len() implies starts_with_word(#[trigger] rows[r].spans) by {
        assert(row_spans(rows)[r] == rows[r].spans);
        if row_width(line.spans) > w {
            lemma_line_words_uniform(line.spans);
            lemma_wrap_words_rows_ok(line_words(line.spans), w);
            let st = wrap_words(line_words(line.spans), w);
            let base = if st.1.len() > 0 {
                st.0.push(st.1)
            } else {
                st.0
            };
            assert(row_spans(rows).len() == rows.len());
            if base.len() == 0 {
                assert(wr.len() == 1);
            } else {
                assert(wr == base);
                if r < st.0.len() {
                    assert(wr[r] == st.0[r]);
                } else {
                    assert(st.1.len() > 0);
                    assert(wr[r] == st.1);
                }
            }
        } else {
            assert(wr.len() == 1);
        }
    }
}

// ---------------------------------------------------------------------------
// Terminal operations
// ---------------------------------------------------------------------------

/// An SGR text attribute (the `crossterm::style::Attribute`s used here).
#[derive(Debug, Clone, Copy, PartialEq, Eq, Structural)]
pub enum Attr {
    Reset,
    Bold,
    Dim,
    Italic,
    Underlined,
    Reverse,
    CrossedOut,
    NoReverse,
    NormalIntensity,
    NoItalic,
    NoUnderline,
    NotCrossedOut,
}

/// One operation on the terminal, in the order it is to be queued.
#[derive(Debug, Clone, PartialEq, Eq)]
pub enum TermOp {
    /// Move the cursor to column, row (0-based).
    MoveTo(u16, u16),
    /// Write text (escape sequences included) as it is.
    Print(String),
    /// Set the foreground and background colours.
    SetColors(Color, Color),
    SetForeground(Color),
    SetBackground(Color),
    SetAttribute(Attr),
    /// Clear from the cursor to the end of the line.
    ClearUntilNewLine,
}

pub enum TermOpView {
    MoveTo(u16, u16),
    Print(Seq<char>),
    SetColors(Color, Color),
    SetForeground(Color),
    SetBackground(Color),
    SetAttribute(Attr),
    ClearUntilNewLine,
}

impl View for TermOp {
    type V = TermOpView;

    open spec fn view(&self) -> TermOpView {
        match self {
            TermOp::MoveTo(x, y) => TermOpView::MoveTo(*x, *y),
            TermOp::Print(s) => TermOpView::Print(s@),
            TermOp::SetColors(f, b) => TermOpView::SetColors(*f, *b),
            TermOp::SetForeground(c) => TermOpView::SetForeground(*c),
            TermOp::SetBackground(c) => TermOpView::SetBackground(*c),
            TermOp::SetAttribute(a) => TermOpView::SetAttribute(*a),
            TermOp::ClearUntilNewLine => TermOpView::ClearUntilNewLine,
        }
    }
}

pub open spec fn op_views(v: Seq<TermOp>) -> Seq<TermOpView> {
    v.map_values(|o: TermOp| o@)
}

fn push_op(ops: &mut Vec<TermOp>, op: TermOp)
    ensures
        op_views(final(ops)@) == op_views(old(ops)@).push(op@),
{
    let ghost before = ops@;
    ops.push(op);
    assert(op_views(ops@) =~= op_views(before).push(op@));
}

/// `acc`, then `a` when `b`.
pub open spec fn app_attr(acc: Seq<TermOpView>, b: bool, a: Attr) -> Seq<TermOpView> {
    if b {
        acc.push(TermOpView::SetAttribute(a))
    } else {
        acc
    }
}

/// `m` holds modifier `flag`.
pub open spec fn has(m: u16, flag: u16) -> bool {
    m & flag == flag
}

/// `acc`, then the attribute changes that end the modifiers `from` has and
/// `to` lacks: switching bold off is normal intensity, which also ends dim,
/// so dim is restored right away when `to` keeps it.
pub open spec fn removals_onto(acc: Seq<TermOpView>, from: u16, to: u16) -> Seq<TermOpView> {
    let removed = from & !to;
    let a1 = app_attr(acc, has(removed, REVERSED), Attr::NoReverse);
    let a2 = if has(removed, BOLD) {
        app_attr(a1.push(TermOpView::SetAttribute(Attr::NormalIntensity)), has(to, DIM), Attr::Dim)
    } else {
        a1
    };
    let a3 = app_attr(a2, has(removed, ITALIC), Attr::NoItalic);
    let a4 = app_attr(a3, has(removed, UNDERLINED), Attr::NoUnderline);
    let a5 = app_attr(a4, has(removed, DIM), Attr::NormalIntensity);
    app_attr(a5, has(removed, CROSSED_OUT), Attr::NotCrossedOut)
}

/// `acc`, then the attribute changes that start the modifiers `to` has and
/// `from` lacks.
pub open spec fn additions_onto(acc: Seq<TermOpView>, from: u16, to: u16) -> Seq<TermOpView> {
    let added = to & !from;
    let a1 = app_attr(acc, has(added, REVERSED), Attr::Reverse);
    let a2 = app_attr(a1, has(added, BOLD), Attr::Bold);
    let a3 = app_attr(a2, has(added, ITALIC), Attr::Italic);
    let a4 = app_attr(a3, has(added, UNDERLINED), Attr::Underlined);
    let a5 = app_attr(a4, has(added, DIM), Attr::Dim);
    app_attr(a5, has(added, CROSSED_OUT), Attr::CrossedOut)
}

/// `acc`, then the attribute changes that take the terminal from modifiers
/// `from` to `to`: removals first, then additions.
pub open spec fn diff_onto(acc: Seq<TermOpView>, from: u16, to: u16) -> Seq<TermOpView> {
    additions_onto(removals_onto(acc, from, to), from, to)
}

fn push_attr_if(ops: &mut Vec<TermOp>, b: bool, a: Attr)
    ensures
        op_views(final(ops)@) == app_attr(op_views(old(ops)@), b, a),
{
    if b {
        push_op(ops, TermOp::SetAttribute(a));
    }
}

/// Queues the attribute changes from modifiers `from` to `to`.
pub fn queue_modifier_diff(ops: &mut Vec<TermOp>, from: u16, to: u16)
    ensures
        op_views(final(ops)@) == diff_onto(op_views(old(ops)@), from, to),
{
    let removed = from & !to;
    let added = to & !from;
    push_attr_if(ops, removed & REVERSED == REVERSED, Attr::NoReverse);
    if removed & BOLD == BOLD {
        push_op(ops, TermOp::SetAttribute(Attr::NormalIntensity));
        push_attr_if(ops, to & DIM == DIM, Attr::Dim);
    }
    push_attr_if(ops, removed & ITALIC == ITALIC, Attr::NoItalic);
    push_attr_if(ops, removed & UNDERLINED == UNDERLINED, Attr::NoUnderline);
    push_attr_if(ops, removed & DIM == DIM, Attr::NormalIntensity);
    push_attr_if(ops, removed & CROSSED_OUT == CROSSED_OUT, Attr::NotCrossedOut);
    push_attr_if(ops, added & REVERSED == REVERSED, Attr::Reverse);
    push_attr_if(ops, added & BOLD == BOLD, Attr::Bold);
    push_attr_if(ops, added & ITALIC == ITALIC, Attr::Italic);
    push_attr_if(ops, added & UNDERLINED == UNDERLINED, Attr::Underlined);
    push_attr_if(ops, added & DIM == DIM, Attr::Dim);
    push_attr_if(ops, added & CROSSED_OUT == CROSSED_OUT, Attr::CrossedOut);
}

/// The modifiers a terminal shows after attribute `a`, having shown `s`
/// (normal intensity ends both bold and dim).
pub open spec fn attr_effect(a: Attr, s: u16) -> u16 {
    match a {
        Attr::Reset => 0,
        Attr::Bold => s | BOLD,
        Attr::Dim => s | DIM,
        Attr::Italic => s | ITALIC,
        Attr::Underlined => s | UNDERLINED,
        Attr::Reverse => s | REVERSED,
        Attr::CrossedOut => s | CROSSED_OUT,
        Attr::NoReverse => s & !REVERSED,
        Attr::NormalIntensity => s & !(BOLD | DIM),
        Attr::NoItalic => s & !ITALIC,
        Attr::NoUnderline => s & !UNDERLINED,
        Attr::NotCrossedOut => s & !CROSSED_OUT,
    }
}

/// The modifiers shown after the attribute operations of `ops`, from `s`.
pub open spec fn attrs_effect(ops: Seq<TermOpView>, s: u16) -> u16
    decreases ops.len(),
{
    if ops.len() == 0 {
        s
    } else {
        let t = attrs_effect(ops.drop_last(), s);
        match ops.last() {
            TermOpView::SetAttribute(a) => attr_effect(a, t),
            _ => t,
        }
    }
}

proof fn lemma_app_attr_effect(acc: Seq<TermOpView>, b: bool, a: Attr, s: u16)
    ensures
        attrs_effect(app_attr(acc, b, a), s) == if b {
            attr_effect(a, attrs_effect(acc, s))
        } else {
            attrs_effect(acc, s)
        },
{
    if b {
        assert(app_attr(acc, b, a).drop_last() =~= acc);
    }
}

/// The modifiers in the six that the diff handles.
pub const SHOWN: u16 = 0x14f;

/// After the attribute changes from `from` to `to`, the terminal shows
/// exactly `to`'s bold, dim, italic, underline, reverse and crossed-out
/// modifiers. This fails only when dim is dropped while bold is kept: the
/// normal-intensity change that ends dim ends bold too.
#[verifier::spinoff_prover]
#[verifier::rlimit(40)]
pub proof fn law_modifier_diff_reaches_target(from: u16, to: u16)
    requires
        !(has(from, DIM) && !(has(to, DIM)) && has(from, BOLD) && has(to, BOLD)),
    ensures
        attrs_effect(diff_onto(Seq::empty(), from, to), from) & SHOWN == to & SHOWN,
{
    let removed = from & !to;
    let added = to & !from;
    let e = Seq::<TermOpView>::empty();
    assert(0x1u16 | 0x2u16 == 0x3u16) by (bit_vector);
    let a1 = app_attr(e, has(removed, REVERSED), Attr::NoReverse);
    lemma_app_attr_effect(e, has(removed, REVERSED), Attr::NoReverse, from);
    let s1 = attrs_effect(a1, from);
    let a2 = if has(removed, BOLD) {
        app_attr(a1.push(TermOpView::SetAttribute(Attr::NormalIntensity)), has(to, DIM), Attr::Dim)
    } else {
        a1
    };
    if has(removed, BOLD) {
        let b = a1.push(TermOpView::SetAttribute(Attr::NormalIntensity));
        assert(b.drop_last() =~= a1);
        lemma_app_attr_effect(b, has(to, DIM), Attr::Dim, from);
    }
    let s2 = attrs_effect(a2, from);
    let a3 = app_attr(a2, has(removed, ITALIC), Attr::NoItalic);
    lemma_app_attr_effect(a2, has(removed, ITALIC), Attr::NoItalic, from);
    let a4 = app_attr(a3, has(removed, UNDERLINED), Attr::NoUnderline);
    lemma_app_attr_effect(a3, has(removed, UNDERLINED), Attr::NoUnderline, from);
    let a5 = app_attr(a4, has(removed, DIM), Attr::NormalIntensity);
    lemma_app_attr_effect(a4, has(removed, DIM), Attr::NormalIntensity, from);
    let a6 = app_attr(a5, has(removed, CROSSED_OUT), Attr::NotCrossedOut);
    lemma_app_attr_effect(a5, has(removed, CROSSED_OUT), Attr::NotCrossedOut, from);
    let s6 = attrs_effect(a6, from);
    let b1 = app_attr(a6, has(added, REVERSED), Attr::Reverse);
    lemma_app_attr_effect(a6, has(added, REVERSED), Attr::Reverse, from);
    let b2 = app_attr(b1, has(added, BOLD), Attr::Bold);
    lemma_app_attr_effect(b1, has(added, BOLD), Attr::Bold, from);
    let b3 = app_attr(b2, has(added, ITALIC), Attr::Italic);
    lemma_app_attr_effect(b2, has(added, ITALIC), Attr::Italic, from);
    let b4 = app_attr(b3, has(added, UNDERLINED), Attr::Underlined);
    lemma_app_attr_effect(b3, has(added, UNDERLINED), Attr::Underlined, from);
    let b5 = app_attr(b4, has(added, DIM), Attr::Dim);
    lemma_app_attr_effect(b4, has(added, DIM), Attr::Dim, from);
    let b6 = app_attr(b5, has(added, CROSSED_OUT), Attr::CrossedOut);
    lemma_app_attr_effect(b5, has(added, CROSSED_OUT), Attr::CrossedOut, from);
    assert(diff_onto(e, from, to) == b6);
    // The state after the removals, step by step.
    let r1: u16 = if from & !to & 0x40 == 0x40 { from & !0x40u16 } else { from };
    let r2: u16 = if from & !to & 0x1 == 0x1 {
        if to & 0x2 == 0x2 { (r1 & !0x3u16) | 0x2 } else { r1 & !0x3u16 }
    } else {
        r1
    };
    let r3: u16 = if from & !to & 0x4 == 0x4 { r2 & !0x4u16 } else { r2 };
    let r4: u16 = if from & !to & 0x8 == 0x8 { r3 & !0x8u16 } else { r3 };
    let r5: u16 = if from & !to & 0x2 == 0x2 { r4 & !0x3u16 } else { r4 };
    let r6: u16 = if from & !to & 0x100 == 0x100 { r5 & !0x100u16 } else { r5 };
    assert(s1 == r1);
    assert(s2 == r2);
    assert(s6 == r6);
    let t1: u16 = if to & !from & 0x40 == 0x40 { r6 | 0x40 } else { r6 };
    let t2: u16 = if to & !from & 0x1 == 0x1 { t1 | 0x1 } else { t1 };
    let t3: u16 = if to & !from & 0x4 == 0x4 { t2 | 0x4 } else { t2 };
    let t4: u16 = if to & !from & 0x8 == 0x8 { t3 | 0x8 } else { t3 };
    let t5: u16 = if to & !from & 0x2 == 0x2 { t4 | 0x2 } else { t4 };
    let t6: u16 = if to & !from & 0x100 == 0x100 { t5 | 0x100 } else { t5 };
    assert(attrs_effect(b6, from) == t6);
    assert(t6 & 0x14f == to & 0x14f) by (bit_vector)
        requires
            !(from & 0x2 == 0x2 && !(to & 0x2 == 0x2) && from & 0x1 == 0x1 && to & 0x1 == 0x1),
            r1 == (if from & !to & 0x40 == 0x40 { from & !0x40u16 } else { from }),
            r2 == (if from & !to & 0x1 == 0x1 {
                if to & 0x2 == 0x2 { (r1 & !0x3u16) | 0x2 } else { r1 & !0x3u16 }
            } else {
                r1
            }),
            r3 == (if from & !to & 0x4 == 0x4 { r2 & !0x4u16 } else { r2 }),
            r4 == (if from & !to & 0x8 == 0x8 { r3 & !0x8u16 } else { r3 }),
            r5 == (if from & !to & 0x2 == 0x2 { r4 & !0x3u16 } else { r4 }),
            r6 == (if from & !to & 0x100 == 0x100 { r5 & !0x100u16 } else { r5 }),
            t1 == (if to & !from & 0x40 == 0x40 { r6 | 0x40 } else { r6 }),
            t2 == (if to & !from & 0x1 == 0x1 { t1 | 0x1 } else { t1 }),
            t3 == (if to & !from & 0x4 == 0x4 { t2 | 0x4 } else { t2 }),
            t4 == (if to & !from & 0x8 == 0x8 { t3 | 0x8 } else { t3 }),
            t5 == (if to & !from & 0x2 == 0x2 { t4 | 0x2 } else { t4 }),
            t6 == (if to & !from & 0x100 == 0x100 { t5 | 0x100 } else { t5 }),
    ;
}

// ---------------------------------------------------------------------------
// Writing styled rows
// ---------------------------------------------------------------------------

pub open spec fn color_or_reset(c: Option<Color>) -> Color {
    match c {
        Some(c) => c,
        None => Color::Reset,
    }
}

fn unwrap_color(c: Option<Color>) -> (r: Color)
    ensures
        r == color_or_reset(c),
{
    match c {
        Some(c) => c,
        None => Color::Reset,
    }
}

/// `acc`, then the operations that write `spans` from terminal colours
/// `fg`/`bg` and modifiers `m`: per span, the modifier changes and a colour
/// change when they differ, then the text; finally colours and attributes
/// are reset.
pub open spec fn span_ops_onto(
    acc: Seq<TermOpView>,
    spans: Seq<SpanView>,
    fg: Color,
    bg: Color,
    m: u16,
) -> Seq<TermOpView>
    decreases spans.len(),
{
    if spans.len() == 0 {
        acc.push(TermOpView::SetForeground(Color::Reset)).push(
            TermOpView::SetBackground(Color::Reset),
        ).push(TermOpView::SetAttribute(Attr::Reset))
    } else {
        let sp = spans[0];
        let nm = sp.style.add_modifier & !sp.style.sub_modifier;
        let nf = color_or_reset(sp.style.fg);
        let nb = color_or_reset(sp.style.bg);
        let a1 = if nm != m {
            diff_onto(acc, m, nm)
        } else {
            acc
        };
        let a2 = if nf != fg || nb != bg {
            a1.push(TermOpView::SetColors(nf, nb))
        } else {
            a1
        };
        span_ops_onto(a2.push(TermOpView::Print(sp.content)), spans.drop_first(), nf, nb, nm)
    }
}

/// Queues the writing of `spans`, starting from default colours and no
/// modifiers.
pub fn write_spans(ops: &mut Vec<TermOp>, spans: &[StyledSpan])
    ensures
        op_views(final(ops)@) == span_ops_onto(
            op_views(old(ops)@),
            span_views(spans@),
            Color::Reset,
            Color::Reset,
            0,
        ),
{
    let ghost all = span_views(spans@);
    let ghost target = span_ops_onto(op_views(ops@), all, Color::Reset, Color::Reset, 0);
    let mut fg = Color::Reset;
    let mut bg = Color::Reset;
    let mut last: u16 = 0;
    let n = spans.len();
    let mut i: usize = 0;
    assert(all.subrange(0, n as int) =~= all);
    while i < n
        invariant
            n == spans@.len(),
            all == span_views(spans@),
            i <= n,
            span_ops_onto(op_views(ops@), all.subrange(i as int, n as int), fg, bg, last) == target,
        decreases n - i,
    {
        let span = &spans[i];
        let ghost rest = all.subrange(i as int, n as int);
        assert(rest[0] == span@);
        assert(rest.drop_first() =~= all.subrange(i + 1, n as int));
        let modifier = span.style.add_modifier & !span.style.sub_modifier;
        if modifier != last {
            queue_modifier_diff(ops, last, modifier);
            last = modifier;
        }
        let next_fg = unwrap_color(span.style.fg);
        let next_bg = unwrap_color(span.style.bg);
        if next_fg != fg || next_bg != bg {
            push_op(ops, TermOp::SetColors(next_fg, next_bg));
            fg = next_fg;
            bg = next_bg;
        }
        push_op(ops, TermOp::Print(span.content.clone()));
        i = i + 1;
    }
    push_op(ops, TermOp::SetForeground(Color::Reset));
    push_op(ops, TermOp::SetBackground(Color::Reset));
    push_op(ops, TermOp::SetAttribute(Attr::Reset));
}

/// The spans of a row with the row's style patched into each.
pub open spec fn merged_spans(spans: Seq<SpanView>, st: Style) -> Seq<SpanView> {
    spans.map_values(|sp: SpanView| SpanView { content: sp.content, style: patch_spec(sp.style, st) })
}

/// `acc`, then the operations that write one history row: its colours,
/// clear to the end of the line, then its spans with the row style merged in.
pub open spec fn line_ops_onto(acc: Seq<TermOpView>, line: LineView) -> Seq<TermOpView> {
    span_ops_onto(
        acc.push(
            TermOpView::SetColors(color_or_reset(line.style.fg), color_or_reset(line.style.bg)),
        ).push(TermOpView::ClearUntilNewLine),
        merged_spans(line.spans, line.style),
        Color::Reset,
        Color::Reset,
        0,
    )
}

/// Queues one (already wrapped) history row.
pub fn write_history_line(ops: &mut Vec<TermOp>, line: &StyledLine)
    ensures
        op_views(final(ops)@) == line_ops_onto(op_views(old(ops)@), line@),
{
    push_op(
        ops,
        TermOp::SetColors(unwrap_color(line.style.fg), unwrap_color(line.style.bg)),
    );
    push_op(ops, TermOp::ClearUntilNewLine);
    let n = line.spans.len();
    let mut merged: Vec<StyledSpan> = Vec::new();
    let mut i: usize = 0;
    while i < n
        invariant
            n == line.spans@.len(),
            i <= n,
            span_views(merged@) == merged_spans(line@.spans, line.style).take(i as int),
        decreases n - i,
    {
        let s = &line.spans[i];
        let m = StyledSpan { content: s.content.clone(), style: s.style.patch(line.style) };
        let ghost before = merged@;
        merged.push(m);
        assert(span_views(merged@) =~= span_views(before).push(m@));
        assert(merged_spans(line@.spans, line.style).take(i + 1) =~= merged_spans(
            line@.spans,
            line.style,
        ).take(i as int).push(m@));
        i = i + 1;
    }
    assert(merged_spans(line@.spans, line.style).take(n as int) =~= merged_spans(
        line@.spans,
        line.style,
    ));
    write_spans(ops, merged.as_slice());
}

// ---------------------------------------------------------------------------
// Inserting rows above the viewport
// ---------------------------------------------------------------------------

/// A screen rectangle (column, row, width, height).
#[derive(Debug, Clone, Copy, PartialEq, Eq, Structural)]
pub struct Rect {
    pub x: u16,
    pub y: u16,
    pub width: u16,
    pub height: u16,
}

/// `a + b`, capped at `u16::MAX`.
pub open spec fn sat_add16(a: u16, b: u16) -> u16 {
    if a + b > u16::MAX {
        u16::MAX
    } else {
        (a + b) as u16
    }
}

/// `a - b`, floored at 0.
pub open spec fn sat_sub16(a: u16, b: u16) -> u16 {
    if a < b {
        0
    } else {
        (a - b) as u16
    }
}

/// `CSI top ; bottom r`: the DECSTBM scroll region (1-based, inclusive).
pub open spec fn region_seq(top: u16, bottom: u16) -> Seq<char> {
    "\x1b["@ + decimal(top as nat) + ";"@ + decimal(bottom as nat) + "r"@
}

/// `CSI r`: the scroll region reset to the whole screen.
pub open spec fn region_reset() -> Seq<char> {
    "\x1b[r"@
}

/// `acc`, then `n` Reverse Index (`ESC M`) writes.
pub open spec fn reverse_index_onto(acc: Seq<TermOpView>, n: nat) -> Seq<TermOpView>
    decreases n,
{
    if n == 0 {
        acc
    } else {
        reverse_index_onto(acc, (n - 1) as nat).push(TermOpView::Print("\x1bM"@))
    }
}

/// `acc`, then each row after a `\r\n`.
pub open spec fn rows_ops_onto(acc: Seq<TermOpView>, rows: Seq<LineView>) -> Seq<TermOpView>
    decreases rows.len(),
{
    if rows.len() == 0 {
        acc
    } else {
        rows_ops_onto(line_ops_onto(acc.push(TermOpView::Print("\r\n"@)), rows[0]), rows.drop_first())
    }
}

/// How far the viewport slides down: as many rows as are inserted, at most
/// the free rows below it.
pub open spec fn slide_amount(screen_height: u16, area: Rect, n: u16) -> u16 {
    let bottom = sat_add16(area.y, area.height);
    if bottom < screen_height {
        if n < screen_height - bottom {
            n
        } else {
            (screen_height - bottom) as u16
        }
    } else {
        0
    }
}

/// The operations that insert `rows` above the viewport `area` on a screen
/// `screen_height` rows high and put the cursor back at `cursor`: grow the
/// region above the viewport into the free rows below it (if any), then
/// print the rows inside the region above the viewport.
pub open spec fn plan_ops(screen_height: u16, area: Rect, cursor: (u16, u16), rows: Seq<LineView>) -> Seq<
    TermOpView,
> {
    let n = rows.len() as u16;
    let top = area.y;
    let bottom = sat_add16(area.y, area.height);
    if n == 0 {
        Seq::empty()
    } else {
        let amount = slide_amount(screen_height, area, n);
        let pre = if bottom < screen_height {
            reverse_index_onto(
                seq![
                    TermOpView::Print(region_seq((top + 1) as u16, screen_height)),
                    TermOpView::MoveTo(0, top),
                ],
                amount as nat,
            ).push(TermOpView::Print(region_reset()))
        } else {
            Seq::empty()
        };
        rows_ops_onto(
            pre.push(TermOpView::Print(region_seq(1, (top + amount) as u16))).push(
                TermOpView::MoveTo(0, sat_sub16(top, 1)),
            ),
            rows,
        ).push(TermOpView::Print(region_reset())).push(TermOpView::MoveTo(cursor.0, cursor.1))
    }
}

/// Where the viewport is after the insert, when it moved.
pub open spec fn plan_area(screen_height: u16, area: Rect, n: u16) -> Option<Rect> {
    if n != 0 && sat_add16(area.y, area.height) < screen_height {
        Some(Rect { y: (area.y + slide_amount(screen_height, area, n)) as u16, ..area })
    } else {
        None
    }
}

/// The wrapped rows to insert, the terminal operations that insert them,
/// and the viewport's new area when it moved.
pub struct InsertPlan {
    pub rows: Vec<StyledLine>,
    pub ops: Vec<TermOp>,
    pub area: Option<Rect>,
}

fn push_str_op(ops: &mut Vec<TermOp>, s: &str)
    ensures
        op_views(final(ops)@) == op_views(old(ops)@).push(TermOpView::Print(s@)),
{
    push_op(ops, TermOp::Print(s.to_owned()));
}

fn region(top: u16, bottom: u16) -> (s: String)
    ensures
        s@ == region_seq(top, bottom),
{
    let mut s = String::new();
    s.append("\x1b[");
    crate::text::push_decimal(&mut s, top as usize);
    s.append(";");
    crate::text::push_decimal(&mut s, bottom as usize);
    s.append("r");
    s
}

/// The plan for inserting already-wrapped `rows`.
pub fn plan_insert(
    screen_height: u16,
    area: Rect,
    cursor_x: u16,
    cursor_y: u16,
    rows: &[StyledLine],
) -> (r: (Vec<TermOp>, Option<Rect>))
    ensures
        op_views(r.0@) == plan_ops(screen_height, area, (cursor_x, cursor_y), line_views(rows@)),
        r.1 == plan_area(screen_height, area, rows@.len() as u16),
{
    let mut ops: Vec<TermOp> = Vec::new();
    let n = rows.len() as u16;
    if n == 0 {
        assert(op_views(ops@) =~= Seq::<TermOpView>::empty());
        return (ops, None);
    }
    let top = area.y;
    let bottom = area.y.saturating_add(area.height);
    let mut new_area = area;
    let mut moved = false;
    let mut amount: u16 = 0;
    if bottom < screen_height {
        let free = screen_height - bottom;
        amount = if n < free {
            n
        } else {
            free
        };
        let reg = region(top + 1, screen_height);
        push_op(&mut ops, TermOp::Print(reg));
        push_op(&mut ops, TermOp::MoveTo(0, top));
        assert(op_views(ops@) =~= seq![
            TermOpView::Print(region_seq((top + 1) as u16, screen_height)),
            TermOpView::MoveTo(0, top),
        ]);
        let ghost first = op_views(ops@);
        let mut k: u16 = 0;
        while k < amount
            invariant
                k <= amount,
                op_views(ops@) == reverse_index_onto(first, k as nat),
            decreases amount - k,
        {
            push_str_op(&mut ops, "\x1bM");
            k = k + 1;
        }
        push_str_op(&mut ops, "\x1b[r");
        new_area.y = top + amount;
        moved = true;
    } else {
        assert(op_views(ops@) =~= Seq::<TermOpView>::empty());
    }
    assert(amount == slide_amount(screen_height, area, n));
    let reg = region(1, top + amount);
    push_op(&mut ops, TermOp::Print(reg));
    push_op(&mut ops, TermOp::MoveTo(0, top.saturating_sub(1)));
    let ghost start = op_views(ops@);
    let ghost all = line_views(rows@);
    let total = rows.len();
    let mut i: usize = 0;
    assert(all.subrange(0, total as int) =~= all);
    while i < total
        invariant
            total == rows@.len(),
            all == line_views(rows@),
            i <= total,
            rows_ops_onto(op_views(ops@), all.subrange(i as int, total as int)) == rows_ops_onto(
                start,
                all,
            ),
        decreases total - i,
    {
        let ghost rest = all.subrange(i as int, total as int);
        assert(rest[0] == rows@[i as int]@);
        assert(rest.drop_first() =~= all.subrange(i + 1, total as int));
        push_str_op(&mut ops, "\r\n");
        write_history_line(&mut ops, &rows[i]);
        i = i + 1;
    }
    assert(all.subrange(total as int, total as int) =~= Seq::<LineView>::empty());
    push_str_op(&mut ops, "\x1b[r");
    push_op(&mut ops, TermOp::MoveTo(cursor_x, cursor_y));
    let a = if moved {
        Some(new_area)
    } else {
        None
    };
    (ops, a)
}

/// All the rows of several groups, in order.
pub open spec fn concat_rows(groups: Seq<Seq<LineView>>) -> Seq<LineView>
    decreases groups.len(),
{
    if groups.len() == 0 {
        Seq::empty()
    } else {
        concat_rows(groups.drop_last()) + groups.last()
    }
}

/// `rows` is each of `lines` wrapped to `width` columns, one after the other.
pub open spec fn lines_wrapped(lines: Seq<StyledLine>, rows: Seq<LineView>, width: usize) -> bool {
    exists|groups: Seq<Seq<LineView>>|
        #![trigger concat_rows(groups)]
        groups.len() == lines.len() && rows == concat_rows(groups) && forall|i: int|
            0 <= i < lines.len() ==> wrapped_ok(lines[i]@, #[trigger] groups[i], width)
}

/// Wraps every line to `width` columns, in order.
pub fn wrap_lines(lines: &[StyledLine], width: usize) -> (rows: Vec<StyledLine>)
    ensures
        lines_wrapped(lines@, line_views(rows@), width),
        rows@.len() >= lines@.len(),
        forall|r: int|
            0 <= r < rows@.len() ==> row_fits(
                (#[trigger] rows@[r])@.spans,
                if width == 0 {
                    1
                } else {
                    width as int
                },
            ),
{
    let mut rows: Vec<StyledLine> = Vec::new();
    let ghost mut groups: Seq<Seq<LineView>> = Seq::empty();
    let n = lines.len();
    let mut i: usize = 0;
    while i < n
        invariant
            n == lines@.len(),
            i <= n,
            rows@.len() >= i,
            groups.len() == i,
            line_views(rows@) == concat_rows(groups),
            forall|k: int| 0 <= k < i ==> wrapped_ok(lines@[k]@, #[trigger] groups[k], width),
            forall|r: int|
                0 <= r < rows@.len() ==> row_fits(
                    (#[trigger] rows@[r])@.spans,
                    if width == 0 {
                        1
                    } else {
                        width as int
                    },
                ),
        decreases n - i,
    {
        let wrapped = wrap_line(&lines[i], width);
        let ghost before = rows@;
        let ghost added = wrapped@;
        let mut wrapped = wrapped;
        rows.append(&mut wrapped);
        assert(rows@ == before + added);
        assert(line_views(rows@) =~= line_views(before) + line_views(added));
        proof {
            let old_groups = groups;
            groups = groups.push(line_views(added));
            assert(groups.drop_last() =~= old_groups);
            assert forall|k: int| 0 <= k < i + 1 implies wrapped_ok(
                lines@[k]@,
                #[trigger] groups[k],
                width,
            ) by {
                if k < i {
                    assert(groups[k] == old_groups[k]);
                }
            }
        }
        assert forall|r: int| 0 <= r < rows@.len() implies row_fits(
            (#[trigger] rows@[r])@.spans,
            if width == 0 {
                1
            } else {
                width as int
            },
        ) by {
            if r >= before.len() {
                assert(rows@[r] == added[r - before.len()]);
                assert(line_views(added)[r - before.len()] == added[r - before.len()]@);
            }
        }
        i = i + 1;
    }
    assert(lines_wrapped(lines@, line_views(rows@), width));
    rows
}

/// Wraps `lines` to the viewport's width and plans their insertion above the
/// viewport `area` on a screen `screen_height` rows high, the cursor being
/// at (`cursor_x`, `cursor_y`) and put back there afterwards.
pub fn insert_history_lines(
    screen_height: u16,
    area: Rect,
    cursor_x: u16,
    cursor_y: u16,
    lines: &[StyledLine],
) -> (plan: InsertPlan)
    ensures
        lines_wrapped(
            lines@,
            line_views(plan.rows@),
            if area.width == 0 {
                1
            } else {
                area.width as usize
            },
        ),
        plan.rows@.len() >= lines@.len(),
        forall|r: int|
            0 <= r < plan.rows@.len() ==> row_fits(
                (#[trigger] plan.rows@[r])@.spans,
                if area.width == 0 {
                    1
                } else {
                    area.width as int
                },
            ),
        op_views(plan.ops@) == plan_ops(
            screen_height,
            area,
            (cursor_x, cursor_y),
            line_views(plan.rows@),
        ),
        plan.area == plan_area(screen_height, area, plan.rows@.len() as u16),
{
    let wrap_width: usize = if area.width == 0 {
        1
    } else {
        area.width as usize
    };
    let rows = wrap_lines(lines, wrap_width);
    let (ops, moved) = plan_insert(screen_height, area, cursor_x, cursor_y, rows.as_slice());
    InsertPlan { rows, ops, area: moved }
}

/// The viewport only ever slides down, by at most the rows inserted, and
/// stays on the screen; its column and size are kept.
pub proof fn law_viewport_stays_on_screen(screen_height: u16, area: Rect, n: u16)
    ensures
        plan_area(screen_height, area, n) matches Some(a) ==> {
            &&& a.x == area.x && a.width == area.width && a.height == area.height
            &&& area.y <= a.y <= area.y + n
            &&& a.y + a.height <= screen_height
        },
{
}

} // verus!
