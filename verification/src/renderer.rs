//! The layout engine: word-wrapping and pagination. It consumes a finished
//! document and a render configuration and produces the sequence of draw
//! instructions — page, position, font size, text — that an external page
//! writer then emits.
//!
//! All lengths are integers in tenths of a millimeter; font sizes are in
//! points. The measurement capability is a deterministic synthetic metric:
//! half a millimeter of width per character and point of font size, which is
//! five length units.

use vstd::prelude::*;

use crate::document::{DocSpec, Document, DocumentElement, ElemSpec};
use crate::text::{chars_range_to_string, chars_to_string, is_space, is_space_char, str_to_chars};
use crate::parser::skip_ws_end;

verus! {

/// The measured width of a text at a font size: five length units per
/// character and point.
pub open spec fn measure_spec(s: Seq<char>, font_size: int) -> int {
    s.len() * font_size * 5
}

/// The view of a sequence of strings.
pub open spec fn strings_view(ws: Seq<String>) -> Seq<Seq<char>> {
    ws.map_values(|w: String| w@)
}

/// Executable width measurement for a text length already at hand.
fn width_of_len(len: usize, font_size: u32) -> (w: u128)
    ensures
        w as int == len * font_size * 5,
        w <= 0xFFFFFFFFFFFFFFFF * 0xFFFFFFFF * 5,
{
    proof {
        assert((len as int) * (font_size as int) * 5 <= 0xFFFFFFFFFFFFFFFF * 0xFFFFFFFF * 5)
            by (nonlinear_arith)
            requires
                0 <= len <= 0xFFFFFFFFFFFFFFFF,
                0 <= font_size <= 0xFFFFFFFF,
        ;
    }
    (len as u128) * (font_size as u128) * 5
}

/// The measured width of a text: its character count times half the font
/// size, in length units.
pub fn estimate_text_width(text: &str, font_size: u32) -> (w: u128)
    ensures
        w as int == measure_spec(text@, font_size as int),
{
    let len = text.unicode_len();
    width_of_len(len, font_size)
}

/// The first index at or after `i` that holds whitespace or ends the text.
pub open spec fn nonspace_end(s: Seq<char>, i: int) -> int
    decreases s.len() - i,
{
    if 0 <= i < s.len() && !is_space_char(s[i]) {
        nonspace_end(s, i + 1)
    } else {
        i
    }
}

pub proof fn lemma_nonspace_end_bounds(s: Seq<char>, i: int)
    requires
        0 <= i <= s.len(),
    ensures
        i <= nonspace_end(s, i) <= s.len(),
    decreases s.len() - i,
{
    if i < s.len() && !is_space_char(s[i]) {
        lemma_nonspace_end_bounds(s, i + 1);
    }
}

/// Executable twin of `nonspace_end`.
fn scan_nonspace(v: &Vec<char>, i: usize) -> (r: usize)
    requires
        i <= v@.len(),
    ensures
        r as int == nonspace_end(v@, i as int),
        i <= r <= v@.len(),
{
    let mut j = i;
    while j < v.len() && !is_space(v[j])
        invariant
            i <= j <= v@.len(),
            nonspace_end(v@, i as int) == nonspace_end(v@, j as int),
        decreases v@.len() - j,
    {
        j = j + 1;
    }
    j
}

/// The whitespace-separated words of `s[i..]`, in order.
pub open spec fn words_from(s: Seq<char>, i: int) -> Seq<Seq<char>>
    decreases s.len() - i,
    via words_from_decreases
{
    if !(0 <= i <= s.len()) {
        Seq::empty()
    } else {
        let w_start = skip_ws_end(s, i);
        if w_start >= s.len() {
            Seq::empty()
        } else {
            let w_end = nonspace_end(s, w_start);
            seq![s.subrange(w_start, w_end)] + words_from(s, w_end)
        }
    }
}

#[via_fn]
proof fn words_from_decreases(s: Seq<char>, i: int) {
    if 0 <= i <= s.len() {
        crate::parser::lemma_skip_ws_bounds(s, i);
        let w_start = skip_ws_end(s, i);
        if w_start < s.len() {
            lemma_nonspace_end_bounds(s, w_start + 1);
        }
    }
}

/// The whitespace-separated words of a text, in order.
pub open spec fn words_of(s: Seq<char>) -> Seq<Seq<char>> {
    words_from(s, 0)
}

/// Splits a text into its whitespace-separated words.
pub fn split_words(text: &str) -> (ws: Vec<String>)
    ensures
        strings_view(ws@) == words_of(text@),
{
    let ghost t = text@;
    let v = str_to_chars(text);
    let mut ws: Vec<String> = Vec::new();
    let mut i: usize = 0;
    while i < v.len()
        invariant
            v@ == t,
            i <= v@.len(),
            strings_view(ws@) + words_from(t, i as int) == words_of(t),
        decreases v@.len() - i,
    {
        let ghost ws_before = strings_view(ws@);
        let w_start = crate::parser::scan_skip_ws(&v, i);
        if w_start >= v.len() {
            proof {
                assert(words_from(t, i as int) =~= Seq::<Seq<char>>::empty());
                assert(ws_before + Seq::<Seq<char>>::empty() =~= ws_before);
            }
            i = w_start;
        } else {
            let w_end = scan_nonspace(&v, w_start);
            let word = chars_range_to_string(&v, w_start, w_end);
            ws.push(word);
            proof {
                assert(strings_view(ws@) =~= ws_before + seq![t.subrange(
                    w_start as int,
                    w_end as int,
                )]);
                assert(words_from(t, i as int) == seq![t.subrange(w_start as int, w_end as int)]
                    + words_from(t, w_end as int));
                assert((ws_before + seq![t.subrange(w_start as int, w_end as int)]) + words_from(
                    t,
                    w_end as int,
                ) =~= ws_before + (seq![t.subrange(w_start as int, w_end as int)] + words_from(
                    t,
                    w_end as int,
                )));
            }
            i = w_end;
        }
    }
    proof {
        assert(words_from(t, i as int) =~= Seq::<Seq<char>>::empty());
        assert(strings_view(ws@) + Seq::<Seq<char>>::empty() =~= strings_view(ws@));
    }
    ws
}

/// The greedy wrap from word `k` on, with `cur` the line being accumulated: a
/// word that would overflow the width budget — counting the space that would
/// join it to the line — flushes the line first; a word is never split, so an
/// overlong word occupies a line alone; a final non-empty line is flushed at
/// the end. A space measures `5 * font_size`, like any other character.
pub open spec fn wrap_from(
    words: Seq<Seq<char>>,
    k: int,
    cur: Seq<char>,
    font_size: int,
    max_width: int,
) -> Seq<Seq<char>>
    decreases words.len() - k,
{
    if !(0 <= k < words.len()) {
        if cur.len() > 0 {
            seq![cur]
        } else {
            Seq::empty()
        }
    } else {
        let w = words[k];
        if measure_spec(cur, font_size) + 5 * font_size + measure_spec(w, font_size) > max_width
            && cur.len() > 0 {
            seq![cur] + wrap_from(words, k + 1, w, font_size, max_width)
        } else if cur.len() == 0 {
            wrap_from(words, k + 1, w, font_size, max_width)
        } else {
            wrap_from(words, k + 1, cur + seq![' '] + w, font_size, max_width)
        }
    }
}

/// The lines of a text after greedy word-wrapping at the given width budget.
pub open spec fn wrap_spec(text: Seq<char>, font_size: int, max_width: int) -> Seq<Seq<char>> {
    wrap_from(words_of(text), 0, Seq::empty(), font_size, max_width)
}

/// Word-wraps a text into lines within the width budget, by the greedy rule
/// of `wrap_from`.
#[verifier::loop_isolation(false)]
pub fn wrap_text(text: &str, max_width: u32, font_size: u32) -> (lines: Vec<String>)
    ensures
        strings_view(lines@) == wrap_spec(text@, font_size as int, max_width as int),
{
    let ghost t = text@;
    let ghost fs = font_size as int;
    let ghost mw = max_width as int;
    let words = split_words(text);
    let ghost wseq = strings_view(words@);
    let mut lines: Vec<String> = Vec::new();
    let mut cur: Vec<char> = Vec::new();
    let mut k: usize = 0;
    while k < words.len()
        invariant
            strings_view(words@) == wseq,
            wseq == words_of(t),
            k <= words@.len(),
            strings_view(lines@) + wrap_from(wseq, k as int, cur@, fs, mw) == wrap_spec(t, fs, mw),
        decreases words@.len() - k,
    {
        let ghost lines_before = strings_view(lines@);
        let ghost cur_before = cur@;
        let word_chars = str_to_chars(words[k].as_str());
        proof {
            assert(wseq[k as int] == words@[k as int]@);
        }
        let line_w = width_of_len(cur.len(), font_size);
        let space_w = (font_size as u128) * 5;
        let word_w = width_of_len(word_chars.len(), font_size);
        proof {
            assert(line_w as int == measure_spec(cur_before, fs));
            assert(space_w as int == 5 * fs);
            assert(word_w as int == measure_spec(wseq[k as int], fs));
        }
        if line_w + space_w + word_w > max_width as u128 && cur.len() > 0 {
            lines.push(chars_to_string(&cur));
            cur = word_chars;
            proof {
                assert(strings_view(lines@) =~= lines_before + seq![cur_before]);
                assert((lines_before + seq![cur_before]) + wrap_from(wseq, k as int + 1, cur@, fs, mw)
                    =~= lines_before + (seq![cur_before] + wrap_from(wseq, k as int + 1, cur@, fs, mw)));
            }
        } else if cur.len() == 0 {
            cur = word_chars;
            proof {
                assert(wrap_from(wseq, k as int, cur_before, fs, mw) == wrap_from(
                    wseq,
                    k as int + 1,
                    cur@,
                    fs,
                    mw,
                ));
            }
        } else {
            cur.push(' ');
            let n = word_chars.len();
            crate::text::append_range(&mut cur, &word_chars, 0, n);
            proof {
                assert(word_chars@.subrange(0, n as int) =~= word_chars@);
                assert(cur@ =~= cur_before + seq![' '] + word_chars@);
                assert(wrap_from(wseq, k as int, cur_before, fs, mw) == wrap_from(
                    wseq,
                    k as int + 1,
                    cur@,
                    fs,
                    mw,
                ));
            }
        }
        k = k + 1;
    }
    if cur.len() > 0 {
        let ghost lines_before = strings_view(lines@);
        lines.push(chars_to_string(&cur));
        proof {
            assert(wrap_from(wseq, k as int, cur@, fs, mw) == seq![cur@]);
            assert(strings_view(lines@) =~= lines_before + seq![cur@]);
        }
    } else {
        proof {
            assert(wrap_from(wseq, k as int, cur@, fs, mw) =~= Seq::<Seq<char>>::empty());
            assert(strings_view(lines@) + Seq::<Seq<char>>::empty() =~= strings_view(lines@));
        }
    }
    lines
}

// ---------------------------------------------------------------------------
// Pagination.
// ---------------------------------------------------------------------------
/// The render configuration. Lengths (`page_width` through `bottom_margin`,
/// `line_width`, and the spacing fields) are in tenths of a millimeter; font
/// sizes are in points.
#[derive(Clone, Copy, Debug)]
pub struct RenderConfig {
    pub page_width: u32,
    pub page_height: u32,
    pub margin_left: u32,
    pub margin_right: u32,
    pub margin_top: u32,
    pub margin_bottom: u32,
    pub start_y: u32,
    pub bottom_margin: u32,
    pub font_size: u32,
    pub title_font_size: u32,
    pub section_font_size: u32,
    pub subsection_font_size: u32,
    pub line_width: u32,
    pub line_spacing: u32,
    pub paragraph_spacing: u32,
    pub section_spacing: u32,
    pub subsection_spacing: u32,
}

/// The stock configuration: an A4 page with the library's stock measurements.
pub open spec fn default_config() -> RenderConfig {
    RenderConfig {
        page_width: 2100,
        page_height: 2970,
        margin_left: 100,
        margin_right: 100,
        margin_top: 100,
        margin_bottom: 100,
        start_y: 2800,
        bottom_margin: 200,
        font_size: 12,
        title_font_size: 20,
        section_font_size: 16,
        subsection_font_size: 14,
        line_width: 1900,
        line_spacing: 40,
        paragraph_spacing: 100,
        section_spacing: 150,
        subsection_spacing: 100,
    }
}

impl Default for RenderConfig {
    /// The stock A4 configuration.
    fn default() -> (r: RenderConfig)
        ensures
            r == default_config(),
    {
        RenderConfig {
            page_width: 2100,
            page_height: 2970,
            margin_left: 100,
            margin_right: 100,
            margin_top: 100,
            margin_bottom: 100,
            start_y: 2800,
            bottom_margin: 200,
            font_size: 12,
            title_font_size: 20,
            section_font_size: 16,
            subsection_font_size: 14,
            line_width: 1900,
            line_spacing: 40,
            paragraph_spacing: 100,
            section_spacing: 150,
            subsection_spacing: 100,
        }
    }
}

/// One draw instruction: put `text` at `(x, y)` on `page`, at `font_size`
/// points. Pages are numbered from 1; `x` and `y` are in tenths of a
/// millimeter, `y` measured upward from the page's bottom edge and possibly
/// negative when content runs off an unpaginated region.
#[derive(Debug)]
pub struct DrawCmd {
    pub page: u128,
    pub x: u64,
    pub y: i128,
    pub font_size: u32,
    pub text: String,
}

/// Ghost mirror of `DrawCmd`.
pub ghost struct DrawSpec {
    pub page: int,
    pub x: int,
    pub y: int,
    pub font_size: int,
    pub text: Seq<char>,
}

impl View for DrawCmd {
    type V = DrawSpec;

    open spec fn view(&self) -> DrawSpec {
        DrawSpec {
            page: self.page as int,
            x: self.x as int,
            y: self.y as int,
            font_size: self.font_size as int,
            text: self.text@,
        }
    }
}

/// The view of a sequence of draw instructions.
pub open spec fn cmds_view(cs: Seq<DrawCmd>) -> Seq<DrawSpec> {
    cs.map_values(|c: DrawCmd| c@)
}

/// A font size in points as a vertical advance in length units.
pub open spec fn pt(font_size: u32) -> int {
    font_size * 10
}

/// The metadata block: title, author and date, each drawn at the left margin
/// when present and advancing the cursor downward; absent fields reserve no
/// space. Returns the draw instructions (all on page 1) and the cursor after
/// the block.
pub open spec fn meta_cmds(doc: DocSpec, cfg: RenderConfig) -> (Seq<DrawSpec>, int) {
    let y0 = cfg.start_y as int;
    let x = cfg.margin_left as int;
    let (c1, y1) = match doc.title {
        Some(t) => (
            seq![DrawSpec { page: 1, x, y: y0, font_size: cfg.title_font_size as int, text: t }],
            y0 - (pt(cfg.title_font_size) + 100),
        ),
        None => (Seq::<DrawSpec>::empty(), y0),
    };
    let (c2, y2) = match doc.author {
        Some(a) => (
            c1 + seq![
                DrawSpec { page: 1, x, y: y1, font_size: cfg.font_size as int, text: "Author: "@ + a },
            ],
            y1 - (pt(cfg.font_size) + 50),
        ),
        None => (c1, y1),
    };
    match doc.date {
        Some(d) => (
            c2 + seq![
                DrawSpec { page: 1, x, y: y2, font_size: cfg.font_size as int, text: "Date: "@ + d },
            ],
            y2 - (pt(cfg.font_size) + 150),
        ),
        None => (c2, y2),
    }
}

/// The draw instructions for a paragraph's wrapped lines from line `k` on,
/// with the page and cursor they leave behind. Each line is drawn at the
/// cursor, which then advances by the font size plus the line spacing; a
/// cursor that falls below the bottom margin starts a new page at `start_y`
/// before the next line.
pub open spec fn para_lines_cmds(
    lines: Seq<Seq<char>>,
    cfg: RenderConfig,
    page: int,
    y: int,
    k: int,
) -> (Seq<DrawSpec>, int, int)
    decreases lines.len() - k,
{
    if !(0 <= k < lines.len()) {
        (Seq::<DrawSpec>::empty(), page, y)
    } else {
        let cmd = DrawSpec {
            page,
            x: cfg.margin_left as int,
            y,
            font_size: cfg.font_size as int,
            text: lines[k],
        };
        let y_next = y - (pt(cfg.font_size) + cfg.line_spacing as int);
        let (page2, y2) = if y_next < cfg.bottom_margin as int {
            (page + 1, cfg.start_y as int)
        } else {
            (page, y_next)
        };
        let (rest, page3, y3) = para_lines_cmds(lines, cfg, page2, y2, k + 1);
        (seq![cmd] + rest, page3, y3)
    }
}

/// The draw instructions for one element, with the page and cursor it leaves
/// behind. A section advances by its spacing, draws its title at the left
/// margin, then advances by its font size plus the paragraph spacing; a
/// subsection does the same, indented a millimeter strip of 100 units, at its
/// own sizes; a paragraph wraps its text and draws the lines, then advances
/// by the paragraph spacing. Only paragraph lines trigger page breaks.
pub open spec fn elem_cmds(e: ElemSpec, cfg: RenderConfig, page: int, y: int) -> (
    Seq<DrawSpec>,
    int,
    int,
) {
    match e {
        ElemSpec::Section { title, label } => {
            let y1 = y - cfg.section_spacing as int;
            (
                seq![
                    DrawSpec {
                        page,
                        x: cfg.margin_left as int,
                        y: y1,
                        font_size: cfg.section_font_size as int,
                        text: title,
                    },
                ],
                page,
                y1 - (pt(cfg.section_font_size) + cfg.paragraph_spacing as int),
            )
        },
        ElemSpec::Subsection { title, label } => {
            let y1 = y - cfg.subsection_spacing as int;
            (
                seq![
                    DrawSpec {
                        page,
                        x: cfg.margin_left as int + 100,
                        y: y1,
                        font_size: cfg.subsection_font_size as int,
                        text: title,
                    },
                ],
                page,
                y1 - (pt(cfg.subsection_font_size) + cfg.paragraph_spacing as int),
            )
        },
        ElemSpec::Paragraph { text, style } => {
            let lines = wrap_spec(text, cfg.font_size as int, cfg.line_width as int);
            let (cmds, page2, y2) = para_lines_cmds(lines, cfg, page, y, 0);
            (cmds, page2, y2 - cfg.paragraph_spacing as int)
        },
    }
}

/// The draw instructions for the elements from index `k` on, in document
/// order, threading page and cursor from each element to the next.
pub open spec fn elems_cmds(
    elems: Seq<ElemSpec>,
    cfg: RenderConfig,
    page: int,
    y: int,
    k: int,
) -> (Seq<DrawSpec>, int, int)
    decreases elems.len() - k,
{
    if !(0 <= k < elems.len()) {
        (Seq::<DrawSpec>::empty(), page, y)
    } else {
        let (cmds, page2, y2) = elem_cmds(elems[k], cfg, page, y);
        let (rest, page3, y3) = elems_cmds(elems, cfg, page2, y2, k + 1);
        (cmds + rest, page3, y3)
    }
}

/// The whole layout: the metadata block on page 1, then every element in
/// document order.
pub open spec fn layout_spec(doc: DocSpec, cfg: RenderConfig) -> Seq<DrawSpec> {
    let (mc, y1) = meta_cmds(doc, cfg);
    let (ec, page_end, y_end) = elems_cmds(doc.elements, cfg, 1, y1, 0);
    mc + ec
}

// ---------------------------------------------------------------------------
// Laws of wrapping and pagination.
// ---------------------------------------------------------------------------
/// A text without any whitespace.
pub open spec fn no_space(s: Seq<char>) -> bool {
    forall|j: int| 0 <= j < s.len() ==> !is_space_char(s[j])
}

proof fn lemma_nonspace_chars(s: Seq<char>, i: int)
    requires
        0 <= i <= s.len(),
    ensures
        forall|j: int| i <= j < nonspace_end(s, i) ==> !is_space_char(s[j]),
    decreases s.len() - i,
{
    if i < s.len() && !is_space_char(s[i]) {
        lemma_nonspace_chars(s, i + 1);
    }
}

/// Every word that splitting produces is non-empty and holds no whitespace.
pub proof fn lemma_words_no_space(s: Seq<char>, i: int)
    requires
        0 <= i <= s.len(),
    ensures
        forall|k: int|
            0 <= k < words_from(s, i).len() ==> (#[trigger] words_from(s, i)[k]).len() > 0
                && no_space(words_from(s, i)[k]),
    decreases s.len() - i,
{
    crate::parser::lemma_skip_ws_bounds(s, i);
    let w_start = skip_ws_end(s, i);
    if w_start < s.len() {
        let w_end = nonspace_end(s, w_start);
        lemma_nonspace_end_bounds(s, w_start + 1);
        lemma_nonspace_chars(s, w_start);
        assert(nonspace_end(s, w_start) == nonspace_end(s, w_start + 1));
        let word = s.subrange(w_start, w_end);
        assert(word.len() > 0);
        assert(no_space(word));
        lemma_words_no_space(s, w_end);
        assert(forall|k: int|
            1 <= k < words_from(s, i).len() ==> words_from(s, i)[k] == words_from(s, w_end)[k - 1]);
    }
}

proof fn lemma_skip_ws_shift(p: Seq<char>, b: Seq<char>, i: int)
    requires
        p.len() <= i <= p.len() + b.len(),
    ensures
        skip_ws_end(p + b, i) == p.len() + skip_ws_end(b, i - p.len()),
    decreases p.len() + b.len() - i,
{
    let s = p + b;
    if i < s.len() && is_space_char(s[i]) {
        lemma_skip_ws_shift(p, b, i + 1);
    }
}

proof fn lemma_nonspace_shift(p: Seq<char>, b: Seq<char>, i: int)
    requires
        p.len() <= i <= p.len() + b.len(),
    ensures
        nonspace_end(p + b, i) == p.len() + nonspace_end(b, i - p.len()),
    decreases p.len() + b.len() - i,
{
    let s = p + b;
    if i < s.len() && !is_space_char(s[i]) {
        lemma_nonspace_shift(p, b, i + 1);
    }
}

proof fn lemma_words_from_shift(p: Seq<char>, b: Seq<char>, i: int)
    requires
        p.len() <= i <= p.len() + b.len(),
    ensures
        words_from(p + b, i) == words_from(b, i - p.len()),
    decreases p.len() + b.len() - i,
{
    let s = p + b;
    lemma_skip_ws_shift(p, b, i);
    crate::parser::lemma_skip_ws_bounds(s, i);
    let ws = skip_ws_end(s, i);
    if ws < s.len() {
        lemma_nonspace_shift(p, b, ws);
        lemma_nonspace_end_bounds(s, ws + 1);
        let we = nonspace_end(s, ws);
        assert(we == nonspace_end(s, ws + 1));
        assert(s.subrange(ws, we) =~= b.subrange(ws - p.len(), we - p.len()));
        lemma_words_from_shift(p, b, we);
    }
}

/// A leading run of whitespace does not change the words of a text.
proof fn lemma_words_from_at_skip(s: Seq<char>, i: int)
    requires
        0 <= i <= s.len(),
    ensures
        words_from(s, i) == words_from(s, skip_ws_end(s, i)),
{
    crate::parser::lemma_skip_ws_bounds(s, i);
    crate::parser::lemma_skip_ws_idempotent(s, i);
}

proof fn lemma_skip_ws_prefix(a: Seq<char>, b: Seq<char>, i: int)
    requires
        0 <= i <= a.len(),
    ensures
        skip_ws_end(a, i) < a.len() ==> skip_ws_end(a + seq![' '] + b, i) == skip_ws_end(a, i),
        skip_ws_end(a, i) == a.len() ==> skip_ws_end(a + seq![' '] + b, i) == a.len() + 1
            + skip_ws_end(b, 0),
    decreases a.len() - i,
{
    let s = a + seq![' '] + b;
    crate::parser::lemma_skip_ws_bounds(a, i);
    if i < a.len() && is_space_char(a[i]) {
        assert(s[i] == a[i]);
        lemma_skip_ws_prefix(a, b, i + 1);
    } else if i == a.len() {
        assert(s[i] == ' ');
        lemma_skip_ws_shift(a + seq![' '], b, a.len() as int + 1);
        assert((a + seq![' ']) + b =~= s);
    }
}

proof fn lemma_nonspace_prefix(a: Seq<char>, b: Seq<char>, i: int)
    requires
        0 <= i <= a.len(),
    ensures
        nonspace_end(a + seq![' '] + b, i) == nonspace_end(a, i),
    decreases a.len() - i,
{
    let s = a + seq![' '] + b;
    if i < a.len() && !is_space_char(a[i]) {
        assert(s[i] == a[i]);
        lemma_nonspace_prefix(a, b, i + 1);
    } else if i == a.len() {
        assert(s[i] == ' ');
    }
}

/// Inserting a space splits a text's words cleanly: the words of
/// `a + " " + b` are the words of `a` followed by the words of `b`.
proof fn lemma_words_split_at_space(a: Seq<char>, b: Seq<char>, i: int)
    requires
        0 <= i <= a.len(),
    ensures
        words_from(a + seq![' '] + b, i) == words_from(a, i) + words_of(b),
    decreases a.len() - i,
{
    let s = a + seq![' '] + b;
    lemma_skip_ws_prefix(a, b, i);
    crate::parser::lemma_skip_ws_bounds(a, i);
    crate::parser::lemma_skip_ws_bounds(s, i);
    let sa = skip_ws_end(a, i);
    if sa < a.len() {
        lemma_nonspace_prefix(a, b, sa);
        lemma_nonspace_end_bounds(a, sa + 1);
        let we = nonspace_end(a, sa);
        assert(we == nonspace_end(a, sa + 1));
        assert(s.subrange(sa, we) =~= a.subrange(sa, we));
        lemma_words_split_at_space(a, b, we);
        let word = a.subrange(sa, we);
        assert(words_from(s, i) == seq![word] + words_from(s, we));
        assert(words_from(a, i) == seq![word] + words_from(a, we));
        assert((seq![word] + words_from(a, we)) + words_of(b) =~= seq![word] + (words_from(a, we)
            + words_of(b)));
    } else {
        assert(words_from(a, i) =~= Seq::<Seq<char>>::empty());
        crate::parser::lemma_skip_ws_bounds(b, 0);
        let sb = skip_ws_end(b, 0);
        assert(skip_ws_end(s, i) == a.len() + 1 + sb);
        lemma_words_from_at_skip(s, i);
        lemma_words_from_shift(a + seq![' '], b, a.len() as int + 1 + sb);
        assert((a + seq![' ']) + b =~= s);
        lemma_words_from_at_skip(b, 0);
        assert(Seq::<Seq<char>>::empty() + words_of(b) =~= words_of(b));
    }
}

/// The words of each line from index `k` on, concatenated in order.
pub open spec fn lines_words(lines: Seq<Seq<char>>, k: int) -> Seq<Seq<char>>
    decreases lines.len() - k,
{
    if !(0 <= k < lines.len()) {
        Seq::empty()
    } else {
        words_of(lines[k]) + lines_words(lines, k + 1)
    }
}

proof fn lemma_nonspace_end_all(w: Seq<char>, i: int)
    requires
        0 <= i <= w.len(),
        no_space(w),
    ensures
        nonspace_end(w, i) == w.len(),
    decreases w.len() - i,
{
    if i < w.len() {
        lemma_nonspace_end_all(w, i + 1);
    }
}

proof fn lemma_words_of_single(w: Seq<char>)
    requires
        w.len() > 0,
        no_space(w),
    ensures
        words_of(w) == seq![w],
{
    assert(skip_ws_end(w, 0) == 0);
    lemma_nonspace_end_all(w, 0);
    assert(w.subrange(0, w.len() as int) =~= w);
    assert(words_from(w, w.len() as int) =~= Seq::<Seq<char>>::empty());
    assert(seq![w] + Seq::<Seq<char>>::empty() =~= seq![w]);
}

proof fn lemma_lines_words_shift(x: Seq<char>, r: Seq<Seq<char>>, k: int)
    requires
        0 <= k <= r.len(),
    ensures
        lines_words(seq![x] + r, k + 1) == lines_words(r, k),
    decreases r.len() - k,
{
    if k < r.len() {
        assert((seq![x] + r)[k + 1] == r[k]);
        lemma_lines_words_shift(x, r, k + 1);
    }
}

proof fn lemma_lines_words_cons(x: Seq<char>, r: Seq<Seq<char>>)
    ensures
        lines_words(seq![x] + r, 0) == words_of(x) + lines_words(r, 0),
{
    assert((seq![x] + r)[0] == x);
    lemma_lines_words_shift(x, r, 0);
}

proof fn lemma_wrap_from_words(
    words: Seq<Seq<char>>,
    k: int,
    cur: Seq<char>,
    fs: int,
    mw: int,
)
    requires
        0 <= k <= words.len(),
        forall|i: int| 0 <= i < words.len() ==> (#[trigger] words[i]).len() > 0 && no_space(
            words[i],
        ),
    ensures
        lines_words(wrap_from(words, k, cur, fs, mw), 0) == words_of(cur) + words.skip(k),
    decreases words.len() - k,
{
    if k == words.len() {
        assert(words.skip(k) =~= Seq::<Seq<char>>::empty());
        if cur.len() > 0 {
            lemma_lines_words_cons(cur, Seq::<Seq<char>>::empty());
            assert(seq![cur] + Seq::<Seq<char>>::empty() =~= seq![cur]);
            assert(words_of(cur) + Seq::<Seq<char>>::empty() =~= words_of(cur));
        } else {
            assert(skip_ws_end(cur, 0) == 0);
            assert(words_of(cur) =~= Seq::<Seq<char>>::empty());
            assert(words_of(cur) + words.skip(k) =~= Seq::<Seq<char>>::empty());
        }
    } else {
        let w = words[k];
        assert(seq![w] + words.skip(k + 1) =~= words.skip(k));
        lemma_words_of_single(w);
        if measure_spec(cur, fs) + 5 * fs + measure_spec(w, fs) > mw && cur.len() > 0 {
            lemma_wrap_from_words(words, k + 1, w, fs, mw);
            lemma_lines_words_cons(cur, wrap_from(words, k + 1, w, fs, mw));
            assert(words_of(cur) + (seq![w] + words.skip(k + 1)) =~= (words_of(cur) + seq![w])
                + words.skip(k + 1));
            assert(words_of(cur) + (seq![w] + words.skip(k + 1)) =~= words_of(cur) + words.skip(
                k,
            ));
        } else if cur.len() == 0 {
            lemma_wrap_from_words(words, k + 1, w, fs, mw);
            assert(skip_ws_end(cur, 0) == 0);
            assert(words_of(cur) =~= Seq::<Seq<char>>::empty());
            assert(words_of(w) + words.skip(k + 1) =~= words_of(cur) + words.skip(k));
        } else {
            let joined = cur + seq![' '] + w;
            lemma_wrap_from_words(words, k + 1, joined, fs, mw);
            lemma_words_split_at_space(cur, w, 0);
            assert(words_of(joined) == words_of(cur) + words_of(w));
            assert((words_of(cur) + seq![w]) + words.skip(k + 1) =~= words_of(cur) + words.skip(
                k,
            ));
        }
    }
}

/// Wrapping loses and duplicates nothing: splitting the wrapped lines back
/// into words gives exactly the words of the text, in order.
pub proof fn lemma_wrap_preserves_words(text: Seq<char>, fs: int, mw: int)
    ensures
        lines_words(wrap_spec(text, fs, mw), 0) == words_of(text),
{
    lemma_words_no_space(text, 0);
    lemma_wrap_from_words(words_of(text), 0, Seq::empty(), fs, mw);
    assert(skip_ws_end(Seq::<char>::empty(), 0) == 0);
    assert(words_of(Seq::<char>::empty()) =~= Seq::<Seq<char>>::empty());
    assert(words_of(text).skip(0) =~= words_of(text));
    assert(Seq::<Seq<char>>::empty() + words_of(text) =~= words_of(text));
}

proof fn lemma_wrap_from_widths(
    words: Seq<Seq<char>>,
    k: int,
    cur: Seq<char>,
    fs: int,
    mw: int,
)
    requires
        0 <= k <= words.len(),
        fs >= 0,
        forall|i: int| 0 <= i < words.len() ==> no_space(#[trigger] words[i]),
        !no_space(cur) ==> measure_spec(cur, fs) <= mw,
    ensures
        forall|i: int|
            0 <= i < wrap_from(words, k, cur, fs, mw).len() ==> (#[trigger] wrap_from(
                words,
                k,
                cur,
                fs,
                mw,
            )[i]).len() > 0,
        forall|i: int|
            0 <= i < wrap_from(words, k, cur, fs, mw).len() ==> (!no_space(
                #[trigger] wrap_from(words, k, cur, fs, mw)[i],
            ) ==> measure_spec(wrap_from(words, k, cur, fs, mw)[i], fs) <= mw),
    decreases words.len() - k,
{
    if k < words.len() {
        let w = words[k];
        if measure_spec(cur, fs) + 5 * fs + measure_spec(w, fs) > mw && cur.len() > 0 {
            lemma_wrap_from_widths(words, k + 1, w, fs, mw);
            let cs = wrap_from(words, k, cur, fs, mw);
            let rest = wrap_from(words, k + 1, w, fs, mw);
            assert(cs == seq![cur] + rest);
            assert(cs[0] == cur);
            assert(forall|i: int| 1 <= i < cs.len() ==> cs[i] == #[trigger] rest[i - 1]);
        } else if cur.len() == 0 {
            lemma_wrap_from_widths(words, k + 1, w, fs, mw);
            assert(wrap_from(words, k, cur, fs, mw) == wrap_from(words, k + 1, w, fs, mw));
        } else {
            let joined = cur + seq![' '] + w;
            assert(is_space_char(joined[cur.len() as int]));
            assert(!no_space(joined));
            assert(measure_spec(joined, fs) == measure_spec(cur, fs) + 5 * fs + measure_spec(
                w,
                fs,
            )) by (nonlinear_arith)
                requires
                    joined.len() == cur.len() + 1 + w.len(),
            ;
            lemma_wrap_from_widths(words, k + 1, joined, fs, mw);
            assert(wrap_from(words, k, cur, fs, mw) == wrap_from(words, k + 1, joined, fs, mw));
        }
    } else {
        let cs = wrap_from(words, k, cur, fs, mw);
        if cur.len() > 0 {
            assert(cs == seq![cur]);
            assert(cs[0] == cur);
        }
    }
}

/// Word-wrap never exceeds the width budget: every produced line is
/// non-empty, and every line of two or more words — spaces included —
/// measures at most the budget. A line that holds a single word is exempt:
/// a word is never split, however wide it is.
pub proof fn lemma_wrap_line_widths(text: Seq<char>, fs: int, mw: int)
    requires
        fs >= 0,
    ensures
        forall|i: int|
            0 <= i < wrap_spec(text, fs, mw).len() ==> (#[trigger] wrap_spec(text, fs, mw)[i]).len()
                > 0,
        forall|i: int|
            0 <= i < wrap_spec(text, fs, mw).len() ==> (!no_space(
                #[trigger] wrap_spec(text, fs, mw)[i],
            ) ==> measure_spec(wrap_spec(text, fs, mw)[i], fs) <= mw),
{
    lemma_words_no_space(text, 0);
    lemma_wrap_from_widths(words_of(text), 0, Seq::empty(), fs, mw);
}

/// Pagination is monotone over a paragraph's lines: each line is drawn at the
/// cursor the previous line left; when advancing past a line would take the
/// cursor below the bottom margin, the next line is drawn on the next page
/// with the cursor reset to `start_y`, and otherwise on the same page at the
/// advanced cursor. So no line after a paragraph's first is ever drawn below
/// the bottom margin.
pub proof fn lemma_pagination_steps(
    lines: Seq<Seq<char>>,
    cfg: RenderConfig,
    page: int,
    y: int,
    k: int,
)
    requires
        0 <= k <= lines.len(),
    ensures
        para_lines_cmds(lines, cfg, page, y, k).0.len() == lines.len() - k,
        k < lines.len() ==> para_lines_cmds(lines, cfg, page, y, k).0[0].page == page
            && para_lines_cmds(lines, cfg, page, y, k).0[0].y == y,
        forall|i: int|
            #![trigger para_lines_cmds(lines, cfg, page, y, k).0[i]]
            0 <= i < lines.len() - k - 1 ==> {
                let cs = para_lines_cmds(lines, cfg, page, y, k).0;
                let adv = pt(cfg.font_size) + cfg.line_spacing as int;
                &&& cs[i].y - adv < cfg.bottom_margin as int ==> cs[i + 1].page == cs[i].page + 1
                    && cs[i + 1].y == cfg.start_y as int
                &&& cs[i].y - adv >= cfg.bottom_margin as int ==> cs[i + 1].page == cs[i].page
                    && cs[i + 1].y == cs[i].y - adv
            },
        forall|i: int|
            #![trigger para_lines_cmds(lines, cfg, page, y, k).0[i]]
            1 <= i < lines.len() - k ==> {
                let cs = para_lines_cmds(lines, cfg, page, y, k).0;
                cs[i].y == cfg.start_y as int || cs[i].y >= cfg.bottom_margin as int
            },
    decreases lines.len() - k,
{
    if k < lines.len() {
        let adv = pt(cfg.font_size) + cfg.line_spacing as int;
        let y_next = y - adv;
        let (page2, y2) = if y_next < cfg.bottom_margin as int {
            (page + 1, cfg.start_y as int)
        } else {
            (page, y_next)
        };
        lemma_pagination_steps(lines, cfg, page2, y2, k + 1);
        let cs = para_lines_cmds(lines, cfg, page, y, k).0;
        let rest = para_lines_cmds(lines, cfg, page2, y2, k + 1).0;
        assert(forall|i: int| 0 <= i < rest.len() ==> cs[i + 1] == rest[i]);
    }
}

/// The texts of a sequence of draw instructions, in order.
pub open spec fn texts_of(cs: Seq<DrawSpec>) -> Seq<Seq<char>> {
    cs.map_values(|c: DrawSpec| c.text)
}

/// The texts that one element contributes: a heading contributes its title,
/// a paragraph its wrapped lines.
pub open spec fn elem_texts(e: ElemSpec, cfg: RenderConfig) -> Seq<Seq<char>> {
    match e {
        ElemSpec::Section { title, label } => seq![title],
        ElemSpec::Subsection { title, label } => seq![title],
        ElemSpec::Paragraph { text, style } => wrap_spec(
            text,
            cfg.font_size as int,
            cfg.line_width as int,
        ),
    }
}

/// The texts that the elements from index `k` on contribute, in document
/// order.
pub open spec fn elems_texts(elems: Seq<ElemSpec>, cfg: RenderConfig, k: int) -> Seq<Seq<char>>
    decreases elems.len() - k,
{
    if !(0 <= k < elems.len()) {
        Seq::empty()
    } else {
        elem_texts(elems[k], cfg) + elems_texts(elems, cfg, k + 1)
    }
}

proof fn lemma_texts_distribute(a: Seq<DrawSpec>, b: Seq<DrawSpec>)
    ensures
        texts_of(a + b) == texts_of(a) + texts_of(b),
{
    assert(texts_of(a + b) =~= texts_of(a) + texts_of(b));
}

proof fn lemma_para_lines_texts(
    lines: Seq<Seq<char>>,
    cfg: RenderConfig,
    page: int,
    y: int,
    k: int,
)
    requires
        0 <= k <= lines.len(),
    ensures
        texts_of(para_lines_cmds(lines, cfg, page, y, k).0) == lines.skip(k),
    decreases lines.len() - k,
{
    if k == lines.len() {
        assert(texts_of(para_lines_cmds(lines, cfg, page, y, k).0) =~= lines.skip(k));
    } else {
        let cmd = DrawSpec {
            page,
            x: cfg.margin_left as int,
            y,
            font_size: cfg.font_size as int,
            text: lines[k],
        };
        let y_next = y - (pt(cfg.font_size) + cfg.line_spacing as int);
        let (page2, y2) = if y_next < cfg.bottom_margin as int {
            (page + 1, cfg.start_y as int)
        } else {
            (page, y_next)
        };
        lemma_para_lines_texts(lines, cfg, page2, y2, k + 1);
        lemma_texts_distribute(
            seq![cmd],
            para_lines_cmds(lines, cfg, page2, y2, k + 1).0,
        );
        assert(texts_of(seq![cmd]) =~= seq![lines[k]]);
        assert(seq![lines[k]] + lines.skip(k + 1) =~= lines.skip(k));
    }
}

proof fn lemma_elem_texts(e: ElemSpec, cfg: RenderConfig, page: int, y: int)
    ensures
        texts_of(elem_cmds(e, cfg, page, y).0) == elem_texts(e, cfg),
{
    match e {
        ElemSpec::Section { title, label } => {
            assert(texts_of(elem_cmds(e, cfg, page, y).0) =~= seq![title]);
        },
        ElemSpec::Subsection { title, label } => {
            assert(texts_of(elem_cmds(e, cfg, page, y).0) =~= seq![title]);
        },
        ElemSpec::Paragraph { text, style } => {
            let lines = wrap_spec(text, cfg.font_size as int, cfg.line_width as int);
            lemma_para_lines_texts(lines, cfg, page, y, 0);
            assert(lines.skip(0) =~= lines);
        },
    }
}

proof fn lemma_elems_texts(elems: Seq<ElemSpec>, cfg: RenderConfig, page: int, y: int, k: int)
    requires
        0 <= k <= elems.len(),
    ensures
        texts_of(elems_cmds(elems, cfg, page, y, k).0) == elems_texts(elems, cfg, k),
    decreases elems.len() - k,
{
    if k == elems.len() {
        assert(texts_of(elems_cmds(elems, cfg, page, y, k).0) =~= elems_texts(elems, cfg, k));
    } else {
        let (ec, page2, y2) = elem_cmds(elems[k], cfg, page, y);
        lemma_elem_texts(elems[k], cfg, page, y);
        lemma_elems_texts(elems, cfg, page2, y2, k + 1);
        lemma_texts_distribute(ec, elems_cmds(elems, cfg, page2, y2, k + 1).0);
    }
}

/// Element order is preserved: the texts of the whole layout are exactly the
/// metadata block's texts followed by each element's texts in document
/// order — whatever pages and cursor positions pagination assigns them.
pub proof fn lemma_element_order(doc: DocSpec, cfg: RenderConfig)
    ensures
        texts_of(layout_spec(doc, cfg)) == texts_of(meta_cmds(doc, cfg).0) + elems_texts(
            doc.elements,
            cfg,
            0,
        ),
{
    let (mc, y1) = meta_cmds(doc, cfg);
    lemma_elems_texts(doc.elements, cfg, 1, y1, 0);
    lemma_texts_distribute(mc, elems_cmds(doc.elements, cfg, 1, y1, 0).0);
}

/// Executable vertical advance of a font size.
fn pt_advance(font_size: u32) -> (r: i128)
    ensures
        r == pt(font_size),
{
    (font_size as i128) * 10
}

/// A generous bound on any single cursor advance: every advance is at most
/// ten times a `u32` font size plus a `u32` spacing.
pub open spec fn max_step() -> int {
    0x10_0000_0000_0000
}

/// Lays the document out: the metadata block, then every element in document
/// order, word-wrapped and paginated exactly as `layout_spec` says.
#[verifier::loop_isolation(false)]
#[verifier::rlimit(100)]
pub fn layout_document(document: &Document, config: &RenderConfig) -> (cmds: Vec<DrawCmd>)
    ensures
        cmds_view(cmds@) == layout_spec(document@, *config),
{
    let ghost doc = document@;
    let ghost cfg = *config;
    let mut cmds: Vec<DrawCmd> = Vec::new();
    let mut page: u128 = 1;
    let mut y: i128 = config.start_y as i128;

    if let Some(title) = &document.title {
        let ghost before = cmds_view(cmds@);
        cmds.push(
            DrawCmd {
                page: 1,
                x: config.margin_left as u64,
                y,
                font_size: config.title_font_size,
                text: title.clone(),
            },
        );
        proof {
            assert(cmds_view(cmds@) =~= before.push(cmds@.last()@));
        }
        y = y - (pt_advance(config.title_font_size) + 100);
    }
    if let Some(author) = &document.author {
        let ghost before = cmds_view(cmds@);
        let text = String::from_str("Author: ").concat(author.as_str());
        cmds.push(
            DrawCmd {
                page: 1,
                x: config.margin_left as u64,
                y,
                font_size: config.font_size,
                text,
            },
        );
        proof {
            assert(cmds_view(cmds@) =~= before.push(cmds@.last()@));
        }
        y = y - (pt_advance(config.font_size) + 50);
    }
    if let Some(date) = &document.date {
        let ghost before = cmds_view(cmds@);
        let text = String::from_str("Date: ").concat(date.as_str());
        cmds.push(
            DrawCmd {
                page: 1,
                x: config.margin_left as u64,
                y,
                font_size: config.font_size,
                text,
            },
        );
        proof {
            assert(cmds_view(cmds@) =~= before.push(cmds@.last()@));
        }
        y = y - (pt_advance(config.font_size) + 150);
    }
    let ghost mc = meta_cmds(doc, cfg).0;
    let ghost my = meta_cmds(doc, cfg).1;
    proof {
        assert(cmds_view(cmds@) =~= mc);
        assert(y as int == my);
        assert(my >= -3 * max_step());
    }

    let ghost elems = doc.elements;
    let ghost mut done: Seq<DrawSpec> = Seq::<DrawSpec>::empty();
    let mut k: usize = 0;
    while k < document.elements.len()
        invariant
            doc == document@,
            cfg == *config,
            elems == doc.elements,
            k <= document.elements.len(),
            cmds_view(cmds@) == mc + done,
            elems_cmds(elems, cfg, 1, my, 0) == {
                let (rest, pr, yr) = elems_cmds(elems, cfg, page as int, y as int, k as int);
                (done + rest, pr, yr)
            },
            page >= 1,
            page as int <= cmds.len() + 1,
            y as int <= 0x1_0000_0000,
            y as int >= -((3 + 2 * (k as int)) * max_step()),
        decreases document.elements.len() - k,
    {
        let ghost page0 = page as int;
        let ghost y0 = y as int;
        let ghost done0 = done;
        match &document.elements[k] {
            DocumentElement::Section(sec) => {
                let ghost before = cmds_view(cmds@);
                let y1 = y - config.section_spacing as i128;
                cmds.push(
                    DrawCmd {
                        page,
                        x: config.margin_left as u64,
                        y: y1,
                        font_size: config.section_font_size,
                        text: sec.title.clone(),
                    },
                );
                y = y1 - (pt_advance(config.section_font_size)
                    + config.paragraph_spacing as i128);
                proof {
                    assert(cmds_view(cmds@) =~= before.push(cmds@.last()@));
                    let (ec, p2, y2) = elem_cmds(elems[k as int], cfg, page0, y0);
                    assert(ec =~= seq![cmds@.last()@]);
                    done = done + ec;
                    assert(cmds_view(cmds@) =~= mc + done);
                }
            },
            DocumentElement::Subsection(sub) => {
                let ghost before = cmds_view(cmds@);
                let y1 = y - config.subsection_spacing as i128;
                cmds.push(
                    DrawCmd {
                        page,
                        x: config.margin_left as u64 + 100,
                        y: y1,
                        font_size: config.subsection_font_size,
                        text: sub.title.clone(),
                    },
                );
                y = y1 - (pt_advance(config.subsection_font_size)
                    + config.paragraph_spacing as i128);
                proof {
                    assert(cmds_view(cmds@) =~= before.push(cmds@.last()@));
                    let (ec, p2, y2) = elem_cmds(elems[k as int], cfg, page0, y0);
                    assert(ec =~= seq![cmds@.last()@]);
                    done = done + ec;
                    assert(cmds_view(cmds@) =~= mc + done);
                }
            },
            DocumentElement::Paragraph(par) => {
                let lines = wrap_text(par.text.as_str(), config.line_width, config.font_size);
                let ghost lseq = strings_view(lines@);
                let ghost mut lacc: Seq<DrawSpec> = Seq::<DrawSpec>::empty();
                let mut j: usize = 0;
                while j < lines.len()
                    invariant
                        cfg == *config,
                        lseq == strings_view(lines@),
                        j <= lines.len(),
                        cmds_view(cmds@) == mc + done0 + lacc,
                        para_lines_cmds(lseq, cfg, page0, y0, 0) == {
                            let (rest, pr, yr) = para_lines_cmds(
                                lseq,
                                cfg,
                                page as int,
                                y as int,
                                j as int,
                            );
                            (lacc + rest, pr, yr)
                        },
                        page >= 1,
                        page as int <= cmds.len() + 1,
                        y as int <= 0x1_0000_0000,
                        y0 <= 0x1_0000_0000,
                        y as int >= y0 - max_step(),
                        y as int >= -((4 + 2 * (k as int)) * max_step()) || j > 0,
                        j > 0 ==> y as int >= (cfg.bottom_margin as int) - max_step(),
                    decreases lines.len() - j,
                {
                    let ghost before = cmds_view(cmds@);
                    let ghost lacc0 = lacc;
                    let ghost pagej = page as int;
                    let ghost yj = y as int;
                    cmds.push(
                        DrawCmd {
                            page,
                            x: config.margin_left as u64,
                            y,
                            font_size: config.font_size,
                            text: lines[j].clone(),
                        },
                    );
                    proof {
                        assert(cmds_view(cmds@) =~= before.push(cmds@.last()@));
                        assert(lseq[j as int] == lines@[j as int]@);
                    }
                    let y_next = y - (pt_advance(config.font_size)
                        + config.line_spacing as i128);
                    if y_next < config.bottom_margin as i128 {
                        page = page + 1;
                        y = config.start_y as i128;
                    } else {
                        y = y_next;
                    }
                    proof {
                        lacc = lacc + seq![cmds@.last()@];
                        let (rest, pr, yr) = para_lines_cmds(lseq, cfg, pagej, yj, j as int);
                        assert(rest == seq![cmds@.last()@] + para_lines_cmds(
                            lseq,
                            cfg,
                            page as int,
                            y as int,
                            j as int + 1,
                        ).0);
                        assert((lacc0 + rest) =~= lacc + para_lines_cmds(
                            lseq,
                            cfg,
                            page as int,
                            y as int,
                            j as int + 1,
                        ).0);
                        assert(cmds_view(cmds@) =~= mc + done0 + lacc);
                    }
                    j = j + 1;
                }
                let ghost page_in = page as int;
                let ghost y_in = y as int;
                y = y - config.paragraph_spacing as i128;
                proof {
                    assert(para_lines_cmds(lseq, cfg, page_in, y_in, j as int) == (
                        Seq::<DrawSpec>::empty(),
                        page_in,
                        y_in,
                    ));
                    assert(lacc + Seq::<DrawSpec>::empty() =~= lacc);
                    let (ec, p2, y2) = elem_cmds(elems[k as int], cfg, page0, y0);
                    assert(ec == lacc && p2 == page_in && y2 == y as int);
                    done = done + ec;
                    assert(cmds_view(cmds@) =~= mc + done);
                }
            },
        }
        proof {
            let (rest0, pr0, yr0) = elems_cmds(elems, cfg, page0, y0, k as int);
            let (ec, p2, y2) = elem_cmds(elems[k as int], cfg, page0, y0);
            let (rest1, pr1, yr1) = elems_cmds(elems, cfg, page as int, y as int, k as int + 1);
            assert(rest0 =~= ec + rest1);
            assert((done0 + ec) + rest1 =~= done0 + (ec + rest1));
        }
        k = k + 1;
    }
    proof {
        assert(elems_cmds(elems, cfg, page as int, y as int, k as int) == (
            Seq::<DrawSpec>::empty(),
            page as int,
            y as int,
        ));
        assert(done + Seq::<DrawSpec>::empty() =~= done);
        assert(cmds_view(cmds@) =~= layout_spec(doc, cfg));
    }
    cmds
}

} // verus!
