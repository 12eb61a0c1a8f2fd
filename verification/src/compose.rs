use vstd::prelude::*;

use crate::doc::{Block, BlockV, Inline, InlineV, blocks_view, bview, contains_strong, contains_strong_of,
    inlines_view, items_view, plain_text, plain_text_of, rows_view, str_all_ws, text_all_ws};
use crate::layout::{Line, LineV, SegV, lemma_segs_w_prefix, lines_view, seg_w, segs_w,
    segs_view, tokens_of, tokenize, wrap_spec, wrap_tokens};
use crate::metrics::{text_width, width_mp};
use crate::numfmt::{dec_of, pts_of, pts_to_string, u64_to_dec};

verus! {

/// One of the two faces of the page's font resources.
pub enum FontFace {
    Regular,
    Bold,
}

pub open spec fn face_bold(f: FontFace) -> bool {
    match f {
        FontFace::Regular => false,
        FontFace::Bold => true,
    }
}

/// How one character is written inside a PDF string literal:
/// parentheses and backslashes are escaped, a carriage return becomes a
/// space, the bullet gets its standard-encoding octal escape, anything
/// beyond the Latin-1 range degrades to a question mark.
pub open spec fn escape_char(c: char) -> Seq<char> {
    if c == '(' || c == ')' || c == '\\' {
        seq!['\\', c]
    } else if c == '\r' {
        seq![' ']
    } else if c == '•' {
        seq!['\\', '2', '6', '7']
    } else if c as u32 <= 255 {
        seq![c]
    } else {
        seq!['?']
    }
}

/// A text escaped for a PDF string literal, character by character.
pub open spec fn escape_text(s: Seq<char>) -> Seq<char>
    decreases s.len(),
{
    if s.len() == 0 {
        Seq::empty()
    } else {
        escape_text(s.drop_last()) + escape_char(s.last())
    }
}

/// Relies on String::push: appends one character to the string.
#[verifier::external_body]
pub(crate) fn push_char(s: &mut String, c: char)
    ensures
        final(s)@ == old(s)@ + seq![c],
{
    s.push(c);
}

/// Escapes a text for inclusion in a PDF string literal.
pub fn escape_pdf_text(text: &str) -> (r: String)
    ensures
        r@ == escape_text(text@),
{
    let mut escaped = String::new();
    let n: usize = text.unicode_len();
    let mut i: usize = 0;
    proof {
        assert(escape_text(text@.subrange(0, 0)) =~= Seq::<char>::empty());
    }
    while i < n
        invariant
            0 <= i <= n,
            n == text@.len(),
            escaped@ == escape_text(text@.subrange(0, i as int)),
        decreases n - i,
    {
        let c = text.get_char(i);
        proof {
            let pre = text@.subrange(0, i as int);
            let post = text@.subrange(0, i + 1);
            assert(post.drop_last() =~= pre);
            assert(post.last() == c);
        }
        if c == '(' {
            escaped.append("\\(");
            proof {
                reveal_strlit("\\(");
                assert("\\("@ =~= seq!['\\', '(']);
            }
        } else if c == ')' {
            escaped.append("\\)");
            proof {
                reveal_strlit("\\)");
                assert("\\)"@ =~= seq!['\\', ')']);
            }
        } else if c == '\\' {
            escaped.append("\\\\");
            proof {
                reveal_strlit("\\\\");
                assert("\\\\"@ =~= seq!['\\', '\\']);
            }
        } else if c == '\r' {
            escaped.append(" ");
            proof {
                reveal_strlit(" ");
                assert(" "@ =~= seq![' ']);
            }
        } else if c == '•' {
            escaped.append("\\267");
            proof {
                reveal_strlit("\\267");
                assert("\\267"@ =~= seq!['\\', '2', '6', '7']);
            }
        } else if (c as u32) <= 255 {
            push_char(&mut escaped, c);
        } else {
            escaped.append("?");
            proof {
                reveal_strlit("?");
                assert("?"@ =~= seq!['?']);
            }
        }
        i = i + 1;
    }
    proof {
        assert(text@.subrange(0, n as int) =~= text@);
    }
    escaped
}

/// One accumulating page of raw content-stream operators.
pub struct PdfPage {
    pub content: String,
}

impl View for PdfPage {
    type V = Seq<char>;

    open spec fn view(&self) -> Seq<char> {
        self.content@
    }
}

pub open spec fn pages_view(s: Seq<PdfPage>) -> Seq<Seq<char>> {
    s.map_values(|p: PdfPage| p@)
}

/// The text-showing operator group for one run of text: set the font,
/// place the text matrix at the given position, show the escaped text.
/// Empty text produces nothing.
pub open spec fn text_op(x: int, y: int, bold: bool, size: int, text: Seq<char>) -> Seq<char> {
    if text.len() == 0 {
        Seq::empty()
    } else {
        "BT /"@ + (if bold {
            "F2"@
        } else {
            "F1"@
        }) + " "@ + dec_of(size) + " Tf 1 0 0 1 "@ + pts_of(x) + " "@ + pts_of(y) + " Tm ("@
            + escape_text(text) + ") Tj ET\n"@
    }
}

impl PdfPage {
    /// A fresh page with no content.
    pub fn new() -> (r: PdfPage)
        ensures
            r@ == Seq::<char>::empty(),
    {
        PdfPage { content: String::new() }
    }

    /// Appends one text-showing operator group at the given position,
    /// face and size; empty text writes nothing.
    pub fn write_text(&mut self, x: u128, y: u128, font: FontFace, size: u64, text: &str)
        requires
            x < 0x1000000000000000000000000,
            y < 0x1000000000000000000000000,
        ensures
            final(self)@ == old(self)@ + text_op(x as int, y as int, face_bold(font),
                size as int, text@),
    {
        if text.is_empty() {
            proof {
                assert(old(self)@ + text_op(x as int, y as int, face_bold(font), size as int,
                    text@) =~= old(self)@);
            }
            return;
        }
        self.content.append("BT /");
        match font {
            FontFace::Regular => self.content.append("F1"),
            FontFace::Bold => self.content.append("F2"),
        }
        self.content.append(" ");
        let d = u64_to_dec(size);
        self.content.append(d.as_str());
        self.content.append(" Tf 1 0 0 1 ");
        let xs = pts_to_string(x);
        self.content.append(xs.as_str());
        self.content.append(" ");
        let ys = pts_to_string(y);
        self.content.append(ys.as_str());
        self.content.append(" Tm (");
        let esc = escape_pdf_text(text);
        self.content.append(esc.as_str());
        self.content.append(") Tj ET\n");
        proof {
            assert(self.content@ =~= old(self)@ + text_op(x as int, y as int, face_bold(font),
                size as int, text@));
        }
    }
}

// ------------------------------------------------------------------
// The page composer
// ------------------------------------------------------------------

/// The composer state: finished pages, the open page's content, and the
/// vertical cursor in millipoints, counting down from the top margin.
#[verifier::ext_equal]
pub struct CState {
    pub pages: Seq<Seq<char>>,
    pub cur: Seq<char>,
    pub y: int,
}

/// A fresh composer: no pages, an empty open page, the cursor at the
/// top margin of an A4 page (842pt less a 50pt top margin).
pub open spec fn spec_compose_init() -> CState {
    CState { pages: Seq::empty(), cur: Seq::empty(), y: 792000 }
}

pub open spec fn spec_new_page(st: CState) -> CState {
    CState { pages: st.pages.push(st.cur), cur: Seq::empty(), y: 792000 }
}

/// The page break rule: when the room left above the 40pt bottom margin
/// is less than `required`, the open page is finished and a new one
/// begins.
pub open spec fn spec_ensure_space(st: CState, required: int) -> CState {
    if st.y - required < 40000 {
        spec_new_page(st)
    } else {
        st
    }
}

/// The operators for one line: each segment shown at the running x
/// position, which advances by the segment's width.
pub open spec fn line_ops(segs: Seq<SegV>, x: int, y: int, size: int) -> Seq<char>
    decreases segs.len(),
{
    if segs.len() == 0 {
        Seq::empty()
    } else {
        text_op(x, y, segs[0].bold, size, segs[0].text) + line_ops(segs.drop_first(), x + seg_w(
            segs[0], size), y, size)
    }
}

pub open spec fn heading_pt_size(level: u32) -> int {
    if level == 1 {
        16
    } else if level == 2 {
        12
    } else {
        11
    }
}

pub open spec fn heading_gap(level: u32) -> int {
    if level == 1 {
        8000
    } else if level == 2 {
        4000
    } else {
        3000
    }
}

/// A level-1 heading is centered: its x position is the midpoint
/// remainder, clamped to the 40pt left margin.
pub open spec fn h1_x(w: int) -> int {
    if w < 595000 && (595000 - w) / 2 > 40000 {
        (595000 - w) / 2
    } else {
        40000
    }
}

/// A heading: bold, sized by level (16, 12 or 11pt), level 1 centered,
/// the rest at the left margin; the cursor advances by 1.6 times the
/// size plus a level-dependent gap.
pub open spec fn spec_heading(st: CState, level: u32, content: Seq<InlineV>) -> CState {
    let size = heading_pt_size(level);
    let spacing = size * 1600;
    let st1 = spec_ensure_space(st, spacing + 4000);
    let text = plain_text_of(content);
    let w = width_mp(text, size, true);
    let x = if level == 1 {
        h1_x(w)
    } else {
        40000
    };
    CState {
        pages: st1.pages,
        cur: st1.cur + text_op(x, st1.y, true, size, text),
        y: st1.y - spacing - heading_gap(level),
    }
}

/// Lines laid out one under another at the 9pt body size: each line
/// first claims room, then its segments are shown; a bullet glyph is
/// drawn at the left margin beside the first line when `first` is set.
pub open spec fn spec_lines(st: CState, lines: Seq<LineV>, x: int, first: bool) -> CState
    decreases lines.len(),
{
    if lines.len() == 0 {
        st
    } else {
        let st1 = spec_ensure_space(st, 14400);
        let st2 = CState {
            pages: st1.pages,
            cur: st1.cur + (if first {
                text_op(40000, st1.y, false, 9, "•"@)
            } else {
                Seq::empty()
            }) + line_ops(lines[0].segments, x, st1.y, 9),
            y: st1.y - 14400,
        };
        spec_lines(st2, lines.drop_first(), x, false)
    }
}

/// A paragraph: its inline content is tokenized and wrapped to the
/// 515pt content width at 9pt; an empty result leaves the state
/// unchanged, otherwise an 8pt gap follows the lines.
pub open spec fn spec_paragraph(st: CState, content: Seq<InlineV>) -> CState {
    let lines = wrap_spec(tokens_of(content, false), 515000, 9);
    if lines.len() == 0 {
        st
    } else {
        let st1 = spec_lines(st, lines, 40000, false);
        CState { y: st1.y - 8000, ..st1 }
    }
}

/// One list item: wrapped 18pt narrower than a paragraph, the bullet
/// drawn only beside the first line, a 2pt gap after the item.
pub open spec fn spec_list_item(st: CState, item: Seq<InlineV>) -> CState {
    let lines = wrap_spec(tokens_of(item, false), 497000, 9);
    if lines.len() == 0 {
        st
    } else {
        let st1 = spec_lines(st, lines, 58000, true);
        CState { y: st1.y - 2000, ..st1 }
    }
}

pub open spec fn spec_list_items(st: CState, items: Seq<Seq<InlineV>>) -> CState
    decreases items.len(),
{
    if items.len() == 0 {
        st
    } else {
        spec_list_item(spec_list_items(st, items.drop_last()), items.last())
    }
}

/// A bullet list: its items in order, then an 8pt gap.
pub open spec fn spec_list(st: CState, items: Seq<Seq<InlineV>>) -> CState {
    let st1 = spec_list_items(st, items);
    CState { y: st1.y - 8000, ..st1 }
}

/// The x position of a right-aligned table value: flush with the right
/// margin, clamped to the left margin.
pub open spec fn right_x(w: int) -> int {
    if 555000 - w > 40000 {
        555000 - w
    } else {
        40000
    }
}

/// One table row in the key/value layout: rows with fewer than two
/// cells, or whose first two cells are both whitespace, are skipped;
/// otherwise the first cell is shown at the left margin and the second
/// right-aligned, each bold when it contains strong text. Cells beyond
/// the second are ignored.
pub open spec fn spec_table_row(st: CState, row: Seq<Seq<InlineV>>) -> CState {
    if row.len() < 2 {
        st
    } else {
        let left = plain_text_of(row[0]);
        let right = plain_text_of(row[1]);
        if text_all_ws(left) && text_all_ws(right) {
            st
        } else {
            let st1 = spec_ensure_space(st, 14400);
            let lb = contains_strong_of(row[0]);
            let rb = contains_strong_of(row[1]);
            let rx = right_x(width_mp(right, 9, rb));
            CState {
                pages: st1.pages,
                cur: st1.cur + text_op(40000, st1.y, lb, 9, left) + text_op(rx, st1.y, rb, 9,
                    right),
                y: st1.y - 14400,
            }
        }
    }
}

pub open spec fn spec_table_rows(st: CState, rows: Seq<Seq<Seq<InlineV>>>) -> CState
    decreases rows.len(),
{
    if rows.len() == 0 {
        st
    } else {
        spec_table_row(spec_table_rows(st, rows.drop_last()), rows.last())
    }
}

/// A table: its rows in order, then an 8pt gap; a table with no rows
/// leaves the state unchanged.
pub open spec fn spec_table(st: CState, rows: Seq<Seq<Seq<InlineV>>>) -> CState {
    if rows.len() == 0 {
        st
    } else {
        let st1 = spec_table_rows(st, rows);
        CState { y: st1.y - 8000, ..st1 }
    }
}

/// What one block adds to the composition.
pub open spec fn spec_block(st: CState, b: BlockV) -> CState {
    match b {
        BlockV::Heading { level, content } => spec_heading(st, level, content),
        BlockV::Paragraph(content) => spec_paragraph(st, content),
        BlockV::BulletList(items) => spec_list(st, items),
        BlockV::Table(rows) => spec_table(st, rows),
    }
}

/// The composition of a block sequence, in order.
pub open spec fn spec_blocks(st: CState, blocks: Seq<BlockV>) -> CState
    decreases blocks.len(),
{
    if blocks.len() == 0 {
        st
    } else {
        spec_block(spec_blocks(st, blocks.drop_last()), blocks.last())
    }
}

/// Finishing the composition: the open page joins the page list when it
/// holds more than whitespace, or when it is the only page, so at least
/// one page always comes out.
pub open spec fn spec_compose_finish(st: CState) -> Seq<Seq<char>> {
    if !text_all_ws(st.cur) || st.pages.len() == 0 {
        st.pages.push(st.cur)
    } else {
        st.pages
    }
}

/// The page composer: finished pages, the page being filled, and the
/// vertical cursor in millipoints.
pub struct PdfComposer {
    pub pages: Vec<PdfPage>,
    pub current: PdfPage,
    pub cursor_y: i128,
}

impl View for PdfComposer {
    type V = CState;

    open spec fn view(&self) -> CState {
        CState { pages: pages_view(self.pages@), cur: self.current@, y: self.cursor_y as int }
    }
}

impl PdfComposer {
    /// A fresh composer with the cursor at the top margin.
    pub fn new() -> (r: PdfComposer)
        ensures
            r@ == spec_compose_init(),
    {
        let r = PdfComposer { pages: Vec::new(), current: PdfPage::new(), cursor_y: 792000 };
        proof {
            assert(pages_view(r.pages@) =~= Seq::<Seq<char>>::empty());
        }
        r
    }

    /// Closes the open page into the page list and starts a fresh one.
    pub fn finish_page(&mut self)
        ensures
            final(self)@ == spec_new_page(old(self)@),
    {
        let mut fresh = PdfPage::new();
        core::mem::swap(&mut fresh, &mut self.current);
        self.pages.push(fresh);
        self.cursor_y = 792000;
        proof {
            assert(pages_view(self.pages@) =~= pages_view(old(self).pages@).push(
                old(self).current@));
        }
    }

    /// Breaks the page when less than `required` room is left above the
    /// bottom margin.
    pub fn ensure_space(&mut self, required: u64)
        requires
            required <= 752000,
            -0x1000000000000000000000000000000 <= old(self)@.y <= 792000,
        ensures
            final(self)@ == spec_ensure_space(old(self)@, required as int),
            required + 40000 <= final(self)@.y <= 792000,
    {
        if self.cursor_y - (required as i128) < 40000 {
            self.finish_page();
        }
    }

    /// Shows one wrapped line: each segment at the running x position,
    /// which advances by the segment's width.
    pub fn write_line(&mut self, line: &Line, start_x: u128, y: u128, size: u64)
        requires
            1 <= size <= 100,
            start_x <= 100000,
            y < 0x1000000000000000000000000,
            segs_w(line@.segments, size as int) <= 0x8000000000000000000000,
        ensures
            final(self)@ == (CState {
                cur: old(self)@.cur + line_ops(line@.segments, start_x as int, y as int,
                    size as int),
                ..old(self)@
            }),
    {
        let ghost segs = segs_view(line.segments@);
        let n = line.segments.len();
        let mut j: usize = 0;
        let mut x: u128 = start_x;
        proof {
            assert(segs.skip(0) =~= segs);
            assert(segs.subrange(0, 0) =~= Seq::<SegV>::empty());
            lemma_segs_w_prefix(segs, 0, size as int);
        }
        while j < n
            invariant
                0 <= j <= n,
                n == line.segments@.len(),
                segs == segs_view(line.segments@),
                segs == line@.segments,
                1 <= size <= 100,
                start_x <= 100000,
                y < 0x1000000000000000000000000,
                segs_w(segs, size as int) <= 0x8000000000000000000000,
                x as int == start_x + segs_w(segs.subrange(0, j as int), size as int),
                x <= start_x + segs_w(segs, size as int),
                self.pages@ == old(self).pages@,
                self.cursor_y == old(self).cursor_y,
                self.current@ + line_ops(segs.skip(j as int), x as int, y as int, size as int)
                    == old(self)@.cur + line_ops(segs, start_x as int, y as int, size as int),
            decreases n - j,
        {
            let seg = &line.segments[j];
            let font = if seg.bold {
                FontFace::Bold
            } else {
                FontFace::Regular
            };
            proof {
                assert(segs[j as int] == line.segments@[j as int]@);
                assert(segs.skip(j as int)[0] == segs[j as int]);
            }
            self.current.write_text(x, y, font, size, seg.text.as_str());
            let advance = text_width(seg.text.as_str(), size, seg.bold);
            proof {
                let a = segs.subrange(0, j as int);
                let b = segs.subrange(0, j + 1);
                assert(b.drop_last() =~= a);
                assert(b.last() == segs[j as int]);
                lemma_segs_w_prefix(segs, j + 1, size as int);
                assert(segs.skip(j as int).drop_first() =~= segs.skip(j + 1));
            }
            x = x + advance;
            j = j + 1;
        }
        proof {
            assert(segs.skip(n as int) =~= Seq::<SegV>::empty());
            assert(self.current@ =~= old(self)@.cur + line_ops(segs, start_x as int, y as int,
                size as int));
        }
    }

    /// Lays out one heading.
    pub fn render_heading(&mut self, level: u32, content: &Vec<Inline>)
        requires
            -0x1000000000000000000000000000000 <= old(self)@.y <= 792000,
        ensures
            final(self)@ == spec_heading(old(self)@, level, inlines_view(content@)),
            final(self)@.y <= 792000,
            final(self)@.y >= 30000,
    {
        let size: u64 = if level == 1 {
            16
        } else if level == 2 {
            12
        } else {
            11
        };
        let spacing: i128 = (size as i128) * 1600;
        let gap: i128 = if level == 1 {
            8000
        } else if level == 2 {
            4000
        } else {
            3000
        };
        self.ensure_space((size * 1600 + 4000) as u64);
        let text = plain_text(content);
        let w = text_width(text.as_str(), size, true);
        let x: u128 = if level == 1 {
            if w < 595000 {
                let c = (595000 - w) / 2;
                if c > 40000 {
                    c
                } else {
                    40000
                }
            } else {
                40000
            }
        } else {
            40000
        };
        proof {
            assert(x as int == if level == 1 {
                h1_x(width_mp(text@, size as int, true))
            } else {
                40000int
            });
        }
        let y = self.cursor_y as u128;
        self.current.write_text(x, y, FontFace::Bold, size, text.as_str());
        self.cursor_y = self.cursor_y - spacing - gap;
    }

    /// Lays out one paragraph.
    pub fn render_paragraph(&mut self, content: &Vec<Inline>)
        requires
            -0x1000000000000000000000000000000 <= old(self)@.y <= 792000,
        ensures
            final(self)@ == spec_paragraph(old(self)@, inlines_view(content@)),
            final(self)@.y <= 792000,
            final(self)@.y >= old(self)@.y - 40000 || final(self)@.y >= 30000,
    {
        let tokens = tokenize(content, false);
        let lines = wrap_tokens(&tokens, 515000, 9);
        let ghost linesv = lines_view(lines@);
        let n = lines.len();
        if n == 0 {
            return;
        }
        let mut j: usize = 0;
        proof {
            assert(linesv.skip(0) =~= linesv);
        }
        while j < n
            invariant
                0 < n == lines@.len(),
                0 <= j <= n,
                linesv == lines_view(lines@),
                -0x1000000000000000000000000000000 <= old(self)@.y <= 792000,
                self@.y <= 792000,
                j == 0 ==> self@ == old(self)@,
                j > 0 ==> self@.y >= 40000,
                forall|k: int|
                    0 <= k < lines@.len() ==> segs_w(#[trigger] lines_view(lines@)[k].segments,
                        9) <= 515000 + 0x4000000000000000000000,
                spec_lines(self@, linesv.skip(j as int), 40000, false) == spec_lines(old(self)@,
                    linesv, 40000, false),
            decreases n - j,
        {
            let ghost st_before = self@;
            self.ensure_space(14400);
            let y = self.cursor_y as u128;
            proof {
                assert(linesv.skip(j as int)[0] == linesv[j as int]);
                assert(linesv[j as int] == lines@[j as int]@);
            }
            self.write_line(&lines[j], 40000, y, 9);
            self.cursor_y = self.cursor_y - 14400;
            proof {
                assert(linesv.skip(j as int).drop_first() =~= linesv.skip(j + 1));
                assert(self@ =~~= (CState {
                    pages: spec_ensure_space(st_before, 14400).pages,
                    cur: spec_ensure_space(st_before, 14400).cur + line_ops(
                        linesv[j as int].segments, 40000, spec_ensure_space(st_before,
                        14400).y, 9),
                    y: spec_ensure_space(st_before, 14400).y - 14400,
                }));
            }
            j = j + 1;
        }
        proof {
            assert(linesv.skip(n as int) =~= Seq::<LineV>::empty());
        }
        self.cursor_y = self.cursor_y - 8000;
    }

    /// Lays out one bullet list.
    pub fn render_list(&mut self, items: &Vec<Vec<Inline>>)
        requires
            -0x1000000000000000000000000000000 <= old(self)@.y <= 792000,
        ensures
            final(self)@ == spec_list(old(self)@, items_view(items@)),
            final(self)@.y <= 792000,
            final(self)@.y >= old(self)@.y - 40000 || final(self)@.y >= 30000,
    {
        let ghost itemsv = items_view(items@);
        let n = items.len();
        let mut i: usize = 0;
        proof {
            assert(items_view(items@.subrange(0, 0)) =~= Seq::<Seq<InlineV>>::empty());
        }
        while i < n
            invariant
                0 <= i <= n,
                n == items@.len(),
                itemsv == items_view(items@),
                -0x1000000000000000000000000000000 <= old(self)@.y <= 792000,
                self@.y <= 792000,
                self@.y >= 38000 || self@.y == old(self)@.y,
                self@ == spec_list_items(old(self)@, itemsv.subrange(0, i as int)),
            decreases n - i,
        {
            let ghost st_item = self@;
            let tokens = tokenize(&items[i], false);
            let lines = wrap_tokens(&tokens, 497000, 9);
            let ghost linesv = lines_view(lines@);
            proof {
                assert(itemsv[i as int] == inlines_view(items@[i as int]@));
            }
            let m = lines.len();
            if m > 0 {
                let mut j: usize = 0;
                proof {
                    assert(linesv.skip(0) =~= linesv);
                }
                while j < m
                    invariant
                        0 < m == lines@.len(),
                        0 <= j <= m,
                        linesv == lines_view(lines@),
                        -0x1000000000000000000000000000000 <= st_item.y <= 792000,
                        self@.y <= 792000,
                        j == 0 ==> self@ == st_item,
                        j > 0 ==> self@.y >= 40000,
                        forall|k: int|
                            0 <= k < lines@.len() ==> segs_w(
                                #[trigger] lines_view(lines@)[k].segments, 9) <= 497000
                                + 0x4000000000000000000000,
                        spec_lines(self@, linesv.skip(j as int), 58000, j == 0) == spec_lines(
                            st_item, linesv, 58000, true),
                    decreases m - j,
                {
                    let ghost st_before = self@;
                    self.ensure_space(14400);
                    let y = self.cursor_y as u128;
                    let ghost st_mid = self@;
                    if j == 0 {
                        self.current.write_text(40000, y, FontFace::Regular, 9, "•");
                    }
                    proof {
                        assert(linesv.skip(j as int)[0] == linesv[j as int]);
                        assert(linesv[j as int] == lines@[j as int]@);
                    }
                    self.write_line(&lines[j], 58000, y, 9);
                    self.cursor_y = self.cursor_y - 14400;
                    proof {
                        assert(linesv.skip(j as int).drop_first() =~= linesv.skip(j + 1));
                        assert(self@ =~~= (CState {
                            pages: st_mid.pages,
                            cur: st_mid.cur + (if j == 0 {
                                text_op(40000, st_mid.y, false, 9, "•"@)
                            } else {
                                Seq::<char>::empty()
                            }) + line_ops(linesv[j as int].segments, 58000, st_mid.y, 9),
                            y: st_mid.y - 14400,
                        }));
                    }
                    j = j + 1;
                }
                proof {
                    assert(linesv.skip(m as int) =~= Seq::<LineV>::empty());
                }
                self.cursor_y = self.cursor_y - 2000;
            }
            proof {
                let pre = itemsv.subrange(0, i as int);
                let post = itemsv.subrange(0, i + 1);
                assert(post.drop_last() =~= pre);
                assert(post.last() == itemsv[i as int]);
                assert(self@ == spec_list_item(st_item, itemsv[i as int]));
            }
            i = i + 1;
        }
        proof {
            assert(itemsv.subrange(0, n as int) =~= itemsv);
        }
        self.cursor_y = self.cursor_y - 8000;
    }

    /// Lays out one key/value table.
    pub fn render_table(&mut self, rows: &Vec<Vec<Vec<Inline>>>)
        requires
            -0x1000000000000000000000000000000 <= old(self)@.y <= 792000,
        ensures
            final(self)@ == spec_table(old(self)@, rows_view(rows@)),
            final(self)@.y <= 792000,
            final(self)@.y >= old(self)@.y - 40000 || final(self)@.y >= 30000,
    {
        let ghost rowsv = rows_view(rows@);
        let n = rows.len();
        if n == 0 {
            return;
        }
        let mut i: usize = 0;
        proof {
            assert(rows_view(rows@.subrange(0, 0)) =~= Seq::<Seq<Seq<InlineV>>>::empty());
        }
        while i < n
            invariant
                0 <= i <= n,
                n == rows@.len(),
                rowsv == rows_view(rows@),
                -0x1000000000000000000000000000000 <= old(self)@.y <= 792000,
                self@.y <= 792000,
                self@.y >= 40000 || self@.y == old(self)@.y,
                self@ == spec_table_rows(old(self)@, rowsv.subrange(0, i as int)),
            decreases n - i,
        {
            let ghost st_row = self@;
            let row = &rows[i];
            proof {
                assert(rowsv[i as int] == items_view(rows@[i as int]@));
            }
            if row.len() >= 2 {
                let left_text = plain_text(&row[0]);
                let right_text = plain_text(&row[1]);
                proof {
                    assert(items_view(row@)[0] == inlines_view(row@[0]@));
                    assert(items_view(row@)[1] == inlines_view(row@[1]@));
                }
                let lws = str_all_ws(left_text.as_str());
                let rws = str_all_ws(right_text.as_str());
                if !(lws && rws) {
                    self.ensure_space(14400);
                    let y = self.cursor_y as u128;
                    let left_face = if contains_strong(&row[0]) {
                        FontFace::Bold
                    } else {
                        FontFace::Regular
                    };
                    let right_face = if contains_strong(&row[1]) {
                        FontFace::Bold
                    } else {
                        FontFace::Regular
                    };
                    let right_bold = matches!(right_face, FontFace::Bold);
                    self.current.write_text(40000, y, left_face, 9, left_text.as_str());
                    let right_width = text_width(right_text.as_str(), 9, right_bold);
                    let rx: u128 = if right_width < 515000 {
                        555000 - right_width
                    } else {
                        40000
                    };
                    proof {
                        assert(rx as int == right_x(width_mp(right_text@, 9, right_bold)));
                    }
                    self.current.write_text(rx, y, right_face, 9, right_text.as_str());
                    self.cursor_y = self.cursor_y - 14400;
                }
            }
            proof {
                let pre = rowsv.subrange(0, i as int);
                let post = rowsv.subrange(0, i + 1);
                assert(post.drop_last() =~= pre);
                assert(post.last() == rowsv[i as int]);
                assert(self@ == spec_table_row(st_row, rowsv[i as int]));
            }
            i = i + 1;
        }
        proof {
            assert(rowsv.subrange(0, n as int) =~= rowsv);
        }
        self.cursor_y = self.cursor_y - 8000;
    }

    /// Lays out a whole block sequence in order.
    pub fn render(&mut self, blocks: &Vec<Block>)
        requires
            -0x10000000000000000000000000 <= old(self)@.y <= 792000,
        ensures
            final(self)@ == spec_blocks(old(self)@, blocks_view(blocks@)),
    {
        let ghost blocksv = blocks_view(blocks@);
        let n = blocks.len();
        let mut i: usize = 0;
        proof {
            assert(blocks_view(blocks@.subrange(0, 0)) =~= Seq::<BlockV>::empty());
        }
        while i < n
            invariant
                0 <= i <= n,
                n == blocks@.len(),
                blocksv == blocks_view(blocks@),
                -0x10000000000000000000000000 <= old(self)@.y <= 792000,
                self@.y <= 792000,
                self@.y >= (if old(self)@.y < 30000 {
                    old(self)@.y
                } else {
                    30000int
                }) - 40000 * (i as int),
                self@ == spec_blocks(old(self)@, blocksv.subrange(0, i as int)),
            decreases n - i,
        {
            match &blocks[i] {
                Block::Heading { level, content } => self.render_heading(*level, content),
                Block::Paragraph(content) => self.render_paragraph(content),
                Block::BulletList(items) => self.render_list(items),
                Block::Table(rows) => self.render_table(rows),
            }
            proof {
                let pre = blocksv.subrange(0, i as int);
                let post = blocksv.subrange(0, i + 1);
                assert(post.drop_last() =~= pre);
                assert(post.last() == blocksv[i as int]);
                assert(blocksv[i as int] == bview(blocks@[i as int]));
            }
            i = i + 1;
        }
        proof {
            assert(blocksv.subrange(0, n as int) =~= blocksv);
        }
    }

    /// Hands back the finished pages; the open page is kept when it
    /// holds more than whitespace or is the only page.
    pub fn finish(self) -> (r: Vec<PdfPage>)
        ensures
            pages_view(r@) == spec_compose_finish(self@),
    {
        let PdfComposer { pages: mut pages, current, cursor_y: _ } = self;
        let keep = !str_all_ws(current.content.as_str()) || pages.len() == 0;
        if keep {
            let ghost oldpages = pages@;
            pages.push(current);
            proof {
                assert(pages_view(pages@) =~= pages_view(oldpages).push(pages@.last()@));
            }
        }
        pages
    }
}

/// How many bullet glyphs the list layout draws over a run of wrapped
/// lines, mirroring the recursion of `spec_lines`: one when the
/// first-line flag is set, none on any later line.
pub open spec fn bullet_marks(lines: Seq<LineV>, first: bool) -> int
    decreases lines.len(),
{
    if lines.len() == 0 {
        0
    } else {
        (if first {
            1int
        } else {
            0int
        }) + bullet_marks(lines.drop_first(), false)
    }
}

proof fn lemma_no_bullet_after(lines: Seq<LineV>)
    ensures
        bullet_marks(lines, false) == 0,
    decreases lines.len(),
{
    if lines.len() > 0 {
        lemma_no_bullet_after(lines.drop_first());
    }
}

/// Bullet placement law: however many lines a list item wraps to, the
/// bullet glyph is drawn exactly once, beside the first line.
pub proof fn lemma_bullet_once(lines: Seq<LineV>)
    requires
        lines.len() >= 1,
    ensures
        bullet_marks(lines, true) == 1,
{
    lemma_no_bullet_after(lines.drop_first());
}

} // verus!
