use vstd::prelude::*;

use crate::compile::{blocks_of, parse_markdown};
use crate::compose::{CState, PdfComposer, spec_blocks, spec_compose_finish, spec_compose_init,
    spec_table_row, h1_x, spec_heading, text_op};
use crate::doc::{InlineV, plain_text_of, text_all_ws};
use crate::events::{EventV, events_of};
use crate::metrics::width_mp;
use crate::writer::{pdf_bytes, write_pdf};

verus! {

/// The pages that a markdown document composes to: its blocks laid out
/// from a fresh composer, the open page flushed at the end.
pub open spec fn spec_pages_of(md: Seq<char>) -> Seq<Seq<char>> {
    spec_compose_finish(spec_blocks(spec_compose_init(), blocks_of(md)))
}

/// The bytes that rendering a markdown document produces. A document
/// whose page count could not even be indexed on a 32-bit machine
/// yields an empty buffer instead; no real document comes near that.
pub open spec fn spec_render(md: Seq<char>) -> Seq<u8> {
    if spec_pages_of(md).len() < 0x1000000 {
        pdf_bytes(spec_pages_of(md))
    } else {
        Seq::empty()
    }
}

/// Renders a markdown document into a complete, self-contained PDF 1.4
/// document.
pub fn render(markdown: &str) -> (r: Vec<u8>)
    ensures
        r@ == spec_render(markdown@),
{
    let blocks = parse_markdown(markdown);
    let mut composer = PdfComposer::new();
    composer.render(&blocks);
    let pages = composer.finish();
    if pages.len() < 0x1000000 {
        write_pdf(&pages)
    } else {
        Vec::new()
    }
}

/// Determinism law: rendering is a function of the document text alone,
/// so two renders of the same text give byte-identical output.
pub proof fn lemma_render_deterministic(md: Seq<char>, r1: Seq<u8>, r2: Seq<u8>)
    requires
        r1 == spec_render(md),
        r2 == spec_render(md),
    ensures
        r1 == r2,
{
}

/// Non-emptiness law: a document that parses to no events at all — the
/// empty document among them — still composes to exactly one page, and
/// that page is blank.
pub proof fn lemma_no_events_single_page(md: Seq<char>)
    requires
        events_of(md) == Seq::<EventV>::empty(),
    ensures
        spec_pages_of(md).len() == 1,
        spec_pages_of(md)[0] == Seq::<char>::empty(),
{
    assert(blocks_of(md) == Seq::<crate::doc::BlockV>::empty());
    assert(spec_blocks(spec_compose_init(), blocks_of(md)) == spec_compose_init());
    let st = spec_compose_init();
    assert(text_all_ws(st.cur));
    assert(spec_pages_of(md) == st.pages.push(st.cur));
}

/// Table projection law: laying out a row reads only its first two
/// cells; two rows that agree on those two cells lay out identically,
/// whatever stands in the cells beyond them.
pub proof fn lemma_table_row_projection(
    st: CState,
    row1: Seq<Seq<InlineV>>,
    row2: Seq<Seq<InlineV>>,
)
    requires
        row1.len() >= 2,
        row2.len() >= 2,
        row1[0] == row2[0],
        row1[1] == row2[1],
    ensures
        spec_table_row(st, row1) == spec_table_row(st, row2),
{
}

/// Heading centering law: a level-1 heading starts at half the space
/// the text leaves free on the 595pt page, and never left of the 40pt
/// margin.
pub proof fn lemma_heading_centered(st: CState, content: Seq<InlineV>)
    ensures
        ({
            let w = width_mp(plain_text_of(content), 16, true);
            let x = h1_x(w);
            &&& x >= 40000
            &&& ((595000 - w) / 2 > 40000 ==> x == (595000 - w) / 2)
            &&& ((595000 - w) / 2 <= 40000 ==> x == 40000)
            &&& spec_heading(st, 1, content) == (CState {
                pages: crate::compose::spec_ensure_space(st, 29600).pages,
                cur: crate::compose::spec_ensure_space(st, 29600).cur + text_op(x,
                    crate::compose::spec_ensure_space(st, 29600).y, true, 16, plain_text_of(
                    content)),
                y: crate::compose::spec_ensure_space(st, 29600).y - 33600,
            })
        }),
{
    let w = width_mp(plain_text_of(content), 16, true);
    if w < 595000 {
    } else {
        assert((595000 - w) / 2 <= 0) by (nonlinear_arith)
            requires
                w >= 595000,
            ;
    }
}

} // verus!
