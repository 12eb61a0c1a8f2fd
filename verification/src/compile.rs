use vstd::prelude::*;

use crate::doc::{Block, BlockV, Inline, InlineV, all_ws, blocks_view, bview, inlines_view, items_view,
    iview, is_all_whitespace, lemma_inlines_view_index, lemma_inlines_view_len,
    lemma_inlines_view_push, rows_view};
use crate::events::{EventV, MdEvent, MdTag, events_view, events_of, md_events};

verus! {

/// An open inline-formatting context and the inlines gathered in it.
pub enum InlineContainer {
    Plain(Vec<Inline>),
    Strong(Vec<Inline>),
    Link(Vec<Inline>),
}

/// Mathematical model of an `InlineContainer`.
#[verifier::ext_equal]
pub enum ContV {
    Plain(Seq<InlineV>),
    Strong(Seq<InlineV>),
    Link(Seq<InlineV>),
}

impl View for InlineContainer {
    type V = ContV;

    open spec fn view(&self) -> ContV {
        match self {
            InlineContainer::Plain(v) => ContV::Plain(inlines_view(v@)),
            InlineContainer::Strong(v) => ContV::Strong(inlines_view(v@)),
            InlineContainer::Link(v) => ContV::Link(inlines_view(v@)),
        }
    }
}

pub open spec fn conts_view(s: Seq<InlineContainer>) -> Seq<ContV> {
    s.map_values(|c: InlineContainer| c@)
}

pub open spec fn cont_items(c: ContV) -> Seq<InlineV> {
    match c {
        ContV::Plain(v) => v,
        ContV::Strong(v) => v,
        ContV::Link(v) => v,
    }
}

pub open spec fn cont_with_items(c: ContV, v: Seq<InlineV>) -> ContV {
    match c {
        ContV::Plain(_) => ContV::Plain(v),
        ContV::Strong(_) => ContV::Strong(v),
        ContV::Link(_) => ContV::Link(v),
    }
}

/// An open block context.
pub enum BlockContext {
    Paragraph,
    Heading(u32),
    List,
    ListItem,
    Table,
    TableHead,
    TableRow,
    TableCell,
    Ignored,
}

/// The accumulator for one open table: finished rows, the row being
/// filled, and whether the header row is open.
pub struct TableState {
    pub rows: Vec<Vec<Vec<Inline>>>,
    pub current_row: Option<Vec<Vec<Inline>>>,
    pub in_head: bool,
}

/// Mathematical model of a `TableState`.
#[verifier::ext_equal]
pub struct TStateV {
    pub rows: Seq<Seq<Seq<InlineV>>>,
    pub current_row: Option<Seq<Seq<InlineV>>>,
    pub in_head: bool,
}

impl View for TableState {
    type V = TStateV;

    open spec fn view(&self) -> TStateV {
        TStateV {
            rows: rows_view(self.rows@),
            current_row: match self.current_row {
                Some(ref r) => Some(items_view(r@)),
                None => None,
            },
            in_head: self.in_head,
        }
    }
}

pub open spec fn tstates_view(s: Seq<TableState>) -> Seq<TStateV> {
    s.map_values(|t: TableState| t@)
}

/// Whether some cell of the row holds more than whitespace.
pub open spec fn row_has_content(row: Seq<Seq<InlineV>>) -> bool {
    exists|j: int| 0 <= j < row.len() && !all_ws(#[trigger] row[j])
}

/// Closing the open row: a row with any non-whitespace cell is kept,
/// others are dropped; either way no row stays open.
pub open spec fn spec_finish_row(ts: TStateV) -> TStateV {
    match ts.current_row {
        None => ts,
        Some(row) => TStateV {
            rows: if row_has_content(row) {
                ts.rows.push(row)
            } else {
                ts.rows
            },
            current_row: None,
            in_head: ts.in_head,
        },
    }
}

impl TableState {
    /// A fresh table accumulator: no rows, no open row, not in the head.
    pub fn new() -> (r: TableState)
        ensures
            r@ == (TStateV { rows: Seq::empty(), current_row: None, in_head: false }),
    {
        let r = TableState { rows: Vec::new(), current_row: None, in_head: false };
        proof {
            assert(rows_view(r.rows@) =~= Seq::<Seq<Seq<InlineV>>>::empty());
        }
        r
    }

    /// Opens a fresh row, discarding any row already open.
    pub fn start_row(&mut self)
        ensures
            final(self)@ == (TStateV { current_row: Some(Seq::empty()), ..old(self)@ }),
    {
        self.current_row = Some(Vec::new());
        proof {
            assert(items_view(Seq::<Vec<Inline>>::empty()) =~= Seq::<Seq<InlineV>>::empty());
        }
    }

    /// Appends a cell to the open row; with no open row the cell is
    /// dropped.
    pub fn push_cell(&mut self, cell: Vec<Inline>)
        ensures
            final(self)@ == (match old(self)@.current_row {
                Some(row) => TStateV {
                    current_row: Some(row.push(inlines_view(cell@))),
                    ..old(self)@
                },
                None => old(self)@,
            }),
    {
        let mut taken: Option<Vec<Vec<Inline>>> = None;
        core::mem::swap(&mut taken, &mut self.current_row);
        match taken {
            Some(mut row) => {
                let ghost oldrow = row@;
                row.push(cell);
                proof {
                    assert(items_view(row@) =~= items_view(oldrow).push(inlines_view(cell@)));
                }
                self.current_row = Some(row);
            }
            None => {
                self.current_row = None;
            }
        }
    }

    /// Closes the open row, keeping it only when some cell holds more
    /// than whitespace.
    pub fn finish_row(&mut self)
        ensures
            final(self)@ == spec_finish_row(old(self)@),
    {
        let mut taken: Option<Vec<Vec<Inline>>> = None;
        core::mem::swap(&mut taken, &mut self.current_row);
        match taken {
            Some(row) => {
                let ghost rowv = items_view(row@);
                let n = row.len();
                let mut found = false;
                let mut j: usize = 0;
                while j < n
                    invariant
                        0 <= j <= n,
                        n == row@.len(),
                        rowv == items_view(row@),
                        found <==> exists|k: int|
                            0 <= k < j && !all_ws(#[trigger] rowv[k]),
                    decreases n - j,
                {
                    let ws = is_all_whitespace(&row[j]);
                    proof {
                        assert(rowv[j as int] == inlines_view(row@[j as int]@));
                    }
                    if !ws {
                        found = true;
                    }
                    j = j + 1;
                }
                proof {
                    assert(found == row_has_content(rowv));
                }
                if found {
                    let ghost oldrows = self.rows@;
                    self.rows.push(row);
                    proof {
                        assert(rows_view(self.rows@) =~= rows_view(oldrows).push(rowv));
                    }
                }
            }
            None => {}
        }
    }
}

/// The compiler state: finished blocks and the four stacks of open
/// contexts.
pub struct MarkdownParser {
    pub blocks: Vec<Block>,
    pub inline_stack: Vec<InlineContainer>,
    pub list_stack: Vec<Vec<Vec<Inline>>>,
    pub table_stack: Vec<TableState>,
    pub block_stack: Vec<BlockContext>,
}

/// Mathematical model of the compiler state.
#[verifier::ext_equal]
pub struct PStateV {
    pub blocks: Seq<BlockV>,
    pub inline_stack: Seq<ContV>,
    pub list_stack: Seq<Seq<Seq<InlineV>>>,
    pub table_stack: Seq<TStateV>,
    pub block_stack: Seq<BlockContext>,
}

impl View for MarkdownParser {
    type V = PStateV;

    open spec fn view(&self) -> PStateV {
        PStateV {
            blocks: blocks_view(self.blocks@),
            inline_stack: conts_view(self.inline_stack@),
            list_stack: self.list_stack@.map_values(|l: Vec<Vec<Inline>>| items_view(l@)),
            table_stack: tstates_view(self.table_stack@),
            block_stack: self.block_stack@,
        }
    }
}

pub open spec fn spec_init() -> PStateV {
    PStateV {
        blocks: Seq::empty(),
        inline_stack: Seq::empty(),
        list_stack: Seq::empty(),
        table_stack: Seq::empty(),
        block_stack: Seq::empty(),
    }
}

/// Adding an inline to the innermost open container; with no open
/// container the inline is dropped.
pub open spec fn spec_push_inline(stack: Seq<ContV>, inline: InlineV) -> Seq<ContV> {
    if stack.len() == 0 {
        stack
    } else {
        stack.update(stack.len() - 1, cont_with_items(stack.last(), cont_items(
            stack.last()).push(inline)))
    }
}

/// Adding text to the innermost open container, coalescing it into a
/// trailing text node when one is there.
pub open spec fn spec_push_text(stack: Seq<ContV>, text: Seq<char>) -> Seq<ContV> {
    if stack.len() == 0 {
        stack
    } else {
        let items = cont_items(stack.last());
        let items2 = if items.len() > 0 && (items.last() matches InlineV::Text(_)) {
            items.update(items.len() - 1, InlineV::Text((match items.last() {
                InlineV::Text(t) => t,
                _ => Seq::empty(),
            }) + text))
        } else {
            items.push(InlineV::Text(text))
        };
        stack.update(stack.len() - 1, cont_with_items(stack.last(), items2))
    }
}

/// Adds an inline to the innermost open container on the stack.
pub fn push_inline(stack: &mut Vec<InlineContainer>, inline: Inline)
    ensures
        conts_view(final(stack)@) == spec_push_inline(conts_view(old(stack)@), iview(inline)),
{
    let n = stack.len();
    if n == 0 {
        return;
    }
    let c = match stack.pop() {
        Some(c) => c,
        None => InlineContainer::Plain(Vec::new()),
    };
    let ghost cv = c@;
    let c2 = match c {
        InlineContainer::Plain(mut v) => {
            let ghost ov = v@;
            v.push(inline);
            proof {
                lemma_inlines_view_push(ov, inline);
            }
            InlineContainer::Plain(v)
        }
        InlineContainer::Strong(mut v) => {
            let ghost ov = v@;
            v.push(inline);
            proof {
                lemma_inlines_view_push(ov, inline);
            }
            InlineContainer::Strong(v)
        }
        InlineContainer::Link(mut v) => {
            let ghost ov = v@;
            v.push(inline);
            proof {
                lemma_inlines_view_push(ov, inline);
            }
            InlineContainer::Link(v)
        }
    };
    proof {
        assert(c2@ == cont_with_items(cv, cont_items(cv).push(iview(inline))));
    }
    stack.push(c2);
    proof {
        let ov = conts_view(old(stack)@);
        assert(conts_view(stack@) =~= ov.update(ov.len() - 1, c2@));
    }
}

/// Adds text to the innermost open container on the stack, extending a
/// trailing text node when one is there.
pub fn push_text(stack: &mut Vec<InlineContainer>, text: &str)
    ensures
        conts_view(final(stack)@) == spec_push_text(conts_view(old(stack)@), text@),
{
    let n = stack.len();
    if n == 0 {
        return;
    }
    let c = match stack.pop() {
        Some(c) => c,
        None => InlineContainer::Plain(Vec::new()),
    };
    let ghost cv = c@;
    let (mut v, which) = match c {
        InlineContainer::Plain(v) => (v, 0u8),
        InlineContainer::Strong(v) => (v, 1u8),
        InlineContainer::Link(v) => (v, 2u8),
    };
    let ghost itemsv = inlines_view(v@);
    let vlen = v.len();
    proof {
        lemma_inlines_view_len(v@);
        if vlen > 0 {
            lemma_inlines_view_index(v@, vlen - 1);
        }
    }
    let mut extended = false;
    if vlen > 0 {
        let is_text = matches!(&v[vlen - 1], Inline::Text(_));
        if is_text {
            let last = match v.pop() {
                Some(x) => x,
                None => Inline::LineBreak,
            };
            match last {
                Inline::Text(mut t) => {
                    let ghost tv = t@;
                    t.append(text);
                    let ghost ov = v@;
                    v.push(Inline::Text(t));
                    extended = true;
                    proof {
                        lemma_inlines_view_push(ov, Inline::Text(t));
                        assert(inlines_view(v@) =~= itemsv.update(itemsv.len() - 1,
                            InlineV::Text(tv + text@)));
                    }
                }
                _ => {
                    // unreachable: the popped item was a text node
                    let ghost ov = v@;
                    v.push(last);
                    proof {
                        lemma_inlines_view_push(ov, last);
                    }
                }
            }
        }
    }
    if !extended {
        let ghost ov = v@;
        let item = Inline::Text(text.to_owned());
        v.push(item);
        proof {
            lemma_inlines_view_push(ov, v@.last());
            assert(inlines_view(v@) =~= itemsv.push(InlineV::Text(text@)));
        }
    }
    let c2 = match which {
        0u8 => InlineContainer::Plain(v),
        1u8 => InlineContainer::Strong(v),
        _ => InlineContainer::Link(v),
    };
    stack.push(c2);
    proof {
        let ov = conts_view(old(stack)@);
        assert(conts_view(stack@) =~= spec_push_text(ov, text@));
    }
}

// ------------------------------------------------------------------
// The compiler's transition relation
// ------------------------------------------------------------------

/// What starting a tag does to the compiler state: a new inline or
/// block context is opened, a table gains a fresh accumulator or row.
pub open spec fn spec_start_tag(st: PStateV, tag: MdTag) -> PStateV {
    match tag {
        MdTag::Paragraph => PStateV {
            inline_stack: st.inline_stack.push(ContV::Plain(Seq::empty())),
            block_stack: st.block_stack.push(BlockContext::Paragraph),
            ..st
        },
        MdTag::Heading(level) => PStateV {
            inline_stack: st.inline_stack.push(ContV::Plain(Seq::empty())),
            block_stack: st.block_stack.push(BlockContext::Heading(level)),
            ..st
        },
        MdTag::List => PStateV {
            list_stack: st.list_stack.push(Seq::empty()),
            block_stack: st.block_stack.push(BlockContext::List),
            ..st
        },
        MdTag::Item => PStateV {
            inline_stack: st.inline_stack.push(ContV::Plain(Seq::empty())),
            block_stack: st.block_stack.push(BlockContext::ListItem),
            ..st
        },
        MdTag::Table => PStateV {
            table_stack: st.table_stack.push(TStateV {
                rows: Seq::empty(),
                current_row: None,
                in_head: false,
            }),
            block_stack: st.block_stack.push(BlockContext::Table),
            ..st
        },
        MdTag::TableHead => PStateV {
            table_stack: if st.table_stack.len() > 0 {
                st.table_stack.update(st.table_stack.len() - 1, TStateV {
                    current_row: Some(Seq::empty()),
                    in_head: true,
                    ..st.table_stack.last()
                })
            } else {
                st.table_stack
            },
            block_stack: st.block_stack.push(BlockContext::TableHead),
            ..st
        },
        MdTag::TableRow => PStateV {
            table_stack: if st.table_stack.len() > 0 {
                st.table_stack.update(st.table_stack.len() - 1, TStateV {
                    current_row: Some(Seq::empty()),
                    ..st.table_stack.last()
                })
            } else {
                st.table_stack
            },
            block_stack: st.block_stack.push(BlockContext::TableRow),
            ..st
        },
        MdTag::TableCell => PStateV {
            inline_stack: st.inline_stack.push(ContV::Plain(Seq::empty())),
            block_stack: st.block_stack.push(BlockContext::TableCell),
            ..st
        },
        MdTag::Strong => PStateV {
            inline_stack: st.inline_stack.push(ContV::Strong(Seq::empty())),
            ..st
        },
        MdTag::Link => PStateV {
            inline_stack: st.inline_stack.push(ContV::Link(Seq::empty())),
            ..st
        },
        MdTag::Emphasis => PStateV {
            inline_stack: st.inline_stack.push(ContV::Plain(Seq::empty())),
            ..st
        },
        MdTag::Other => PStateV {
            block_stack: st.block_stack.push(BlockContext::Ignored),
            ..st
        },
    }
}

/// Closing a paragraph: both context stacks are popped; a plain
/// container closed under a paragraph context becomes a paragraph
/// block, unless it is entirely whitespace.
pub open spec fn spec_finish_paragraph(st: PStateV) -> PStateV {
    let matched = st.inline_stack.len() > 0 && st.block_stack.len() > 0 && (
    st.inline_stack.last() matches ContV::Plain(_)) && (st.block_stack.last()
        matches BlockContext::Paragraph);
    PStateV {
        blocks: if matched && !all_ws(cont_items(st.inline_stack.last())) {
            st.blocks.push(BlockV::Paragraph(cont_items(st.inline_stack.last())))
        } else {
            st.blocks
        },
        inline_stack: if st.inline_stack.len() > 0 {
            st.inline_stack.drop_last()
        } else {
            st.inline_stack
        },
        block_stack: if st.block_stack.len() > 0 {
            st.block_stack.drop_last()
        } else {
            st.block_stack
        },
        ..st
    }
}

/// Closing a heading: kept even when empty.
pub open spec fn spec_finish_heading(st: PStateV) -> PStateV {
    let matched = st.inline_stack.len() > 0 && st.block_stack.len() > 0 && (
    st.inline_stack.last() matches ContV::Plain(_)) && (st.block_stack.last()
        matches BlockContext::Heading(_));
    PStateV {
        blocks: if matched {
            st.blocks.push(BlockV::Heading {
                level: match st.block_stack.last() {
                    BlockContext::Heading(l) => l,
                    _ => 0,
                },
                content: cont_items(st.inline_stack.last()),
            })
        } else {
            st.blocks
        },
        inline_stack: if st.inline_stack.len() > 0 {
            st.inline_stack.drop_last()
        } else {
            st.inline_stack
        },
        block_stack: if st.block_stack.len() > 0 {
            st.block_stack.drop_last()
        } else {
            st.block_stack
        },
        ..st
    }
}

/// Closing a list: a list that kept at least one item becomes a bullet
/// list block.
pub open spec fn spec_finish_list(st: PStateV) -> PStateV {
    if st.list_stack.len() == 0 {
        st
    } else {
        let items = st.list_stack.last();
        let popped = st.block_stack.len() > 0 && (st.block_stack.last()
            matches BlockContext::List);
        PStateV {
            blocks: if popped && items.len() > 0 {
                st.blocks.push(BlockV::BulletList(items))
            } else {
                st.blocks
            },
            list_stack: st.list_stack.drop_last(),
            block_stack: if st.block_stack.len() > 0 {
                st.block_stack.drop_last()
            } else {
                st.block_stack
            },
            ..st
        }
    }
}

/// Closing a list item: its content joins the innermost open list,
/// unless it is entirely whitespace.
pub open spec fn spec_finish_list_item(st: PStateV) -> PStateV {
    let matched = st.inline_stack.len() > 0 && st.block_stack.len() > 0 && (
    st.inline_stack.last() matches ContV::Plain(_)) && (st.block_stack.last()
        matches BlockContext::ListItem);
    let inlines = cont_items(st.inline_stack.last());
    PStateV {
        list_stack: if matched && st.list_stack.len() > 0 && !all_ws(inlines) {
            st.list_stack.update(st.list_stack.len() - 1, st.list_stack.last().push(inlines))
        } else {
            st.list_stack
        },
        inline_stack: if st.inline_stack.len() > 0 {
            st.inline_stack.drop_last()
        } else {
            st.inline_stack
        },
        block_stack: if st.block_stack.len() > 0 {
            st.block_stack.drop_last()
        } else {
            st.block_stack
        },
        ..st
    }
}

/// Closing a table: a table that kept at least one row becomes a table
/// block.
pub open spec fn spec_finish_table(st: PStateV) -> PStateV {
    if st.table_stack.len() == 0 {
        st
    } else {
        let ts = st.table_stack.last();
        let popped = st.block_stack.len() > 0 && (st.block_stack.last()
            matches BlockContext::Table);
        PStateV {
            blocks: if popped && ts.rows.len() > 0 {
                st.blocks.push(BlockV::Table(ts.rows))
            } else {
                st.blocks
            },
            table_stack: st.table_stack.drop_last(),
            block_stack: if st.block_stack.len() > 0 {
                st.block_stack.drop_last()
            } else {
                st.block_stack
            },
            ..st
        }
    }
}

/// Closing the table head: the header row is committed and the head
/// flag cleared.
pub open spec fn spec_finish_table_head(st: PStateV) -> PStateV {
    let popped = st.block_stack.len() > 0 && (st.block_stack.last()
        matches BlockContext::TableHead);
    PStateV {
        table_stack: if popped && st.table_stack.len() > 0 {
            st.table_stack.update(st.table_stack.len() - 1, TStateV {
                in_head: false,
                ..spec_finish_row(st.table_stack.last())
            })
        } else {
            st.table_stack
        },
        block_stack: if st.block_stack.len() > 0 {
            st.block_stack.drop_last()
        } else {
            st.block_stack
        },
        ..st
    }
}

/// Closing a table row: the row is committed.
pub open spec fn spec_finish_table_row(st: PStateV) -> PStateV {
    let popped = st.block_stack.len() > 0 && (st.block_stack.last()
        matches BlockContext::TableRow);
    PStateV {
        table_stack: if popped && st.table_stack.len() > 0 {
            st.table_stack.update(st.table_stack.len() - 1, spec_finish_row(
                st.table_stack.last()))
        } else {
            st.table_stack
        },
        block_stack: if st.block_stack.len() > 0 {
            st.block_stack.drop_last()
        } else {
            st.block_stack
        },
        ..st
    }
}

/// Closing a table cell: its content becomes one cell of the open row.
pub open spec fn spec_finish_table_cell(st: PStateV) -> PStateV {
    let matched = st.inline_stack.len() > 0 && st.block_stack.len() > 0 && (
    st.inline_stack.last() matches ContV::Plain(_)) && (st.block_stack.last()
        matches BlockContext::TableCell);
    let inlines = cont_items(st.inline_stack.last());
    PStateV {
        table_stack: if matched && st.table_stack.len() > 0 {
            st.table_stack.update(st.table_stack.len() - 1, match st.table_stack.last().current_row {
                Some(row) => TStateV {
                    current_row: Some(row.push(inlines)),
                    ..st.table_stack.last()
                },
                None => st.table_stack.last(),
            })
        } else {
            st.table_stack
        },
        inline_stack: if st.inline_stack.len() > 0 {
            st.inline_stack.drop_last()
        } else {
            st.inline_stack
        },
        block_stack: if st.block_stack.len() > 0 {
            st.block_stack.drop_last()
        } else {
            st.block_stack
        },
        ..st
    }
}

/// Closing a strong span: its content becomes a `Strong` inline in the
/// enclosing container.
pub open spec fn spec_finish_strong(st: PStateV) -> PStateV {
    if st.inline_stack.len() > 0 && (st.inline_stack.last() matches ContV::Strong(_)) {
        PStateV {
            inline_stack: spec_push_inline(st.inline_stack.drop_last(), InlineV::Strong(
                cont_items(st.inline_stack.last()))),
            ..st
        }
    } else if st.inline_stack.len() > 0 {
        PStateV { inline_stack: st.inline_stack.drop_last(), ..st }
    } else {
        st
    }
}

/// Closing a link: its content becomes a `Link` inline in the enclosing
/// container.
pub open spec fn spec_finish_link(st: PStateV) -> PStateV {
    if st.inline_stack.len() > 0 && (st.inline_stack.last() matches ContV::Link(_)) {
        PStateV {
            inline_stack: spec_push_inline(st.inline_stack.drop_last(), InlineV::Link(
                cont_items(st.inline_stack.last()))),
            ..st
        }
    } else if st.inline_stack.len() > 0 {
        PStateV { inline_stack: st.inline_stack.drop_last(), ..st }
    } else {
        st
    }
}

/// Closing an emphasis span: its content is folded into the same
/// representation as strong text.
pub open spec fn spec_finish_emphasis(st: PStateV) -> PStateV {
    if st.inline_stack.len() > 0 && (st.inline_stack.last() matches ContV::Plain(_)) {
        PStateV {
            inline_stack: spec_push_inline(st.inline_stack.drop_last(), InlineV::Strong(
                cont_items(st.inline_stack.last()))),
            ..st
        }
    } else if st.inline_stack.len() > 0 {
        PStateV { inline_stack: st.inline_stack.drop_last(), ..st }
    } else {
        st
    }
}

/// What ending a tag does to the compiler state.
pub open spec fn spec_end_tag(st: PStateV, tag: MdTag) -> PStateV {
    match tag {
        MdTag::Paragraph => spec_finish_paragraph(st),
        MdTag::Heading(_) => spec_finish_heading(st),
        MdTag::List => spec_finish_list(st),
        MdTag::Item => spec_finish_list_item(st),
        MdTag::Table => spec_finish_table(st),
        MdTag::TableHead => spec_finish_table_head(st),
        MdTag::TableRow => spec_finish_table_row(st),
        MdTag::TableCell => spec_finish_table_cell(st),
        MdTag::Strong => spec_finish_strong(st),
        MdTag::Link => spec_finish_link(st),
        MdTag::Emphasis => spec_finish_emphasis(st),
        MdTag::Other => PStateV {
            block_stack: if st.block_stack.len() > 0 {
                st.block_stack.drop_last()
            } else {
                st.block_stack
            },
            ..st
        },
    }
}

/// What one parse event does to the compiler state.
pub open spec fn spec_step(st: PStateV, ev: EventV) -> PStateV {
    match ev {
        EventV::Start(t) => spec_start_tag(st, t),
        EventV::End(t) => spec_end_tag(st, t),
        EventV::Text(t) => PStateV { inline_stack: spec_push_text(st.inline_stack, t), ..st },
        EventV::Code(t) => PStateV {
            inline_stack: spec_push_inline(st.inline_stack, InlineV::Text(t)),
            ..st
        },
        EventV::SoftBreak => PStateV {
            inline_stack: spec_push_text(st.inline_stack, seq![' ']),
            ..st
        },
        EventV::HardBreak => PStateV {
            inline_stack: spec_push_inline(st.inline_stack, InlineV::LineBreak),
            ..st
        },
        EventV::Rule => PStateV {
            blocks: st.blocks.push(BlockV::Paragraph(seq![InlineV::Text(Seq::empty())])),
            ..st
        },
        EventV::Ignorable => st,
    }
}

/// The compiler state after a whole event stream.
pub open spec fn spec_run(evs: Seq<EventV>) -> PStateV
    decreases evs.len(),
{
    if evs.len() == 0 {
        spec_init()
    } else {
        spec_step(spec_run(evs.drop_last()), evs.last())
    }
}

/// The blocks that a markdown document compiles to.
pub open spec fn blocks_of(md: Seq<char>) -> Seq<BlockV> {
    spec_run(events_of(md)).blocks
}

// ------------------------------------------------------------------
// The compiler itself
// ------------------------------------------------------------------

proof fn lemma_conts(s: Seq<InlineContainer>)
    requires
        s.len() > 0,
    ensures
        conts_view(s).len() == s.len(),
        conts_view(s.drop_last()) == conts_view(s).drop_last(),
        conts_view(s).last() == s.last()@,
{
    assert(conts_view(s.drop_last()) =~= conts_view(s).drop_last());
}

proof fn lemma_lists(s: Seq<Vec<Vec<Inline>>>)
    requires
        s.len() > 0,
    ensures
        s.map_values(|l: Vec<Vec<Inline>>| items_view(l@)).len() == s.len(),
        s.drop_last().map_values(|l: Vec<Vec<Inline>>| items_view(l@)) == s.map_values(
            |l: Vec<Vec<Inline>>| items_view(l@)).drop_last(),
        s.map_values(|l: Vec<Vec<Inline>>| items_view(l@)).last() == items_view(s.last()@),
{
    assert(s.drop_last().map_values(|l: Vec<Vec<Inline>>| items_view(l@)) =~= s.map_values(
        |l: Vec<Vec<Inline>>| items_view(l@)).drop_last());
}

proof fn lemma_tstates(s: Seq<TableState>)
    requires
        s.len() > 0,
    ensures
        tstates_view(s).len() == s.len(),
        tstates_view(s.drop_last()) == tstates_view(s).drop_last(),
        tstates_view(s).last() == s.last()@,
{
    assert(tstates_view(s.drop_last()) =~= tstates_view(s).drop_last());
}

impl MarkdownParser {
    /// A fresh compiler: no blocks, all stacks empty.
    pub fn new() -> (r: MarkdownParser)
        ensures
            r@ == spec_init(),
    {
        let r = MarkdownParser {
            blocks: Vec::new(),
            inline_stack: Vec::new(),
            list_stack: Vec::new(),
            table_stack: Vec::new(),
            block_stack: Vec::new(),
        };
        proof {
            assert(blocks_view(r.blocks@) =~= Seq::<BlockV>::empty());
            assert(conts_view(r.inline_stack@) =~= Seq::<ContV>::empty());
            assert(r.list_stack@.map_values(|l: Vec<Vec<Inline>>| items_view(l@))
                =~= Seq::<Seq<Seq<InlineV>>>::empty());
            assert(tstates_view(r.table_stack@) =~= Seq::<TStateV>::empty());
        }
        r
    }

    /// Opens the contexts that a start tag calls for.
    pub fn handle_start_tag(&mut self, tag: &MdTag)
        ensures
            final(self)@ == spec_start_tag(old(self)@, *tag),
    {
        match tag {
            MdTag::Paragraph => {
                self.inline_stack.push(InlineContainer::Plain(Vec::new()));
                self.block_stack.push(BlockContext::Paragraph);
                proof {
                    assert(conts_view(self.inline_stack@) =~= conts_view(
                        old(self).inline_stack@).push(ContV::Plain(Seq::empty())));
                }
            }
            MdTag::Heading(level) => {
                self.inline_stack.push(InlineContainer::Plain(Vec::new()));
                self.block_stack.push(BlockContext::Heading(*level));
                proof {
                    assert(conts_view(self.inline_stack@) =~= conts_view(
                        old(self).inline_stack@).push(ContV::Plain(Seq::empty())));
                }
            }
            MdTag::List => {
                self.list_stack.push(Vec::new());
                self.block_stack.push(BlockContext::List);
                proof {
                    assert(self.list_stack@.map_values(|l: Vec<Vec<Inline>>| items_view(l@))
                        =~~= old(self).list_stack@.map_values(|l: Vec<Vec<Inline>>| items_view(
                        l@)).push(Seq::empty()));
                }
            }
            MdTag::Item => {
                self.inline_stack.push(InlineContainer::Plain(Vec::new()));
                self.block_stack.push(BlockContext::ListItem);
                proof {
                    assert(conts_view(self.inline_stack@) =~= conts_view(
                        old(self).inline_stack@).push(ContV::Plain(Seq::empty())));
                }
            }
            MdTag::Table => {
                self.table_stack.push(TableState::new());
                self.block_stack.push(BlockContext::Table);
                proof {
                    assert(tstates_view(self.table_stack@) =~= tstates_view(
                        old(self).table_stack@).push(TStateV {
                        rows: Seq::empty(),
                        current_row: None,
                        in_head: false,
                    }));
                }
            }
            MdTag::TableHead => {
                let tn = self.table_stack.len();
                if tn > 0 {
                    let mut ts = match self.table_stack.pop() {
                        Some(ts) => ts,
                        None => TableState::new(),
                    };
                    ts.in_head = true;
                    ts.start_row();
                    self.table_stack.push(ts);
                    proof {
                        lemma_tstates(old(self).table_stack@);
                        assert(tstates_view(self.table_stack@) =~= tstates_view(
                            old(self).table_stack@).update(tn - 1, TStateV {
                            current_row: Some(Seq::empty()),
                            in_head: true,
                            ..old(self).table_stack@.last()@
                        }));
                    }
                }
                self.block_stack.push(BlockContext::TableHead);
            }
            MdTag::TableRow => {
                let tn = self.table_stack.len();
                if tn > 0 {
                    let mut ts = match self.table_stack.pop() {
                        Some(ts) => ts,
                        None => TableState::new(),
                    };
                    ts.start_row();
                    self.table_stack.push(ts);
                    proof {
                        lemma_tstates(old(self).table_stack@);
                        assert(tstates_view(self.table_stack@) =~= tstates_view(
                            old(self).table_stack@).update(tn - 1, TStateV {
                            current_row: Some(Seq::empty()),
                            ..old(self).table_stack@.last()@
                        }));
                    }
                }
                self.block_stack.push(BlockContext::TableRow);
            }
            MdTag::TableCell => {
                self.inline_stack.push(InlineContainer::Plain(Vec::new()));
                self.block_stack.push(BlockContext::TableCell);
                proof {
                    assert(conts_view(self.inline_stack@) =~= conts_view(
                        old(self).inline_stack@).push(ContV::Plain(Seq::empty())));
                }
            }
            MdTag::Strong => {
                self.inline_stack.push(InlineContainer::Strong(Vec::new()));
                proof {
                    assert(conts_view(self.inline_stack@) =~= conts_view(
                        old(self).inline_stack@).push(ContV::Strong(Seq::empty())));
                }
            }
            MdTag::Link => {
                self.inline_stack.push(InlineContainer::Link(Vec::new()));
                proof {
                    assert(conts_view(self.inline_stack@) =~= conts_view(
                        old(self).inline_stack@).push(ContV::Link(Seq::empty())));
                }
            }
            MdTag::Emphasis => {
                self.inline_stack.push(InlineContainer::Plain(Vec::new()));
                proof {
                    assert(conts_view(self.inline_stack@) =~= conts_view(
                        old(self).inline_stack@).push(ContV::Plain(Seq::empty())));
                }
            }
            MdTag::Other => {
                self.block_stack.push(BlockContext::Ignored);
            }
        }
    }

    /// Folds the contexts that an end tag closes back into their parents.
    pub fn handle_end_tag(&mut self, tag: &MdTag)
        ensures
            final(self)@ == spec_end_tag(old(self)@, *tag),
    {
        match tag {
            MdTag::Paragraph => self.finish_paragraph(),
            MdTag::Heading(_) => self.finish_heading(),
            MdTag::List => self.finish_list(),
            MdTag::Item => self.finish_list_item(),
            MdTag::Table => self.finish_table(),
            MdTag::TableHead => self.finish_table_head(),
            MdTag::TableRow => self.finish_table_row(),
            MdTag::TableCell => self.finish_table_cell(),
            MdTag::Strong => self.finish_strong(),
            MdTag::Link => self.finish_link(),
            MdTag::Emphasis => self.finish_emphasis(),
            MdTag::Other => {
                let _ = self.block_stack.pop();
            }
        }
    }

    /// Applies one parse event to the state.
    pub fn handle_event(&mut self, event: &MdEvent)
        ensures
            final(self)@ == spec_step(old(self)@, event@),
    {
        match event {
            MdEvent::Start(tag) => self.handle_start_tag(tag),
            MdEvent::End(tag) => self.handle_end_tag(tag),
            MdEvent::Text(text) => push_text(&mut self.inline_stack, text.as_str()),
            MdEvent::Code(text) => push_inline(&mut self.inline_stack, Inline::Text(
                text.clone())),
            MdEvent::SoftBreak => {
                push_text(&mut self.inline_stack, " ");
                proof {
                    reveal_strlit(" ");
                    assert(" "@ =~= seq![' ']);
                }
            }
            MdEvent::HardBreak => push_inline(&mut self.inline_stack, Inline::LineBreak),
            MdEvent::Rule => {
                let mut content: Vec<Inline> = Vec::new();
                content.push(Inline::Text(String::new()));
                self.blocks.push(Block::Paragraph(content));
                proof {
                    let item = self.blocks@.last();
                    assert(blocks_view(self.blocks@) =~= blocks_view(old(self).blocks@).push(
                        bview(item)));
                    assert(bview(item) == BlockV::Paragraph(seq![InlineV::Text(
                        Seq::<char>::empty())])) by {
                        let vs = match item {
                            Block::Paragraph(v) => v@,
                            _ => Seq::empty(),
                        };
                        assert(vs.len() == 1);
                        assert(inlines_view(vs) =~~= seq![InlineV::Text(Seq::<char>::empty())])
                            by {
                            assert(vs.drop_last() =~= Seq::<Inline>::empty());
                            assert(inlines_view(Seq::<Inline>::empty()) =~= Seq::<
                                InlineV,
                            >::empty());
                            assert(iview(vs.last()) =~~= InlineV::Text(Seq::<char>::empty()));
                            assert(inlines_view(vs) == inlines_view(vs.drop_last()).push(iview(
                                vs.last())));
                        }
                    }
                }
            }
            MdEvent::Ignorable => {}
        }
    }

    /// Closes a paragraph; whitespace-only content is dropped.
    pub fn finish_paragraph(&mut self)
        ensures
            final(self)@ == spec_finish_paragraph(old(self)@),
    {
        proof {
            if old(self).inline_stack@.len() > 0 {
                lemma_conts(old(self).inline_stack@);
            }
        }
        let a = self.inline_stack.pop();
        let b = self.block_stack.pop();
        match (a, b) {
            (Some(InlineContainer::Plain(inlines)), Some(BlockContext::Paragraph)) => {
                if !is_all_whitespace(&inlines) {
                    self.blocks.push(Block::Paragraph(inlines));
                    proof {
                        assert(blocks_view(self.blocks@) =~= blocks_view(old(self).blocks@).push(
                            bview(self.blocks@.last())));
                    }
                }
            }
            _ => {}
        }
    }

    /// Closes a heading; an empty heading is kept.
    pub fn finish_heading(&mut self)
        ensures
            final(self)@ == spec_finish_heading(old(self)@),
    {
        proof {
            if old(self).inline_stack@.len() > 0 {
                lemma_conts(old(self).inline_stack@);
            }
        }
        let a = self.inline_stack.pop();
        let b = self.block_stack.pop();
        match (a, b) {
            (Some(InlineContainer::Plain(inlines)), Some(BlockContext::Heading(level))) => {
                self.blocks.push(Block::Heading { level, content: inlines });
                proof {
                    assert(blocks_view(self.blocks@) =~= blocks_view(old(self).blocks@).push(
                        bview(self.blocks@.last())));
                }
            }
            _ => {}
        }
    }

    /// Closes a list; a list with no surviving items is dropped.
    pub fn finish_list(&mut self)
        ensures
            final(self)@ == spec_finish_list(old(self)@),
    {
        proof {
            if old(self).list_stack@.len() > 0 {
                lemma_lists(old(self).list_stack@);
            }
        }
        match self.list_stack.pop() {
            Some(items) => {
                let b = self.block_stack.pop();
                if matches!(b, Some(BlockContext::List)) && items.len() > 0 {
                    self.blocks.push(Block::BulletList(items));
                    proof {
                        assert(blocks_view(self.blocks@) =~= blocks_view(old(self).blocks@).push(
                            bview(self.blocks@.last())));
                    }
                }
            }
            None => {}
        }
    }

    /// Closes a list item; whitespace-only items are dropped.
    pub fn finish_list_item(&mut self)
        ensures
            final(self)@ == spec_finish_list_item(old(self)@),
    {
        proof {
            if old(self).inline_stack@.len() > 0 {
                lemma_conts(old(self).inline_stack@);
            }
            if old(self).list_stack@.len() > 0 {
                lemma_lists(old(self).list_stack@);
            }
        }
        let a = self.inline_stack.pop();
        let b = self.block_stack.pop();
        match (a, b) {
            (Some(InlineContainer::Plain(inlines)), Some(BlockContext::ListItem)) => {
                let ln = self.list_stack.len();
                if ln > 0 {
                    if !is_all_whitespace(&inlines) {
                        let mut list = match self.list_stack.pop() {
                            Some(l) => l,
                            None => Vec::new(),
                        };
                        let ghost lv = items_view(list@);
                        list.push(inlines);
                        proof {
                            assert(items_view(list@) =~= lv.push(inlines_view(
                                list@.last()@)));
                        }
                        self.list_stack.push(list);
                        proof {
                            assert(self.list_stack@.map_values(|l: Vec<Vec<Inline>>| items_view(
                                l@)) =~= old(self).list_stack@.map_values(
                                |l: Vec<Vec<Inline>>| items_view(l@)).update(ln - 1,
                                lv.push(inlines_view(list@.last()@))));
                        }
                    }
                }
            }
            _ => {}
        }
    }

    /// Closes a table; a table with no surviving rows is dropped.
    pub fn finish_table(&mut self)
        ensures
            final(self)@ == spec_finish_table(old(self)@),
    {
        proof {
            if old(self).table_stack@.len() > 0 {
                lemma_tstates(old(self).table_stack@);
            }
        }
        match self.table_stack.pop() {
            Some(state) => {
                let b = self.block_stack.pop();
                if matches!(b, Some(BlockContext::Table)) && state.rows.len() > 0 {
                    self.blocks.push(Block::Table(state.rows));
                    proof {
                        assert(blocks_view(self.blocks@) =~= blocks_view(old(self).blocks@).push(
                            bview(self.blocks@.last())));
                    }
                }
            }
            None => {}
        }
    }

    /// Closes the table head: commits the header row and clears the
    /// head flag.
    pub fn finish_table_head(&mut self)
        ensures
            final(self)@ == spec_finish_table_head(old(self)@),
    {
        proof {
            if old(self).table_stack@.len() > 0 {
                lemma_tstates(old(self).table_stack@);
            }
        }
        let b = self.block_stack.pop();
        if matches!(b, Some(BlockContext::TableHead)) {
            let tn = self.table_stack.len();
            if tn > 0 {
                let mut ts = match self.table_stack.pop() {
                    Some(ts) => ts,
                    None => TableState::new(),
                };
                ts.finish_row();
                ts.in_head = false;
                self.table_stack.push(ts);
                proof {
                    assert(tstates_view(self.table_stack@) =~= tstates_view(
                        old(self).table_stack@).update(tn - 1, TStateV {
                        in_head: false,
                        ..spec_finish_row(old(self).table_stack@.last()@)
                    }));
                }
            }
        }
    }

    /// Closes a table row: commits it.
    pub fn finish_table_row(&mut self)
        ensures
            final(self)@ == spec_finish_table_row(old(self)@),
    {
        proof {
            if old(self).table_stack@.len() > 0 {
                lemma_tstates(old(self).table_stack@);
            }
        }
        let b = self.block_stack.pop();
        if matches!(b, Some(BlockContext::TableRow)) {
            let tn = self.table_stack.len();
            if tn > 0 {
                let mut ts = match self.table_stack.pop() {
                    Some(ts) => ts,
                    None => TableState::new(),
                };
                ts.finish_row();
                self.table_stack.push(ts);
                proof {
                    assert(tstates_view(self.table_stack@) =~= tstates_view(
                        old(self).table_stack@).update(tn - 1, spec_finish_row(
                        old(self).table_stack@.last()@)));
                }
            }
        }
    }

    /// Closes a table cell: its content becomes a cell of the open row.
    pub fn finish_table_cell(&mut self)
        ensures
            final(self)@ == spec_finish_table_cell(old(self)@),
    {
        proof {
            if old(self).inline_stack@.len() > 0 {
                lemma_conts(old(self).inline_stack@);
            }
            if old(self).table_stack@.len() > 0 {
                lemma_tstates(old(self).table_stack@);
            }
        }
        let a = self.inline_stack.pop();
        let b = self.block_stack.pop();
        match (a, b) {
            (Some(InlineContainer::Plain(inlines)), Some(BlockContext::TableCell)) => {
                let tn = self.table_stack.len();
                if tn > 0 {
                    let mut ts = match self.table_stack.pop() {
                        Some(ts) => ts,
                        None => TableState::new(),
                    };
                    let ghost tsv = ts@;
                    let ghost cellv = inlines_view(inlines@);
                    ts.push_cell(inlines);
                    self.table_stack.push(ts);
                    proof {
                        assert(tstates_view(self.table_stack@) =~= tstates_view(
                            old(self).table_stack@).update(tn - 1, match tsv.current_row {
                            Some(row) => TStateV { current_row: Some(row.push(cellv)), ..tsv },
                            None => tsv,
                        }));
                    }
                }
            }
            _ => {}
        }
    }

    /// Closes a strong span into the enclosing container.
    pub fn finish_strong(&mut self)
        ensures
            final(self)@ == spec_finish_strong(old(self)@),
    {
        proof {
            if old(self).inline_stack@.len() > 0 {
                lemma_conts(old(self).inline_stack@);
            }
        }
        match self.inline_stack.pop() {
            Some(InlineContainer::Strong(content)) => {
                push_inline(&mut self.inline_stack, Inline::Strong(content));
            }
            _ => {}
        }
    }

    /// Closes a link span into the enclosing container.
    pub fn finish_link(&mut self)
        ensures
            final(self)@ == spec_finish_link(old(self)@),
    {
        proof {
            if old(self).inline_stack@.len() > 0 {
                lemma_conts(old(self).inline_stack@);
            }
        }
        match self.inline_stack.pop() {
            Some(InlineContainer::Link(content)) => {
                push_inline(&mut self.inline_stack, Inline::Link(content));
            }
            _ => {}
        }
    }

    /// Closes an emphasis span; it is folded into the same form as
    /// strong text.
    pub fn finish_emphasis(&mut self)
        ensures
            final(self)@ == spec_finish_emphasis(old(self)@),
    {
        proof {
            if old(self).inline_stack@.len() > 0 {
                lemma_conts(old(self).inline_stack@);
            }
        }
        match self.inline_stack.pop() {
            Some(InlineContainer::Plain(content)) => {
                push_inline(&mut self.inline_stack, Inline::Strong(content));
            }
            _ => {}
        }
    }

    /// Hands back the finished blocks.
    pub fn finish(self) -> (r: Vec<Block>)
        ensures
            blocks_view(r@) == self@.blocks,
    {
        self.blocks
    }
}

/// Compiles a markdown document to its block sequence: the parser's
/// events, folded through the compiler's transition relation.
pub fn parse_markdown(input: &str) -> (r: Vec<Block>)
    ensures
        blocks_view(r@) == blocks_of(input@),
{
    let events = md_events(input);
    let mut state = MarkdownParser::new();
    let n = events.len();
    let mut i: usize = 0;
    proof {
        assert(events_view(events@.subrange(0, 0)) =~= Seq::<EventV>::empty());
    }
    while i < n
        invariant
            0 <= i <= n,
            n == events@.len(),
            state@ == spec_run(events_view(events@.subrange(0, i as int))),
        decreases n - i,
    {
        state.handle_event(&events[i]);
        proof {
            let pre = events_view(events@.subrange(0, i as int));
            let post = events_view(events@.subrange(0, i + 1));
            assert(events@.subrange(0, i + 1).drop_last() =~= events@.subrange(0, i as int));
            assert(post.drop_last() =~= pre);
            assert(post.last() == events@[i as int]@);
        }
        i = i + 1;
    }
    proof {
        assert(events@.subrange(0, n as int) =~= events@);
    }
    state.finish()
}

} // verus!
