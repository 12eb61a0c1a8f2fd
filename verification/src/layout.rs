use vstd::prelude::*;

use crate::doc::{Inline, InlineV, inlines_view, iview, lemma_inlines_view_index, lemma_inlines_view_len};
use crate::metrics::{char_units, lemma_char_units_bounds, lemma_units_of_bounds, lemma_units_of_concat, text_width, units_of, width_mp};

verus! {

/// A layout token: a word with its face, a breakable space, or a forced
/// line break.
pub enum Token {
    Word { text: String, bold: bool },
    Space,
    HardBreak,
}

/// Mathematical model of a `Token`.
#[verifier::ext_equal]
pub enum TokenV {
    Word(Seq<char>, bool),
    Space,
    HardBreak,
}

impl View for Token {
    type V = TokenV;

    open spec fn view(&self) -> TokenV {
        match self {
            Token::Word { text, bold } => TokenV::Word(text@, *bold),
            Token::Space => TokenV::Space,
            Token::HardBreak => TokenV::HardBreak,
        }
    }
}

pub open spec fn tokens_view(s: Seq<Token>) -> Seq<TokenV> {
    s.map_values(|t: Token| t@)
}

/// A maximal run of same-face text within one output line.
pub struct Segment {
    pub text: String,
    pub bold: bool,
}

/// Mathematical model of a `Segment`.
#[verifier::ext_equal]
pub struct SegV {
    pub text: Seq<char>,
    pub bold: bool,
}

impl View for Segment {
    type V = SegV;

    open spec fn view(&self) -> SegV {
        SegV { text: self.text@, bold: self.bold }
    }
}

pub open spec fn segs_view(s: Seq<Segment>) -> Seq<SegV> {
    s.map_values(|g: Segment| g@)
}

/// One wrapped line: an ordered run of segments drawn at one vertical
/// position.
pub struct Line {
    pub segments: Vec<Segment>,
}

/// Mathematical model of a `Line`.
#[verifier::ext_equal]
pub struct LineV {
    pub segments: Seq<SegV>,
}

impl View for Line {
    type V = LineV;

    open spec fn view(&self) -> LineV {
        LineV { segments: segs_view(self.segments@) }
    }
}

pub open spec fn lines_view(s: Seq<Line>) -> Seq<LineV> {
    s.map_values(|l: Line| l@)
}

// ------------------------------------------------------------------
// Tokenizing
// ------------------------------------------------------------------

/// Tokens produced from the text `s` at face `bold`, with `buf` the word
/// characters already pending: spaces and tabs close the pending word and
/// emit a `Space`, newlines emit a `HardBreak`, all else extends the word.
pub open spec fn text_tokens(s: Seq<char>, bold: bool, buf: Seq<char>) -> Seq<TokenV>
    decreases s.len(),
{
    if s.len() == 0 {
        if buf.len() == 0 {
            Seq::empty()
        } else {
            seq![TokenV::Word(buf, bold)]
        }
    } else {
        let c = s[0];
        if c == ' ' || c == '\t' {
            (if buf.len() == 0 {
                Seq::<TokenV>::empty()
            } else {
                seq![TokenV::Word(buf, bold)]
            }) + seq![TokenV::Space] + text_tokens(s.drop_first(), bold, Seq::empty())
        } else if c == '\n' {
            (if buf.len() == 0 {
                Seq::<TokenV>::empty()
            } else {
                seq![TokenV::Word(buf, bold)]
            }) + seq![TokenV::HardBreak] + text_tokens(s.drop_first(), bold, Seq::empty())
        } else {
            text_tokens(s.drop_first(), bold, buf.push(c))
        }
    }
}

/// Tokens of one inline node; a `Strong` node makes all its descendants
/// bold, a link is transparent.
pub open spec fn tokens_of_inline(i: InlineV, bold: bool) -> Seq<TokenV>
    decreases i,
{
    match i {
        InlineV::Text(t) => text_tokens(t, bold, Seq::empty()),
        InlineV::Strong(children) => tokens_of(children, true),
        InlineV::Link(children) => tokens_of(children, bold),
        InlineV::LineBreak => seq![TokenV::HardBreak],
    }
}

/// Tokens of an inline sequence, in order.
pub open spec fn tokens_of(s: Seq<InlineV>, bold: bool) -> Seq<TokenV>
    decreases s,
{
    if s.len() == 0 {
        Seq::empty()
    } else {
        tokens_of(s.drop_last(), bold) + tokens_of_inline(s.last(), bold)
    }
}

fn collect_tokens_text(text: &str, bold: bool, tokens: &mut Vec<Token>)
    ensures
        tokens_view(final(tokens)@) == tokens_view(old(tokens)@) + text_tokens(text@, bold, Seq::empty()),
{
    let n: usize = text.unicode_len();
    let mut i: usize = 0;
    let mut ws: usize = 0;
    proof {
        assert(text@.skip(0) =~= text@);
        assert(text@.subrange(0, 0) =~= Seq::<char>::empty());
        assert(tokens_view(tokens@) + text_tokens(text@, bold, Seq::empty())
            =~= tokens_view(old(tokens)@) + text_tokens(text@.skip(0), bold, text@.subrange(0, 0)));
    }
    while i < n
        invariant
            0 <= ws <= i <= n,
            n == text@.len(),
            tokens_view(tokens@) + text_tokens(text@.skip(i as int), bold, text@.subrange(ws as int, i as int))
                == tokens_view(old(tokens)@) + text_tokens(text@, bold, Seq::empty()),
        decreases n - i,
    {
        let c = text.get_char(i);
        proof {
            assert(text@.skip(i as int)[0] == c);
            assert(text@.skip(i as int).drop_first() =~= text@.skip(i + 1));
        }
        if c == ' ' || c == '\t' {
            let ghost buf = text@.subrange(ws as int, i as int);
            if ws < i {
                let word = text.substring_char(ws, i);
                tokens.push(Token::Word { text: word.to_owned(), bold });
            }
            let ghost mid = tokens@;
            tokens.push(Token::Space);
            proof {
                let bufpart: Seq<TokenV> = if buf.len() == 0 { Seq::empty() } else {
                    seq![TokenV::Word(buf, bold)]
                };
                assert(tokens_view(tokens@) =~= tokens_view(mid).push(TokenV::Space));
                if ws < i {
                    assert(tokens_view(mid) =~= tokens_view(mid.drop_last()).push(mid.last()@));
                }
                assert(tokens_view(tokens@) + text_tokens(text@.skip(i + 1), bold, text@.subrange(
                    i + 1, i + 1))
                    =~= tokens_view(old(tokens)@) + text_tokens(text@, bold, Seq::empty())) by {
                    assert(text@.subrange(i + 1, i + 1) =~= Seq::<char>::empty());
                    if ws < i {
                        assert(tokens_view(mid) =~= tokens_view(mid.drop_last()) + bufpart);
                    } else {
                        assert(buf.len() == 0);
                    }
                    assert(text_tokens(text@.skip(i as int), bold, buf)
                        =~= bufpart + seq![TokenV::Space] + text_tokens(text@.skip(i + 1), bold,
                        Seq::empty()));
                }
            }
            ws = i + 1;
        } else if c == '\n' {
            let ghost buf = text@.subrange(ws as int, i as int);
            if ws < i {
                let word = text.substring_char(ws, i);
                tokens.push(Token::Word { text: word.to_owned(), bold });
            }
            let ghost mid = tokens@;
            tokens.push(Token::HardBreak);
            proof {
                let bufpart: Seq<TokenV> = if buf.len() == 0 { Seq::empty() } else {
                    seq![TokenV::Word(buf, bold)]
                };
                assert(tokens_view(tokens@) =~= tokens_view(mid).push(TokenV::HardBreak));
                if ws < i {
                    assert(tokens_view(mid) =~= tokens_view(mid.drop_last()).push(mid.last()@));
                }
                assert(tokens_view(tokens@) + text_tokens(text@.skip(i + 1), bold, text@.subrange(
                    i + 1, i + 1))
                    =~= tokens_view(old(tokens)@) + text_tokens(text@, bold, Seq::empty())) by {
                    assert(text@.subrange(i + 1, i + 1) =~= Seq::<char>::empty());
                    if ws < i {
                        assert(tokens_view(mid) =~= tokens_view(mid.drop_last()) + bufpart);
                    } else {
                        assert(buf.len() == 0);
                    }
                    assert(text_tokens(text@.skip(i as int), bold, buf)
                        =~= bufpart + seq![TokenV::HardBreak] + text_tokens(text@.skip(i + 1),
                        bold, Seq::empty()));
                }
            }
            ws = i + 1;
        } else {
            proof {
                assert(text@.subrange(ws as int, i as int).push(c) =~= text@.subrange(ws as int, i
                    + 1));
            }
        }
        i = i + 1;
    }
    if ws < n {
        let word = text.substring_char(ws, n);
        tokens.push(Token::Word { text: word.to_owned(), bold });
        proof {
            let mid = tokens@.drop_last();
            assert(tokens_view(tokens@) =~= tokens_view(mid).push(tokens@.last()@));
            assert(text@.skip(n as int) =~= Seq::<char>::empty());
            assert(text_tokens(text@.skip(n as int), bold, text@.subrange(ws as int, n as int))
                =~= seq![TokenV::Word(text@.subrange(ws as int, n as int), bold)]);
            assert(tokens_view(tokens@) =~= tokens_view(old(tokens)@) + text_tokens(text@, bold,
                Seq::empty()));
        }
    } else {
        proof {
            assert(text@.skip(n as int) =~= Seq::<char>::empty());
            assert(text@.subrange(ws as int, n as int) =~= Seq::<char>::empty());
            assert(text_tokens(text@.skip(n as int), bold, Seq::<char>::empty())
                =~= Seq::<TokenV>::empty());
            assert(tokens_view(tokens@) =~= tokens_view(old(tokens)@) + text_tokens(text@, bold,
                Seq::empty()));
        }
    }
}

fn collect_tokens_inline(inline: &Inline, bold_parent: bool, tokens: &mut Vec<Token>)
    ensures
        tokens_view(final(tokens)@) == tokens_view(old(tokens)@) + tokens_of_inline(iview(*inline), bold_parent),
    decreases *inline,
{
    match inline {
        Inline::Text(text) => {
            collect_tokens_text(text.as_str(), bold_parent, tokens);
        }
        Inline::Strong(children) => {
            collect_tokens(children, true, tokens);
        }
        Inline::Link(children) => {
            collect_tokens(children, bold_parent, tokens);
        }
        Inline::LineBreak => {
            let ghost mid = tokens@;
            tokens.push(Token::HardBreak);
            proof {
                assert(tokens_view(tokens@) =~= tokens_view(mid) + seq![TokenV::HardBreak]);
            }
        }
    }
}

/// Appends the tokens of the inline sequence to `tokens`, with `bold_parent`
/// applied to every word.
pub fn collect_tokens(inlines: &Vec<Inline>, bold_parent: bool, tokens: &mut Vec<Token>)
    ensures
        tokens_view(final(tokens)@) == tokens_view(old(tokens)@) + tokens_of(inlines_view(inlines@), bold_parent),
    decreases inlines@,
{
    let n = inlines.len();
    let mut i: usize = 0;
    proof {
        lemma_inlines_view_len(inlines@);
        assert(inlines_view(inlines@.subrange(0, 0)) =~= Seq::<InlineV>::empty());
        assert(tokens_view(tokens@) =~= tokens_view(old(tokens)@) + tokens_of(inlines_view(
            inlines@.subrange(0, 0)), bold_parent));
    }
    while i < n
        invariant
            0 <= i <= n,
            n == inlines@.len(),
            tokens_view(tokens@) == tokens_view(old(tokens)@) + tokens_of(inlines_view(
                inlines@.subrange(0, i as int)), bold_parent),
        decreases n - i,
    {
        proof {
            assert(decreases_to!(inlines@ => inlines@[i as int]));
        }
        collect_tokens_inline(&inlines[i], bold_parent, tokens);
        proof {
            let pre = inlines@.subrange(0, i as int);
            let post = inlines@.subrange(0, i + 1);
            assert(post.drop_last() =~= pre);
            let vpre = inlines_view(pre);
            let vpost = inlines_view(post);
            assert(vpost == vpre.push(iview(inlines@[i as int])));
            assert(vpost.drop_last() =~= vpre);
            assert(vpost.last() == iview(inlines@[i as int]));
            assert(tokens_view(tokens@) =~= tokens_view(old(tokens)@) + tokens_of(vpost,
                bold_parent));
        }
        i = i + 1;
    }
    proof {
        assert(inlines@.subrange(0, n as int) =~= inlines@);
    }
}

/// The tokens of an inline sequence as a fresh vector.
pub fn tokenize(inlines: &Vec<Inline>, bold_parent: bool) -> (r: Vec<Token>)
    ensures
        tokens_view(r@) == tokens_of(inlines_view(inlines@), bold_parent),
{
    let mut tokens: Vec<Token> = Vec::new();
    collect_tokens(inlines, bold_parent, &mut tokens);
    proof {
        assert(tokens_view(Seq::<Token>::empty()) =~= Seq::<TokenV>::empty());
        assert(tokens_view(tokens@) =~= tokens_of(inlines_view(inlines@), bold_parent));
    }
    tokens
}

// ------------------------------------------------------------------
// Greedy wrapping
// ------------------------------------------------------------------

/// Appending text of one face to a segment run: empty text changes
/// nothing; text of the last segment's face merges into it; otherwise a
/// new segment starts.
pub open spec fn push_seg(segs: Seq<SegV>, text: Seq<char>, bold: bool) -> Seq<SegV> {
    if text.len() == 0 {
        segs
    } else if segs.len() > 0 && segs.last().bold == bold {
        segs.drop_last().push(SegV { text: segs.last().text + text, bold })
    } else {
        segs.push(SegV { text, bold })
    }
}

/// The wrapping state: finished lines, the open line's segments, the open
/// line's width in millipoints, and whether a space is pending before the
/// next word.
#[verifier::ext_equal]
pub struct WrapState {
    pub lines: Seq<LineV>,
    pub cur: Seq<SegV>,
    pub width: int,
    pub pending: bool,
}

pub open spec fn wrap_init() -> WrapState {
    WrapState { lines: Seq::empty(), cur: Seq::empty(), width: 0, pending: false }
}

/// Closing the open line: a non-empty segment run becomes a finished line.
pub open spec fn wrap_flush(st: WrapState) -> WrapState {
    if st.cur.len() == 0 {
        st
    } else {
        WrapState {
            lines: st.lines.push(LineV { segments: st.cur }),
            cur: Seq::empty(),
            width: 0,
            pending: st.pending,
        }
    }
}

pub open spec fn space_w(size: int) -> int {
    278 * size
}

/// One greedy wrapping step. A word is placed on the open line when it
/// fits together with any pending space; otherwise the line is closed
/// first. A word wider than the wrap width is placed alone on an empty
/// line and allowed to overflow.
pub open spec fn wrap_step(st: WrapState, t: TokenV, max: int, size: int) -> WrapState {
    match t {
        TokenV::Space => {
            if st.width > 0 {
                WrapState { pending: true, ..st }
            } else {
                st
            }
        }
        TokenV::HardBreak => {
            let f = wrap_flush(st);
            WrapState { pending: false, ..f }
        }
        TokenV::Word(text, bold) => {
            let ww = width_mp(text, size, bold);
            let sw = if st.pending {
                space_w(size)
            } else {
                0
            };
            let st1 = if st.width > 0 && st.width + ww + sw > max {
                let f = wrap_flush(st);
                WrapState { pending: false, ..f }
            } else {
                st
            };
            let st2 = if st1.pending && st1.cur.len() > 0 {
                WrapState {
                    cur: push_seg(st1.cur, seq![' '], false),
                    width: st1.width + space_w(size),
                    pending: false,
                    ..st1
                }
            } else {
                st1
            };
            WrapState { cur: push_seg(st2.cur, text, bold), width: st2.width + ww, ..st2 }
        }
    }
}

pub open spec fn wrap_fold(ts: Seq<TokenV>, max: int, size: int) -> WrapState
    decreases ts.len(),
{
    if ts.len() == 0 {
        wrap_init()
    } else {
        wrap_step(wrap_fold(ts.drop_last(), max, size), ts.last(), max, size)
    }
}

/// The lines that greedy wrapping produces for a token stream: the folded
/// state's lines, with a non-empty open line closed at the end.
pub open spec fn wrap_spec(ts: Seq<TokenV>, max: int, size: int) -> Seq<LineV> {
    let st = wrap_fold(ts, max, size);
    if st.cur.len() == 0 {
        st.lines
    } else {
        st.lines.push(LineV { segments: st.cur })
    }
}

/// Appends `text` at face `bold` to the segment run, merging it into the
/// last segment when the face matches.
pub fn append_segment(segments: &mut Vec<Segment>, text: &str, bold: bool)
    ensures
        segs_view(final(segments)@) == push_seg(segs_view(old(segments)@), text@, bold),
{
    if text.is_empty() {
        return;
    }
    let n = segments.len();
    if n > 0 && segments[n - 1].bold == bold {
        let mut last = match segments.pop() {
            Some(g) => g,
            None => Segment { text: String::new(), bold },
        };
        last.text.append(text);
        segments.push(last);
        proof {
            let ov = segs_view(old(segments)@);
            assert(segs_view(segments@) =~= ov.drop_last().push(SegV {
                text: ov.last().text + text@,
                bold,
            }));
        }
    } else {
        segments.push(Segment { text: text.to_owned(), bold });
        proof {
            assert(segs_view(segments@) =~= segs_view(old(segments)@).push(SegV {
                text: text@,
                bold,
            }));
        }
    }
}

/// Greedily wraps a token stream into lines no wider than `max_width`
/// millipoints at `font_size`, except that a single word wider than the
/// limit stands alone on its own line.
pub fn wrap_tokens(tokens: &Vec<Token>, max_width: u128, font_size: u64) -> (r: Vec<Line>)
    requires
        1 <= font_size <= 100,
        max_width < 0x10000000000000000000000000,
    ensures
        lines_view(r@) == wrap_spec(tokens_view(tokens@), max_width as int, font_size as int),
        forall|i: int|
            0 <= i < r@.len() ==> segs_w(#[trigger] lines_view(r@)[i].segments,
                font_size as int) <= max_width + 0x4000000000000000000000,
{
    let mut lines: Vec<Line> = Vec::new();
    let mut cur: Vec<Segment> = Vec::new();
    let mut width: u128 = 0;
    let mut pending: bool = false;
    let n = tokens.len();
    let mut i: usize = 0;
    proof {
        assert(tokens_view(tokens@.subrange(0, 0)) =~= Seq::<TokenV>::empty());
        assert(lines_view(lines@) =~= Seq::<LineV>::empty());
        assert(segs_view(cur@) =~= Seq::<SegV>::empty());
    }
    while i < n
        invariant
            0 <= i <= n,
            n == tokens@.len(),
            1 <= font_size <= 100,
            max_width < 0x10000000000000000000000000,
            width <= max_width + 0x4000000000000000000000,
            cur@.len() == 0 ==> width == 0,
            forall|k: int|
                0 <= k < lines@.len() ==> segs_w(#[trigger] lines_view(lines@)[k].segments,
                    font_size as int) <= max_width + 0x4000000000000000000000,
            wrap_fold(tokens_view(tokens@.subrange(0, i as int)), max_width as int,
                font_size as int) == (WrapState {
                lines: lines_view(lines@),
                cur: segs_view(cur@),
                width: width as int,
                pending,
            }),
        decreases n - i,
    {
        let ghost pre_tv = tokens_view(tokens@.subrange(0, i as int));
        let ghost post_tv = tokens_view(tokens@.subrange(0, i + 1));
        proof {
            assert(tokens@.subrange(0, i + 1).drop_last() =~= tokens@.subrange(0, i as int));
            assert(post_tv.drop_last() =~= pre_tv);
            assert(post_tv.last() == tokens@[i as int]@);
        }
        let ghost st0 = WrapState {
            lines: lines_view(lines@),
            cur: segs_view(cur@),
            width: width as int,
            pending,
        };
        let t = &tokens[i];
        match t {
            Token::Space => {
                if width > 0 {
                    pending = true;
                }
            }
            Token::HardBreak => {
                if cur.len() > 0 {
                    proof {
                        lemma_wrap_fold_inv(pre_tv, max_width as int, font_size as int);
                        assert(width as int == segs_w(segs_view(cur@), font_size as int));
                    }
                    let mut taken: Vec<Segment> = Vec::new();
                    core::mem::swap(&mut taken, &mut cur);
                    lines.push(Line { segments: taken });
                    width = 0;
                    proof {
                        assert(segs_view(cur@) =~= Seq::<SegV>::empty());
                        assert(lines_view(lines@) =~= st0.lines.push(LineV {
                            segments: st0.cur,
                        }));
                    }
                }
                pending = false;
            }
            Token::Word { text, bold } => {
                let word_width = text_width(text.as_str(), font_size, *bold);
                let ghost ww = width_mp(text@, font_size as int, *bold);
                let space_width: u128 = if pending {
                    let sw = text_width(" ", font_size, false);
                    proof {
                        reveal_strlit(" ");
                        assert(" "@ =~= seq![' ']);
                        assert(units_of(seq![' '], false) == 278) by {
                            assert(seq![' '].drop_last() =~= Seq::<char>::empty());
                            assert(units_of(Seq::<char>::empty(), false) == 0);
                            assert(seq![' '].last() == ' ');
                        }
                    }
                    sw
                } else {
                    0
                };
                let ghost sw_spec: int = if st0.pending { space_w(font_size as int) } else { 0 };
                proof {
                    assert(space_width as int == sw_spec);
                }
                let additional = word_width + space_width;
                if width > 0 && width + additional > max_width {
                    if cur.len() > 0 {
                        proof {
                            lemma_wrap_fold_inv(pre_tv, max_width as int, font_size as int);
                            assert(width as int == segs_w(segs_view(cur@), font_size as int));
                        }
                        let mut taken: Vec<Segment> = Vec::new();
                        core::mem::swap(&mut taken, &mut cur);
                        lines.push(Line { segments: taken });
                        width = 0;
                        proof {
                            assert(segs_view(cur@) =~= Seq::<SegV>::empty());
                            assert(lines_view(lines@) =~= st0.lines.push(LineV {
                                segments: st0.cur,
                            }));
                        }
                    }
                    pending = false;
                }
                let ghost st1 = WrapState {
                    lines: lines_view(lines@),
                    cur: segs_view(cur@),
                    width: width as int,
                    pending,
                };
                proof {
                    let f = wrap_flush(st0);
                    let spec1 = if st0.width > 0 && st0.width + ww + sw_spec
                        > max_width as int {
                        WrapState { pending: false, ..f }
                    } else {
                        st0
                    };
                    assert(st1 == spec1);
                }
                if pending && cur.len() > 0 {
                    append_segment(&mut cur, " ", false);
                    proof {
                        reveal_strlit(" ");
                        assert(" "@ =~= seq![' ']);
                        assert(units_of(seq![' '], false) == 278) by {
                            assert(seq![' '].drop_last() =~= Seq::<char>::empty());
                            assert(units_of(Seq::<char>::empty(), false) == 0);
                            assert(seq![' '].last() == ' ');
                        }
                    }
                    width = width + text_width(" ", font_size, false);
                    pending = false;
                }
                let ghost st2 = WrapState {
                    lines: lines_view(lines@),
                    cur: segs_view(cur@),
                    width: width as int,
                    pending,
                };
                proof {
                    let spec2 = if st1.pending && st1.cur.len() > 0 {
                        WrapState {
                            cur: push_seg(st1.cur, seq![' '], false),
                            width: st1.width + space_w(font_size as int),
                            pending: false,
                            ..st1
                        }
                    } else {
                        st1
                    };
                    assert(st2 == spec2);
                }
                append_segment(&mut cur, text.as_str(), *bold);
                width = width + word_width;
                proof {
                    assert(segs_view(cur@) == push_seg(st2.cur, text@, *bold));
                    assert(width as int == st2.width + ww);
                    if text@.len() == 0 {
                        assert(units_of(text@, *bold) == 0);
                        assert(ww == 0);
                    }
                    assert(st1.cur.len() == 0 ==> st1.width == 0);
                    assert(st2.cur.len() == 0 ==> st2.width == 0);
                    assert(segs_view(cur@).len() == 0 ==> width == 0) by {
                        if segs_view(cur@).len() == 0 {
                            assert(st2.cur.len() == 0);
                            assert(text@.len() == 0);
                            assert(units_of(text@, *bold) == 0);
                        }
                    }
                    assert(width <= max_width + 0x4000000000000000000000) by {
                        if st0.width > 0 && st0.width + ww + sw_spec > max_width as int {
                            assert(st1.width == 0);
                            assert(!st1.pending);
                            assert(width as int == ww);
                        } else if st0.width == 0 {
                            assert(st2.width <= 27800);
                        } else {
                            assert(st0.width + ww + sw_spec <= max_width as int);
                            assert(st2.width + ww <= st0.width + sw_spec + ww);
                        }
                    }
                }
            }
        }
        proof {
            assert(wrap_fold(post_tv, max_width as int, font_size as int) == (WrapState {
                lines: lines_view(lines@),
                cur: segs_view(cur@),
                width: width as int,
                pending,
            }));
        }
        i = i + 1;
    }
    proof {
        assert(tokens@.subrange(0, n as int) =~= tokens@);
    }
    if cur.len() > 0 {
        proof {
            lemma_wrap_fold_inv(tokens_view(tokens@), max_width as int, font_size as int);
            assert(width as int == segs_w(segs_view(cur@), font_size as int));
        }
        lines.push(Line { segments: cur });
        proof {
            assert(lines_view(lines@) =~= lines_view(lines@.drop_last()).push(lines@.last()@));
        }
    }
    lines
}


// ------------------------------------------------------------------
// The width bound of wrapped lines
// ------------------------------------------------------------------

pub open spec fn seg_w(g: SegV, size: int) -> int {
    width_mp(g.text, size, g.bold)
}

/// The width of a segment run in millipoints.
pub open spec fn segs_w(s: Seq<SegV>, size: int) -> int
    decreases s.len(),
{
    if s.len() == 0 {
        0
    } else {
        segs_w(s.drop_last(), size) + seg_w(s.last(), size)
    }
}

/// The width of a line in millipoints: the sum of its segments' widths.
pub open spec fn line_w(l: LineV, size: int) -> int {
    segs_w(l.segments, size)
}

proof fn lemma_width_mp_pos(t: Seq<char>, size: int, bold: bool)
    requires
        t.len() > 0,
        size >= 1,
    ensures
        width_mp(t, size, bold) >= 1,
{
    lemma_units_of_bounds(t.drop_last(), bold);
    lemma_char_units_bounds(t.last(), bold);
    assert(units_of(t, bold) >= 1);
    assert(units_of(t, bold) * size >= 1) by (nonlinear_arith)
        requires
            units_of(t, bold) >= 1,
            size >= 1,
        ;
}

proof fn lemma_width_mp_empty(t: Seq<char>, size: int, bold: bool)
    requires
        t.len() == 0,
    ensures
        width_mp(t, size, bold) == 0,
{
    assert(units_of(t, bold) == 0);
}

proof fn lemma_push_seg_w(segs: Seq<SegV>, text: Seq<char>, bold: bool, size: int)
    ensures
        segs_w(push_seg(segs, text, bold), size) == segs_w(segs, size) + width_mp(text, size, bold),
{
    if text.len() == 0 {
        lemma_width_mp_empty(text, size, bold);
    } else if segs.len() > 0 && segs.last().bold == bold {
        let merged = SegV { text: segs.last().text + text, bold };
        let out = segs.drop_last().push(merged);
        assert(out.drop_last() =~= segs.drop_last());
        assert(out.last() == merged);
        lemma_units_of_concat(segs.last().text, text, bold);
        assert(seg_w(merged, size) == seg_w(segs.last(), size) + width_mp(text, size, bold)) by (nonlinear_arith)
            requires
                units_of(merged.text, bold) == units_of(segs.last().text, bold) + units_of(text, bold),
                merged.bold == segs.last().bold,
                seg_w(merged, size) == units_of(merged.text, bold) * size,
                seg_w(segs.last(), size) == units_of(segs.last().text, bold) * size,
                width_mp(text, size, bold) == units_of(text, bold) * size,
            ;
    } else {
        let out = segs.push(SegV { text, bold });
        assert(out.drop_last() =~= segs);
        assert(out.last() == SegV { text, bold });
    }
}

/// The invariant that greedy wrapping maintains: finished lines fit the
/// width or hold a single segment, and the tracked width is exactly the
/// open line's width.
pub open spec fn wrap_inv(st: WrapState, max: int, size: int) -> bool {
    &&& forall|i: int|
        0 <= i < st.lines.len() ==> line_w(#[trigger] st.lines[i], size) <= max
            || st.lines[i].segments.len() == 1
    &&& st.width == segs_w(st.cur, size)
    &&& st.width <= max || st.cur.len() == 1
    &&& st.cur.len() == 0 ==> st.width == 0
    &&& st.cur.len() > 0 ==> st.width > 0
}

proof fn lemma_wrap_step_inv(st: WrapState, t: TokenV, max: int, size: int)
    requires
        wrap_inv(st, max, size),
        max >= 0,
        size >= 1,
    ensures
        wrap_inv(wrap_step(st, t, max, size), max, size),
{
    match t {
        TokenV::Space => {}
        TokenV::HardBreak => {
            let f = wrap_flush(st);
            if st.cur.len() > 0 {
                assert(f.lines.last() == LineV { segments: st.cur });
                assert(forall|i: int|
                    0 <= i < st.lines.len() ==> f.lines[i] == #[trigger] st.lines[i]);
            }
        }
        TokenV::Word(text, bold) => {
            let ww = width_mp(text, size, bold);
            let sw: int = if st.pending {
                space_w(size)
            } else {
                0
            };
            lemma_units_of_bounds(text, bold);
            assert(ww >= 0) by (nonlinear_arith)
                requires
                    units_of(text, bold) >= 0,
                    size >= 1,
                    ww == units_of(text, bold) * size,
                ;
            let st1 = if st.width > 0 && st.width + ww + sw > max {
                let f = wrap_flush(st);
                WrapState { pending: false, ..f }
            } else {
                st
            };
            if st.width > 0 && st.width + ww + sw > max && st.cur.len() > 0 {
                assert(st1.lines.last() == LineV { segments: st.cur });
                assert(forall|i: int|
                    0 <= i < st.lines.len() ==> st1.lines[i] == #[trigger] st.lines[i]);
            }
            assert(st1.cur.len() == 0 ==> st1.width == 0);
            let st2 = if st1.pending && st1.cur.len() > 0 {
                WrapState {
                    cur: push_seg(st1.cur, seq![' '], false),
                    width: st1.width + space_w(size),
                    pending: false,
                    ..st1
                }
            } else {
                st1
            };
            if st1.pending && st1.cur.len() > 0 {
                lemma_push_seg_w(st1.cur, seq![' '], false, size);
                assert(units_of(seq![' '], false) == 278) by {
                    assert(seq![' '].drop_last() =~= Seq::<char>::empty());
                    assert(units_of(Seq::<char>::empty(), false) == 0);
                    assert(seq![' '].last() == ' ');
                }
                assert(width_mp(seq![' '], size, false) == space_w(size));
            }
            assert(st2.width == segs_w(st2.cur, size));
            let out = wrap_step(st, t, max, size);
            lemma_push_seg_w(st2.cur, text, bold, size);
            assert(out.cur == push_seg(st2.cur, text, bold));
            assert(out.width == segs_w(out.cur, size));
            if text.len() > 0 {
                lemma_width_mp_pos(text, size, bold);
            } else {
                lemma_width_mp_empty(text, size, bold);
            }
            if st.width > 0 && st.width + ww + sw > max {
                assert(st2.cur.len() == 0);
                if text.len() > 0 {
                    assert(out.cur.len() == 1);
                } else {
                    assert(out.width == 0);
                }
            } else if st.width == 0 {
                assert(st.cur.len() == 0);
                assert(st2 == st1 && st1 == st);
                if text.len() > 0 {
                    assert(out.cur.len() == 1);
                } else {
                    assert(out.width == 0);
                }
            } else {
                assert(st.width + ww + sw <= max);
                assert(st2.width <= st.width + sw);
                assert(out.width <= max);
            }
        }
    }
}

proof fn lemma_wrap_fold_inv(ts: Seq<TokenV>, max: int, size: int)
    requires
        max >= 0,
        size >= 1,
    ensures
        wrap_inv(wrap_fold(ts, max, size), max, size),
    decreases ts.len(),
{
    if ts.len() == 0 {
    } else {
        lemma_wrap_fold_inv(ts.drop_last(), max, size);
        lemma_wrap_step_inv(wrap_fold(ts.drop_last(), max, size), ts.last(), max, size);
    }
}

/// Width bound law: every line that greedy wrapping produces is at most
/// `max` millipoints wide, except a line that holds a single unbreakable
/// segment (an over-width word placed alone and allowed to overflow).
pub proof fn lemma_wrap_width_bound(ts: Seq<TokenV>, max: int, size: int)
    requires
        max >= 0,
        size >= 1,
    ensures
        forall|i: int|
            0 <= i < wrap_spec(ts, max, size).len() ==> line_w(
                #[trigger] wrap_spec(ts, max, size)[i], size) <= max || wrap_spec(ts, max, size)[i].segments.len() == 1,
{
    lemma_wrap_fold_inv(ts, max, size);
    let st = wrap_fold(ts, max, size);
    if st.cur.len() > 0 {
        let out = st.lines.push(LineV { segments: st.cur });
        assert(out.last() == LineV { segments: st.cur });
        assert(forall|i: int| 0 <= i < st.lines.len() ==> out[i] == #[trigger] st.lines[i]);
    }
}

pub proof fn lemma_segs_w_nonneg(s: Seq<SegV>, size: int)
    requires
        size >= 0,
    ensures
        segs_w(s, size) >= 0,
    decreases s.len(),
{
    if s.len() > 0 {
        lemma_segs_w_nonneg(s.drop_last(), size);
        lemma_units_of_bounds(s.last().text, s.last().bold);
        assert(seg_w(s.last(), size) >= 0) by (nonlinear_arith)
            requires
                units_of(s.last().text, s.last().bold) >= 0,
                size >= 0,
                seg_w(s.last(), size) == units_of(s.last().text, s.last().bold) * size,
            ;
    }
}

/// The width of a prefix of a segment run is at most the whole run's.
pub proof fn lemma_segs_w_prefix(s: Seq<SegV>, i: int, size: int)
    requires
        0 <= i <= s.len(),
        size >= 0,
    ensures
        segs_w(s.subrange(0, i), size) <= segs_w(s, size),
        segs_w(s.subrange(0, i), size) >= 0,
    decreases s.len() - i,
{
    lemma_segs_w_nonneg(s.subrange(0, i), size);
    if i == s.len() {
        assert(s.subrange(0, i) =~= s);
    } else {
        lemma_segs_w_prefix(s, i + 1, size);
        let a = s.subrange(0, i);
        let b = s.subrange(0, i + 1);
        assert(b.drop_last() =~= a);
        assert(b.last() == s[i]);
        lemma_units_of_bounds(s[i].text, s[i].bold);
        assert(seg_w(s[i], size) >= 0) by (nonlinear_arith)
            requires
                units_of(s[i].text, s[i].bold) >= 0,
                size >= 0,
                seg_w(s[i], size) == units_of(s[i].text, s[i].bold) * size,
            ;
    }
}

} // verus!
