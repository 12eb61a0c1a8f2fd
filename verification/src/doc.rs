use vstd::prelude::*;

verus! {

/// Inline content of a block: plain text, bold runs, link text
/// (rendered like plain text), and explicit line breaks.
pub enum Inline {
    Text(String),
    Strong(Vec<Inline>),
    Link(Vec<Inline>),
    LineBreak,
}

/// Mathematical model of an `Inline`: the same tree with sequences
/// in place of vectors and strings.
#[verifier::ext_equal]
pub enum InlineV {
    Text(Seq<char>),
    Strong(Seq<InlineV>),
    Link(Seq<InlineV>),
    LineBreak,
}

pub open spec fn iview(i: Inline) -> InlineV
    decreases i,
{
    match i {
        Inline::Text(t) => InlineV::Text(t@),
        Inline::Strong(v) => InlineV::Strong(inlines_view(v@)),
        Inline::Link(v) => InlineV::Link(inlines_view(v@)),
        Inline::LineBreak => InlineV::LineBreak,
    }
}

pub open spec fn inlines_view(s: Seq<Inline>) -> Seq<InlineV>
    decreases s,
{
    if s.len() == 0 {
        Seq::empty()
    } else {
        inlines_view(s.drop_last()).push(iview(s.last()))
    }
}

pub proof fn lemma_inlines_view_len(s: Seq<Inline>)
    ensures
        inlines_view(s).len() == s.len(),
    decreases s.len(),
{
    if s.len() > 0 {
        lemma_inlines_view_len(s.drop_last());
    }
}

pub proof fn lemma_inlines_view_index(s: Seq<Inline>, j: int)
    requires
        0 <= j < s.len(),
    ensures
        inlines_view(s).len() == s.len(),
        inlines_view(s)[j] == iview(s[j]),
    decreases s.len(),
{
    lemma_inlines_view_len(s);
    if j < s.len() - 1 {
        lemma_inlines_view_index(s.drop_last(), j);
    }
}

pub proof fn lemma_inlines_view_push(s: Seq<Inline>, i: Inline)
    ensures
        inlines_view(s.push(i)) == inlines_view(s).push(iview(i)),
{
    assert(s.push(i).drop_last() =~= s);
    assert(s.push(i).last() == i);
}

impl View for Inline {
    type V = InlineV;

    open spec fn view(&self) -> InlineV {
        iview(*self)
    }
}

/// A top-level structural unit of a document.
pub enum Block {
    Heading { level: u32, content: Vec<Inline> },
    Paragraph(Vec<Inline>),
    BulletList(Vec<Vec<Inline>>),
    Table(Vec<Vec<Vec<Inline>>>),
}

/// Mathematical model of a `Block`.
#[verifier::ext_equal]
pub enum BlockV {
    Heading { level: u32, content: Seq<InlineV> },
    Paragraph(Seq<InlineV>),
    BulletList(Seq<Seq<InlineV>>),
    Table(Seq<Seq<Seq<InlineV>>>),
}

pub open spec fn items_view(s: Seq<Vec<Inline>>) -> Seq<Seq<InlineV>> {
    s.map_values(|v: Vec<Inline>| inlines_view(v@))
}

pub open spec fn rows_view(s: Seq<Vec<Vec<Inline>>>) -> Seq<Seq<Seq<InlineV>>> {
    s.map_values(|r: Vec<Vec<Inline>>| items_view(r@))
}

pub open spec fn bview(b: Block) -> BlockV {
    match b {
        Block::Heading { level, content } => BlockV::Heading {
            level,
            content: inlines_view(content@),
        },
        Block::Paragraph(v) => BlockV::Paragraph(inlines_view(v@)),
        Block::BulletList(items) => BlockV::BulletList(items_view(items@)),
        Block::Table(rows) => BlockV::Table(rows_view(rows@)),
    }
}

impl View for Block {
    type V = BlockV;

    open spec fn view(&self) -> BlockV {
        bview(*self)
    }
}

pub open spec fn blocks_view(s: Seq<Block>) -> Seq<BlockV> {
    s.map_values(|b: Block| bview(b))
}

/// The characters with the Unicode `White_Space` property, the set that
/// `char::is_whitespace` recognises.
pub open spec fn is_ws_char(c: char) -> bool {
    c == ' ' || c == '\t' || c == '\n' || c == '\u{b}' || c == '\u{c}' || c == '\r' || c == '\u{85}'
        || c == '\u{a0}' || c == '\u{1680}' || c == '\u{2000}' || c == '\u{2001}' || c == '\u{2002}'
        || c == '\u{2003}' || c == '\u{2004}' || c == '\u{2005}' || c == '\u{2006}' || c == '\u{2007}'
        || c == '\u{2008}' || c == '\u{2009}' || c == '\u{200a}' || c == '\u{2028}' || c == '\u{2029}'
        || c == '\u{202f}' || c == '\u{205f}' || c == '\u{3000}'
}

/// Whether `c` has the Unicode `White_Space` property.
pub fn ws_char(c: char) -> (r: bool)
    ensures
        r == is_ws_char(c),
{
    c == ' ' || c == '\t' || c == '\n' || c == '\u{b}' || c == '\u{c}' || c == '\r' || c == '\u{85}'
        || c == '\u{a0}' || c == '\u{1680}' || c == '\u{2000}' || c == '\u{2001}' || c == '\u{2002}'
        || c == '\u{2003}' || c == '\u{2004}' || c == '\u{2005}' || c == '\u{2006}' || c == '\u{2007}'
        || c == '\u{2008}' || c == '\u{2009}' || c == '\u{200a}' || c == '\u{2028}' || c == '\u{2029}'
        || c == '\u{202f}' || c == '\u{205f}' || c == '\u{3000}'
}

pub open spec fn text_all_ws(s: Seq<char>) -> bool
    decreases s.len(),
{
    s.len() == 0 || (text_all_ws(s.drop_last()) && is_ws_char(s.last()))
}

/// Whether every character of `text` is whitespace; equivalently,
/// whether `text.trim()` is empty.
pub fn str_all_ws(text: &str) -> (r: bool)
    ensures
        r == text_all_ws(text@),
{
    let n: usize = text.unicode_len();
    let mut i: usize = 0;
    proof {
        assert(text@.subrange(0, 0) =~= Seq::<char>::empty());
    }
    while i < n
        invariant
            0 <= i <= n,
            n == text@.len(),
            text_all_ws(text@.subrange(0, i as int)),
        decreases n - i,
    {
        let c = text.get_char(i);
        proof {
            let pre = text@.subrange(0, i as int);
            let post = text@.subrange(0, i + 1);
            assert(post.drop_last() =~= pre);
            assert(post.last() == c);
        }
        if !ws_char(c) {
            proof {
                lemma_text_not_all_ws(text@, i as int);
            }
            return false;
        }
        i = i + 1;
    }
    proof {
        assert(text@.subrange(0, n as int) =~= text@);
    }
    true
}

proof fn lemma_text_not_all_ws(s: Seq<char>, j: int)
    requires
        0 <= j < s.len(),
        !is_ws_char(s[j]),
    ensures
        !text_all_ws(s),
    decreases s.len() - j,
{
    lemma_text_prefix_not_all_ws(s, s.len() as int, j);
    assert(s.subrange(0, s.len() as int) =~= s);
}

proof fn lemma_text_prefix_not_all_ws(s: Seq<char>, k: int, j: int)
    requires
        0 <= j < k <= s.len(),
        !is_ws_char(s[j]),
    ensures
        !text_all_ws(s.subrange(0, k)),
    decreases k,
{
    let pre = s.subrange(0, k);
    if j == k - 1 {
        assert(pre.last() == s[j]);
    } else {
        lemma_text_prefix_not_all_ws(s, k - 1, j);
        assert(pre.drop_last() =~= s.subrange(0, k - 1));
    }
}

/// Whether an inline tree is entirely whitespace: text nodes hold only
/// whitespace characters and line breaks count as whitespace.
pub open spec fn inline_ws(i: InlineV) -> bool
    decreases i,
{
    match i {
        InlineV::Text(t) => text_all_ws(t),
        InlineV::LineBreak => true,
        InlineV::Strong(children) => all_ws(children),
        InlineV::Link(children) => all_ws(children),
    }
}

pub open spec fn all_ws(s: Seq<InlineV>) -> bool
    decreases s,
{
    s.len() == 0 || (all_ws(s.drop_last()) && inline_ws(s.last()))
}

pub proof fn lemma_all_ws_not(s: Seq<InlineV>, j: int)
    requires
        0 <= j < s.len(),
        !inline_ws(s[j]),
    ensures
        !all_ws(s),
    decreases s.len(),
{
    if j < s.len() - 1 {
        lemma_all_ws_not(s.drop_last(), j);
    }
}

fn inline_is_ws(i: &Inline) -> (r: bool)
    ensures
        r == inline_ws(iview(*i)),
    decreases *i,
{
    match i {
        Inline::Text(t) => str_all_ws(t.as_str()),
        Inline::LineBreak => true,
        Inline::Strong(children) => is_all_whitespace(children),
        Inline::Link(children) => is_all_whitespace(children),
    }
}

/// Whether every inline in the sequence is entirely whitespace.
pub fn is_all_whitespace(inlines: &Vec<Inline>) -> (r: bool)
    ensures
        r == all_ws(inlines_view(inlines@)),
    decreases inlines@,
{
    let n = inlines.len();
    let mut i: usize = 0;
    proof {
        lemma_inlines_view_len(inlines@);
        assert(inlines_view(inlines@.subrange(0, 0)) =~= Seq::<InlineV>::empty());
    }
    while i < n
        invariant
            0 <= i <= n,
            n == inlines@.len(),
            all_ws(inlines_view(inlines@.subrange(0, i as int))),
        decreases n - i,
    {
        proof {
            assert(decreases_to!(inlines@ => inlines@[i as int]));
        }
        let ws = inline_is_ws(&inlines[i]);
        if !ws {
            proof {
                lemma_inlines_view_index(inlines@, i as int);
                lemma_all_ws_not(inlines_view(inlines@), i as int);
            }
            return false;
        }
        proof {
            let pre = inlines@.subrange(0, i as int);
            let post = inlines@.subrange(0, i + 1);
            assert(post.drop_last() =~= pre);
            assert(post.last() == inlines@[i as int]);
            let vpre = inlines_view(pre);
            let vpost = inlines_view(post);
            assert(vpost == vpre.push(iview(inlines@[i as int])));
            assert(vpost.drop_last() =~= vpre);
            assert(vpost.last() == iview(inlines@[i as int]));
        }
        i = i + 1;
    }
    proof {
        assert(inlines@.subrange(0, n as int) =~= inlines@);
    }
    true
}

/// The plain text of an inline sequence: text contents concatenated,
/// with `LineBreak` as a newline.
pub open spec fn plain_text_of_inline(i: InlineV) -> Seq<char>
    decreases i,
{
    match i {
        InlineV::Text(t) => t,
        InlineV::Strong(children) => plain_text_of(children),
        InlineV::Link(children) => plain_text_of(children),
        InlineV::LineBreak => seq!['\n'],
    }
}

pub open spec fn plain_text_of(s: Seq<InlineV>) -> Seq<char>
    decreases s,
{
    if s.len() == 0 {
        Seq::empty()
    } else {
        plain_text_of(s.drop_last()) + plain_text_of_inline(s.last())
    }
}

/// Appends the plain text of one inline to `output`.
fn collect_plain_text_inline(i: &Inline, output: &mut String)
    ensures
        final(output)@ == old(output)@ + plain_text_of_inline(iview(*i)),
    decreases *i,
{
    match i {
        Inline::Text(t) => {
            output.append(t.as_str());
        }
        Inline::Strong(children) => {
            collect_plain_text(children, output);
        }
        Inline::Link(children) => {
            collect_plain_text(children, output);
        }
        Inline::LineBreak => {
            output.append("\n");
            proof {
                reveal_strlit("\n");
                assert("\n"@ =~= seq!['\n']);
            }
        }
    }
}

/// Appends the plain text of the inline sequence to `output`.
pub fn collect_plain_text(inlines: &Vec<Inline>, output: &mut String)
    ensures
        final(output)@ == old(output)@ + plain_text_of(inlines_view(inlines@)),
    decreases inlines@,
{
    let n = inlines.len();
    let mut i: usize = 0;
    proof {
        lemma_inlines_view_len(inlines@);
        assert(inlines_view(inlines@.subrange(0, 0)) =~= Seq::<InlineV>::empty());
        assert(old(output)@ + plain_text_of(Seq::<InlineV>::empty()) =~= old(output)@);
    }
    while i < n
        invariant
            0 <= i <= n,
            n == inlines@.len(),
            output@ == old(output)@ + plain_text_of(inlines_view(inlines@.subrange(0, i as int))),
        decreases n - i,
    {
        proof {
            assert(decreases_to!(inlines@ => inlines@[i as int]));
        }
        collect_plain_text_inline(&inlines[i], output);
        proof {
            let pre = inlines@.subrange(0, i as int);
            let post = inlines@.subrange(0, i + 1);
            assert(inlines_view(post).drop_last() =~= inlines_view(pre)) by {
                assert(post.drop_last() =~= pre);
            }
            lemma_inlines_view_index(inlines@, i as int);
            assert(inlines_view(post).last() == iview(inlines@[i as int])) by {
                lemma_inlines_view_index(post, i as int);
                assert(post[i as int] == inlines@[i as int]);
            }
        }
        i = i + 1;
    }
    proof {
        assert(inlines@.subrange(0, n as int) =~= inlines@);
    }
}

/// The plain text of an inline sequence as a fresh string.
pub fn plain_text(inlines: &Vec<Inline>) -> (r: String)
    ensures
        r@ == plain_text_of(inlines_view(inlines@)),
{
    let mut result = String::new();
    collect_plain_text(inlines, &mut result);
    result
}

/// Whether the inline sequence contains a `Strong` node, looking inside
/// links but not inside other strong nodes.
pub open spec fn contains_strong_inline(i: InlineV) -> bool
    decreases i,
{
    match i {
        InlineV::Strong(_) => true,
        InlineV::Link(children) => contains_strong_of(children),
        _ => false,
    }
}

pub open spec fn contains_strong_of(s: Seq<InlineV>) -> bool
    decreases s,
{
    if s.len() == 0 {
        false
    } else {
        contains_strong_of(s.drop_last()) || contains_strong_inline(s.last())
    }
}

pub proof fn lemma_contains_strong_at(s: Seq<InlineV>, j: int)
    requires
        0 <= j < s.len(),
        contains_strong_inline(s[j]),
    ensures
        contains_strong_of(s),
    decreases s.len(),
{
    if j < s.len() - 1 {
        lemma_contains_strong_at(s.drop_last(), j);
    }
}

fn inline_contains_strong(i: &Inline) -> (r: bool)
    ensures
        r == contains_strong_inline(iview(*i)),
    decreases *i,
{
    match i {
        Inline::Strong(_) => true,
        Inline::Link(children) => contains_strong(children),
        _ => false,
    }
}

/// Whether any inline in the sequence is a `Strong` node (directly or
/// inside a link).
pub fn contains_strong(inlines: &Vec<Inline>) -> (r: bool)
    ensures
        r == contains_strong_of(inlines_view(inlines@)),
    decreases inlines@,
{
    let n = inlines.len();
    let mut i: usize = 0;
    proof {
        lemma_inlines_view_len(inlines@);
        assert(!contains_strong_of(inlines_view(inlines@.subrange(0, 0)))) by {
            assert(inlines_view(inlines@.subrange(0, 0)) =~= Seq::<InlineV>::empty());
        }
    }
    while i < n
        invariant
            0 <= i <= n,
            n == inlines@.len(),
            !contains_strong_of(inlines_view(inlines@.subrange(0, i as int))),
        decreases n - i,
    {
        proof {
            assert(decreases_to!(inlines@ => inlines@[i as int]));
        }
        let found = inline_contains_strong(&inlines[i]);
        if found {
            proof {
                lemma_inlines_view_index(inlines@, i as int);
                lemma_contains_strong_at(inlines_view(inlines@), i as int);
            }
            return true;
        }
        proof {
            let pre = inlines@.subrange(0, i as int);
            let post = inlines@.subrange(0, i + 1);
            assert(inlines_view(post).drop_last() =~= inlines_view(pre)) by {
                assert(post.drop_last() =~= pre);
            }
            lemma_inlines_view_index(post, i as int);
            assert(post[i as int] == inlines@[i as int]);
        }
        i = i + 1;
    }
    proof {
        assert(inlines@.subrange(0, n as int) =~= inlines@);
    }
    false
}

/// Whether two strings hold the same characters.
pub fn str_eq(a: &str, b: &str) -> (r: bool)
    ensures
        r == (a@ == b@),
{
    let n = a.unicode_len();
    let m = b.unicode_len();
    if n != m {
        return false;
    }
    let mut i: usize = 0;
    while i < n
        invariant
            0 <= i <= n,
            n == a@.len(),
            n == b@.len(),
            forall|k: int| 0 <= k < i ==> a@[k] == b@[k],
        decreases n - i,
    {
        let ca = a.get_char(i);
        let cb = b.get_char(i);
        if ca != cb {
            return false;
        }
        i = i + 1;
    }
    proof {
        assert(a@ =~= b@);
    }
    true
}

} // verus!
