use vstd::prelude::*;

use crate::compose::{PdfPage, pages_view};
use crate::numfmt::{dec10_of, dec_of, usize_to_dec, usize_to_dec10};

verus! {

/// The length in bytes of a text once encoded as UTF-8, the unit in
/// which PDF cross-reference offsets count.
pub open spec fn byte_len(s: Seq<char>) -> int {
    vstd::utf8::encode_utf8(s).len() as int
}

/// An indirect object: its number, the literal `0 obj`, its content,
/// and the closing `endobj`.
pub open spec fn obj_full(id: int, content: Seq<char>) -> Seq<char> {
    dec_of(id) + " 0 obj\n"@ + content + "\nendobj\n"@
}

/// A stream object wrapping `data`, whose `/Length` is the data's byte
/// length.
pub open spec fn stream_full(id: int, data: Seq<char>) -> Seq<char> {
    dec_of(id) + " 0 obj\n<< /Length "@ + dec_of(byte_len(data)) + " >>\nstream\n"@ + data
        + "\nendstream\nendobj\n"@
}

/// The page count that the page tree advertises: at least one, so an
/// empty document still has one page slot.
pub open spec fn page_count_of(pages: Seq<Seq<char>>) -> int {
    if pages.len() == 0 {
        1
    } else {
        pages.len() as int
    }
}

pub open spec fn font_regular_id_of(pages: Seq<Seq<char>>) -> int {
    2 + page_count_of(pages) + 1
}

pub open spec fn font_bold_id_of(pages: Seq<Seq<char>>) -> int {
    2 + page_count_of(pages) + 2
}

pub open spec fn content_start_id_of(pages: Seq<Seq<char>>) -> int {
    2 + page_count_of(pages) + 3
}

/// Every object of the document: the two structural objects, one page
/// dictionary per page, the two fonts, and one content stream per page.
pub open spec fn total_objects_of(pages: Seq<Seq<char>>) -> int {
    2 + page_count_of(pages) + 2 + pages.len()
}

pub open spec fn catalog_text() -> Seq<char> {
    "<< /Type /Catalog /Pages 2 0 R >>"@
}

/// The `Kids` array body: one reference per advertised page, the page
/// objects being numbered from 3, separated by single spaces.
pub open spec fn kids_of(n: int) -> Seq<char>
    decreases n,
{
    if n <= 0 {
        Seq::empty()
    } else if n == 1 {
        dec_of(3) + " 0 R"@
    } else {
        kids_of(n - 1) + " "@ + dec_of(n + 2) + " 0 R"@
    }
}

pub open spec fn pages_obj_text(pages: Seq<Seq<char>>) -> Seq<char> {
    "<< /Type /Pages /Count "@ + dec_of(page_count_of(pages)) + " /Kids ["@ + kids_of(
        page_count_of(pages)) + "] >>"@
}

/// One page dictionary: the fixed A4 media box, the two shared font
/// resources, and the page's own content stream.
pub open spec fn page_dict_text(pages: Seq<Seq<char>>, i: int) -> Seq<char> {
    "<< /Type /Page /Parent 2 0 R /MediaBox [0 0 595.00 842.00] /Resources << /Font << /F1 "@
        + dec_of(font_regular_id_of(pages)) + " 0 R /F2 "@ + dec_of(font_bold_id_of(pages))
        + " 0 R >> >> /Contents "@ + dec_of(content_start_id_of(pages) + i) + " 0 R >>"@
}

pub open spec fn font_regular_text() -> Seq<char> {
    "<< /Type /Font /Subtype /Type1 /BaseFont /Helvetica >>"@
}

pub open spec fn font_bold_text() -> Seq<char> {
    "<< /Type /Font /Subtype /Type1 /BaseFont /Helvetica-Bold >>"@
}

pub open spec fn page_dicts_text(pages: Seq<Seq<char>>, i: int) -> Seq<char>
    decreases i,
{
    if i <= 0 {
        Seq::empty()
    } else {
        page_dicts_text(pages, i - 1) + obj_full(3 + (i - 1), page_dict_text(pages, i - 1))
    }
}

pub open spec fn streams_text(pages: Seq<Seq<char>>, i: int) -> Seq<char>
    decreases i,
{
    if i <= 0 {
        Seq::empty()
    } else {
        streams_text(pages, i - 1) + stream_full(content_start_id_of(pages) + (i - 1), pages[i
            - 1])
    }
}

// The document prefix up to each group of objects; the byte length of
// such a prefix is the cross-reference offset of what follows it.
pub open spec fn pre_obj1() -> Seq<char> {
    "%PDF-1.4\n"@
}

pub open spec fn pre_obj2(pages: Seq<Seq<char>>) -> Seq<char> {
    pre_obj1() + obj_full(1, catalog_text())
}

pub open spec fn pre_page(pages: Seq<Seq<char>>, i: int) -> Seq<char> {
    pre_obj2(pages) + obj_full(2, pages_obj_text(pages)) + page_dicts_text(pages, i)
}

pub open spec fn pre_font_regular(pages: Seq<Seq<char>>) -> Seq<char> {
    pre_page(pages, pages.len() as int)
}

pub open spec fn pre_font_bold(pages: Seq<Seq<char>>) -> Seq<char> {
    pre_font_regular(pages) + obj_full(font_regular_id_of(pages), font_regular_text())
}

pub open spec fn pre_stream(pages: Seq<Seq<char>>, i: int) -> Seq<char> {
    pre_font_bold(pages) + obj_full(font_bold_id_of(pages), font_bold_text()) + streams_text(
        pages, i)
}

/// The document body: every object in order, before the
/// cross-reference table.
pub open spec fn body_text(pages: Seq<Seq<char>>) -> Seq<char> {
    pre_stream(pages, pages.len() as int)
}

/// The byte offset of each object, as the cross-reference table lists
/// it: the byte length of everything written before the object. An
/// object id that is never written keeps offset zero.
pub open spec fn off_of(pages: Seq<Seq<char>>, id: int) -> int {
    if id == 1 {
        byte_len(pre_obj1())
    } else if id == 2 {
        byte_len(pre_obj2(pages))
    } else if 3 <= id < 3 + pages.len() {
        byte_len(pre_page(pages, id - 3))
    } else if id == font_regular_id_of(pages) {
        byte_len(pre_font_regular(pages))
    } else if id == font_bold_id_of(pages) {
        byte_len(pre_font_bold(pages))
    } else if content_start_id_of(pages) <= id < content_start_id_of(pages) + pages.len() {
        byte_len(pre_stream(pages, id - content_start_id_of(pages)))
    } else {
        0
    }
}

/// One cross-reference entry: the object's ten-digit byte offset, a
/// zero generation number, and the in-use mark.
pub open spec fn xref_entry(pages: Seq<Seq<char>>, id: int) -> Seq<char> {
    dec10_of(off_of(pages, id)) + " 00000 n \n"@
}

pub open spec fn xref_entries(pages: Seq<Seq<char>>, k: int) -> Seq<char>
    decreases k,
{
    if k <= 0 {
        Seq::empty()
    } else {
        xref_entries(pages, k - 1) + xref_entry(pages, k)
    }
}

/// The cross-reference table with its free head entry, and the trailer
/// pointing back at the table.
pub open spec fn doc_tail(pages: Seq<Seq<char>>) -> Seq<char> {
    "xref\n0 "@ + dec_of(total_objects_of(pages) + 1) + "\n"@ + "0000000000 65535 f \n"@
        + xref_entries(pages, total_objects_of(pages)) + "trailer<< /Size "@ + dec_of(
        total_objects_of(pages) + 1) + " /Root 1 0 R >>\nstartxref\n"@ + dec_of(byte_len(
        body_text(pages))) + "\n%%EOF\n"@
}

/// The whole document text: every object, then the cross-reference
/// table and trailer.
pub open spec fn pdf_text(pages: Seq<Seq<char>>) -> Seq<char> {
    body_text(pages) + doc_tail(pages)
}

/// The finished document as bytes: the document text, UTF-8 encoded.
pub open spec fn pdf_bytes(pages: Seq<Seq<char>>) -> Seq<u8> {
    vstd::utf8::encode_utf8(pdf_text(pages))
}

/// Appends one indirect object to the buffer and records its byte
/// offset under its id.
pub fn write_object(buffer: &mut String, offsets: &mut Vec<usize>, id: usize, content: &str)
    requires
        id < old(offsets)@.len(),
    ensures
        final(buffer)@ == old(buffer)@ + obj_full(id as int, content@),
        final(offsets)@.len() == old(offsets)@.len(),
        final(offsets)@[id as int] == byte_len(old(buffer)@),
        forall|j: int|
            0 <= j < old(offsets)@.len() && j != id ==> final(offsets)@[j] == old(
            offsets)@[j],
{
    let off = buffer.as_str().as_bytes().len();
    offsets.set(id, off);
    let d = usize_to_dec(id);
    buffer.append(d.as_str());
    buffer.append(" 0 obj\n");
    buffer.append(content);
    buffer.append("\nendobj\n");
    proof {
        assert(buffer@ =~= old(buffer)@ + obj_full(id as int, content@));
    }
}

/// Appends one content-stream object, whose `/Length` is the data's
/// byte length, and records its byte offset under its id.
pub fn write_stream(buffer: &mut String, offsets: &mut Vec<usize>, id: usize, data: &str)
    requires
        id < old(offsets)@.len(),
    ensures
        final(buffer)@ == old(buffer)@ + stream_full(id as int, data@),
        final(offsets)@.len() == old(offsets)@.len(),
        final(offsets)@[id as int] == byte_len(old(buffer)@),
        forall|j: int|
            0 <= j < old(offsets)@.len() && j != id ==> final(offsets)@[j] == old(
            offsets)@[j],
{
    let off = buffer.as_str().as_bytes().len();
    offsets.set(id, off);
    let d = usize_to_dec(id);
    buffer.append(d.as_str());
    buffer.append(" 0 obj\n<< /Length ");
    let dl = usize_to_dec(data.as_bytes().len());
    buffer.append(dl.as_str());
    buffer.append(" >>\nstream\n");
    buffer.append(data);
    buffer.append("\nendstream\nendobj\n");
    proof {
        assert(buffer@ =~= old(buffer)@ + stream_full(id as int, data@));
    }
}

/// Serializes the composed pages into a complete PDF 1.4 document:
/// catalog, page tree, page dictionaries, the two Type1 font objects,
/// one content stream per page, a cross-reference table whose offsets
/// are exact byte positions, and the trailer.
#[verifier::rlimit(80)]
pub fn write_pdf(pages: &Vec<PdfPage>) -> (r: Vec<u8>)
    requires
        pages@.len() < 0x1000000,
    ensures
        r@ == pdf_bytes(pages_view(pages@)),
{
    let ghost pv = pages_view(pages@);
    let mut buffer = String::new();
    buffer.append("%PDF-1.4\n");
    proof {
        assert(buffer@ =~= "%PDF-1.4\n"@);
    }

    let page_count: usize = if pages.len() > 0 {
        pages.len()
    } else {
        1
    };
    let base_objects = 2 + page_count;
    let font_regular_id = base_objects + 1;
    let font_bold_id = base_objects + 2;
    let content_start_id = font_bold_id + 1;
    let total_objects = base_objects + 2 + pages.len();
    let mut offsets: Vec<usize> = Vec::new();
    let mut z: usize = 0;
    while z < total_objects + 1
        invariant
            0 <= z <= total_objects + 1,
            total_objects == total_objects_of(pv),
            offsets@.len() == z,
            forall|j: int| 0 <= j < z ==> offsets@[j] == 0,
        decreases total_objects + 1 - z,
    {
        offsets.push(0);
        z = z + 1;
    }

    write_object(&mut buffer, &mut offsets, 1, "<< /Type /Catalog /Pages 2 0 R >>");
    proof {
        assert(buffer@ =~= pre_obj2(pv));
        assert(offsets@[1] == off_of(pv, 1)) by {
            assert("%PDF-1.4\n"@ == pre_obj1());
        }
    }

    let mut kids = String::new();
    let mut i: usize = 0;
    while i < page_count
        invariant
            0 <= i <= page_count,
            page_count <= 0x1000000,
            kids@ == kids_of(i as int),
        decreases page_count - i,
    {
        if i > 0 {
            kids.append(" ");
        }
        let d = usize_to_dec(3 + i);
        kids.append(d.as_str());
        kids.append(" 0 R");
        proof {
            assert(kids@ =~= kids_of(i + 1));
        }
        i = i + 1;
    }
    let mut pages_obj = String::new();
    pages_obj.append("<< /Type /Pages /Count ");
    let d = usize_to_dec(page_count);
    pages_obj.append(d.as_str());
    pages_obj.append(" /Kids [");
    pages_obj.append(kids.as_str());
    pages_obj.append("] >>");
    proof {
        assert(pages_obj@ =~= pages_obj_text(pv));
    }
    write_object(&mut buffer, &mut offsets, 2, pages_obj.as_str());
    proof {
        assert(buffer@ =~= pre_page(pv, 0));
    }

    let mut p: usize = 0;
    while p < pages.len()
        invariant
            0 <= p <= pages@.len(),
            pv == pages_view(pages@),
            pages@.len() < 0x1000000,
            page_count == (if pages@.len() > 0 {
                pages@.len() as int
            } else {
                1int
            }),
            base_objects == 2 + page_count,
            font_regular_id == font_regular_id_of(pv),
            font_bold_id == font_bold_id_of(pv),
            content_start_id == content_start_id_of(pv),
            total_objects == total_objects_of(pv),
            offsets@.len() == total_objects + 1,
            buffer@ == pre_page(pv, p as int),
            offsets@[1] == off_of(pv, 1),
            offsets@[2] == off_of(pv, 2),
            forall|k: int| 0 <= k < p ==> #[trigger] offsets@[3 + k] == off_of(pv, 3 + k),
            forall|j: int|
                3 + p <= j < total_objects + 1 ==> offsets@[j] == 0,
        decreases pages@.len() - p,
    {
        let mut dict = String::new();
        dict.append(
            "<< /Type /Page /Parent 2 0 R /MediaBox [0 0 595.00 842.00] /Resources << /Font << /F1 ",
        );
        let d1 = usize_to_dec(font_regular_id);
        dict.append(d1.as_str());
        dict.append(" 0 R /F2 ");
        let d2 = usize_to_dec(font_bold_id);
        dict.append(d2.as_str());
        dict.append(" 0 R >> >> /Contents ");
        let d3 = usize_to_dec(content_start_id + p);
        dict.append(d3.as_str());
        dict.append(" 0 R >>");
        proof {
            assert(dict@ =~= page_dict_text(pv, p as int));
        }
        write_object(&mut buffer, &mut offsets, 3 + p, dict.as_str());
        proof {
            assert(buffer@ =~= pre_page(pv, p + 1));
        }
        p = p + 1;
    }

    write_object(
        &mut buffer,
        &mut offsets,
        font_regular_id,
        "<< /Type /Font /Subtype /Type1 /BaseFont /Helvetica >>",
    );
    proof {
        assert(buffer@ =~= pre_font_bold(pv));
    }
    write_object(
        &mut buffer,
        &mut offsets,
        font_bold_id,
        "<< /Type /Font /Subtype /Type1 /BaseFont /Helvetica-Bold >>",
    );
    proof {
        assert(buffer@ =~= pre_stream(pv, 0));
    }

    let mut q: usize = 0;
    while q < pages.len()
        invariant
            0 <= q <= pages@.len(),
            pv == pages_view(pages@),
            pages@.len() < 0x1000000,
            font_regular_id == font_regular_id_of(pv),
            font_bold_id == font_bold_id_of(pv),
            content_start_id == content_start_id_of(pv),
            total_objects == total_objects_of(pv),
            offsets@.len() == total_objects + 1,
            buffer@ == pre_stream(pv, q as int),
            offsets@[1] == off_of(pv, 1),
            offsets@[2] == off_of(pv, 2),
            forall|k: int| 0 <= k < pages@.len() ==> #[trigger] offsets@[3 + k] == off_of(pv, 3 + k),
            offsets@[font_regular_id as int] == off_of(pv, font_regular_id as int),
            offsets@[font_bold_id as int] == off_of(pv, font_bold_id as int),
            forall|k: int|
                0 <= k < q ==> #[trigger] offsets@[content_start_id + k] == off_of(pv,
                    content_start_id + k),
            forall|j: int|
                content_start_id + q <= j < total_objects + 1 ==> offsets@[j] == 0,
            pages@.len() == 0 ==> offsets@[3] == 0,
        decreases pages@.len() - q,
    {
        proof {
            assert(pv[q as int] == pages@[q as int]@);
        }
        write_stream(&mut buffer, &mut offsets, content_start_id + q, pages[q].content.as_str());
        proof {
            assert(buffer@ =~= pre_stream(pv, q + 1));
        }
        q = q + 1;
    }

    let xref_offset = buffer.as_str().as_bytes().len();
    proof {
        assert(xref_offset == byte_len(body_text(pv)));
        assert forall|j: int| 1 <= j <= total_objects implies offsets@[j] == off_of(pv, j) by {
            if j == 1 || j == 2 {
            } else if 3 <= j < 3 + pages@.len() {
                assert(offsets@[3 + (j - 3)] == off_of(pv, 3 + (j - 3)));
            } else if j == font_regular_id || j == font_bold_id {
            } else if content_start_id <= j < content_start_id + pages@.len() {
                assert(offsets@[content_start_id + (j - content_start_id)] == off_of(pv,
                    content_start_id + (j - content_start_id)));
            } else {
                assert(pages@.len() == 0 && j == 3);
                assert(off_of(pv, j) == 0);
            }
        }
    }
    buffer.append("xref\n0 ");
    let dt = usize_to_dec(total_objects + 1);
    buffer.append(dt.as_str());
    buffer.append("\n");
    buffer.append("0000000000 65535 f \n");
    let ghost body_and_head = buffer@;
    proof {
        assert(body_and_head =~= body_text(pv) + "xref\n0 "@ + dec_of(total_objects_of(pv) + 1)
            + "\n"@ + "0000000000 65535 f \n"@);
    }

    let mut id: usize = 1;
    while id <= total_objects
        invariant
            1 <= id <= total_objects + 1,
            total_objects == total_objects_of(pv),
            offsets@.len() == total_objects + 1,
            forall|j: int| 1 <= j <= total_objects ==> offsets@[j] == off_of(pv, j),
            buffer@ == body_and_head + xref_entries(pv, id - 1),
        decreases total_objects + 1 - id,
    {
        let e = usize_to_dec10(offsets[id]);
        buffer.append(e.as_str());
        buffer.append(" 00000 n \n");
        proof {
            assert(buffer@ =~= body_and_head + xref_entries(pv, id as int));
        }
        id = id + 1;
    }

    buffer.append("trailer<< /Size ");
    let ds = usize_to_dec(total_objects + 1);
    buffer.append(ds.as_str());
    buffer.append(" /Root 1 0 R >>\nstartxref\n");
    let dx = usize_to_dec(xref_offset);
    buffer.append(dx.as_str());
    buffer.append("\n%%EOF\n");
    proof {
        assert(buffer@ =~= pdf_text(pv));
    }
    buffer.as_str().as_bytes_vec()
}

// ------------------------------------------------------------------
// Cross-reference validity
// ------------------------------------------------------------------

/// The marker that opens every indirect object.
pub open spec fn obj_marker(id: int) -> Seq<char> {
    dec_of(id) + " 0 obj"@
}

proof fn lemma_utf8_concat(a: Seq<char>, b: Seq<char>)
    ensures
        vstd::utf8::encode_utf8(a + b) == vstd::utf8::encode_utf8(a) + vstd::utf8::encode_utf8(
            b),
    decreases a.len(),
{
    if a.len() == 0 {
        assert(a + b =~= b);
        assert(vstd::utf8::encode_utf8(a) =~= Seq::<u8>::empty());
        assert(vstd::utf8::encode_utf8(a) + vstd::utf8::encode_utf8(b) =~= vstd::utf8::encode_utf8(
            b));
    } else {
        lemma_utf8_concat(a.drop_first(), b);
        assert((a + b)[0] == a[0]);
        assert((a + b).drop_first() =~= a.drop_first() + b);
        assert(vstd::utf8::encode_utf8(a + b) =~= vstd::utf8::encode_utf8(a)
            + vstd::utf8::encode_utf8(b));
    }
}

proof fn lemma_byte_len_concat(a: Seq<char>, b: Seq<char>)
    ensures
        byte_len(a + b) == byte_len(a) + byte_len(b),
{
    lemma_utf8_concat(a, b);
}

/// `obj_full` and `stream_full` both start with the object marker.
proof fn lemma_obj_starts_with_marker(id: int, content: Seq<char>)
    ensures
        obj_full(id, content) == obj_marker(id) + ("\n"@ + content + "\nendobj\n"@),
{
    reveal_strlit(" 0 obj\n");
    reveal_strlit(" 0 obj");
    reveal_strlit("\n");
    assert(" 0 obj\n"@ =~= " 0 obj"@ + "\n"@);
    assert(obj_full(id, content) =~= obj_marker(id) + ("\n"@ + content + "\nendobj\n"@));
}

proof fn lemma_stream_starts_with_marker(id: int, data: Seq<char>)
    ensures
        stream_full(id, data) == obj_marker(id) + ("\n<< /Length "@ + dec_of(byte_len(data))
            + " >>\nstream\n"@ + data + "\nendstream\nendobj\n"@),
{
    reveal_strlit(" 0 obj\n<< /Length ");
    reveal_strlit(" 0 obj");
    reveal_strlit("\n<< /Length ");
    assert(" 0 obj\n<< /Length "@ =~= " 0 obj"@ + "\n<< /Length "@);
    assert(stream_full(id, data) =~= obj_marker(id) + ("\n<< /Length "@ + dec_of(byte_len(
        data)) + " >>\nstream\n"@ + data + "\nendstream\nendobj\n"@));
}

proof fn lemma_page_dicts_decomp(pages: Seq<Seq<char>>, k: int, n: int)
    requires
        0 <= k <= n,
    ensures
        exists|d: Seq<char>| page_dicts_text(pages, n) == #[trigger] (page_dicts_text(pages, k) + d),
    decreases n - k,
{
    if k == n {
        let d = Seq::<char>::empty();
        assert(page_dicts_text(pages, n) =~= page_dicts_text(pages, k) + d);
    } else {
        lemma_page_dicts_decomp(pages, k, n - 1);
        let d0 = choose|d: Seq<char>|
            page_dicts_text(pages, n - 1) == #[trigger] (page_dicts_text(pages, k) + d);
        let d = d0 + obj_full(3 + (n - 1), page_dict_text(pages, n - 1));
        assert(page_dicts_text(pages, n) =~= page_dicts_text(pages, k) + d);
    }
}

proof fn lemma_streams_decomp(pages: Seq<Seq<char>>, k: int, n: int)
    requires
        0 <= k <= n,
    ensures
        exists|d: Seq<char>| streams_text(pages, n) == #[trigger] (streams_text(pages, k) + d),
    decreases n - k,
{
    if k == n {
        let d = Seq::<char>::empty();
        assert(streams_text(pages, n) =~= streams_text(pages, k) + d);
    } else {
        lemma_streams_decomp(pages, k, n - 1);
        let d0 = choose|d: Seq<char>| streams_text(pages, n - 1) == #[trigger] (streams_text(pages, k) + d);
        let d = d0 + stream_full(content_start_id_of(pages) + (n - 1), pages[n - 1]);
        assert(streams_text(pages, n) =~= streams_text(pages, k) + d);
    }
}

/// The document text splits, at every object id, into the prefix whose
/// byte length the cross-reference table records, the object's marker,
/// and a remainder.
proof fn assoc(a: Seq<char>, b: Seq<char>, c: Seq<char>)
    ensures
        (a + b) + c == a + (b + c),
{
    assert((a + b) + c =~= a + (b + c));
}

proof fn lemma_marker_case_structural(pages: Seq<Seq<char>>, id: int)
    requires
        pages.len() >= 1,
        id == 1 || id == 2,
    ensures
        exists|rest: Seq<char>|
            pdf_text(pages) == #[trigger] (pre_for(pages, id) + obj_marker(id) + rest),
{
    let n = pages.len() as int;
    let f1 = font_regular_id_of(pages);
    let f2 = font_bold_id_of(pages);
    let tl = doc_tail(pages);
    let p1 = pre_obj1();
    let a1 = obj_full(1, catalog_text());
    let o2 = obj_full(2, pages_obj_text(pages));
    let dt = page_dicts_text(pages, n);
    let of1 = obj_full(f1, font_regular_text());
    let of2 = obj_full(f2, font_bold_text());
    let st = streams_text(pages, n);
    assert(body_text(pages) == (((((p1 + a1) + o2) + dt) + of1) + of2) + st);
    if id == 1 {
        lemma_obj_starts_with_marker(1, catalog_text());
        let inner = "\n"@ + catalog_text() + "\nendobj\n"@;
        assoc(((((p1 + a1) + o2) + dt) + of1) + of2, st, tl);
        assoc((((p1 + a1) + o2) + dt) + of1, of2, st + tl);
        assoc(((p1 + a1) + o2) + dt, of1, of2 + (st + tl));
        assoc((p1 + a1) + o2, dt, of1 + (of2 + (st + tl)));
        assoc(p1 + a1, o2, dt + (of1 + (of2 + (st + tl))));
        let g = o2 + (dt + (of1 + (of2 + (st + tl))));
        assert(pdf_text(pages) == (p1 + a1) + g);
        assoc(p1, a1, g);
        assert(a1 == obj_marker(1) + inner);
        assoc(obj_marker(1), inner, g);
        assert(p1 + (a1 + g) == p1 + (obj_marker(1) + (inner + g)));
        assoc(p1, obj_marker(1), inner + g);
        assert(pdf_text(pages) == (p1 + obj_marker(1)) + (inner + g));
        assert(pdf_text(pages) == pre_for(pages, 1) + obj_marker(1) + (inner + g));
    } else {
        lemma_obj_starts_with_marker(2, pages_obj_text(pages));
        let inner = "\n"@ + pages_obj_text(pages) + "\nendobj\n"@;
        assoc(((((p1 + a1) + o2) + dt) + of1) + of2, st, tl);
        assoc((((p1 + a1) + o2) + dt) + of1, of2, st + tl);
        assoc(((p1 + a1) + o2) + dt, of1, of2 + (st + tl));
        assoc((p1 + a1) + o2, dt, of1 + (of2 + (st + tl)));
        let g = dt + (of1 + (of2 + (st + tl)));
        assert(pdf_text(pages) == ((p1 + a1) + o2) + g);
        assoc(p1 + a1, o2, g);
        assert(o2 == obj_marker(2) + inner);
        assoc(obj_marker(2), inner, g);
        assoc(p1 + a1, obj_marker(2), inner + g);
        assert(pdf_text(pages) == ((p1 + a1) + obj_marker(2)) + (inner + g));
        assert(pdf_text(pages) == pre_for(pages, 2) + obj_marker(2) + (inner + g));
    }
}

proof fn lemma_marker_case_page(pages: Seq<Seq<char>>, id: int)
    requires
        pages.len() >= 1,
        3 <= id < 3 + pages.len(),
    ensures
        exists|rest: Seq<char>|
            pdf_text(pages) == #[trigger] (pre_for(pages, id) + obj_marker(id) + rest),
{
    let n = pages.len() as int;
    let f1 = font_regular_id_of(pages);
    let f2 = font_bold_id_of(pages);
    let tl = doc_tail(pages);
    let k = id - 3;
    let pp = pre_page(pages, k);
    let ak = obj_full(id, page_dict_text(pages, k));
    lemma_obj_starts_with_marker(id, page_dict_text(pages, k));
    let inner = "\n"@ + page_dict_text(pages, k) + "\nendobj\n"@;
    lemma_page_dicts_decomp(pages, k + 1, n);
    let d = choose|d: Seq<char>|
        page_dicts_text(pages, n) == #[trigger] (page_dicts_text(pages, k + 1) + d);
    let of1 = obj_full(f1, font_regular_text());
    let of2 = obj_full(f2, font_bold_text());
    let st = streams_text(pages, n);
    let base = pre_obj2(pages) + obj_full(2, pages_obj_text(pages));
    assert(page_dicts_text(pages, k + 1) == page_dicts_text(pages, k) + ak);
    // pre_page(pages, n) == base + page_dicts_text(pages, n) == base + ((dicts_k + ak) + d)
    assoc(page_dicts_text(pages, k), ak, d);
    assert(page_dicts_text(pages, n) == page_dicts_text(pages, k) + (ak + d));
    // regroup the whole document around the page object
    assert(body_text(pages) == (((base + page_dicts_text(pages, n)) + of1) + of2) + st);
    assoc(((base + page_dicts_text(pages, n)) + of1) + of2, st, tl);
    assoc((base + page_dicts_text(pages, n)) + of1, of2, st + tl);
    assoc(base + page_dicts_text(pages, n), of1, of2 + (st + tl));
    let g = of1 + (of2 + (st + tl));
    assert(pdf_text(pages) == (base + page_dicts_text(pages, n)) + g);
    assert(pdf_text(pages) == (base + (page_dicts_text(pages, k) + (ak + d))) + g);
    assoc(base, page_dicts_text(pages, k), ak + d);
    assert(pdf_text(pages) == ((base + page_dicts_text(pages, k)) + (ak + d)) + g);
    assert(pp == base + page_dicts_text(pages, k));
    assoc(pp, ak + d, g);
    assoc(ak, d, g);
    assert(pdf_text(pages) == pp + (ak + (d + g)));
    assert(ak == obj_marker(id) + inner);
    assoc(obj_marker(id), inner, d + g);
    assert(pdf_text(pages) == pp + (obj_marker(id) + (inner + (d + g))));
    assoc(pp, obj_marker(id), inner + (d + g));
    assert(pdf_text(pages) == (pp + obj_marker(id)) + (inner + (d + g)));
    assert(pdf_text(pages) == pre_for(pages, id) + obj_marker(id) + (inner + (d + g)));
}

proof fn lemma_marker_case_font(pages: Seq<Seq<char>>, id: int)
    requires
        pages.len() >= 1,
        id == font_regular_id_of(pages) || id == font_bold_id_of(pages),
    ensures
        exists|rest: Seq<char>|
            pdf_text(pages) == #[trigger] (pre_for(pages, id) + obj_marker(id) + rest),
{
    let n = pages.len() as int;
    let f1 = font_regular_id_of(pages);
    let f2 = font_bold_id_of(pages);
    let tl = doc_tail(pages);
    let of1 = obj_full(f1, font_regular_text());
    let of2 = obj_full(f2, font_bold_text());
    let st = streams_text(pages, n);
    if id == f1 {
        lemma_obj_starts_with_marker(id, font_regular_text());
        let inner = "\n"@ + font_regular_text() + "\nendobj\n"@;
        let pre = pre_font_regular(pages);
        assert(body_text(pages) == ((pre + of1) + of2) + st);
        assoc((pre + of1) + of2, st, tl);
        assoc(pre + of1, of2, st + tl);
        let g = of2 + (st + tl);
        assert(pdf_text(pages) == (pre + of1) + g);
        assoc(pre, of1, g);
        assert(of1 == obj_marker(id) + inner);
        assoc(obj_marker(id), inner, g);
        assoc(pre, obj_marker(id), inner + g);
        assert(pdf_text(pages) == (pre + obj_marker(id)) + (inner + g));
        assert(pdf_text(pages) == pre_for(pages, id) + obj_marker(id) + (inner + g));
    } else {
        lemma_obj_starts_with_marker(id, font_bold_text());
        let inner = "\n"@ + font_bold_text() + "\nendobj\n"@;
        let pre = pre_font_bold(pages);
        assert(body_text(pages) == (pre + of2) + st);
        assoc(pre + of2, st, tl);
        let g = st + tl;
        assert(pdf_text(pages) == (pre + of2) + g);
        assoc(pre, of2, g);
        assert(of2 == obj_marker(id) + inner);
        assoc(obj_marker(id), inner, g);
        assoc(pre, obj_marker(id), inner + g);
        assert(pdf_text(pages) == (pre + obj_marker(id)) + (inner + g));
        assert(pdf_text(pages) == pre_for(pages, id) + obj_marker(id) + (inner + g));
    }
}

proof fn lemma_marker_case_stream(pages: Seq<Seq<char>>, id: int)
    requires
        pages.len() >= 1,
        content_start_id_of(pages) <= id < content_start_id_of(pages) + pages.len(),
    ensures
        exists|rest: Seq<char>|
            pdf_text(pages) == #[trigger] (pre_for(pages, id) + obj_marker(id) + rest),
{
    let n = pages.len() as int;
    let cs = content_start_id_of(pages);
    let tl = doc_tail(pages);
    let k = id - cs;
    lemma_stream_starts_with_marker(id, pages[k]);
    let inner = "\n<< /Length "@ + dec_of(byte_len(pages[k])) + " >>\nstream\n"@ + pages[k]
        + "\nendstream\nendobj\n"@;
    lemma_streams_decomp(pages, k + 1, n);
    let d = choose|d: Seq<char>|
        streams_text(pages, n) == #[trigger] (streams_text(pages, k + 1) + d);
    let ak = stream_full(id, pages[k]);
    let base = pre_font_bold(pages) + obj_full(font_bold_id_of(pages), font_bold_text());
    assert(streams_text(pages, k + 1) == streams_text(pages, k) + ak);
    assoc(streams_text(pages, k), ak, d);
    assert(streams_text(pages, n) == streams_text(pages, k) + (ak + d));
    assert(body_text(pages) == base + streams_text(pages, n));
    assoc(base, streams_text(pages, n), tl);
    assert(pdf_text(pages) == base + (streams_text(pages, n) + tl));
    assoc(streams_text(pages, k), ak + d, tl);
    assert(streams_text(pages, n) + tl == streams_text(pages, k) + ((ak + d) + tl));
    assoc(ak, d, tl);
    assert(streams_text(pages, n) + tl == streams_text(pages, k) + (ak + (d + tl)));
    let pre = pre_stream(pages, k);
    assert(pre == base + streams_text(pages, k));
    assoc(base, streams_text(pages, k), ak + (d + tl));
    assert(pdf_text(pages) == pre + (ak + (d + tl)));
    assert(ak == obj_marker(id) + inner);
    assoc(obj_marker(id), inner, d + tl);
    assert(pdf_text(pages) == pre + (obj_marker(id) + (inner + (d + tl))));
    assoc(pre, obj_marker(id), inner + (d + tl));
    assert(pdf_text(pages) == (pre + obj_marker(id)) + (inner + (d + tl)));
    assert(pdf_text(pages) == pre_for(pages, id) + obj_marker(id) + (inner + (d + tl)));
}

proof fn lemma_marker_after_prefix(pages: Seq<Seq<char>>, id: int)
    requires
        pages.len() >= 1,
        1 <= id <= total_objects_of(pages),
    ensures
        exists|rest: Seq<char>|
            pdf_text(pages) == #[trigger] (pre_for(pages, id) + obj_marker(id) + rest),
        byte_len(pre_for(pages, id)) == off_of(pages, id),
{
    if id == 1 || id == 2 {
        lemma_marker_case_structural(pages, id);
    } else if 3 <= id < 3 + pages.len() {
        lemma_marker_case_page(pages, id);
    } else if id == font_regular_id_of(pages) || id == font_bold_id_of(pages) {
        lemma_marker_case_font(pages, id);
    } else {
        lemma_marker_case_stream(pages, id);
    }
}

/// The text written before each object, whose byte length is the
/// object's recorded offset.
pub open spec fn pre_for(pages: Seq<Seq<char>>, id: int) -> Seq<char> {
    if id == 1 {
        pre_obj1()
    } else if id == 2 {
        pre_obj2(pages)
    } else if 3 <= id < 3 + pages.len() {
        pre_page(pages, id - 3)
    } else if id == font_regular_id_of(pages) {
        pre_font_regular(pages)
    } else if id == font_bold_id_of(pages) {
        pre_font_bold(pages)
    } else {
        pre_stream(pages, id - content_start_id_of(pages))
    }
}

/// Cross-reference offset law: in a document with at least one page,
/// every object's recorded byte offset points exactly at that object's
/// `<id> 0 obj` marker in the emitted bytes.
pub proof fn lemma_xref_offsets_valid(pages: Seq<Seq<char>>, id: int)
    requires
        pages.len() >= 1,
        1 <= id <= total_objects_of(pages),
    ensures
        0 <= off_of(pages, id),
        off_of(pages, id) + byte_len(obj_marker(id)) <= pdf_bytes(pages).len(),
        pdf_bytes(pages).subrange(off_of(pages, id), off_of(pages, id) + byte_len(obj_marker(
            id))) == vstd::utf8::encode_utf8(obj_marker(id)),
{
    lemma_marker_after_prefix(pages, id);
    let rest = choose|rest: Seq<char>|
        pdf_text(pages) == #[trigger] (pre_for(pages, id) + obj_marker(id) + rest);
    let pre = pre_for(pages, id);
    let marker = obj_marker(id);
    lemma_utf8_concat(pre + marker, rest);
    lemma_utf8_concat(pre, marker);
    let ep = vstd::utf8::encode_utf8(pre);
    let em = vstd::utf8::encode_utf8(marker);
    let er = vstd::utf8::encode_utf8(rest);
    assert(pdf_bytes(pages) == ep + em + er);
    assert(off_of(pages, id) == ep.len());
    assert(pdf_bytes(pages).subrange(ep.len() as int, (ep.len() + em.len()) as int) =~= em);
}

/// Powers of ten, for bounding the length of a decimal form.
pub open spec fn pow_ten(k: int) -> int
    decreases k,
{
    if k <= 0 {
        1
    } else {
        10 * pow_ten(k - 1)
    }
}

proof fn lemma_dec_of_len_bound(n: int, k: int)
    requires
        0 <= n < pow_ten(k),
        k >= 1,
    ensures
        dec_of(n).len() <= k,
    decreases k,
{
    if n < 10 {
    } else {
        assert(k >= 2) by {
            reveal_with_fuel(pow_ten, 2);
            assert(pow_ten(1) == 10);
        }
        lemma_dec_of_len_bound(n / 10, k - 1);
    }
}

/// Cross-reference size law: in a document small enough for ten-digit
/// offsets, the table after the free head entry consists of exactly
/// `Size − 1` fixed-width twenty-character entries, `Size` being the
/// object count the trailer declares.
pub proof fn lemma_xref_entry_count(pages: Seq<Seq<char>>, k: int)
    requires
        0 <= k <= total_objects_of(pages),
        forall|id: int|
            1 <= id <= total_objects_of(pages) ==> #[trigger] off_of(pages, id)
                < 10000000000,
        forall|id: int| 1 <= id <= total_objects_of(pages) ==> #[trigger] off_of(pages, id) >= 0,
    ensures
        xref_entries(pages, k).len() == 20 * k,
    decreases k,
{
    if k > 0 {
        lemma_xref_entry_count(pages, k - 1);
        assert(pow_ten(10) == 10000000000) by {
            reveal_with_fuel(pow_ten, 11);
        }
        lemma_dec_of_len_bound(off_of(pages, k), 10);
        crate::numfmt::lemma_dec_of_len(off_of(pages, k));
        reveal_strlit(" 00000 n \n");
        assert(" 00000 n \n"@.len() == 10);
        assert(dec10_of(off_of(pages, k)).len() == 10);
        assert(xref_entry(pages, k).len() == 20);
    }
}

// ------------------------------------------------------------------
// The page tree
// ------------------------------------------------------------------

/// The kid references of the page tree, in order: page objects are
/// numbered from 3.
pub open spec fn kids_refs(n: int) -> Seq<Seq<char>>
    decreases n,
{
    if n <= 0 {
        Seq::empty()
    } else {
        kids_refs(n - 1).push(dec_of(n + 2) + " 0 R"@)
    }
}

pub open spec fn space_join(parts: Seq<Seq<char>>) -> Seq<char>
    decreases parts.len(),
{
    if parts.len() == 0 {
        Seq::empty()
    } else if parts.len() == 1 {
        parts[0]
    } else {
        space_join(parts.drop_last()) + " "@ + parts.last()
    }
}

proof fn lemma_kids_refs_len(n: int)
    requires
        n >= 0,
    ensures
        kids_refs(n).len() == n,
    decreases n,
{
    if n > 0 {
        lemma_kids_refs_len(n - 1);
    }
}

proof fn lemma_kids_join(n: int)
    requires
        n >= 0,
    ensures
        kids_of(n) == space_join(kids_refs(n)),
    decreases n,
{
    if n == 0 {
    } else if n == 1 {
        lemma_kids_refs_len(1);
        assert(kids_refs(1)[0] == dec_of(3) + " 0 R"@);
    } else {
        lemma_kids_join(n - 1);
        lemma_kids_refs_len(n);
        assert(kids_refs(n).drop_last() =~= kids_refs(n - 1));
        assert(kids_refs(n).last() == dec_of(n + 2) + " 0 R"@);
    }
}

/// Page tree law: the Pages object declares `/Count n` and its `Kids`
/// array holds exactly `n` object references, `n` being the advertised
/// page count.
pub proof fn lemma_page_tree(pages: Seq<Seq<char>>)
    ensures
        kids_refs(page_count_of(pages)).len() == page_count_of(pages),
        kids_of(page_count_of(pages)) == space_join(kids_refs(page_count_of(pages))),
        pages_obj_text(pages) == "<< /Type /Pages /Count "@ + dec_of(page_count_of(pages))
            + " /Kids ["@ + space_join(kids_refs(page_count_of(pages))) + "] >>"@,
{
    lemma_kids_refs_len(page_count_of(pages));
    lemma_kids_join(page_count_of(pages));
}

} // verus!
