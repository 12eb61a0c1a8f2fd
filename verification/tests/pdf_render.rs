use enkronio::pdf::render;

fn render_text(md: &str) -> String {
    String::from_utf8(render(md)).expect("PDF output is UTF-8 encodable text")
}

/// Rendering the same document twice yields byte-identical output.
#[test]
fn test_render_deterministic() {
    let md = "# Title\n\nSome **bold** text and a [link](https://example.net).\n\n- one\n- two\n";
    let a = render(md);
    let b = render(md);
    assert_eq!(a, b);
}

/// The empty document still produces one structurally complete page.
#[test]
fn test_render_empty_one_page() {
    let text = render_text("");
    assert_eq!(text.matches("/Type /Page ").count(), 1);
    assert!(text.contains("/Type /Pages /Count 1 /Kids [3 0 R] >>"));
    assert!(text.starts_with("%PDF-1.4\n"));
    assert!(text.ends_with("%%EOF\n"));
}

/// Every cross-reference entry points at its object's `N 0 obj` marker,
/// and the table holds Size − 1 entries.
fn check_xref(md: &str) {
    let bytes = render(md);
    let text = String::from_utf8(bytes.clone()).unwrap();
    let xref_pos = text.rfind("xref\n0 ").expect("xref table present");
    let after = &text[xref_pos + 7..];
    let nl = after.find('\n').unwrap();
    let size: usize = after[..nl].parse().unwrap();
    let entries = &after[nl + 1..];
    let mut lines = entries.lines();
    assert_eq!(lines.next().unwrap(), "0000000000 65535 f ");
    let mut count = 0;
    for id in 1..size {
        let line = lines.next().unwrap();
        assert_eq!(&line[10..], " 00000 n ");
        let off: usize = line[..10].parse().unwrap();
        let marker = format!("{id} 0 obj");
        let got = &bytes[off..off + marker.len()];
        assert_eq!(got, marker.as_bytes(), "object {id} marker at its offset");
        count += 1;
    }
    assert_eq!(count, size - 1);
    // the trailer's startxref points back at the table
    let sx = text.rfind("startxref\n").unwrap();
    let off: usize = text[sx + 10..].lines().next().unwrap().parse().unwrap();
    assert_eq!(&bytes[off..off + 4], b"xref");
}

#[test]
fn test_xref_offsets_empty_doc() {
    check_xref("");
}

#[test]
fn test_xref_offsets_rich_doc() {
    check_xref(
        "# Heading\n\nA paragraph with **bold** words.\n\n- item one\n- item two\n\n|K|V|\n|-|-|\n|a|b|\n",
    );
}

/// A table row shows only its first two cells: the third never appears.
#[test]
fn test_table_row_projection() {
    let text = render_text("|K|V|extra|\n|-|-|-|\n");
    assert!(text.contains("(K)"));
    assert!(text.contains("(V)"));
    assert!(!text.contains("extra"));
}

/// The second table cell is right-aligned: it starts where its width
/// ends at the right margin, and is bold when marked strong.
#[test]
fn test_table_value_right_aligned() {
    let text = render_text("|Key|**V**|\n|-|-|\n");
    // "V" bold at 9pt is 667 em-units: 6.003pt wide; 555 − 6.003 = 548.997
    assert!(text.contains("BT /F2 9 Tf 1 0 0 1 549.00 792.00 Tm (V) Tj ET\n"));
}

/// A two-line wrapped list item draws the bullet glyph exactly once.
#[test]
fn test_bullet_drawn_once() {
    let word = "word ".repeat(40);
    let md = format!("- {word}\n");
    let text = render_text(&md);
    assert_eq!(text.matches("(\\267)").count(), 1);
    // and the item really wrapped: more than one body line was placed
    assert!(text.matches(" Tm (word").count() >= 2);
}

/// A short level-1 heading is centered: (595 − width)/2 from the left.
#[test]
fn test_heading_centered() {
    // "Short" bold at 16pt: (667+611+611+389+333)/1000 × 16 = 41.776pt
    // x = (595 − 41.776)/2 = 276.612, rounded to 276.61
    let text = render_text("# Short");
    assert!(text.contains("BT /F2 16 Tf 1 0 0 1 276.61 792.00 Tm (Short) Tj ET\n"));
}

/// A level-1 heading wider than the page is clamped to the left margin.
#[test]
fn test_heading_clamped_to_margin() {
    let md = format!("# {}", "W".repeat(60));
    let text = render_text(&md);
    assert!(text.contains("Tf 1 0 0 1 40.00 792.00 Tm (WWW"));
}

/// Enough paragraphs overflow to a second page, and the page tree's
/// Kids and Count match the page count.
#[test]
fn test_pagination_two_pages() {
    let md = "A paragraph.\n\n".repeat(50);
    let text = render_text(&md);
    assert_eq!(text.matches("/Type /Page ").count(), 2);
    assert!(text.contains("/Type /Pages /Count 2 /Kids [3 0 R 4 0 R] >>"));
    check_xref(&md);
}

/// Parentheses and backslashes are escaped in PDF string literals.
#[test]
fn test_escaping() {
    let text = render_text("a (b) c \\ d");
    assert!(text.contains("(a \\(b\\) c \\\\ d)"));
}

/// Characters beyond Latin-1 degrade to question marks; Latin-1 stays.
#[test]
fn test_latin1_fallback() {
    let text = render_text("café 日本");
    assert!(text.contains("(café ??)"));
}

/// The body font is 9pt and lines advance by 14.4pt.
#[test]
fn test_body_line_metrics() {
    let text = render_text("one two\n\nthree");
    assert!(text.contains("BT /F1 9 Tf 1 0 0 1 40.00 792.00 Tm (one two) Tj ET\n"));
    // second paragraph: 792 − 14.4 − 8 = 769.6
    assert!(text.contains("BT /F1 9 Tf 1 0 0 1 40.00 769.60 Tm (three) Tj ET\n"));
}

/// Bold runs inside a paragraph switch to the bold font mid-line.
#[test]
fn test_bold_run_segments() {
    let text = render_text("plain **bold** after");
    // "plain " regular, then "bold" in F2, then " after" regular
    assert!(text.contains("Tm (plain ) Tj ET\n"));
    assert!(text.contains("BT /F2 9 Tf"));
    assert!(text.contains("Tm (bold) Tj ET\n"));
    assert!(text.contains("Tm ( after) Tj ET\n"));
}

/// Emphasis renders like strong text: a single style for both.
#[test]
fn test_emphasis_folds_into_bold() {
    let text = render_text("an *emphasised* word");
    assert!(text.contains("BT /F2 9 Tf"));
    assert!(text.contains("Tm (emphasised) Tj ET\n"));
}

/// The content stream's /Length matches the stream text exactly.
#[test]
fn test_stream_length_field() {
    let text = render_text("hello");
    let start = text.find("stream\n").unwrap() + 7;
    let end = text.find("\nendstream").unwrap();
    let data_len = text[start..end].len();
    assert!(text.contains(&format!("<< /Length {data_len} >>")));
}
