use enkronio::entries::{is_entry_locked, LockedEntry};
use enkronio::htmlgen::{generate_404_html, generate_directory_index_html,
    generate_locked_stub_from_encrypted};
use enkronio::rend::Layout;
use enkronio::templates;

#[test]
fn test_layout_header_carries_hashes() {
    let h = Layout::header("aaa111", "bbb222");
    assert!(h.contains("/css/main.css?v=aaa111"));
    assert!(h.contains("/web/hack.css?v=bbb222"));
    assert!(h.contains("<title>enk junkyard</title>"));
    assert!(h.contains("theme-toggle"));
    assert!(h.contains("theme-icon"));
}

#[test]
fn test_layout_body_wraps_content() {
    let b = Layout::body("<p>hi</p>");
    assert!(b.contains("<p>hi</p>"));
    assert!(b.contains("page-container"));
    assert!(b.contains("content-wrap"));
}

#[test]
fn test_layout_footer_carries_build_info() {
    let f = Layout::footer("17", "deadbeef", "2024-05-01 10:00:00 UTC");
    assert!(f.contains("build 17: deadbeef"));
    assert!(f.contains("updated: 2024-05-01 10:00:00 UTC"));
    assert!(f.contains("/web/pkg/enkronio.js"));
}

#[test]
fn test_templates_body() {
    let b = templates::body("CONTENT");
    assert!(b.contains("CONTENT"));
    assert!(b.contains("<nav>"));
}

#[test]
fn test_templates_header_and_footer() {
    let h = templates::header("33");
    assert!(h.contains("workflow test v33"));
    let f = templates::footer("cafe", "now-ish");
    assert!(f.contains("build: cafe"));
    assert!(f.contains("updated: now-ish"));
}

#[test]
fn test_locked_stub_embeds_payload() {
    let s = generate_locked_stub_from_encrypted("QUJD");
    assert!(s.contains("data-encrypted=\"QUJD\""));
    assert!(s.contains("passphrase-input"));
    assert!(s.contains("decrypt-button"));
}

#[test]
fn test_404_page() {
    let s = generate_404_html("h1", "h2", "1", "sha", "now");
    assert!(s.contains("<h1>404</h1>"));
    assert!(s.contains("Page not found"));
    assert!(s.contains("/css/main.css?v=h1"));
}

#[test]
fn test_directory_index_redirect() {
    let s = generate_directory_index_html(Some("/pub/junkyard.html"), "", "", "", "", "");
    assert!(s.contains("0;url=/pub/junkyard.html"));
    assert!(s.contains("Redirecting to <a href=\"/pub/junkyard.html\">"));
    let t = generate_directory_index_html(None, "h", "h", "r", "s", "u");
    assert!(t.contains("This directory is not browsable"));
}

#[test]
fn test_is_entry_locked() {
    let entries = vec![
        LockedEntry { number: 3, shadow: false, created: String::new() },
        LockedEntry { number: 5, shadow: true, created: String::new() },
    ];
    assert!(is_entry_locked(&entries, 3, false));
    assert!(!is_entry_locked(&entries, 3, true));
    assert!(is_entry_locked(&entries, 5, true));
    assert!(!is_entry_locked(&entries, 4, false));
}

#[test]
fn test_html_escape() {
    let s = enkronio::htmlgen::html_escape("a<b & c>\"d\" 'e'");
    assert_eq!(s, "a&lt;b &amp; c&gt;&quot;d&quot; &#39;e&#39;");
}
