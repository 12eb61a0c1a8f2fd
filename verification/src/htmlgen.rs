use vstd::prelude::*;

use crate::rend::{Layout, body_text, footer_text, header_text};

verus! {

/// The exact text of the locked-entry stub, with the encrypted payload
/// embedded as a data attribute for in-browser decryption.
pub open spec fn locked_stub_text(encrypted_b64: Seq<char>) -> Seq<char> {
    "\n<div id=\"locked-entry-container\" class=\"locked-entry\" data-encrypted=\""@
        + encrypted_b64
        + "\">\n  <div id=\"lock-banner\" class=\"lock-banner\">\n    <span class=\"lock-icon\">üîí</span>\n    <h2>This entry is encrypted</h2>\n    <p>Enter the passphrase to decrypt and view the content.</p>\n  </div>\n\n  <div id=\"unlock-interface\" class=\"unlock-interface\">\n    <input type=\"password\"\n           id=\"passphrase-input\"\n           placeholder=\"Enter passphrase\"\n           autocomplete=\"off\"\n           aria-label=\"Passphrase\"\n           class=\"passphrase-input\">\n    <button id=\"decrypt-button\" class=\"decrypt-button\">üîì Unlock</button>\n\n    <div id=\"error-message\" class=\"error-message hidden\" role=\"alert\"></div>\n    <div id=\"decrypt-status\" class=\"decrypt-status hidden\" aria-live=\"polite\">\n      Decrypting... (this may take a few seconds)\n    </div>\n  </div>\n\n  <div id=\"decrypted-content\" class=\"decrypted-content hidden\"></div>\n</div>\n"@
}

/// Generates the locked HTML stub shown before decryption, embedding
/// the already-encrypted content.
pub fn generate_locked_stub_from_encrypted(encrypted_b64: &str) -> (r: String)
    ensures
        r@ == locked_stub_text(encrypted_b64@),
{
    let mut s = String::new();
    s.append("\n<div id=\"locked-entry-container\" class=\"locked-entry\" data-encrypted=\"");
    s.append(encrypted_b64);
    s.append("\">\n  <div id=\"lock-banner\" class=\"lock-banner\">\n    <span class=\"lock-icon\">üîí</span>\n    <h2>This entry is encrypted</h2>\n    <p>Enter the passphrase to decrypt and view the content.</p>\n  </div>\n\n  <div id=\"unlock-interface\" class=\"unlock-interface\">\n    <input type=\"password\"\n           id=\"passphrase-input\"\n           placeholder=\"Enter passphrase\"\n           autocomplete=\"off\"\n           aria-label=\"Passphrase\"\n           class=\"passphrase-input\">\n    <button id=\"decrypt-button\" class=\"decrypt-button\">üîì Unlock</button>\n\n    <div id=\"error-message\" class=\"error-message hidden\" role=\"alert\"></div>\n    <div id=\"decrypt-status\" class=\"decrypt-status hidden\" aria-live=\"polite\">\n      Decrypting... (this may take a few seconds)\n    </div>\n  </div>\n\n  <div id=\"decrypted-content\" class=\"decrypted-content hidden\"></div>\n</div>\n");
    proof {
        assert(s@ =~= locked_stub_text(encrypted_b64@));
    }
    s
}

/// The exact text of the not-found page: the site layout around an
/// error body.
pub open spec fn html_404_text(
    main_hash: Seq<char>,
    hack_hash: Seq<char>,
    github_run_id: Seq<char>,
    github_sha: Seq<char>,
    updated: Seq<char>,
) -> Seq<char> {
    header_text(main_hash, hack_hash) + body_text("\n<div class=\"error-page\">\n    <img src=\"/favicon/android-chrome-192x192.png\" alt=\"Logo\" class=\"error-logo\"/>\n    <h1>404</h1>\n    <p>Page not found</p>\n    <nav class=\"error-nav\">\n        <a href=\"/\">Home</a>\n        <a href=\"/pub/junkyard.html\">Junkyard</a>\n    </nav>\n</div>\n"@)
        + footer_text(github_run_id, github_sha, updated)
}

/// Generates the not-found page with the full site layout.
pub fn generate_404_html(
    main_hash: &str,
    hack_hash: &str,
    github_run_id: &str,
    github_sha: &str,
    updated: &str,
) -> (r: String)
    ensures
        r@ == html_404_text(main_hash@, hack_hash@, github_run_id@, github_sha@, updated@),
{
    let body = "\n<div class=\"error-page\">\n    <img src=\"/favicon/android-chrome-192x192.png\" alt=\"Logo\" class=\"error-logo\"/>\n    <h1>404</h1>\n    <p>Page not found</p>\n    <nav class=\"error-nav\">\n        <a href=\"/\">Home</a>\n        <a href=\"/pub/junkyard.html\">Junkyard</a>\n    </nav>\n</div>\n";
    let mut html = Layout::header(main_hash, hack_hash);
    let b = Layout::body(body);
    html.append(b.as_str());
    let f = Layout::footer(github_run_id, github_sha, updated);
    html.append(f.as_str());
    proof {
        assert(html@ =~= html_404_text(main_hash@, hack_hash@, github_run_id@, github_sha@,
            updated@));
    }
    html
}

/// The exact text of a redirect stub for a directory index.
pub open spec fn redirect_stub_text(url: Seq<char>) -> Seq<char> {
    "<!DOCTYPE html>\n<html lang=\"en-US\">\n<head>\n    <meta charset=\"utf-8\">\n    <meta http-equiv=\"refresh\" content=\"0;url="@ +
        url +
        "\">\n    <link rel=\"canonical\" href=\""@ +
        url +
        "\">\n    <title>Redirecting...</title>\n</head>\n<body>\n    <p>Redirecting to <a href=\""@ +
        url +
        "\">"@ +
        url +
        "</a>...</p>\n</body>\n</html>"@
}

/// The exact text of the not-browsable directory page.
pub open spec fn dir_404_text(
    main_hash: Seq<char>,
    hack_hash: Seq<char>,
    github_run_id: Seq<char>,
    github_sha: Seq<char>,
    updated: Seq<char>,
) -> Seq<char> {
    header_text(main_hash, hack_hash) + body_text("\n<div class=\"error-page\">\n    <img src=\"/favicon/android-chrome-192x192.png\" alt=\"Logo\" class=\"error-logo\"/>\n    <h1>404</h1>\n    <p>This directory is not browsable</p>\n    <nav class=\"error-nav\">\n        <a href=\"/\">Home</a>\n        <a href=\"/pub/junkyard.html\">Junkyard</a>\n    </nav>\n</div>\n"@)
        + footer_text(github_run_id, github_sha, updated)
}

/// Generates a directory index stub: a redirect page when a target is
/// given, a not-browsable page otherwise.
pub fn generate_directory_index_html(
    redirect_to: Option<&str>,
    main_hash: &str,
    hack_hash: &str,
    github_run_id: &str,
    github_sha: &str,
    updated: &str,
) -> (r: String)
    ensures
        r@ == (match redirect_to {
            Some(url) => redirect_stub_text(url@),
            None => dir_404_text(main_hash@, hack_hash@, github_run_id@, github_sha@,
                updated@),
        }),
{
    match redirect_to {
        Some(url) => {
            let mut s = String::new();
            s.append("<!DOCTYPE html>\n<html lang=\"en-US\">\n<head>\n    <meta charset=\"utf-8\">\n    <meta http-equiv=\"refresh\" content=\"0;url=");
            s.append(url);
            s.append("\">\n    <link rel=\"canonical\" href=\"");
            s.append(url);
            s.append("\">\n    <title>Redirecting...</title>\n</head>\n<body>\n    <p>Redirecting to <a href=\"");
            s.append(url);
            s.append("\">");
            s.append(url);
            s.append("</a>...</p>\n</body>\n</html>");
            proof {
                assert(s@ =~= redirect_stub_text(url@));
            }
            s
        }
        None => {
            let body = "\n<div class=\"error-page\">\n    <img src=\"/favicon/android-chrome-192x192.png\" alt=\"Logo\" class=\"error-logo\"/>\n    <h1>404</h1>\n    <p>This directory is not browsable</p>\n    <nav class=\"error-nav\">\n        <a href=\"/\">Home</a>\n        <a href=\"/pub/junkyard.html\">Junkyard</a>\n    </nav>\n</div>\n";
            let mut html = Layout::header(main_hash, hack_hash);
            let b = Layout::body(body);
            html.append(b.as_str());
            let f = Layout::footer(github_run_id, github_sha, updated);
            html.append(f.as_str());
            proof {
                assert(html@ =~= dir_404_text(main_hash@, hack_hash@, github_run_id@,
                    github_sha@, updated@));
            }
            html
        }
    }
}

/// How one character is written in escaped HTML text.
pub open spec fn html_escape_char(c: char) -> Seq<char> {
    if c == '&' {
        "&amp;"@
    } else if c == '<' {
        "&lt;"@
    } else if c == '>' {
        "&gt;"@
    } else if c == '"' {
        "&quot;"@
    } else if c == '\'' {
        "&#39;"@
    } else {
        seq![c]
    }
}

/// A text with the five HTML-special characters escaped.
pub open spec fn html_escaped(s: Seq<char>) -> Seq<char>
    decreases s.len(),
{
    if s.len() == 0 {
        Seq::empty()
    } else {
        html_escaped(s.drop_last()) + html_escape_char(s.last())
    }
}

/// Escapes HTML special characters.
pub fn html_escape(s: &str) -> (r: String)
    ensures
        r@ == html_escaped(s@),
{
    let mut out = String::new();
    let n: usize = s.unicode_len();
    let mut i: usize = 0;
    proof {
        assert(html_escaped(s@.subrange(0, 0)) =~= Seq::<char>::empty());
    }
    while i < n
        invariant
            0 <= i <= n,
            n == s@.len(),
            out@ == html_escaped(s@.subrange(0, i as int)),
        decreases n - i,
    {
        let c = s.get_char(i);
        proof {
            let pre = s@.subrange(0, i as int);
            let post = s@.subrange(0, i + 1);
            assert(post.drop_last() =~= pre);
            assert(post.last() == c);
        }
        if c == '&' {
            out.append("&amp;");
        } else if c == '<' {
            out.append("&lt;");
        } else if c == '>' {
            out.append("&gt;");
        } else if c == '"' {
            out.append("&quot;");
        } else if c == '\'' {
            out.append("&#39;");
        } else {
            crate::compose::push_char(&mut out, c);
        }
        i = i + 1;
    }
    proof {
        assert(s@.subrange(0, n as int) =~= s@);
    }
    out
}

} // verus!
