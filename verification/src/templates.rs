use vstd::prelude::*;

verus! {

/// The exact text of the test-site page head, carrying the build number in its title.
pub open spec fn tpl_header_text(github_run_id: Seq<char>) -> Seq<char> {
    "<!DOCTYPE html>\n        <html lang=\"en-US\">\n    \n        <head>\n          <meta charset=\"utf-8\">\n          <meta name=\"viewport\" content=\"width=device-width, initial-scale=1\">\n          <link rel=\"stylesheet\" type=\"text/css\" href=\"/css/main.css\" />\n          <title>workflow test v"@
        + github_run_id
        + "</title>\n            <style>\n              h1 {\n               text-align: center;\n             }\n           </style>\n        </head>"@
}

/// The test-site page head, carrying the build number in its title.
pub fn header(github_run_id: &str) -> (r: String)
    ensures
        r@ == tpl_header_text(github_run_id@),
{
    let mut s = String::new();
    s.append("<!DOCTYPE html>\n        <html lang=\"en-US\">\n    \n        <head>\n          <meta charset=\"utf-8\">\n          <meta name=\"viewport\" content=\"width=device-width, initial-scale=1\">\n          <link rel=\"stylesheet\" type=\"text/css\" href=\"/css/main.css\" />\n          <title>workflow test v");
    s.append(github_run_id);
    s.append("</title>\n            <style>\n              h1 {\n               text-align: center;\n             }\n           </style>\n        </head>");
    proof {
        assert(s@ =~= tpl_header_text(github_run_id@));
    }
    s
}

/// The exact text of the test-site footer, with the commit and timestamp.
pub open spec fn tpl_footer_text(github_sha: Seq<char>, updated: Seq<char>) -> Seq<char> {
    "\n        </div>\n        <footer id=\"footer\">\n          <p>build: "@
        + github_sha
        + "</p>\n          <p>updated: "@
        + updated
        + "</p>\n        </footer>\n      </div>\n     \n      </html>"@
}

/// The test-site footer, with the commit and timestamp.
pub fn footer(github_sha: &str, updated: &str) -> (r: String)
    ensures
        r@ == tpl_footer_text(github_sha@, updated@),
{
    let mut s = String::new();
    s.append("\n        </div>\n        <footer id=\"footer\">\n          <p>build: ");
    s.append(github_sha);
    s.append("</p>\n          <p>updated: ");
    s.append(updated);
    s.append("</p>\n        </footer>\n      </div>\n     \n      </html>");
    proof {
        assert(s@ =~= tpl_footer_text(github_sha@, updated@));
    }
    s
}

/// The exact text of the test-site body wrapper around rendered content.
pub open spec fn tpl_body_text(body: Seq<char>) -> Seq<char> {
    "  <body>\n    <div id=\"page-container\">\n      <div id=\"content-wrap\">\n    <nav>\n        <a href=\"/\">home</a>\n    </nav>\n    <br />\n    "@
        + body
        + "\n  </body>"@
}

/// The test-site body wrapper around rendered content.
pub fn body(content: &str) -> (r: String)
    ensures
        r@ == tpl_body_text(content@),
{
    let mut s = String::new();
    s.append("  <body>\n    <div id=\"page-container\">\n      <div id=\"content-wrap\">\n    <nav>\n        <a href=\"/\">home</a>\n    </nav>\n    <br />\n    ");
    s.append(content);
    s.append("\n  </body>");
    proof {
        assert(s@ =~= tpl_body_text(content@));
    }
    s
}

} // verus!
