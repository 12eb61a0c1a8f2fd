use vstd::prelude::*;

verus! {

/// The exact text of the site page head, with cache-busting query strings for the two stylesheets.
pub open spec fn header_text(main_hash: Seq<char>, hack_hash: Seq<char>) -> Seq<char> {
    "\n        <!DOCTYPE html>\n        <html lang=\"en-US\">\n\n        <head>\n            <meta charset=\"utf-8\">\n            <meta name=\"viewport\" content=\"width=device-width, initial-scale=1\">\n            <link rel=\"stylesheet\" href=\"/css/main.css?v="@
        + main_hash
        + "\" type=\"text/css\">\n            <link rel=\"stylesheet\" href=\"/web/hack.css?v="@
        + hack_hash
        + "\">\n            <title>enk junkyard</title>\n            <link rel=\"apple-touch-icon\" sizes=\"180x180\" href=\"/favicon/apple-touch-icon.png\">\n            <link rel=\"icon\" type=\"image/png\" sizes=\"32x32\" href=\"/favicon/favicon-32x32.png\">\n            <link rel=\"icon\" type=\"image/png\" sizes=\"16x16\" href=\"/favicon/favicon-16x16.png\">\n            <link rel=\"manifest\" href=\"/favicon/site.webmanifest\">\n            <link rel=\"mask-icon\" href=\"/favicon/safari-pinned-tab.svg\" color=\"\\#5bbad5\">\n            <link rel=\"shortcut icon\" href=\"/favicon/favicon.ico\">\n            <meta name=\"msapplication-TileColor\" content=\"\\#da532c\">\n            <meta name=\"msapplication-config\" content=\"/favicon/browserconfig.xml\">\n            <meta name=\"theme-color\" content=\"\\#ffffff\">\n            <nav role=\"navigation\" class=\"navigation\">\n                <a href=\"/\">\n                    <img class=\"logo\" src=\"/favicon/favicon-32x32.png\" alt=\"-__-\"/>\n                </a>\n                <button class=\"theme-toggle\" id=\"theme-toggle\" aria-label=\"Toggle dark mode\">\n                    <span id=\"theme-icon\">☀️</span>\n                </button>\n                <ul>\n                    <li><a href=\"/pub/junkyard.html\">junkyard</a></li>\n                    <li><a href=\"/cv.html\">cv</a></li>\n                </ul>\n            </nav>\n        </head>"@
}

/// The exact text of the page body wrapper around rendered content.
pub open spec fn body_text(body: Seq<char>) -> Seq<char> {
    "\n            <body>\n                <div id=\"page-container\">\n                <div id=\"content-wrap\">\n                <br />\n                    "@
        + body
        + "\n                </div>\n            </body>"@
}

/// The exact text of the page footer, with the build number, commit and timestamp.
pub open spec fn footer_text(github_run_id: Seq<char>, github_sha: Seq<char>, updated: Seq<char>) -> Seq<char> {
    "\n            <footer>\n                <div class=\"footer\">\n                    <p>build "@
        + github_run_id
        + ": "@
        + github_sha
        + "</p>\n                    <p>updated: "@
        + updated
        + "</p>\n                </div>\n            </footer>\n            </div>\n            <script type=\"module\">\n                import init from '/web/pkg/enkronio.js';\n                init();\n            </script>\n            </html>"@
}

/// The HTML layout of the site's pages.
pub struct Layout;

impl Layout {
    /// The site page head, with cache-busting query strings for the two stylesheets.
    pub fn header(main_hash: &str, hack_hash: &str) -> (r: String)
        ensures
            r@ == header_text(main_hash@, hack_hash@),
    {
        let mut s = String::new();
        s.append("\n        <!DOCTYPE html>\n        <html lang=\"en-US\">\n\n        <head>\n            <meta charset=\"utf-8\">\n            <meta name=\"viewport\" content=\"width=device-width, initial-scale=1\">\n            <link rel=\"stylesheet\" href=\"/css/main.css?v=");
        s.append(main_hash);
        s.append("\" type=\"text/css\">\n            <link rel=\"stylesheet\" href=\"/web/hack.css?v=");
        s.append(hack_hash);
        s.append("\">\n            <title>enk junkyard</title>\n            <link rel=\"apple-touch-icon\" sizes=\"180x180\" href=\"/favicon/apple-touch-icon.png\">\n            <link rel=\"icon\" type=\"image/png\" sizes=\"32x32\" href=\"/favicon/favicon-32x32.png\">\n            <link rel=\"icon\" type=\"image/png\" sizes=\"16x16\" href=\"/favicon/favicon-16x16.png\">\n            <link rel=\"manifest\" href=\"/favicon/site.webmanifest\">\n            <link rel=\"mask-icon\" href=\"/favicon/safari-pinned-tab.svg\" color=\"\\#5bbad5\">\n            <link rel=\"shortcut icon\" href=\"/favicon/favicon.ico\">\n            <meta name=\"msapplication-TileColor\" content=\"\\#da532c\">\n            <meta name=\"msapplication-config\" content=\"/favicon/browserconfig.xml\">\n            <meta name=\"theme-color\" content=\"\\#ffffff\">\n            <nav role=\"navigation\" class=\"navigation\">\n                <a href=\"/\">\n                    <img class=\"logo\" src=\"/favicon/favicon-32x32.png\" alt=\"-__-\"/>\n                </a>\n                <button class=\"theme-toggle\" id=\"theme-toggle\" aria-label=\"Toggle dark mode\">\n                    <span id=\"theme-icon\">☀️</span>\n                </button>\n                <ul>\n                    <li><a href=\"/pub/junkyard.html\">junkyard</a></li>\n                    <li><a href=\"/cv.html\">cv</a></li>\n                </ul>\n            </nav>\n        </head>");
        proof {
            assert(s@ =~= header_text(main_hash@, hack_hash@));
        }
        s
    }

    /// The page body wrapper around rendered content.
    pub fn body(content: &str) -> (r: String)
        ensures
            r@ == body_text(content@),
    {
        let mut s = String::new();
        s.append("\n            <body>\n                <div id=\"page-container\">\n                <div id=\"content-wrap\">\n                <br />\n                    ");
        s.append(content);
        s.append("\n                </div>\n            </body>");
        proof {
            assert(s@ =~= body_text(content@));
        }
        s
    }

    /// The page footer, with the build number, commit and timestamp.
    pub fn footer(github_run_id: &str, github_sha: &str, updated: &str) -> (r: String)
        ensures
            r@ == footer_text(github_run_id@, github_sha@, updated@),
    {
        let mut s = String::new();
        s.append("\n            <footer>\n                <div class=\"footer\">\n                    <p>build ");
        s.append(github_run_id);
        s.append(": ");
        s.append(github_sha);
        s.append("</p>\n                    <p>updated: ");
        s.append(updated);
        s.append("</p>\n                </div>\n            </footer>\n            </div>\n            <script type=\"module\">\n                import init from '/web/pkg/enkronio.js';\n                init();\n            </script>\n            </html>");
        proof {
            assert(s@ =~= footer_text(github_run_id@, github_sha@, updated@));
        }
        s
    }
}

} // verus!
