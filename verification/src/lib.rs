//! A static-site generator's core library: a markdown-to-PDF rendering
//! engine together with the pure pieces of the surrounding site tooling
//! (HTML templating, entry naming, work-period arithmetic, theme cycling).

pub mod compile;
pub mod entries;
pub mod theme;
pub mod work_period;
pub mod compose;
pub mod doc;
pub mod events;
pub mod htmlgen;
pub mod layout;
pub mod metrics;
pub mod numfmt;
pub mod pdf;
pub mod rend;
pub mod templates;
pub mod writer;
